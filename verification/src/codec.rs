//! A self-describing textual container for handshake records: one line per
//! field, each byte written as a space-separated zero-padded decimal.
//! Encoding and decoding are exact inverses, and the decoder accepts exactly
//! the encoder's output.

use vstd::prelude::*;
use crate::generator::spec_digits;
use crate::generator::render_digits;
use crate::handshake::{Handshake, HandshakeView};
use crate::byteops::constant_time_compare;

verus! {

/// The eight field labels of the container, in file order.
#[derive(Clone, Copy, PartialEq, Eq, Structural)]
pub enum FieldTag {
    Ssid,
    ApMac,
    ClientMac,
    Anonce,
    Snonce,
    Mic,
    EapolFrame,
    KeyVersion,
}

/// The label bytes of a field: its name in ASCII.
pub open spec fn label_of(tag: FieldTag) -> Seq<u8> {
    match tag {
        FieldTag::Ssid => seq![115u8, 115u8, 105u8, 100u8],
        FieldTag::ApMac => seq![97u8, 112u8, 95u8, 109u8, 97u8, 99u8],
        FieldTag::ClientMac => seq![
            99u8, 108u8, 105u8, 101u8, 110u8, 116u8, 95u8, 109u8, 97u8, 99u8,
        ],
        FieldTag::Anonce => seq![97u8, 110u8, 111u8, 110u8, 99u8, 101u8],
        FieldTag::Snonce => seq![115u8, 110u8, 111u8, 110u8, 99u8, 101u8],
        FieldTag::Mic => seq![109u8, 105u8, 99u8],
        FieldTag::EapolFrame => seq![
            101u8, 97u8, 112u8, 111u8, 108u8, 95u8, 102u8, 114u8, 97u8, 109u8, 101u8,
        ],
        FieldTag::KeyVersion => seq![
            107u8, 101u8, 121u8, 95u8, 118u8, 101u8, 114u8, 115u8, 105u8, 111u8, 110u8,
        ],
    }
}

/// Builds the label bytes of a field.
fn label_vec(tag: FieldTag) -> (r: Vec<u8>)
    ensures
        r@ == label_of(tag),
{
    let mut r: Vec<u8> = Vec::new();
    match tag {
        FieldTag::Ssid => {
            r.push(115);
            r.push(115);
            r.push(105);
            r.push(100);
        },
        FieldTag::ApMac => {
            r.push(97);
            r.push(112);
            r.push(95);
            r.push(109);
            r.push(97);
            r.push(99);
        },
        FieldTag::ClientMac => {
            r.push(99);
            r.push(108);
            r.push(105);
            r.push(101);
            r.push(110);
            r.push(116);
            r.push(95);
            r.push(109);
            r.push(97);
            r.push(99);
        },
        FieldTag::Anonce => {
            r.push(97);
            r.push(110);
            r.push(111);
            r.push(110);
            r.push(99);
            r.push(101);
        },
        FieldTag::Snonce => {
            r.push(115);
            r.push(110);
            r.push(111);
            r.push(110);
            r.push(99);
            r.push(101);
        },
        FieldTag::Mic => {
            r.push(109);
            r.push(105);
            r.push(99);
        },
        FieldTag::EapolFrame => {
            r.push(101);
            r.push(97);
            r.push(112);
            r.push(111);
            r.push(108);
            r.push(95);
            r.push(102);
            r.push(114);
            r.push(97);
            r.push(109);
            r.push(101);
        },
        FieldTag::KeyVersion => {
            r.push(107);
            r.push(101);
            r.push(121);
            r.push(95);
            r.push(118);
            r.push(101);
            r.push(114);
            r.push(115);
            r.push(105);
            r.push(111);
            r.push(110);
        },
    }
    assert(r@ =~= label_of(tag));
    r
}

/// A byte list as text: a space and three decimal digits per byte, then a
/// newline.
pub open spec fn encode_bytes(bytes: Seq<u8>) -> Seq<u8>
    decreases bytes.len(),
{
    if bytes.len() == 0 {
        seq![10u8]
    } else {
        seq![32u8] + spec_digits(bytes[0] as nat, 3) + encode_bytes(bytes.skip(1))
    }
}

/// One encoded line: the label followed by its byte list.
pub open spec fn encode_field(tag: FieldTag, bytes: Seq<u8>) -> Seq<u8> {
    label_of(tag) + encode_bytes(bytes)
}

/// The full container: the eight lines in fixed order.
pub open spec fn spec_encode(v: HandshakeView) -> Seq<u8> {
    encode_field(FieldTag::Ssid, v.ssid) + encode_field(FieldTag::ApMac, v.ap_mac) + encode_field(
        FieldTag::ClientMac,
        v.client_mac,
    ) + encode_field(FieldTag::Anonce, v.anonce) + encode_field(FieldTag::Snonce, v.snonce)
        + encode_field(FieldTag::Mic, v.mic) + encode_field(FieldTag::EapolFrame, v.eapol_frame)
        + encode_field(FieldTag::KeyVersion, seq![v.key_version])
}

/// An ASCII decimal digit.
pub open spec fn is_digit(c: u8) -> bool {
    48 <= c <= 57
}

/// Three digits stand at `pos`.
pub open spec fn digits3_ok(b: Seq<u8>, pos: int) -> bool {
    is_digit(b[pos]) && is_digit(b[pos + 1]) && is_digit(b[pos + 2])
}

/// The value of the three digits at `pos`.
pub open spec fn digits3_val(b: Seq<u8>, pos: int) -> int {
    100 * (b[pos] - 48) + 10 * (b[pos + 1] - 48) + (b[pos + 2] - 48)
}

/// Parses a byte list: a space and three digits per byte, ended by a
/// newline. Yields the bytes and the position after the newline.
pub open spec fn parse_bytes(b: Seq<u8>, pos: int) -> Option<(Seq<u8>, int)>
    decreases b.len() - pos
    when 0 <= pos <= b.len()
{
    if pos < b.len() && b[pos] == 32 {
        if pos + 4 <= b.len() && digits3_ok(b, pos + 1) && digits3_val(b, pos + 1) < 256 {
            match parse_bytes(b, pos + 4) {
                Some((rest, end)) => Some((seq![digits3_val(b, pos + 1) as u8] + rest, end)),
                None => None,
            }
        } else {
            None
        }
    } else if pos < b.len() && b[pos] == 10 {
        Some((Seq::empty(), pos + 1))
    } else {
        None
    }
}

/// Parses one line: the expected label, then its byte list.
pub open spec fn parse_field(b: Seq<u8>, pos: int, tag: FieldTag) -> Option<(Seq<u8>, int)> {
    let label = label_of(tag);
    if 0 <= pos && pos + label.len() <= b.len() && b.subrange(pos, pos + label.len()) == label {
        parse_bytes(b, pos + label.len())
    } else {
        None
    }
}

/// Decodes a container: the eight lines in order, consuming all input, with
/// a single-byte key version and the record invariants holding.
pub open spec fn spec_decode(b: Seq<u8>) -> Option<HandshakeView> {
    match parse_field(b, 0, FieldTag::Ssid) {
        None => None,
        Some((ssid, p1)) => match parse_field(b, p1, FieldTag::ApMac) {
            None => None,
            Some((ap_mac, p2)) => match parse_field(b, p2, FieldTag::ClientMac) {
                None => None,
                Some((client_mac, p3)) => match parse_field(b, p3, FieldTag::Anonce) {
                    None => None,
                    Some((anonce, p4)) => match parse_field(b, p4, FieldTag::Snonce) {
                        None => None,
                        Some((snonce, p5)) => match parse_field(b, p5, FieldTag::Mic) {
                            None => None,
                            Some((mic, p6)) => match parse_field(b, p6, FieldTag::EapolFrame) {
                                None => None,
                                Some((eapol_frame, p7)) => match parse_field(
                                    b,
                                    p7,
                                    FieldTag::KeyVersion,
                                ) {
                                    None => None,
                                    Some((kv, p8)) => if p8 == b.len() && kv.len() == 1 {
                                        let v = HandshakeView {
                                            ssid,
                                            ap_mac,
                                            client_mac,
                                            anonce,
                                            snonce,
                                            mic,
                                            eapol_frame,
                                            key_version: kv[0],
                                        };
                                        if v.wf() {
                                            Some(v)
                                        } else {
                                            None
                                        }
                                    } else {
                                        None
                                    },
                                },
                            },
                        },
                    },
                },
            },
        },
    }
}

/// Encodes one byte list as its text line (without the label).
fn encode_bytes_vec(bytes: &[u8]) -> (r: Vec<u8>)
    ensures
        r@ == encode_bytes(bytes@),
{
    let mut r: Vec<u8> = Vec::new();
    let n = bytes.len();
    let mut i: usize = 0;
    proof {
        assert(bytes@.skip(0) =~= bytes@);
        assert(r@ + encode_bytes(bytes@) =~= encode_bytes(bytes@));
    }
    while i < n
        invariant
            i <= n,
            n == bytes@.len(),
            r@ + encode_bytes(bytes@.skip(i as int)) == encode_bytes(bytes@),
        decreases n - i,
    {
        let ghost before = r@;
        r.push(32);
        let mut d = render_digits(bytes[i] as u64, 3);
        r.append(&mut d);
        proof {
            assert(bytes@.skip(i as int)[0] == bytes@[i as int]);
            assert(bytes@.skip(i as int).skip(1) =~= bytes@.skip(i + 1));
            assert(r@ =~= before + (seq![32u8] + spec_digits(bytes@[i as int] as nat, 3)));
            assert(r@ + encode_bytes(bytes@.skip(i + 1)) =~= before + encode_bytes(
                bytes@.skip(i as int),
            ));
        }
        i = i + 1;
    }
    r.push(10);
    proof {
        assert(bytes@.skip(n as int) =~= Seq::<u8>::empty());
        assert(r@ =~= encode_bytes(bytes@));
    }
    r
}

/// Serialises a handshake record into its textual container.
pub fn encode_handshake(h: &Handshake) -> (r: Vec<u8>)
    ensures
        r@ == spec_encode(h@),
{
    let mut r: Vec<u8> = Vec::new();
    let mut part = label_vec(FieldTag::Ssid);
    r.append(&mut part);
    let mut part = encode_bytes_vec(h.ssid.as_slice());
    r.append(&mut part);
    let mut part = label_vec(FieldTag::ApMac);
    r.append(&mut part);
    let mut part = encode_bytes_vec(h.ap_mac.as_slice());
    r.append(&mut part);
    let mut part = label_vec(FieldTag::ClientMac);
    r.append(&mut part);
    let mut part = encode_bytes_vec(h.client_mac.as_slice());
    r.append(&mut part);
    let mut part = label_vec(FieldTag::Anonce);
    r.append(&mut part);
    let mut part = encode_bytes_vec(h.anonce.as_slice());
    r.append(&mut part);
    let mut part = label_vec(FieldTag::Snonce);
    r.append(&mut part);
    let mut part = encode_bytes_vec(h.snonce.as_slice());
    r.append(&mut part);
    let mut part = label_vec(FieldTag::Mic);
    r.append(&mut part);
    let mut part = encode_bytes_vec(h.mic.as_slice());
    r.append(&mut part);
    let mut part = label_vec(FieldTag::EapolFrame);
    r.append(&mut part);
    let mut part = encode_bytes_vec(h.eapol_frame.as_slice());
    r.append(&mut part);
    let mut part = label_vec(FieldTag::KeyVersion);
    r.append(&mut part);
    let mut kv: Vec<u8> = Vec::new();
    kv.push(h.key_version);
    assert(kv@ =~= seq![h@.key_version]);
    let mut part = encode_bytes_vec(kv.as_slice());
    r.append(&mut part);
    assert(r@ =~= spec_encode(h@));
    r
}

proof fn lemma_digits3(b: Seq<u8>, pos: int, n: nat)
    requires
        0 <= pos,
        pos + 3 <= b.len(),
        n < 256,
        b[pos] == spec_digits(n, 3)[0],
        b[pos + 1] == spec_digits(n, 3)[1],
        b[pos + 2] == spec_digits(n, 3)[2],
    ensures
        digits3_ok(b, pos),
        digits3_val(b, pos) == n,
{
    reveal_with_fuel(crate::generator::pow10, 4);
    assert(crate::generator::pow10(2) == 100);
    assert(crate::generator::pow10(1) == 10);
    assert(crate::generator::pow10(0) == 1);
    let ni = n as int;
    vstd::arithmetic::div_mod::lemma_fundamental_div_mod(ni, 10);
    vstd::arithmetic::div_mod::lemma_fundamental_div_mod(ni / 10, 10);
    vstd::arithmetic::div_mod::lemma_div_denominator(ni, 10, 10);
    assert((ni / 10) / 10 == ni / 100);
    assert(0 <= ni % 10 < 10);
    assert(0 <= (ni / 10) % 10 < 10);
    assert(ni / 100 < 10);
    vstd::arithmetic::div_mod::lemma_small_mod((ni / 100) as nat, 10);
    assert((ni / 100) % 10 == ni / 100);
    assert(ni == 100 * (ni / 100) + 10 * ((ni / 10) % 10) + ni % 10);
    assert(ni / 1 == ni) by (nonlinear_arith);
    let d0 = (ni / 100) % 10;
    let d1 = (ni / 10) % 10;
    let d2 = ni % 10;
    assert(0 <= d0 < 10 && 0 <= d1 < 10 && 0 <= d2 < 10);
    assert(b[pos] == (48 + d0) as u8);
    assert(b[pos + 1] == (48 + d1) as u8);
    assert(b[pos + 2] == (48 + d2) as u8);
    assert(b[pos] == 48 + d0 && b[pos + 1] == 48 + d1 && b[pos + 2] == 48 + d2);
    assert(digits3_val(b, pos) == 100 * d0 + 10 * d1 + d2);
}

proof fn lemma_parse_bytes_round(b: Seq<u8>, pos: int, bytes: Seq<u8>)
    requires
        0 <= pos,
        pos + encode_bytes(bytes).len() <= b.len(),
        b.subrange(pos, pos + encode_bytes(bytes).len()) == encode_bytes(bytes),
    ensures
        parse_bytes(b, pos) == Some((bytes, pos + encode_bytes(bytes).len())),
    decreases bytes.len(),
{
    let enc = encode_bytes(bytes);
    if bytes.len() == 0 {
        assert(b[pos] == enc[0]);
        assert(b[pos] == 10);
        assert(parse_bytes(b, pos) == Some((Seq::<u8>::empty(), pos + 1)));
    } else {
        let tail = encode_bytes(bytes.skip(1));
        let digits = spec_digits(bytes[0] as nat, 3);
        assert(enc == seq![32u8] + digits + tail);
        assert(digits.len() == 3);
        assert(b[pos] == enc[0]);
        assert(b[pos] == 32);
        assert(b[pos + 1] == enc[1] && enc[1] == digits[0]);
        assert(b[pos + 2] == enc[2] && enc[2] == digits[1]);
        assert(b[pos + 3] == enc[3] && enc[3] == digits[2]);
        lemma_digits3(b, pos + 1, bytes[0] as nat);
        assert forall|k: int| 0 <= k < tail.len() implies b[pos + 4 + k] == tail[k] by {
            assert(b.subrange(pos, pos + enc.len())[4 + k] == enc[4 + k]);
        }
        assert(b.subrange(pos + 4, pos + 4 + tail.len()) =~= tail);
        lemma_parse_bytes_round(b, pos + 4, bytes.skip(1));
        assert(parse_bytes(b, pos + 4) == Some((bytes.skip(1), pos + 4 + tail.len())));
        assert(seq![bytes[0]] + bytes.skip(1) =~= bytes);
        assert(digits3_val(b, pos + 1) == bytes[0] as int);
        assert(parse_bytes(b, pos) == Some((bytes, pos + enc.len())));
    }
}

proof fn lemma_parse_field_round(b: Seq<u8>, pos: int, tag: FieldTag, bytes: Seq<u8>)
    requires
        0 <= pos,
        pos + encode_field(tag, bytes).len() <= b.len(),
        b.subrange(pos, pos + encode_field(tag, bytes).len()) == encode_field(tag, bytes),
    ensures
        parse_field(b, pos, tag) == Some((bytes, pos + encode_field(tag, bytes).len())),
{
    let label = label_of(tag);
    let enc = encode_bytes(bytes);
    let whole = encode_field(tag, bytes);
    assert forall|k: int| 0 <= k < label.len() implies b[pos + k] == label[k] by {
        assert(b.subrange(pos, pos + whole.len())[k] == whole[k]);
    }
    assert(b.subrange(pos, pos + label.len()) =~= label);
    assert forall|k: int| 0 <= k < enc.len() implies b[pos + label.len() + k] == enc[k] by {
        assert(b.subrange(pos, pos + whole.len())[label.len() + k] == whole[label.len() + k]);
    }
    assert(b.subrange(pos + label.len(), pos + label.len() + enc.len()) =~= enc);
    lemma_parse_bytes_round(b, pos + label.len(), bytes);
}

/// Serialise-then-deserialise is the identity: the container encoding of any
/// valid handshake record decodes back to exactly that record.
#[verifier::rlimit(60)]
pub proof fn lemma_handshake_roundtrip(v: HandshakeView)
    requires
        v.wf(),
    ensures
        spec_decode(spec_encode(v)) == Some(v),
{
    let b = spec_encode(v);
    let f1 = encode_field(FieldTag::Ssid, v.ssid);
    let f2 = encode_field(FieldTag::ApMac, v.ap_mac);
    let f3 = encode_field(FieldTag::ClientMac, v.client_mac);
    let f4 = encode_field(FieldTag::Anonce, v.anonce);
    let f5 = encode_field(FieldTag::Snonce, v.snonce);
    let f6 = encode_field(FieldTag::Mic, v.mic);
    let f7 = encode_field(FieldTag::EapolFrame, v.eapol_frame);
    let f8 = encode_field(FieldTag::KeyVersion, seq![v.key_version]);
    let p1 = f1.len() as int;
    let p2 = p1 + f2.len();
    let p3 = p2 + f3.len();
    let p4 = p3 + f4.len();
    let p5 = p4 + f5.len();
    let p6 = p5 + f6.len();
    let p7 = p6 + f7.len();
    let p8 = p7 + f8.len();
    assert(b.len() == p8);
    assert(b.subrange(0, p1) =~= f1);
    assert(b.subrange(p1, p2) =~= f2);
    assert(b.subrange(p2, p3) =~= f3);
    assert(b.subrange(p3, p4) =~= f4);
    assert(b.subrange(p4, p5) =~= f5);
    assert(b.subrange(p5, p6) =~= f6);
    assert(b.subrange(p6, p7) =~= f7);
    assert(b.subrange(p7, p8) =~= f8);
    lemma_parse_field_round(b, 0, FieldTag::Ssid, v.ssid);
    lemma_parse_field_round(b, p1, FieldTag::ApMac, v.ap_mac);
    lemma_parse_field_round(b, p2, FieldTag::ClientMac, v.client_mac);
    lemma_parse_field_round(b, p3, FieldTag::Anonce, v.anonce);
    lemma_parse_field_round(b, p4, FieldTag::Snonce, v.snonce);
    lemma_parse_field_round(b, p5, FieldTag::Mic, v.mic);
    lemma_parse_field_round(b, p6, FieldTag::EapolFrame, v.eapol_frame);
    lemma_parse_field_round(b, p7, FieldTag::KeyVersion, seq![v.key_version]);
}

proof fn lemma_digits3_inverse(b: Seq<u8>, pos: int)
    requires
        0 <= pos,
        pos + 3 <= b.len(),
        digits3_ok(b, pos),
        digits3_val(b, pos) < 256,
    ensures
        b[pos] == spec_digits(digits3_val(b, pos) as nat, 3)[0],
        b[pos + 1] == spec_digits(digits3_val(b, pos) as nat, 3)[1],
        b[pos + 2] == spec_digits(digits3_val(b, pos) as nat, 3)[2],
        digits3_val(b, pos) >= 0,
{
    reveal_with_fuel(crate::generator::pow10, 4);
    assert(crate::generator::pow10(2) == 100);
    assert(crate::generator::pow10(1) == 10);
    assert(crate::generator::pow10(0) == 1);
    let hi = b[pos] - 48;
    let mid = b[pos + 1] - 48;
    let lo = b[pos + 2] - 48;
    let v = digits3_val(b, pos);
    assert(0 <= hi < 10 && 0 <= mid < 10 && 0 <= lo < 10);
    assert(v == 100 * hi + 10 * mid + lo);
    vstd::arithmetic::div_mod::lemma_fundamental_div_mod_converse(v, 100, hi, 10 * mid + lo);
    assert(v / 100 == hi);
    vstd::arithmetic::div_mod::lemma_fundamental_div_mod_converse(v, 10, 10 * hi + mid, lo);
    assert(v / 10 == 10 * hi + mid && v % 10 == lo);
    vstd::arithmetic::div_mod::lemma_fundamental_div_mod_converse(10 * hi + mid, 10, hi, mid);
    assert((v / 10) % 10 == mid);
    vstd::arithmetic::div_mod::lemma_small_mod(hi as nat, 10);
    assert((v / 100) % 10 == hi);
    assert(v / 1 == v) by (nonlinear_arith);
}

proof fn lemma_parse_bytes_sound(b: Seq<u8>, pos: int)
    requires
        0 <= pos <= b.len(),
    ensures
        parse_bytes(b, pos) matches Some((bytes, end)) ==> pos < end <= b.len() && b.subrange(
            pos,
            end,
        ) == encode_bytes(bytes),
    decreases b.len() - pos,
{
    if let Some((bytes, end)) = parse_bytes(b, pos) {
        if b[pos] == 32 {
            let v = digits3_val(b, pos + 1);
            let rest = parse_bytes(b, pos + 4).unwrap().0;
            lemma_parse_bytes_sound(b, pos + 4);
            lemma_digits3_inverse(b, pos + 1);
            assert(v as u8 as int == v);
            assert(bytes == seq![v as u8] + rest);
            assert(bytes[0] == v as u8);
            assert(bytes.skip(1) =~= rest);
            let tail = encode_bytes(rest);
            assert(b.subrange(pos + 4, end) == tail);
            assert(b.subrange(pos, end) =~= seq![32u8] + spec_digits(bytes[0] as nat, 3) + tail);
        } else {
            assert(b[pos] == 10);
            assert(bytes == Seq::<u8>::empty() && end == pos + 1);
            assert(b.subrange(pos, end) =~= seq![10u8]);
            assert(encode_bytes(bytes) == seq![10u8]);
        }
    }
}

proof fn lemma_parse_field_sound(b: Seq<u8>, pos: int, tag: FieldTag)
    ensures
        parse_field(b, pos, tag) matches Some((bytes, end)) ==> 0 <= pos < end <= b.len()
            && b.subrange(pos, end) == encode_field(tag, bytes),
{
    if let Some((bytes, end)) = parse_field(b, pos, tag) {
        let label = label_of(tag);
        lemma_parse_bytes_sound(b, pos + label.len());
        assert(b.subrange(pos + label.len(), end) == encode_bytes(bytes));
        assert(b.subrange(pos, end) =~= label + encode_bytes(bytes));
    }
}

/// The container is canonical: anything that decodes is the exact encoding
/// of the record it decodes to, so the decoder accepts the encoder's output
/// and nothing else.
pub proof fn lemma_decode_canonical(b: Seq<u8>)
    ensures
        spec_decode(b) matches Some(v) ==> v.wf() && b == spec_encode(v),
{
    if let Some(v) = spec_decode(b) {
        let (ssid, p1) = parse_field(b, 0, FieldTag::Ssid).unwrap();
        let (ap_mac, p2) = parse_field(b, p1, FieldTag::ApMac).unwrap();
        let (client_mac, p3) = parse_field(b, p2, FieldTag::ClientMac).unwrap();
        let (anonce, p4) = parse_field(b, p3, FieldTag::Anonce).unwrap();
        let (snonce, p5) = parse_field(b, p4, FieldTag::Snonce).unwrap();
        let (mic, p6) = parse_field(b, p5, FieldTag::Mic).unwrap();
        let (eapol_frame, p7) = parse_field(b, p6, FieldTag::EapolFrame).unwrap();
        let (kv, p8) = parse_field(b, p7, FieldTag::KeyVersion).unwrap();
        lemma_parse_field_sound(b, 0, FieldTag::Ssid);
        lemma_parse_field_sound(b, p1, FieldTag::ApMac);
        lemma_parse_field_sound(b, p2, FieldTag::ClientMac);
        lemma_parse_field_sound(b, p3, FieldTag::Anonce);
        lemma_parse_field_sound(b, p4, FieldTag::Snonce);
        lemma_parse_field_sound(b, p5, FieldTag::Mic);
        lemma_parse_field_sound(b, p6, FieldTag::EapolFrame);
        lemma_parse_field_sound(b, p7, FieldTag::KeyVersion);
        assert(kv =~= seq![v.key_version]);
        assert(b =~= b.subrange(0, p1) + b.subrange(p1, p2) + b.subrange(p2, p3) + b.subrange(
            p3,
            p4,
        ) + b.subrange(p4, p5) + b.subrange(p5, p6) + b.subrange(p6, p7) + b.subrange(p7, p8));
    }
}

/// Rejection of a container that is not an exact encoding.
#[derive(Clone, Copy, PartialEq, Eq, Structural, Debug)]
pub enum DecodeError {
    /// The input is not the canonical encoding of any valid record.
    Malformed,
}

/// Parses one byte list, mirroring `parse_bytes`.
fn parse_bytes_exec(b: &[u8], pos: usize) -> (r: Option<(Vec<u8>, usize)>)
    requires
        pos <= b@.len(),
    ensures
        match r {
            Some((v, p)) => parse_bytes(b@, pos as int) == Some((v@, p as int)) && pos < p
                <= b@.len(),
            None => parse_bytes(b@, pos as int) is None,
        },
{
    let mut acc: Vec<u8> = Vec::new();
    let mut p = pos;
    loop
        invariant
            pos <= p <= b@.len(),
            parse_bytes(b@, pos as int) == match parse_bytes(b@, p as int) {
                Some((rest, end)) => Some((acc@ + rest, end)),
                None => None::<(Seq<u8>, int)>,
            },
        decreases b@.len() - p,
    {
        if p >= b.len() {
            return None;
        }
        let c = b[p];
        if c == 32 {
            if b.len() - p < 4 {
                return None;
            }
            let d0 = b[p + 1];
            let d1 = b[p + 2];
            let d2 = b[p + 3];
            if d0 < 48 || d0 > 57 || d1 < 48 || d1 > 57 || d2 < 48 || d2 > 57 {
                return None;
            }
            let val: u32 = 100 * ((d0 - 48) as u32) + 10 * ((d1 - 48) as u32) + ((d2 - 48) as u32);
            if val > 255 {
                return None;
            }
            let ghost acc_old = acc@;
            acc.push(val as u8);
            proof {
                assert(digits3_val(b@, p + 1) == val);
                if let Some((rest, end)) = parse_bytes(b@, p + 4) {
                    assert(acc_old + (seq![val as u8] + rest) =~= acc@ + rest);
                }
            }
            p = p + 4;
        } else if c == 10 {
            proof {
                assert(parse_bytes(b@, p as int) == Some((Seq::<u8>::empty(), p + 1)));
                assert(acc@ + Seq::<u8>::empty() =~= acc@);
            }
            return Some((acc, p + 1));
        } else {
            return None;
        }
    }
}

/// Parses one labelled line, mirroring `parse_field`.
fn parse_field_exec(b: &[u8], pos: usize, tag: FieldTag) -> (r: Option<(Vec<u8>, usize)>)
    ensures
        match r {
            Some((v, p)) => parse_field(b@, pos as int, tag) == Some((v@, p as int)) && p
                <= b@.len(),
            None => parse_field(b@, pos as int, tag) is None,
        },
{
    let label = label_vec(tag);
    if pos > b.len() || b.len() - pos < label.len() {
        return None;
    }
    let here = crate::byteops::sub_bytes(b, pos, pos + label.len());
    if !constant_time_compare(here.as_slice(), label.as_slice()) {
        return None;
    }
    parse_bytes_exec(b, pos + label.len())
}

/// Deserialises a textual container, accepting exactly the encoder's output
/// on valid records.
pub fn decode_handshake(b: &[u8]) -> (r: Result<Handshake, DecodeError>)
    ensures
        match r {
            Result::Ok(h) => spec_decode(b@) == Some(h@) && h.valid(),
            Result::Err(e) => spec_decode(b@) is None && e == DecodeError::Malformed,
        },
{
    let f1 = parse_field_exec(b, 0, FieldTag::Ssid);
    let (ssid, p1) = match f1 {
        Some(x) => x,
        None => {
            return Result::Err(DecodeError::Malformed);
        },
    };
    let f2 = parse_field_exec(b, p1, FieldTag::ApMac);
    let (ap_mac, p2) = match f2 {
        Some(x) => x,
        None => {
            return Result::Err(DecodeError::Malformed);
        },
    };
    let f3 = parse_field_exec(b, p2, FieldTag::ClientMac);
    let (client_mac, p3) = match f3 {
        Some(x) => x,
        None => {
            return Result::Err(DecodeError::Malformed);
        },
    };
    let f4 = parse_field_exec(b, p3, FieldTag::Anonce);
    let (anonce, p4) = match f4 {
        Some(x) => x,
        None => {
            return Result::Err(DecodeError::Malformed);
        },
    };
    let f5 = parse_field_exec(b, p4, FieldTag::Snonce);
    let (snonce, p5) = match f5 {
        Some(x) => x,
        None => {
            return Result::Err(DecodeError::Malformed);
        },
    };
    let f6 = parse_field_exec(b, p5, FieldTag::Mic);
    let (mic, p6) = match f6 {
        Some(x) => x,
        None => {
            return Result::Err(DecodeError::Malformed);
        },
    };
    let f7 = parse_field_exec(b, p6, FieldTag::EapolFrame);
    let (eapol_frame, p7) = match f7 {
        Some(x) => x,
        None => {
            return Result::Err(DecodeError::Malformed);
        },
    };
    let f8 = parse_field_exec(b, p7, FieldTag::KeyVersion);
    let (kv, p8) = match f8 {
        Some(x) => x,
        None => {
            return Result::Err(DecodeError::Malformed);
        },
    };
    if p8 != b.len() || kv.len() != 1 {
        return Result::Err(DecodeError::Malformed);
    }
    let key_version = kv[0];
    let h = Handshake { ssid, ap_mac, client_mac, anonce, snonce, mic, eapol_frame, key_version };
    if !h.is_valid() {
        return Result::Err(DecodeError::Malformed);
    }
    Result::Ok(h)
}

} // verus!
