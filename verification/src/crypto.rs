//! The WPA key-derivation and MIC-verification kernel.
//!
//! The HMAC and CMAC primitives come from outside crates and are named by
//! uninterpreted spec functions; everything built on top of them — PBKDF2,
//! PRF-512, KDF-SHA-256, the MIC dispatch and the password check — is
//! verified against byte-exact specifications.

use vstd::prelude::*;
use crate::byteops::{lex_lt, xor_bytes, xor_vec, bytes_lt, constant_time_compare_16, sub_bytes};

verus! {

/// The HMAC-SHA-1 tag of `msg` under `key` (20 bytes).
pub uninterp spec fn hmac_sha1(key: Seq<u8>, msg: Seq<u8>) -> Seq<u8>;

/// The HMAC-SHA-256 tag of `msg` under `key` (32 bytes).
pub uninterp spec fn hmac_sha256(key: Seq<u8>, msg: Seq<u8>) -> Seq<u8>;

/// The HMAC-MD5 tag of `msg` under `key` (16 bytes).
pub uninterp spec fn hmac_md5(key: Seq<u8>, msg: Seq<u8>) -> Seq<u8>;

/// The AES-128-CMAC tag of `msg` under the 16-byte `key` (16 bytes).
pub uninterp spec fn aes128_cmac(key: Seq<u8>, msg: Seq<u8>) -> Seq<u8>;

/// Relies on hmac::Hmac<sha1::Sha1>: computes the 20-byte HMAC-SHA-1 tag of
/// `msg` under `key`; `new_from_slice` accepts a key of any length, and the
/// tag is a function of key and message alone.
#[verifier::external_body]
fn hmac_sha1_tag(key: &[u8], msg: &[u8]) -> (r: Vec<u8>)
    ensures
        r@ == hmac_sha1(key@, msg@),
        r@.len() == 20,
{
    let mut mac = <hmac::Hmac<sha1::Sha1> as hmac::Mac>::new_from_slice(key)
        .expect("HMAC accepts any key length");
    hmac::Mac::update(&mut mac, msg);
    hmac::Mac::finalize(mac).into_bytes().to_vec()
}

/// Relies on hmac::Hmac<sha2::Sha256>: computes the 32-byte HMAC-SHA-256 tag
/// of `msg` under `key`; `new_from_slice` accepts a key of any length, and
/// the tag is a function of key and message alone.
#[verifier::external_body]
fn hmac_sha256_tag(key: &[u8], msg: &[u8]) -> (r: Vec<u8>)
    ensures
        r@ == hmac_sha256(key@, msg@),
        r@.len() == 32,
{
    let mut mac = <hmac::Hmac<sha2::Sha256> as hmac::Mac>::new_from_slice(key)
        .expect("HMAC accepts any key length");
    hmac::Mac::update(&mut mac, msg);
    hmac::Mac::finalize(mac).into_bytes().to_vec()
}

/// Relies on hmac::Hmac<md5::Md5>: computes the 16-byte HMAC-MD5 tag of
/// `msg` under `key`; `new_from_slice` accepts a key of any length, and the
/// tag is a function of key and message alone.
#[verifier::external_body]
fn hmac_md5_tag(key: &[u8], msg: &[u8]) -> (r: Vec<u8>)
    ensures
        r@ == hmac_md5(key@, msg@),
        r@.len() == 16,
{
    let mut mac = <hmac::Hmac<md5::Md5> as hmac::Mac>::new_from_slice(key)
        .expect("HMAC accepts any key length");
    hmac::Mac::update(&mut mac, msg);
    hmac::Mac::finalize(mac).into_bytes().to_vec()
}

/// Relies on cmac::Cmac<aes::Aes128>: computes the 16-byte AES-128-CMAC tag
/// of `msg` under `key`; `new_from_slice` demands a 16-byte key (AES-128),
/// and the tag is a function of key and message alone.
#[verifier::external_body]
fn aes128_cmac_tag(key: &[u8], msg: &[u8]) -> (r: Vec<u8>)
    requires
        key@.len() == 16,
    ensures
        r@ == aes128_cmac(key@, msg@),
        r@.len() == 16,
{
    let mut mac = <cmac::Cmac<aes::Aes128> as cmac::Mac>::new_from_slice(key)
        .expect("AES-128-CMAC takes a 16-byte key");
    cmac::Mac::update(&mut mac, msg);
    cmac::Mac::finalize(mac).into_bytes().to_vec()
}

/// The two hash functions PBKDF2 is instantiated with here.
#[derive(Clone, Copy, PartialEq, Eq, Structural, Debug)]
pub enum PrfHash {
    Sha1,
    Sha256,
}

/// The HMAC tag under the chosen hash.
pub open spec fn hmac_of(alg: PrfHash, key: Seq<u8>, msg: Seq<u8>) -> Seq<u8> {
    match alg {
        PrfHash::Sha1 => hmac_sha1(key, msg),
        PrfHash::Sha256 => hmac_sha256(key, msg),
    }
}

/// Tag length of the chosen hash: 20 bytes for SHA-1, 32 for SHA-256.
pub open spec fn hmac_len(alg: PrfHash) -> nat {
    match alg {
        PrfHash::Sha1 => 20,
        PrfHash::Sha256 => 32,
    }
}

/// Computes the HMAC tag under the chosen hash.
fn hmac_tag(alg: PrfHash, key: &[u8], msg: &[u8]) -> (r: Vec<u8>)
    ensures
        r@ == hmac_of(alg, key@, msg@),
        r@.len() == hmac_len(alg),
{
    match alg {
        PrfHash::Sha1 => hmac_sha1_tag(key, msg),
        PrfHash::Sha256 => hmac_sha256_tag(key, msg),
    }
}

/// The four bytes of `x` in big-endian order.
pub open spec fn u32_be(x: u32) -> Seq<u8> {
    seq![
        (x / 0x1000000) as u8,
        ((x / 0x10000) % 0x100) as u8,
        ((x / 0x100) % 0x100) as u8,
        (x % 0x100) as u8,
    ]
}

/// Serialises `x` as four big-endian bytes.
pub fn u32_be_bytes(x: u32) -> (r: Vec<u8>)
    ensures
        r@ == u32_be(x),
{
    let b0 = (x >> 24) as u8;
    let b1 = (x >> 16) as u8;
    let b2 = (x >> 8) as u8;
    let b3 = x as u8;
    proof {
        assert((x >> 24) as u8 == (x / 0x1000000) as u8) by (bit_vector);
        assert((x >> 16) as u8 == ((x / 0x10000) % 0x100) as u8) by (bit_vector);
        assert((x >> 8) as u8 == ((x / 0x100) % 0x100) as u8) by (bit_vector);
        assert(x as u8 == (x % 0x100) as u8) by (bit_vector);
    }
    let mut r: Vec<u8> = Vec::new();
    r.push(b0);
    r.push(b1);
    r.push(b2);
    r.push(b3);
    assert(r@ =~= u32_be(x));
    r
}

/// RFC 2898 §5.2, the chain U: U_1 = HMAC(pass, salt ‖ INT(block)) and
/// U_{j+1} = HMAC(pass, U_j), with INT the four-byte big-endian block index.
pub open spec fn pbkdf2_u(alg: PrfHash, pass: Seq<u8>, salt: Seq<u8>, block: u32, j: nat) -> Seq<u8>
    decreases j,
{
    if j <= 1 {
        hmac_of(alg, pass, salt + u32_be(block))
    } else {
        hmac_of(alg, pass, pbkdf2_u(alg, pass, salt, block, (j - 1) as nat))
    }
}

/// RFC 2898 §5.2, one derived block: F = U_1 ⊕ U_2 ⊕ … ⊕ U_iters.
pub open spec fn pbkdf2_f(
    alg: PrfHash,
    pass: Seq<u8>,
    salt: Seq<u8>,
    block: u32,
    iters: nat,
) -> Seq<u8>
    decreases iters,
{
    if iters <= 1 {
        pbkdf2_u(alg, pass, salt, block, 1)
    } else {
        xor_bytes(
            pbkdf2_f(alg, pass, salt, block, (iters - 1) as nat),
            pbkdf2_u(alg, pass, salt, block, iters),
        )
    }
}

/// The concatenation F(1) ‖ F(2) ‖ … ‖ F(nblocks).
pub open spec fn pbkdf2_blocks(
    alg: PrfHash,
    pass: Seq<u8>,
    salt: Seq<u8>,
    iters: nat,
    nblocks: nat,
) -> Seq<u8>
    decreases nblocks,
{
    if nblocks == 0 {
        Seq::empty()
    } else {
        pbkdf2_blocks(alg, pass, salt, iters, (nblocks - 1) as nat) + pbkdf2_f(
            alg,
            pass,
            salt,
            nblocks as u32,
            iters,
        )
    }
}

/// PBKDF2 with the chosen HMAC: as many blocks as cover `dk_len` bytes,
/// truncated to `dk_len`.
pub open spec fn spec_pbkdf2(
    alg: PrfHash,
    pass: Seq<u8>,
    salt: Seq<u8>,
    iters: nat,
    dk_len: nat,
) -> Seq<u8> {
    pbkdf2_blocks(
        alg,
        pass,
        salt,
        iters,
        (((dk_len + hmac_len(alg) - 1) / (hmac_len(alg) as int)) as nat),
    ).take(dk_len as int)
}

/// One PBKDF2 block: the XOR fold of the U chain.
fn pbkdf2_f_block(alg: PrfHash, password: &[u8], salt: &[u8], block: u32, iterations: u32) -> (r:
    Vec<u8>)
    requires
        iterations >= 1,
    ensures
        r@ == pbkdf2_f(alg, password@, salt@, block, iterations as nat),
        r@.len() == hmac_len(alg),
{
    let mut msg: Vec<u8> = Vec::new();
    msg.extend_from_slice(salt);
    let mut be = u32_be_bytes(block);
    msg.append(&mut be);
    assert(msg@ =~= salt@ + u32_be(block));
    let mut u = hmac_tag(alg, password, msg.as_slice());
    let mut acc = sub_bytes(u.as_slice(), 0, u.len());
    assert(acc@ =~= u@);
    let mut j: u32 = 1;
    while j < iterations
        invariant
            1 <= j <= iterations,
            u@ == pbkdf2_u(alg, password@, salt@, block, j as nat),
            acc@ == pbkdf2_f(alg, password@, salt@, block, j as nat),
            u@.len() == hmac_len(alg),
            acc@.len() == hmac_len(alg),
        decreases iterations - j,
    {
        u = hmac_tag(alg, password, u.as_slice());
        acc = xor_vec(acc.as_slice(), u.as_slice());
        j = j + 1;
    }
    acc
}

/// PBKDF2 under the chosen hash, RFC 2898 §5.2, byte-exact.
fn pbkdf2(alg: PrfHash, password: &[u8], salt: &[u8], iterations: u32, dk_len: usize) -> (r: Vec<
    u8,
>)
    requires
        iterations >= 1,
        dk_len <= 0xffff_ffff,
    ensures
        r@ == spec_pbkdf2(alg, password@, salt@, iterations as nat, dk_len as nat),
        r@.len() == dk_len,
{
    let ghost h = hmac_len(alg);
    let mut out: Vec<u8> = Vec::new();
    let mut block: u32 = 0;
    while out.len() < dk_len
        invariant
            iterations >= 1,
            dk_len <= 0xffff_ffff,
            h == hmac_len(alg),
            block as nat <= out@.len(),
            out@.len() == block as nat * h,
            out@ == pbkdf2_blocks(alg, password@, salt@, iterations as nat, block as nat),
            block == 0 || (block as nat - 1) * h < dk_len,
        decreases dk_len + hmac_len(alg) - out.len(),
    {
        block = block + 1;
        let mut f = pbkdf2_f_block(alg, password, salt, block, iterations);
        proof {
            assert(block as nat * h == out@.len() + h) by (nonlinear_arith)
                requires
                    out@.len() == (block as nat - 1) * h,
                    block >= 1,
            ;
        }
        out.append(&mut f);
    }
    proof {
        let dk = dk_len as int;
        let hi = h as int;
        let b = block as int;
        if dk_len == 0 {
            assert(block == 0);
            assert((dk + hi - 1) / hi == 0) by {
                vstd::arithmetic::div_mod::lemma_fundamental_div_mod_converse(
                    dk + hi - 1,
                    hi,
                    0,
                    dk + hi - 1,
                );
            }
        } else {
            assert(b >= 1);
            assert(b * hi >= dk);
            assert((b - 1) * hi < dk);
            let r = dk + hi - 1 - b * hi;
            assert(0 <= r < hi) by (nonlinear_arith)
                requires
                    r == dk + hi - 1 - b * hi,
                    b * hi >= dk,
                    (b - 1) * hi < dk,
                    hi >= 20,
            ;
            vstd::arithmetic::div_mod::lemma_fundamental_div_mod_converse(dk + hi - 1, hi, b, r);
            assert((dk + hi - 1) / hi == b);
        }
    }
    out.truncate(dk_len);
    out
}

/// PBKDF2-HMAC-SHA-1 (RFC 2898).
pub fn pbkdf2_hmac_sha1(password: &[u8], salt: &[u8], iterations: u32, dk_len: usize) -> (r: Vec<
    u8,
>)
    requires
        iterations >= 1,
        dk_len <= 0xffff_ffff,
    ensures
        r@ == spec_pbkdf2(PrfHash::Sha1, password@, salt@, iterations as nat, dk_len as nat),
        r@.len() == dk_len,
{
    pbkdf2(PrfHash::Sha1, password, salt, iterations, dk_len)
}

/// PBKDF2-HMAC-SHA-256 (RFC 2898).
pub fn pbkdf2_hmac_sha256(password: &[u8], salt: &[u8], iterations: u32, dk_len: usize) -> (r: Vec<
    u8,
>)
    requires
        iterations >= 1,
        dk_len <= 0xffff_ffff,
    ensures
        r@ == spec_pbkdf2(PrfHash::Sha256, password@, salt@, iterations as nat, dk_len as nat),
        r@.len() == dk_len,
{
    pbkdf2(PrfHash::Sha256, password, salt, iterations, dk_len)
}

/// The 32-byte PMK of a passphrase and SSID: PBKDF2 over 4096 iterations,
/// with SHA-1 for key versions 1 and 2 and SHA-256 for key version 3.
pub open spec fn spec_pmk(pass: Seq<u8>, ssid: Seq<u8>, key_version: u8) -> Seq<u8> {
    if key_version == 3 {
        spec_pbkdf2(PrfHash::Sha256, pass, ssid, 4096, 32)
    } else {
        spec_pbkdf2(PrfHash::Sha1, pass, ssid, 4096, 32)
    }
}

/// PMK for WPA/WPA2 (key versions 1 and 2): PBKDF2-HMAC-SHA-1, 4096
/// iterations, 32 bytes, with the SSID bytes as salt.
pub fn calculate_pmk(passphrase: &[u8], ssid: &[u8]) -> (r: Vec<u8>)
    ensures
        r@ == spec_pmk(passphrase@, ssid@, 2),
        r@.len() == 32,
{
    pbkdf2_hmac_sha1(passphrase, ssid, 4096, 32)
}

/// PMK for the SHA-256 suite (key version 3): PBKDF2-HMAC-SHA-256, 4096
/// iterations, 32 bytes.
pub fn calculate_pmk_sha256(passphrase: &[u8], ssid: &[u8]) -> (r: Vec<u8>)
    ensures
        r@ == spec_pmk(passphrase@, ssid@, 3),
        r@.len() == 32,
{
    pbkdf2_hmac_sha256(passphrase, ssid, 4096, 32)
}

/// The PMK of a candidate under a given key version.
pub fn pmk_for_version(passphrase: &[u8], ssid: &[u8], key_version: u8) -> (r: Vec<u8>)
    ensures
        r@ == spec_pmk(passphrase@, ssid@, key_version),
        r@.len() == 32,
{
    if key_version == 3 {
        calculate_pmk_sha256(passphrase, ssid)
    } else {
        calculate_pmk(passphrase, ssid)
    }
}

/// The label of IEEE 802.11i pairwise key expansion, as bytes.
pub open spec fn prf_label() -> Seq<u8> {
    seq![
        0x50u8, 0x61u8, 0x69u8, 0x72u8, 0x77u8, 0x69u8, 0x73u8, 0x65u8, 0x20u8, 0x6bu8, 0x65u8,
        0x79u8, 0x20u8, 0x65u8, 0x78u8, 0x70u8, 0x61u8, 0x6eu8, 0x73u8, 0x69u8, 0x6fu8, 0x6eu8,
    ]
}

/// Builds the pairwise-key-expansion label bytes.
fn prf_label_bytes() -> (r: Vec<u8>)
    ensures
        r@ == prf_label(),
{
    let mut r: Vec<u8> = Vec::new();
    r.push(0x50);
    r.push(0x61);
    r.push(0x69);
    r.push(0x72);
    r.push(0x77);
    r.push(0x69);
    r.push(0x73);
    r.push(0x65);
    r.push(0x20);
    r.push(0x6b);
    r.push(0x65);
    r.push(0x79);
    r.push(0x20);
    r.push(0x65);
    r.push(0x78);
    r.push(0x70);
    r.push(0x61);
    r.push(0x6e);
    r.push(0x73);
    r.push(0x69);
    r.push(0x6f);
    r.push(0x6e);
    assert(r@ =~= prf_label());
    r
}

/// The HMAC input of PRF-512 round `i`: label ‖ 0x00 ‖ seed ‖ i.
pub open spec fn prf512_input(prefix: Seq<u8>, data: Seq<u8>, i: u8) -> Seq<u8> {
    prefix + seq![0u8] + data + seq![i]
}

/// PRF-512 of IEEE 802.11i §8.5.1.1: four HMAC-SHA-1 rounds with counter
/// bytes 0 to 3, concatenated and truncated to 64 bytes.
pub open spec fn spec_prf_512(key: Seq<u8>, prefix: Seq<u8>, data: Seq<u8>) -> Seq<u8> {
    (hmac_sha1(key, prf512_input(prefix, data, 0)) + hmac_sha1(key, prf512_input(prefix, data, 1))
        + hmac_sha1(key, prf512_input(prefix, data, 2)) + hmac_sha1(
        key,
        prf512_input(prefix, data, 3),
    )).take(64)
}

/// PRF-512: expands `key` over `prefix` and `data` into 64 bytes.
pub fn prf_512(key: &[u8], prefix: &[u8], data: &[u8]) -> (r: Vec<u8>)
    ensures
        r@ == spec_prf_512(key@, prefix@, data@),
        r@.len() == 64,
{
    let mut base: Vec<u8> = Vec::new();
    base.extend_from_slice(prefix);
    base.push(0u8);
    base.extend_from_slice(data);
    let base_len = base.len();
    let mut out: Vec<u8> = Vec::new();
    let mut i: u8 = 0;
    while i < 4
        invariant
            i <= 4,
            base@ == prefix@ + seq![0u8] + data@,
            base_len == base@.len(),
            out@.len() == 20 * i,
            out@ == prf512_concat(key@, prefix@, data@, i as nat),
        decreases 4 - i,
    {
        let mut input = sub_bytes(base.as_slice(), 0, base_len);
        assert(input@ =~= base@);
        input.push(i);
        assert(input@ =~= prf512_input(prefix@, data@, i));
        let mut tag = hmac_sha1_tag(key, input.as_slice());
        out.append(&mut tag);
        proof {
            assert(out@ =~= prf512_concat(key@, prefix@, data@, i as nat + 1));
        }
        i = i + 1;
    }
    proof {
        reveal_with_fuel(prf512_concat, 5);
        assert(prf512_concat(key@, prefix@, data@, 4) =~= hmac_sha1(
            key@,
            prf512_input(prefix@, data@, 0),
        ) + hmac_sha1(key@, prf512_input(prefix@, data@, 1)) + hmac_sha1(
            key@,
            prf512_input(prefix@, data@, 2),
        ) + hmac_sha1(key@, prf512_input(prefix@, data@, 3)));
    }
    out.truncate(64);
    assert(out@ =~= spec_prf_512(key@, prefix@, data@));
    out
}

/// The first `n` PRF-512 rounds, concatenated.
pub open spec fn prf512_concat(key: Seq<u8>, prefix: Seq<u8>, data: Seq<u8>, n: nat) -> Seq<u8>
    decreases n,
{
    if n == 0 {
        Seq::empty()
    } else {
        prf512_concat(key, prefix, data, (n - 1) as nat) + hmac_sha1(
            key,
            prf512_input(prefix, data, (n - 1) as u8),
        )
    }
}

/// The HMAC input of KDF-SHA-256 round `i`: i_le16 ‖ label ‖ context ‖ L_le16
/// with L = 512 bits.
pub open spec fn kdf_input(label: Seq<u8>, context: Seq<u8>, i: u16) -> Seq<u8> {
    vstd::bytes::spec_u16_to_le_bytes(i) + label + context + vstd::bytes::spec_u16_to_le_bytes(512)
}

/// KDF-SHA-256 of IEEE 802.11 §11.6.1.7.2 for L = 512: two HMAC-SHA-256
/// rounds with little-endian counters 1 and 2, truncated to 64 bytes.
pub open spec fn spec_kdf_sha256(key: Seq<u8>, label: Seq<u8>, context: Seq<u8>) -> Seq<u8> {
    (hmac_sha256(key, kdf_input(label, context, 1)) + hmac_sha256(
        key,
        kdf_input(label, context, 2),
    )).take(64)
}

/// KDF-SHA-256: expands `key` over `label` and `context` into 64 bytes.
pub fn kdf_sha256(key: &[u8], label: &[u8], context: &[u8]) -> (r: Vec<u8>)
    ensures
        r@ == spec_kdf_sha256(key@, label@, context@),
        r@.len() == 64,
{
    let len_bits = vstd::bytes::u16_to_le_bytes(512);
    let mut input1 = vstd::bytes::u16_to_le_bytes(1);
    input1.extend_from_slice(label);
    input1.extend_from_slice(context);
    input1.extend_from_slice(len_bits.as_slice());
    assert(input1@ =~= kdf_input(label@, context@, 1));
    let mut out = hmac_sha256_tag(key, input1.as_slice());
    let mut input2 = vstd::bytes::u16_to_le_bytes(2);
    input2.extend_from_slice(label);
    input2.extend_from_slice(context);
    input2.extend_from_slice(len_bits.as_slice());
    assert(input2@ =~= kdf_input(label@, context@, 2));
    let mut tag2 = hmac_sha256_tag(key, input2.as_slice());
    out.append(&mut tag2);
    out.truncate(64);
    assert(out@ =~= spec_kdf_sha256(key@, label@, context@));
    out
}

/// The 76-byte PTK seed: min(AA, SPA) ‖ max(AA, SPA) ‖ min(ANonce, SNonce) ‖
/// max(ANonce, SNonce), both orderings lexicographic over the raw bytes.
pub open spec fn ptk_seed(ap: Seq<u8>, cli: Seq<u8>, an: Seq<u8>, sn: Seq<u8>) -> Seq<u8> {
    (if lex_lt(ap, cli) {
        ap + cli
    } else {
        cli + ap
    }) + (if lex_lt(an, sn) {
        an + sn
    } else {
        sn + an
    })
}

/// The 64-byte PTK: PRF-512 for key versions 1 and 2, KDF-SHA-256 for key
/// version 3, keyed by the PMK over the pairwise-expansion label and seed.
pub open spec fn spec_ptk(
    pmk: Seq<u8>,
    ap: Seq<u8>,
    cli: Seq<u8>,
    an: Seq<u8>,
    sn: Seq<u8>,
    key_version: u8,
) -> Seq<u8> {
    if key_version == 3 {
        spec_kdf_sha256(pmk, prf_label(), ptk_seed(ap, cli, an, sn))
    } else {
        spec_prf_512(pmk, prf_label(), ptk_seed(ap, cli, an, sn))
    }
}

/// Derives the PTK from the PMK, the two MAC addresses and the two nonces.
pub fn calculate_ptk(
    pmk: &[u8],
    ap_mac: &[u8],
    client_mac: &[u8],
    anonce: &[u8],
    snonce: &[u8],
    key_version: u8,
) -> (r: Vec<u8>)
    ensures
        r@ == spec_ptk(pmk@, ap_mac@, client_mac@, anonce@, snonce@, key_version),
        r@.len() == 64,
{
    let mut seed: Vec<u8> = Vec::new();
    if bytes_lt(ap_mac, client_mac) {
        seed.extend_from_slice(ap_mac);
        seed.extend_from_slice(client_mac);
    } else {
        seed.extend_from_slice(client_mac);
        seed.extend_from_slice(ap_mac);
    }
    if bytes_lt(anonce, snonce) {
        seed.extend_from_slice(anonce);
        seed.extend_from_slice(snonce);
    } else {
        seed.extend_from_slice(snonce);
        seed.extend_from_slice(anonce);
    }
    assert(seed@ =~= ptk_seed(ap_mac@, client_mac@, anonce@, snonce@));
    let label = prf_label_bytes();
    if key_version == 3 {
        kdf_sha256(pmk, label.as_slice(), seed.as_slice())
    } else {
        prf_512(pmk, label.as_slice(), seed.as_slice())
    }
}

/// The 16-byte MIC of an EAPOL frame under the KCK: HMAC-MD5 for key version
/// 1, AES-128-CMAC for key version 3, HMAC-SHA-1 truncated to 16 bytes
/// otherwise.
pub open spec fn spec_mic(kck: Seq<u8>, frame: Seq<u8>, key_version: u8) -> Seq<u8> {
    if key_version == 1 {
        hmac_md5(kck, frame)
    } else if key_version == 3 {
        aes128_cmac(kck, frame)
    } else {
        hmac_sha1(kck, frame).take(16)
    }
}

/// Computes the MIC of an EAPOL frame under the KCK.
pub fn calculate_mic(kck: &[u8], eapol_frame: &[u8], key_version: u8) -> (r: Vec<u8>)
    requires
        key_version == 3 ==> kck@.len() == 16,
    ensures
        r@ == spec_mic(kck@, eapol_frame@, key_version),
        r@.len() == 16,
{
    if key_version == 1 {
        hmac_md5_tag(kck, eapol_frame)
    } else if key_version == 3 {
        aes128_cmac_tag(kck, eapol_frame)
    } else {
        let mut tag = hmac_sha1_tag(kck, eapol_frame);
        tag.truncate(16);
        assert(tag@ =~= hmac_sha1(kck@, eapol_frame@).take(16));
        tag
    }
}

/// The KCK of a candidate: the first 16 bytes of its PTK.
pub open spec fn spec_kck(
    pass: Seq<u8>,
    ssid: Seq<u8>,
    ap: Seq<u8>,
    cli: Seq<u8>,
    an: Seq<u8>,
    sn: Seq<u8>,
    key_version: u8,
) -> Seq<u8> {
    spec_ptk(spec_pmk(pass, ssid, key_version), ap, cli, an, sn, key_version).take(16)
}

/// A candidate passphrase matches a captured handshake exactly when the MIC
/// of the zeroed EAPOL frame under the candidate's KCK equals the captured
/// 16-byte MIC.
pub open spec fn spec_verifies(
    pass: Seq<u8>,
    ssid: Seq<u8>,
    ap: Seq<u8>,
    cli: Seq<u8>,
    an: Seq<u8>,
    sn: Seq<u8>,
    frame: Seq<u8>,
    captured_mic: Seq<u8>,
    key_version: u8,
) -> bool {
    captured_mic.len() == 16 && spec_mic(
        spec_kck(pass, ssid, ap, cli, an, sn, key_version),
        frame,
        key_version,
    ) == captured_mic
}

/// Checks one candidate passphrase against a captured handshake: derives
/// PMK, PTK and KCK, recomputes the MIC and compares it against the captured
/// one in constant time.
pub fn verify_password(
    password: &[u8],
    ssid: &[u8],
    ap_mac: &[u8],
    client_mac: &[u8],
    anonce: &[u8],
    snonce: &[u8],
    eapol_frame: &[u8],
    captured_mic: &[u8],
    key_version: u8,
) -> (r: bool)
    ensures
        r == spec_verifies(
            password@,
            ssid@,
            ap_mac@,
            client_mac@,
            anonce@,
            snonce@,
            eapol_frame@,
            captured_mic@,
            key_version,
        ),
{
    let pmk = pmk_for_version(password, ssid, key_version);
    let ptk = calculate_ptk(
        pmk.as_slice(),
        ap_mac,
        client_mac,
        anonce,
        snonce,
        key_version,
    );
    let kck = sub_bytes(ptk.as_slice(), 0, 16);
    assert(kck@ =~= spec_kck(
        password@,
        ssid@,
        ap_mac@,
        client_mac@,
        anonce@,
        snonce@,
        key_version,
    ));
    let mic = calculate_mic(kck.as_slice(), eapol_frame, key_version);
    constant_time_compare_16(mic.as_slice(), captured_mic)
}

/// The PMK is a pure function of passphrase, SSID and key version: equal
/// inputs give equal keys, in any two derivations.
pub proof fn lemma_pmk_deterministic(
    p1: Seq<u8>,
    s1: Seq<u8>,
    p2: Seq<u8>,
    s2: Seq<u8>,
    key_version: u8,
)
    requires
        p1 == p2,
        s1 == s2,
    ensures
        spec_pmk(p1, s1, key_version) == spec_pmk(p2, s2, key_version),
{
}

} // verus!
