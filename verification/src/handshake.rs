//! The canonical 4-way-handshake record: the bridge between capture and
//! cracking.

use vstd::prelude::*;
use crate::crypto::spec_verifies;
use crate::crypto::verify_password;

verus! {

/// A captured WPA/WPA2 4-way handshake, reduced to exactly what offline
/// cracking needs.
#[derive(Debug, Clone)]
pub struct Handshake {
    /// Network SSID bytes, the PBKDF2 salt (1 to 32 bytes).
    pub ssid: Vec<u8>,
    /// AP (authenticator) MAC address, 6 bytes.
    pub ap_mac: Vec<u8>,
    /// Client (supplicant) MAC address, 6 bytes.
    pub client_mac: Vec<u8>,
    /// Authenticator nonce from M1, 32 bytes.
    pub anonce: Vec<u8>,
    /// Supplicant nonce from M2, 32 bytes.
    pub snonce: Vec<u8>,
    /// Captured MIC of the MIC-bearing message, 16 bytes.
    pub mic: Vec<u8>,
    /// The raw EAPOL-Key body the MIC was computed over, with its 16 MIC
    /// bytes overwritten by zeros.
    pub eapol_frame: Vec<u8>,
    /// Key descriptor version: 1 = HMAC-MD5, 2 = HMAC-SHA-1, 3 = AES-CMAC.
    pub key_version: u8,
}

/// The mathematical content of a handshake record: its byte sequences and
/// key version.
#[verifier::ext_equal]
pub ghost struct HandshakeView {
    pub ssid: Seq<u8>,
    pub ap_mac: Seq<u8>,
    pub client_mac: Seq<u8>,
    pub anonce: Seq<u8>,
    pub snonce: Seq<u8>,
    pub mic: Seq<u8>,
    pub eapol_frame: Seq<u8>,
    pub key_version: u8,
}

impl HandshakeView {
    /// The record invariants: field lengths as IEEE 802.11i fixes them, a
    /// non-empty EAPOL body, and a known key version.
    pub open spec fn wf(self) -> bool {
        &&& 1 <= self.ssid.len() <= 32
        &&& self.ap_mac.len() == 6
        &&& self.client_mac.len() == 6
        &&& self.anonce.len() == 32
        &&& self.snonce.len() == 32
        &&& self.mic.len() == 16
        &&& self.eapol_frame.len() > 0
        &&& (self.key_version == 1 || self.key_version == 2 || self.key_version == 3)
    }

    /// Whether a candidate passphrase reproduces this record's MIC.
    pub open spec fn verifies(self, pass: Seq<u8>) -> bool {
        spec_verifies(
            pass,
            self.ssid,
            self.ap_mac,
            self.client_mac,
            self.anonce,
            self.snonce,
            self.eapol_frame,
            self.mic,
            self.key_version,
        )
    }
}

impl View for Handshake {
    type V = HandshakeView;

    open spec fn view(&self) -> HandshakeView {
        HandshakeView {
            ssid: self.ssid@,
            ap_mac: self.ap_mac@,
            client_mac: self.client_mac@,
            anonce: self.anonce@,
            snonce: self.snonce@,
            mic: self.mic@,
            eapol_frame: self.eapol_frame@,
            key_version: self.key_version,
        }
    }
}

impl Handshake {
    /// The record invariants, read off the view.
    pub open spec fn valid(self) -> bool {
        self@.wf()
    }

    /// Whether a candidate passphrase reproduces this record's MIC.
    pub open spec fn verifies(self, pass: Seq<u8>) -> bool {
        self@.verifies(pass)
    }

    /// Assembles a handshake record from captured fields.
    pub fn new(
        ssid: Vec<u8>,
        ap_mac: Vec<u8>,
        client_mac: Vec<u8>,
        anonce: Vec<u8>,
        snonce: Vec<u8>,
        mic: Vec<u8>,
        eapol_frame: Vec<u8>,
        key_version: u8,
    ) -> (r: Handshake)
        ensures
            r.ssid == ssid,
            r.ap_mac == ap_mac,
            r.client_mac == client_mac,
            r.anonce == anonce,
            r.snonce == snonce,
            r.mic == mic,
            r.eapol_frame == eapol_frame,
            r.key_version == key_version,
    {
        Handshake { ssid, ap_mac, client_mac, anonce, snonce, mic, eapol_frame, key_version }
    }

    /// Checks the record invariants at run time.
    pub fn is_valid(&self) -> (r: bool)
        ensures
            r == self.valid(),
    {
        1 <= self.ssid.len() && self.ssid.len() <= 32 && self.ap_mac.len() == 6
            && self.client_mac.len() == 6 && self.anonce.len() == 32 && self.snonce.len() == 32
            && self.mic.len() == 16 && self.eapol_frame.len() > 0 && (self.key_version == 1
            || self.key_version == 2 || self.key_version == 3)
    }

    /// Tests one candidate passphrase against this record.
    pub fn check_candidate(&self, password: &[u8]) -> (r: bool)
        ensures
            r == self.verifies(password@),
    {
        verify_password(
            password,
            self.ssid.as_slice(),
            self.ap_mac.as_slice(),
            self.client_mac.as_slice(),
            self.anonce.as_slice(),
            self.snonce.as_slice(),
            self.eapol_frame.as_slice(),
            self.mic.as_slice(),
            self.key_version,
        )
    }
}

/// A record whose captured MIC really is the MIC of its zeroed EAPOL body
/// under a passphrase's key confirmation key verifies that passphrase.
pub proof fn lemma_correct_passphrase_verifies(h: HandshakeView, pass: Seq<u8>)
    requires
        h.mic.len() == 16,
        h.mic == crate::crypto::spec_mic(
            crate::crypto::spec_kck(
                pass,
                h.ssid,
                h.ap_mac,
                h.client_mac,
                h.anonce,
                h.snonce,
                h.key_version,
            ),
            h.eapol_frame,
            h.key_version,
        ),
    ensures
        h.verifies(pass),
{
}

/// Which EAPOL messages of the 4-way exchange have been seen for a client.
#[derive(Clone, Copy, PartialEq, Eq, Structural)]
pub struct HandshakeProgress {
    /// An M1 (ANonce) has been observed.
    pub m1_received: bool,
    /// An M2 (SNonce and MIC) has been observed.
    pub m2_received: bool,
}

impl HandshakeProgress {
    /// Starts with nothing observed.
    pub fn new() -> (r: HandshakeProgress)
        ensures
            !r.m1_received,
            !r.m2_received,
    {
        HandshakeProgress { m1_received: false, m2_received: false }
    }

    /// A pairing is complete when both halves have been seen.
    pub fn is_complete(&self) -> (r: bool)
        ensures
            r == (self.m1_received && self.m2_received),
    {
        self.m1_received && self.m2_received
    }
}

} // verus!
