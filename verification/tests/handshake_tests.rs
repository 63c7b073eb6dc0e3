use brutifi::codec::{decode_handshake, encode_handshake, DecodeError};
use brutifi::handshake::{Handshake, HandshakeProgress};

fn sample_handshake() -> Handshake {
    Handshake::new(
        b"TestNetwork".to_vec(),
        vec![0x00, 0x11, 0x22, 0x33, 0x44, 0x55],
        vec![0xAA, 0xBB, 0xCC, 0xDD, 0xEE, 0xFF],
        vec![0u8; 32],
        vec![1u8; 32],
        vec![0xAB; 16],
        vec![0x02; 121],
        2,
    )
}

#[test]
fn test_handshake_serialization() {
    let handshake = sample_handshake();

    let encoded = encode_handshake(&handshake);
    let deserialized = decode_handshake(&encoded).unwrap();

    assert_eq!(handshake.ssid, deserialized.ssid);
    assert_eq!(handshake.ap_mac, deserialized.ap_mac);
}

#[test]
fn test_handshake_roundtrip_all_fields() {
    let handshake = Handshake::new(
        b"x".to_vec(),
        vec![1, 2, 3, 4, 5, 6],
        vec![9, 8, 7, 6, 5, 4],
        (0..32).collect(),
        (100..132).collect(),
        (200..216).collect(),
        vec![0x88, 0x8E, 0x00, 0xFF],
        3,
    );
    let encoded = encode_handshake(&handshake);
    let back = decode_handshake(&encoded).unwrap();
    assert_eq!(handshake.ssid, back.ssid);
    assert_eq!(handshake.ap_mac, back.ap_mac);
    assert_eq!(handshake.client_mac, back.client_mac);
    assert_eq!(handshake.anonce, back.anonce);
    assert_eq!(handshake.snonce, back.snonce);
    assert_eq!(handshake.mic, back.mic);
    assert_eq!(handshake.eapol_frame, back.eapol_frame);
    assert_eq!(handshake.key_version, back.key_version);
}

#[test]
fn test_decode_rejects_garbage() {
    assert_eq!(decode_handshake(b"not a handshake").unwrap_err(), DecodeError::Malformed);
    assert_eq!(decode_handshake(b"").unwrap_err(), DecodeError::Malformed);
}

#[test]
fn test_decode_rejects_truncation_and_trailing() {
    let handshake = sample_handshake();
    let encoded = encode_handshake(&handshake);
    assert!(decode_handshake(&encoded[..encoded.len() - 1]).is_err());
    let mut padded = encoded.clone();
    padded.push(b'\n');
    assert!(decode_handshake(&padded).is_err());
}

#[test]
fn test_decode_rejects_invalid_record() {
    // Canonical syntax, but a 15-byte MIC violates the record invariants.
    let mut h = sample_handshake();
    h.mic = vec![0xAB; 15];
    let encoded = encode_handshake(&h);
    assert_eq!(decode_handshake(&encoded).unwrap_err(), DecodeError::Malformed);
}

#[test]
fn test_is_valid_checks_all_invariants() {
    assert!(sample_handshake().is_valid());
    let mut h = sample_handshake();
    h.ssid = Vec::new();
    assert!(!h.is_valid());
    let mut h = sample_handshake();
    h.key_version = 4;
    assert!(!h.is_valid());
    let mut h = sample_handshake();
    h.eapol_frame = Vec::new();
    assert!(!h.is_valid());
}

#[test]
fn test_handshake_progress() {
    let mut p = HandshakeProgress::new();
    assert!(!p.is_complete());
    p.m1_received = true;
    assert!(!p.is_complete());
    p.m2_received = true;
    assert!(p.is_complete());
}
