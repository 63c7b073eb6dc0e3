use brutifi::assembler::{
    assemble_from_frames, build_deauth_frame, extract_eapol_from_packet, parse_bssid_from_packet,
    parse_cap_file, Assembler, AssembleError,
};

const AP: [u8; 6] = [0x00, 0x11, 0x22, 0x33, 0x44, 0x55];
const CLIENT: [u8; 6] = [0xAA, 0xBB, 0xCC, 0xDD, 0xEE, 0xFF];
const ANONCE: [u8; 32] = [0x01; 32];
const SNONCE: [u8; 32] = [0x02; 32];
const MIC: [u8; 16] = [0xAB; 16];

fn radiotap() -> Vec<u8> {
    vec![0x00, 0x00, 0x08, 0x00, 0x00, 0x00, 0x00, 0x00]
}

fn beacon_frame(ssid: &[u8], bssid: &[u8; 6]) -> Vec<u8> {
    let mut f = radiotap();
    f.push(0x80); // management, subtype 8 (Beacon)
    f.push(0x00);
    f.extend_from_slice(&[0x00, 0x00]); // duration
    f.extend_from_slice(&[0xFF; 6]); // destination: broadcast
    f.extend_from_slice(bssid); // source
    f.extend_from_slice(bssid); // BSSID
    f.extend_from_slice(&[0x00, 0x00]); // sequence control
    f.extend_from_slice(&[0x00; 8]); // timestamp
    f.extend_from_slice(&[0x64, 0x00]); // beacon interval
    f.extend_from_slice(&[0x11, 0x04]); // capability info
    f.push(0x00); // tag 0: SSID
    f.push(ssid.len() as u8);
    f.extend_from_slice(ssid);
    f
}

fn eapol_frame(
    from_ap: bool,
    ap: &[u8; 6],
    client: &[u8; 6],
    key_info: u16,
    replay: u64,
    nonce: &[u8; 32],
    mic: &[u8; 16],
    key_data: &[u8],
) -> Vec<u8> {
    let mut f = radiotap();
    f.push(0x08); // data frame, subtype 0
    f.push(if from_ap { 0x02 } else { 0x01 }); // From-DS / To-DS
    f.extend_from_slice(&[0x00, 0x00]); // duration
    if from_ap {
        f.extend_from_slice(client);
        f.extend_from_slice(ap);
        f.extend_from_slice(ap);
    } else {
        f.extend_from_slice(ap);
        f.extend_from_slice(client);
        f.extend_from_slice(ap);
    }
    f.extend_from_slice(&[0x00, 0x00]); // sequence control
    f.extend_from_slice(&[0xAA, 0xAA, 0x03, 0x00, 0x00, 0x00, 0x88, 0x8E]); // LLC/SNAP
    f.push(0x02); // EAPOL version
    f.push(0x03); // EAPOL-Key
    f.extend_from_slice(&((95 + key_data.len()) as u16).to_be_bytes());
    f.push(0x02); // descriptor type
    f.extend_from_slice(&key_info.to_be_bytes());
    f.extend_from_slice(&[0x00, 0x10]); // key length
    f.extend_from_slice(&replay.to_be_bytes());
    f.extend_from_slice(nonce);
    f.extend_from_slice(&[0x00; 16]); // key IV
    f.extend_from_slice(&[0x00; 8]); // key RSC
    f.extend_from_slice(&[0x00; 8]); // key ID
    f.extend_from_slice(mic);
    f.extend_from_slice(&(key_data.len() as u16).to_be_bytes());
    f.extend_from_slice(key_data);
    f
}

const M1_INFO: u16 = 0x008A; // ACK | key type | version 2
const M2_INFO: u16 = 0x010A; // MIC | key type | version 2

fn m1_frame(replay: u64) -> Vec<u8> {
    eapol_frame(true, &AP, &CLIENT, M1_INFO, replay, &ANONCE, &[0x00; 16], &[])
}

fn m2_frame(replay: u64) -> Vec<u8> {
    eapol_frame(false, &AP, &CLIENT, M2_INFO, replay, &SNONCE, &MIC, &[0x02; 22])
}

#[test]
fn test_parse_bssid_matches_ssid() {
    let beacon = beacon_frame(b"TestNetwork", &AP);
    assert_eq!(parse_bssid_from_packet(&beacon, b"TestNetwork"), Some(AP.to_vec()));
    assert_eq!(parse_bssid_from_packet(&beacon, b"OtherNetwork"), None);
    assert_eq!(parse_bssid_from_packet(&m1_frame(1), b"TestNetwork"), None);
}

#[test]
fn test_extract_eapol_classifies_messages() {
    let m1 = extract_eapol_from_packet(&m1_frame(7)).unwrap();
    assert_eq!(m1.message_type, 1);
    assert_eq!(m1.ap_mac, AP.to_vec());
    assert_eq!(m1.client_mac, CLIENT.to_vec());
    assert_eq!(m1.nonce, ANONCE.to_vec());
    assert_eq!(m1.replay_counter, 7);
    assert_eq!(m1.key_version, 2);

    let m2 = extract_eapol_from_packet(&m2_frame(7)).unwrap();
    assert_eq!(m2.message_type, 2);
    assert_eq!(m2.ap_mac, AP.to_vec());
    assert_eq!(m2.client_mac, CLIENT.to_vec());
    assert_eq!(m2.nonce, SNONCE.to_vec());
    assert_eq!(m2.mic, MIC.to_vec());
    assert_eq!(m2.eapol_zeroed.len(), 121);
    // The MIC field inside the zeroed body really is zeros.
    assert_eq!(&m2.eapol_zeroed[81..97], &[0u8; 16]);

    assert!(extract_eapol_from_packet(&beacon_frame(b"TestNetwork", &AP)).is_none());
}

#[test]
fn test_assembler_emits_handshake() {
    let frames = vec![beacon_frame(b"TestNetwork", &AP), m1_frame(1), m2_frame(1)];
    let h = assemble_from_frames(b"TestNetwork", &frames).unwrap();
    assert_eq!(h.ssid, b"TestNetwork".to_vec());
    assert_eq!(h.ap_mac, AP.to_vec());
    assert_eq!(h.client_mac, CLIENT.to_vec());
    assert_eq!(h.anonce, ANONCE.to_vec());
    assert_eq!(h.snonce, SNONCE.to_vec());
    assert_eq!(h.mic, MIC.to_vec());
    assert_eq!(h.key_version, 2);
    assert!(h.is_valid());
    // The stored EAPOL body is the M2 body with its MIC bytes zeroed.
    let m2 = extract_eapol_from_packet(&m2_frame(1)).unwrap();
    assert_eq!(h.eapol_frame, m2.eapol_zeroed);
}

#[test]
fn test_assembler_accepts_successor_replay_counter() {
    let frames = vec![m1_frame(5), m2_frame(6)];
    assert!(assemble_from_frames(b"TestNetwork", &frames).is_ok());
    let frames = vec![m1_frame(5), m2_frame(9)];
    assert_eq!(
        assemble_from_frames(b"TestNetwork", &frames).unwrap_err(),
        AssembleError::NoHandshake
    );
}

#[test]
fn test_assembler_only_m1_times_out() {
    let frames = vec![beacon_frame(b"TestNetwork", &AP), m1_frame(1)];
    assert_eq!(
        assemble_from_frames(b"TestNetwork", &frames).unwrap_err(),
        AssembleError::NoHandshake
    );
}

#[test]
fn test_assembler_rejects_bad_ssid() {
    let frames = vec![m1_frame(1), m2_frame(1)];
    assert_eq!(
        assemble_from_frames(b"", &frames).unwrap_err(),
        AssembleError::InvalidInput
    );
    assert_eq!(
        assemble_from_frames(&[b'x'; 33], &frames).unwrap_err(),
        AssembleError::InvalidInput
    );
}

#[test]
fn test_assembler_ignores_foreign_ap_after_pinning() {
    let other_ap: [u8; 6] = [0xDE, 0xAD, 0xBE, 0xEF, 0x00, 0x01];
    let foreign_m1 = eapol_frame(true, &other_ap, &CLIENT, M1_INFO, 1, &ANONCE, &[0x00; 16], &[]);
    // The foreign M1 is dropped, so the M2 has no recorded ANonce.
    let frames = vec![beacon_frame(b"TestNetwork", &AP), foreign_m1, m2_frame(1)];
    assert_eq!(
        assemble_from_frames(b"TestNetwork", &frames).unwrap_err(),
        AssembleError::NoHandshake
    );
}

#[test]
fn test_assembler_deauth_resets_client() {
    let deauth = build_deauth_frame(&AP, &CLIENT);
    // The injected frame already carries its Radiotap prefix; it parses as a
    // received deauthentication for CLIENT and clears the pending M1.
    let frames = vec![m1_frame(1), deauth, m2_frame(1)];
    assert_eq!(
        assemble_from_frames(b"TestNetwork", &frames).unwrap_err(),
        AssembleError::NoHandshake
    );
    // Without the deauth in between, the same stream completes.
    let frames = vec![m1_frame(1), m2_frame(1)];
    assert!(assemble_from_frames(b"TestNetwork", &frames).is_ok());
}

#[test]
fn test_deauth_frame_bytes() {
    let frame = build_deauth_frame(&AP, &[0xFF; 6]);
    let mut expected: Vec<u8> = vec![0x00, 0x00, 0x08, 0x00, 0x00, 0x00, 0x00, 0x00];
    expected.extend_from_slice(&[0xC0, 0x00, 0x00, 0x01]);
    expected.extend_from_slice(&[0xFF; 6]);
    expected.extend_from_slice(&AP);
    expected.extend_from_slice(&AP);
    expected.extend_from_slice(&[0x00, 0x00, 0x07, 0x00]);
    assert_eq!(frame, expected);
}

#[test]
fn test_assembler_streaming_interface() {
    let mut session = Assembler::new(b"TestNetwork".to_vec());
    assert!(session.on_frame(&beacon_frame(b"TestNetwork", &AP)).is_none());
    assert!(session.on_frame(&m1_frame(3)).is_none());
    let h = session.on_frame(&m2_frame(3)).unwrap();
    assert_eq!(h.anonce, ANONCE.to_vec());
    // The pairing is retired once emitted: the same M2 alone does nothing.
    assert!(session.on_frame(&m2_frame(3)).is_none());
}

fn pcap_bytes(frames: &[Vec<u8>]) -> Vec<u8> {
    let mut data: Vec<u8> = vec![0xD4, 0xC3, 0xB2, 0xA1];
    data.extend_from_slice(&[0x02, 0x00, 0x04, 0x00]); // version 2.4
    data.extend_from_slice(&[0x00; 8]); // timezone, sigfigs
    data.extend_from_slice(&[0xFF, 0xFF, 0x00, 0x00]); // snap length
    data.extend_from_slice(&[0x7F, 0x00, 0x00, 0x00]); // link type
    for f in frames {
        data.extend_from_slice(&[0x00; 8]); // timestamp
        data.extend_from_slice(&(f.len() as u32).to_le_bytes());
        data.extend_from_slice(&(f.len() as u32).to_le_bytes());
        data.extend_from_slice(f);
    }
    data
}

#[test]
fn test_parse_cap_file_extracts_handshake() {
    let frames = vec![beacon_frame(b"TestNetwork", &AP), m1_frame(1), m2_frame(1)];
    let data = pcap_bytes(&frames);
    let h = parse_cap_file(&data, b"TestNetwork").unwrap();
    assert_eq!(h.ssid, b"TestNetwork".to_vec());
    assert_eq!(h.anonce, ANONCE.to_vec());
    assert_eq!(h.snonce, SNONCE.to_vec());
}

#[test]
fn test_parse_cap_file_rejects_malformed() {
    assert_eq!(
        parse_cap_file(b"bogus", b"TestNetwork").unwrap_err(),
        AssembleError::InvalidInput
    );
    let mut truncated = pcap_bytes(&[m1_frame(1)]);
    truncated.pop();
    assert_eq!(
        parse_cap_file(&truncated, b"TestNetwork").unwrap_err(),
        AssembleError::InvalidInput
    );
    let empty = pcap_bytes(&[]);
    assert_eq!(
        parse_cap_file(&empty, b"TestNetwork").unwrap_err(),
        AssembleError::NoHandshake
    );
}
