use brutifi::cracker::{crack_numeric, crack_wordlist, find_in_batch, CrackError};
use brutifi::crypto::{calculate_mic, calculate_pmk, calculate_pmk_sha256, calculate_ptk};
use brutifi::generator::ParallelPasswordGenerator;
use brutifi::handshake::Handshake;

/// Builds a synthetic handshake whose MIC was really derived from `password`.
fn handshake_for(password: &[u8], key_version: u8) -> Handshake {
    let ssid = b"TestNetwork";
    let ap_mac = [0x00u8, 0x11, 0x22, 0x33, 0x44, 0x55];
    let client_mac = [0xAAu8, 0xBB, 0xCC, 0xDD, 0xEE, 0xFF];
    let anonce = [0x01u8; 32];
    let snonce = [0x02u8; 32];
    let eapol = vec![0x02u8; 121];
    let pmk = if key_version == 3 {
        calculate_pmk_sha256(password, ssid)
    } else {
        calculate_pmk(password, ssid)
    };
    let ptk = calculate_ptk(&pmk, &ap_mac, &client_mac, &anonce, &snonce, key_version);
    let mic = calculate_mic(&ptk[0..16], &eapol, key_version);
    Handshake::new(
        ssid.to_vec(),
        ap_mac.to_vec(),
        client_mac.to_vec(),
        anonce.to_vec(),
        snonce.to_vec(),
        mic,
        eapol,
        key_version,
    )
}

#[test]
fn test_crack_numeric_finds_password() {
    let h = handshake_for(b"0042", 2);
    let res = crack_numeric(&h, 4, 4).unwrap();
    assert_eq!(res.password, Some(b"0042".to_vec()));
    // Ascending enumeration from 0000: candidate 0042 is attempt 43.
    assert_eq!(res.attempts, 43);
}

#[test]
fn test_crack_numeric_exhausts_without_match() {
    let h = handshake_for(b"NotNumeric", 2);
    let res = crack_numeric(&h, 1, 1).unwrap();
    assert_eq!(res.password, None);
    assert_eq!(res.attempts, 10);
}

#[test]
fn test_crack_numeric_ascends_lengths() {
    let h = handshake_for(b"007", 2);
    let res = crack_numeric(&h, 2, 3).unwrap();
    assert_eq!(res.password, Some(b"007".to_vec()));
    // All 100 two-digit candidates fail first, then 000..007.
    assert_eq!(res.attempts, 108);
}

#[test]
fn test_crack_numeric_rejects_bad_inputs() {
    let h = handshake_for(b"0042", 2);
    assert_eq!(crack_numeric(&h, 0, 4).unwrap_err(), CrackError::InputInvalid);
    assert_eq!(crack_numeric(&h, 4, 3).unwrap_err(), CrackError::InputInvalid);
    assert_eq!(crack_numeric(&h, 1, 20).unwrap_err(), CrackError::InputInvalid);
    let mut bad = handshake_for(b"0042", 2);
    bad.mic = vec![0xAB; 15];
    assert_eq!(crack_numeric(&bad, 4, 4).unwrap_err(), CrackError::InputInvalid);
}

#[test]
fn test_crack_wordlist_finds_and_counts() {
    let h = handshake_for(b"CorrectHorse", 2);
    let words: Vec<Vec<u8>> = vec![
        b"tiny".to_vec(),             // shorter than 8 bytes: discarded
        Vec::new(),                   // empty line: discarded
        b"wrongpassword".to_vec(),    // attempt 1
        vec![b'x'; 64],               // longer than 63 bytes: discarded
        b"CorrectHorse".to_vec(),     // attempt 2: the match
        b"neverreached".to_vec(),
    ];
    let res = crack_wordlist(&h, &words).unwrap();
    assert_eq!(res.password, Some(b"CorrectHorse".to_vec()));
    assert_eq!(res.attempts, 2);
}

#[test]
fn test_crack_wordlist_not_found_counts_all() {
    let h = handshake_for(b"0042", 2);
    let mut words: Vec<Vec<u8>> = Vec::new();
    let mut i: u32 = 0;
    while i < 200 {
        // 8-digit strings 10000000..10000199, none of which is "0042".
        words.push(format!("{}", 10_000_000 + i).into_bytes());
        i += 1;
    }
    let res = crack_wordlist(&h, &words).unwrap();
    assert_eq!(res.password, None);
    assert_eq!(res.attempts, 200);
}

#[test]
fn test_crack_wordlist_rejects_invalid_handshake() {
    let mut bad = handshake_for(b"0042", 2);
    bad.anonce = vec![0u8; 31];
    let words = vec![b"password".to_vec()];
    assert_eq!(crack_wordlist(&bad, &words).unwrap_err(), CrackError::InputInvalid);
}

// Scanning the space batch by batch reports the same candidate as the
// sequential crack, whatever the batch boundaries.
#[test]
fn test_batched_scan_agrees_with_sequential() {
    let h = handshake_for(b"0042", 2);
    let sequential = crack_numeric(&h, 4, 4).unwrap();

    for threads in [1usize, 8] {
        let gen = ParallelPasswordGenerator::new(4, threads);
        let mut found: Option<Vec<u8>> = None;
        let mut b: u64 = 0;
        while b < gen.batch_count() && found.is_none() {
            let batch = gen.batch(b);
            if let Some(i) = find_in_batch(&h, &batch) {
                found = Some(batch[i].clone());
            }
            b += 1;
        }
        assert_eq!(found, sequential.password);
    }
}

// Each key version cracks its own handshake.
#[test]
fn test_crack_per_key_version() {
    for &kv in &[1u8, 2, 3] {
        let h = handshake_for(b"0007", kv);
        let res = crack_numeric(&h, 4, 4).unwrap();
        assert_eq!(res.password, Some(b"0007".to_vec()));
        assert_eq!(res.attempts, 8);
    }
}

// The reference scenario: a v2 handshake for "12345678" verifies its own
// password, rejects a neighbour, and is found by a wordlist scan.
#[test]
fn test_password_12345678_scenario() {
    let h = handshake_for(b"12345678", 2);
    assert!(h.check_candidate(b"12345678"));
    assert!(!h.check_candidate(b"12345679"));
    let words = vec![
        b"87654321".to_vec(),
        b"11111111".to_vec(),
        b"12345678".to_vec(),
    ];
    let res = crack_wordlist(&h, &words).unwrap();
    assert_eq!(res.password, Some(b"12345678".to_vec()));
    assert_eq!(res.attempts, 3);
}
