use brutifi::crypto::{
    calculate_mic, calculate_pmk, calculate_pmk_sha256, calculate_ptk, kdf_sha256, pbkdf2_hmac_sha1,
    pbkdf2_hmac_sha256, prf_512, verify_password,
};
use brutifi::byteops::{constant_time_compare, constant_time_compare_16};

#[test]
fn test_pmk_calculation() {
    let passphrase = "password";
    let ssid = "IEEE";
    let pmk = calculate_pmk(passphrase.as_bytes(), ssid.as_bytes());
    assert_eq!(pmk.len(), 32);

    let pmk2 = calculate_pmk(passphrase.as_bytes(), ssid.as_bytes());
    assert_eq!(pmk, pmk2);
}

#[test]
fn crypto_test_pmk_calculation() {
    let passphrase = "password";
    let ssid = "IEEE";
    let pmk = calculate_pmk(passphrase.as_bytes(), ssid.as_bytes());
    assert_eq!(pmk.len(), 32);

    let pmk2 = calculate_pmk(passphrase.as_bytes(), ssid.as_bytes());
    assert_eq!(pmk, pmk2);
}

#[test]
fn test_ptk_calculation() {
    let pmk = [0u8; 32];
    let ap_mac = [0x00, 0x11, 0x22, 0x33, 0x44, 0x55];
    let client_mac = [0xAA, 0xBB, 0xCC, 0xDD, 0xEE, 0xFF];
    let anonce = [0u8; 32];
    let snonce = [1u8; 32];

    let ptk = calculate_ptk(&pmk, &ap_mac, &client_mac, &anonce, &snonce, 2);
    assert_eq!(ptk.len(), 64);
}

#[test]
fn crypto_test_ptk_calculation() {
    let pmk = [0u8; 32];
    let ap_mac = [0x00, 0x11, 0x22, 0x33, 0x44, 0x55];
    let client_mac = [0xAA, 0xBB, 0xCC, 0xDD, 0xEE, 0xFF];
    let anonce = [0u8; 32];
    let snonce = [1u8; 32];

    let ptk = calculate_ptk(&pmk, &ap_mac, &client_mac, &anonce, &snonce, 2);
    assert_eq!(ptk.len(), 64);
}

#[test]
fn test_constant_time_compare() {
    assert!(constant_time_compare(&[1, 2, 3], &[1, 2, 3]));
    assert!(!constant_time_compare(&[1, 2, 3], &[1, 2, 4]));
    assert!(!constant_time_compare(&[1, 2], &[1, 2, 3]));
}

#[test]
fn test_constant_time_compare_16() {
    let a = [0xABu8; 16];
    let same = [0xABu8; 16];
    let mut off_by_one = [0xABu8; 16];
    off_by_one[15] = 0xAC;
    assert!(constant_time_compare_16(&a, &same));
    assert!(!constant_time_compare_16(&a, &off_by_one));
    assert!(!constant_time_compare_16(&a, &[0xABu8; 15]));
    assert!(!constant_time_compare_16(&a, &[0xABu8; 17]));
}

// IEEE 802.11i test vector: PBKDF2-HMAC-SHA1("password", "IEEE", 4096, 32).
#[test]
fn test_pmk_known_answer_password() {
    let pmk = calculate_pmk(b"password", b"IEEE");
    let expected: [u8; 32] = [
        0xf4, 0x2c, 0x6f, 0xc5, 0x2d, 0xf0, 0xeb, 0xef, 0x9e, 0xbb, 0x4b, 0x90, 0xb3, 0x8a, 0x5f,
        0x90, 0x2e, 0x83, 0xfe, 0x1b, 0x13, 0x5a, 0x70, 0xe2, 0x3a, 0xed, 0x76, 0x2e, 0x97, 0x10,
        0xa1, 0x2e,
    ];
    assert_eq!(pmk.as_slice(), &expected);
}

// PBKDF2-HMAC-SHA1("IEEE8021X", "IEEE", 4096, 32), cross-checked against an
// independent PBKDF2 implementation.
#[test]
fn test_pmk_known_answer_ieee8021x() {
    let pmk = calculate_pmk(b"IEEE8021X", b"IEEE");
    let expected: [u8; 32] = [
        0xaf, 0x69, 0x26, 0xe8, 0xec, 0xe2, 0xfd, 0xfc, 0xf7, 0xd3, 0xe1, 0xa0, 0x87, 0xb9, 0x79,
        0x2c, 0x23, 0xd1, 0x62, 0x52, 0x38, 0x14, 0x5a, 0x56, 0x32, 0xf9, 0x61, 0x19, 0xac, 0x18,
        0x94, 0x4d,
    ];
    assert_eq!(pmk.as_slice(), &expected);
}

// The PBKDF2 entry points agree with the PMK helpers.
#[test]
fn test_pbkdf2_entry_points() {
    let a = pbkdf2_hmac_sha1(b"password", b"IEEE", 4096, 32);
    let b = calculate_pmk(b"password", b"IEEE");
    assert_eq!(a, b);
    let c = pbkdf2_hmac_sha256(b"password", b"IEEE", 4096, 32);
    let d = calculate_pmk_sha256(b"password", b"IEEE");
    assert_eq!(c, d);
    assert_ne!(a, c);
    // A short derived key is a prefix of a longer one.
    let e = pbkdf2_hmac_sha1(b"password", b"IEEE", 4096, 16);
    assert_eq!(e.as_slice(), &b[..16]);
}

// RFC 2202 test case 1: HMAC-MD5 and HMAC-SHA1 with key 0x0b.. and "Hi There".
#[test]
fn test_mic_hmac_known_answers() {
    let md5_key = [0x0bu8; 16];
    let mic1 = calculate_mic(&md5_key, b"Hi There", 1);
    let expected_md5: [u8; 16] = [
        0x92, 0x94, 0x72, 0x7a, 0x36, 0x38, 0xbb, 0x1c, 0x13, 0xf4, 0x8e, 0xf8, 0x15, 0x8b, 0xfc,
        0x9d,
    ];
    assert_eq!(mic1.as_slice(), &expected_md5);

    let sha1_key = [0x0bu8; 20];
    let mic2 = calculate_mic(&sha1_key, b"Hi There", 2);
    let expected_sha1_prefix: [u8; 16] = [
        0xb6, 0x17, 0x31, 0x86, 0x55, 0x05, 0x72, 0x64, 0xe2, 0x8b, 0xc0, 0xb6, 0xfb, 0x37, 0x8c,
        0x8e,
    ];
    assert_eq!(mic2.as_slice(), &expected_sha1_prefix);
}

// RFC 4493 example 1: AES-128-CMAC of the empty message.
#[test]
fn test_mic_cmac_known_answer() {
    let key: [u8; 16] = [
        0x2b, 0x7e, 0x15, 0x16, 0x28, 0xae, 0xd2, 0xa6, 0xab, 0xf7, 0x15, 0x88, 0x09, 0xcf, 0x4f,
        0x3c,
    ];
    let mic = calculate_mic(&key, b"", 3);
    let expected: [u8; 16] = [
        0xbb, 0x1d, 0x69, 0x29, 0xe9, 0x59, 0x37, 0x28, 0x7f, 0xa3, 0x7d, 0x12, 0x9b, 0x75, 0x67,
        0x46,
    ];
    assert_eq!(mic.as_slice(), &expected);
}

// PRF-512 and KDF-SHA-256 produce 64 bytes and differ from each other.
#[test]
fn test_ptk_expansions_differ() {
    let key = [0x55u8; 32];
    let label = b"Pairwise key expansion";
    let data = [0x33u8; 76];
    let a = prf_512(&key, label, &data);
    let b = kdf_sha256(&key, label, &data);
    assert_eq!(a.len(), 64);
    assert_eq!(b.len(), 64);
    assert_ne!(a, b);
}

// Swapping the two MAC addresses leaves the PTK unchanged (min/max ordering),
// while changing a nonce changes it.
#[test]
fn test_ptk_seed_ordering() {
    let pmk = [7u8; 32];
    let ap = [0x10, 0x20, 0x30, 0x40, 0x50, 0x60];
    let cli = [0x01, 0x02, 0x03, 0x04, 0x05, 0x06];
    let an = [9u8; 32];
    let sn = [4u8; 32];
    let a = calculate_ptk(&pmk, &ap, &cli, &an, &sn, 2);
    let b = calculate_ptk(&pmk, &cli, &ap, &an, &sn, 2);
    assert_eq!(a, b);
    let mut an2 = an;
    an2[0] = 0xFF;
    let c = calculate_ptk(&pmk, &ap, &cli, &an2, &sn, 2);
    assert_ne!(a, c);
}

// Each key version verifies its own correct password and rejects a wrong one.
#[test]
fn test_verify_per_key_version() {
    let ssid = b"TestNetwork";
    let ap_mac = [0x00, 0x11, 0x22, 0x33, 0x44, 0x55];
    let client_mac = [0xAA, 0xBB, 0xCC, 0xDD, 0xEE, 0xFF];
    let anonce = [0x01u8; 32];
    let snonce = [0x02u8; 32];
    let eapol = vec![0x02u8; 121];
    for &kv in &[1u8, 2, 3] {
        let password = b"CorrectHorse";
        let pmk = if kv == 3 {
            calculate_pmk_sha256(password, ssid)
        } else {
            calculate_pmk(password, ssid)
        };
        let ptk = calculate_ptk(&pmk, &ap_mac, &client_mac, &anonce, &snonce, kv);
        let mic = calculate_mic(&ptk[0..16], &eapol, kv);
        assert!(verify_password(
            password,
            ssid,
            &ap_mac,
            &client_mac,
            &anonce,
            &snonce,
            &eapol,
            &mic,
            kv
        ));
        assert!(!verify_password(
            b"WrongStaple!",
            ssid,
            &ap_mac,
            &client_mac,
            &anonce,
            &snonce,
            &eapol,
            &mic,
            kv
        ));
        // A captured MIC that is not 16 bytes long never verifies.
        assert!(!verify_password(
            password,
            ssid,
            &ap_mac,
            &client_mac,
            &anonce,
            &snonce,
            &eapol,
            &mic[..15],
            kv
        ));
    }
}
