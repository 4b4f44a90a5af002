use uturn::turn::TurnAuth;

fn hex(bytes: &[u8]) -> String {
    let mut s = String::new();
    for b in bytes {
        s.push_str(&format!("{:02x}", b));
    }
    s
}

#[test]
fn test_compute_key() {
    // Test vector from RFC 5389
    let key = TurnAuth::compute_key("user", "realm", "pass");
    // Key is MD5("user:realm:pass")
    assert_eq!(key.len(), 16);
    assert_eq!(hex(&key), "8493fbc53ba582fb4c044c456bdc40eb");
}

#[test]
fn test_message_integrity() {
    let key = TurnAuth::compute_key("user", "realm", "pass");
    let message = b"test message";

    let integrity = TurnAuth::compute_message_integrity(message, &key);
    assert!(TurnAuth::verify_message_integrity(message, &integrity, &key));

    // Wrong key should fail
    let wrong_key = TurnAuth::compute_key("user", "realm", "wrong");
    assert!(!TurnAuth::verify_message_integrity(message, &integrity, &wrong_key));
}

#[test]
fn test_nonce_validation() {
    let nonce = TurnAuth::generate_nonce();
    assert!(TurnAuth::validate_nonce(&nonce, 3600)); // Valid for 1 hour
    assert!(!TurnAuth::validate_nonce("0000000000000001", 3600)); // Too old
}

#[test]
fn message_integrity_is_hmac_sha1() {
    let key = TurnAuth::compute_key("user", "realm", "pass");
    assert_eq!(
        hex(&TurnAuth::compute_message_integrity(b"test message", &key)),
        "e81c41eb2fcaa9150f452f13684675ba6173670d"
    );
    assert_eq!(
        hex(&TurnAuth::compute_message_integrity(b"Hi There", &[0x0b; 20])),
        "b617318655057264e28bc0b6fb378c8ef146be00"
    );
}

#[test]
fn a_code_of_another_length_does_not_verify() {
    let key = [1u8; 16];
    let code = TurnAuth::compute_message_integrity(b"m", &key);
    assert!(TurnAuth::verify_message_integrity(b"m", &code, &key));
    assert!(!TurnAuth::verify_message_integrity(b"m", &code[..19], &key));
    assert!(!TurnAuth::verify_message_integrity(b"n", &code, &key));
    assert!(!TurnAuth::verify_message_integrity(b"m", &[], &key));
}

#[test]
fn nonce_lives_for_its_lifetime() {
    assert_eq!(TurnAuth::nonce_at(1000), "00000000000003e8");
    assert!(TurnAuth::validate_nonce_at("00000000000003e8", 600, 1000));
    assert!(TurnAuth::validate_nonce_at("00000000000003e8", 600, 1599));
    assert!(!TurnAuth::validate_nonce_at("00000000000003e8", 600, 1600));
    // From the future: no age at all.
    assert!(TurnAuth::validate_nonce_at("00000000000003e8", 600, 10));
    assert!(!TurnAuth::validate_nonce_at("not a number", 600, 1000));
    assert!(!TurnAuth::validate_nonce_at("", 600, 1000));
    assert!(!TurnAuth::validate_nonce_at("fffffffffffffffff", 600, 1000));
}

#[test]
fn signed_nonce_carries_its_code() {
    let secret: Vec<u8> = (0..16).collect();
    let nonce = TurnAuth::signed_nonce_at(1000, &secret);
    assert_eq!(
        nonce,
        "00000000000003e8:d161ba197a3eedd3ca68f3292d0c3c5b70b27ce0"
    );
    assert!(TurnAuth::validate_signed_nonce_at(&nonce, 600, &secret, 1599));
    assert!(!TurnAuth::validate_signed_nonce_at(&nonce, 600, &secret, 1600));
    assert!(!TurnAuth::validate_signed_nonce_at(&nonce, 600, &[9; 16], 1000));
    // Another timestamp with the same code.
    assert!(!TurnAuth::validate_signed_nonce_at(
        "00000000000003e9:d161ba197a3eedd3ca68f3292d0c3c5b70b27ce0",
        600,
        &secret,
        1000
    ));
    // Unsigned.
    assert!(!TurnAuth::validate_signed_nonce_at("00000000000003e8", 600, &secret, 1000));
}
