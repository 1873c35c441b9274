use powgate::config::Config;
use powgate::encryption::{hmac_sign, hmac_verify, HMAC_LENGTH};

#[test]
fn test_hmac_algo_output_length() {
    assert_eq!(
        ring::hmac::HMAC_SHA256.digest_algorithm().output_len(),
        HMAC_LENGTH
    );
}

#[test]
fn test_can_sign() {
    let config: Config = Config::generate().unwrap();

    let msg = "hello, world";
    let signed = hmac_sign(msg.as_bytes(), &config);

    hmac_verify(&signed, &config).unwrap();

    // Ensure signature is stable
    assert_eq!(
        hmac_sign(msg.as_bytes(), &config),
        hmac_sign(msg.as_bytes(), &config)
    );
}

#[test]
fn signed_message_layout() {
    let config: Config = Config::generate().unwrap();
    let signed = hmac_sign(b"payload", &config);
    assert_eq!(signed.len(), HMAC_LENGTH + 7);
    assert_eq!(&signed[HMAC_LENGTH..], b"payload");
    let expected = ring::hmac::sign(
        &ring::hmac::Key::new(ring::hmac::HMAC_SHA256, &config.hmac_key),
        b"payload",
    );
    assert_eq!(&signed[..HMAC_LENGTH], expected.as_ref());
    assert_eq!(hmac_verify(&signed, &config), Some(b"payload".to_vec()));
}

#[test]
fn verify_refuses_tampering() {
    let config: Config = Config::generate().unwrap();
    let signed = hmac_sign(b"payload", &config);
    for i in 0..signed.len() {
        let mut t = signed.clone();
        t[i] ^= 1;
        assert_eq!(hmac_verify(&t, &config), None);
    }
}

#[test]
fn verify_refuses_short_input() {
    let config: Config = Config::generate().unwrap();
    assert_eq!(hmac_verify(&[], &config), None);
    assert_eq!(hmac_verify(&[0u8; 31], &config), None);
}

#[test]
fn verify_refuses_other_key() {
    let a: Config = Config::generate().unwrap();
    let b: Config = Config::generate().unwrap();
    let signed = hmac_sign(b"payload", &a);
    assert_eq!(hmac_verify(&signed, &b), None);
}

#[test]
fn default_config_values() {
    let config: Config = Config::generate().unwrap();
    assert_eq!(config.difficulty_bytes, 2);
    assert_eq!(config.expiry_seconds, 300);
    assert_eq!(config.difficulty_bits(), 16);
    let other: Config = Config::generate().unwrap();
    assert_ne!(config.hmac_key, other.hmac_key);
}
