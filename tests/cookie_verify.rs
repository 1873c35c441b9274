use powgate::config::Config;
use powgate::cookie_verify::{
    generate_challenge_cookie, generate_challenge_cookie_at, parse_and_verify_cookie,
    parse_and_verify_cookie_at, verify_token,
};
use powgate::pow::{solve_work, validate_work};

fn rust_work_1_byte(challenge: &str) -> Option<u32> {
    solve_work(&hex::decode(challenge.as_bytes()).unwrap(), 8)
}

fn fixed_config(difficulty_bytes: usize, expiry_seconds: u64) -> Config {
    Config {
        difficulty_bytes,
        expiry_seconds,
        hmac_key: [7u8; 32],
        addr_key: [9u8; 16],
    }
}

#[test]
fn test_parse_and_verify_cookie() {
    let config: Config = Config {
        difficulty_bytes: 1,
        ..Config::generate().unwrap()
    };

    let serialized = generate_challenge_cookie(2, &config).unwrap();

    let magic = rust_work_1_byte(&serialized).unwrap();
    let cookie = format!("pow_cchal={}; pow_magic={}", &serialized, magic);

    assert_eq!(
        parse_and_verify_cookie(cookie.as_bytes(), 2, &config),
        Some(true)
    );

    assert_eq!(
        parse_and_verify_cookie(cookie.as_bytes(), 1, &config),
        Some(false)
    );

    let cookie = format!("pow_cchal={}; pow_magic={}", &serialized, magic + 1);

    assert_eq!(
        parse_and_verify_cookie(cookie.as_bytes(), 2, &config),
        Some(false)
    );
}

#[test]
fn token_layout() {
    let config = fixed_config(1, 300);
    let token = generate_challenge_cookie_at(0x0102030405060708, &config, 1_000_045).unwrap();
    assert_eq!(token.len(), 96);
    assert!(token.bytes().all(|c| c.is_ascii_digit() || (b'a'..=b'f').contains(&c)));
    let signed = hex::decode(&token).unwrap();
    let expiry = 1_000_020u64 + 300;
    assert_eq!(&signed[32..40], &expiry.to_be_bytes());
    assert_eq!(&signed[40..48], &0x0102030405060708u64.to_be_bytes());
    let tag = ring::hmac::sign(
        &ring::hmac::Key::new(ring::hmac::HMAC_SHA256, &config.hmac_key),
        &signed[32..],
    );
    assert_eq!(&signed[..32], tag.as_ref());
}

#[test]
fn issue_then_verify_round_trip() {
    let config = fixed_config(1, 300);
    let now = 1_700_000_007;
    let token = generate_challenge_cookie_at(42, &config, now).unwrap();
    let signed = hex::decode(&token).unwrap();
    let magic = solve_work(&signed, 8).unwrap();
    assert_eq!(verify_token(token.as_bytes(), magic, 42, &config, now), Some(true));
    let header = format!("pow_chal={}; pow_resp={}; pow_magic={}", token, token, magic);
    assert_eq!(parse_and_verify_cookie_at(header.as_bytes(), 42, &config, now), Some(true));
    assert_eq!(parse_and_verify_cookie(header.as_bytes(), 42, &config).is_some(), true);
}

#[test]
fn tampered_token_is_refused() {
    let config = fixed_config(0, 300);
    let now = 1_700_000_000;
    let token = generate_challenge_cookie_at(5, &config, now).unwrap();
    let signed = hex::decode(&token).unwrap();
    assert_eq!(verify_token(token.as_bytes(), 0, 5, &config, now), Some(true));
    for i in 0..signed.len() {
        let mut t = signed.clone();
        t[i] ^= 0x40;
        let tampered = hex::encode(&t);
        assert_eq!(verify_token(tampered.as_bytes(), 0, 5, &config, now), None);
    }
}

#[test]
fn other_client_is_refused() {
    let config = fixed_config(0, 300);
    let now = 1_700_000_000;
    let token = generate_challenge_cookie_at(5, &config, now).unwrap();
    assert_eq!(verify_token(token.as_bytes(), 0, 6, &config, now), Some(false));
}

#[test]
fn expired_token_is_refused() {
    let config = fixed_config(0, 0);
    let issued = 1_700_000_010;
    let token = generate_challenge_cookie_at(5, &config, issued).unwrap();
    let boundary = issued - issued % 30;
    assert_eq!(verify_token(token.as_bytes(), 0, 5, &config, boundary), Some(true));
    assert_eq!(verify_token(token.as_bytes(), 0, 5, &config, boundary + 1), Some(false));
    let config = fixed_config(0, 300);
    let token = generate_challenge_cookie_at(5, &config, issued).unwrap();
    assert_eq!(verify_token(token.as_bytes(), 0, 5, &config, boundary + 300), Some(true));
    assert_eq!(verify_token(token.as_bytes(), 0, 5, &config, boundary + 301), Some(false));
}

#[test]
fn wrong_solution_is_refused() {
    let config = fixed_config(2, 300);
    let now = 1_700_000_000;
    let token = generate_challenge_cookie_at(5, &config, now).unwrap();
    let signed = hex::decode(&token).unwrap();
    let mut bad = 0u32;
    while validate_work(&signed, bad, 16) {
        bad += 1;
    }
    assert_eq!(verify_token(token.as_bytes(), bad, 5, &config, now), Some(false));
}

#[test]
fn malformed_tokens_fail_closed() {
    let config = fixed_config(0, 300);
    assert_eq!(verify_token(b"", 0, 5, &config, 0), None);
    assert_eq!(verify_token(b"abc", 0, 5, &config, 0), None);
    assert_eq!(verify_token(b"zz", 0, 5, &config, 0), None);
    assert_eq!(verify_token(&[b'a'; 62], 0, 5, &config, 0), None);
    assert_eq!(parse_and_verify_cookie_at(b"pow_magic=1", 5, &config, 0), None);
}

#[test]
fn uppercase_token_is_accepted() {
    let config = fixed_config(0, 300);
    let now = 1_700_000_000;
    let token = generate_challenge_cookie_at(5, &config, now).unwrap().to_uppercase();
    assert_eq!(verify_token(token.as_bytes(), 0, 5, &config, now), Some(true));
}

#[test]
fn same_window_same_token() {
    let config = fixed_config(2, 300);
    let a = generate_challenge_cookie_at(9, &config, 1_700_000_010).unwrap();
    let b = generate_challenge_cookie_at(9, &config, 1_700_000_019).unwrap();
    assert_eq!(a, b);
    let c = generate_challenge_cookie_at(9, &config, 1_700_000_040).unwrap();
    assert_ne!(a, c);
}

#[test]
fn expiry_overflow_issues_nothing() {
    let config = fixed_config(2, u64::MAX);
    assert_eq!(generate_challenge_cookie_at(9, &config, 60), None);
    assert!(generate_challenge_cookie_at(9, &config, 29).is_some());
}
