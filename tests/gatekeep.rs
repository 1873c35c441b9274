use powgate::address::hash_remote_addr;
use powgate::config::Config;
use powgate::gatekeep::{challenge_cookie_header, gatekeep_decision, GateDecision};
use powgate::pow::{solve_work, validate_work};

fn config() -> Config {
    Config {
        difficulty_bytes: 1,
        expiry_seconds: 300,
        hmac_key: [3u8; 32],
        addr_key: [4u8; 16],
    }
}

#[test]
fn end_to_end() {
    let config = config();
    let now = 1_700_000_000;
    let client = 77;

    let token = match gatekeep_decision(None, client, &config, now) {
        GateDecision::Challenge(t) => t,
        other => panic!("expected a challenge, got {:?}", other),
    };

    let signed = hex::decode(&token).unwrap();
    let magic = solve_work(&signed, 8).unwrap();
    let header = format!("pow_chal={}; pow_resp={}; pow_magic={}", token, token, magic);
    assert!(matches!(
        gatekeep_decision(Some(header.as_bytes()), client, &config, now + 5),
        GateDecision::Forward
    ));

    let mut wrong = magic + 1;
    while validate_work(&signed, wrong, 8) {
        wrong += 1;
    }
    let header = format!("pow_chal={}; pow_resp={}; pow_magic={}", token, token, wrong);
    match gatekeep_decision(Some(header.as_bytes()), client, &config, now + 5) {
        GateDecision::Challenge(t) => assert_eq!(t, token),
        other => panic!("expected a challenge, got {:?}", other),
    }
}

#[test]
fn garbage_cookie_gets_challenge() {
    let config = config();
    assert!(matches!(
        gatekeep_decision(Some(b"a=b; pow_resp=00; pow_magic=1"), 1, &config, 100),
        GateDecision::Challenge(_)
    ));
}

#[test]
fn oversized_cookie_gets_challenge() {
    let config = config();
    let token = match gatekeep_decision(None, 1, &config, 100) {
        GateDecision::Challenge(t) => t,
        other => panic!("expected a challenge, got {:?}", other),
    };
    let magic = solve_work(&hex::decode(&token).unwrap(), 8).unwrap();
    let mut header = format!("pow_resp={}; pow_magic={}; pad=", token, magic).into_bytes();
    assert!(matches!(
        gatekeep_decision(Some(&header), 1, &config, 100),
        GateDecision::Forward
    ));
    header.resize(5000, b'x');
    assert!(matches!(
        gatekeep_decision(Some(&header), 1, &config, 100),
        GateDecision::Challenge(_)
    ));
}

#[test]
fn no_challenge_when_expiry_overflows() {
    let mut config = config();
    config.expiry_seconds = u64::MAX;
    assert!(matches!(
        gatekeep_decision(None, 1, &config, 100),
        GateDecision::Unavailable
    ));
}

#[test]
fn client_identifier_is_keyed_hash() {
    let config = config();
    let a = hash_remote_addr(&[127, 0, 0, 1], &config);
    assert_eq!(a, hash_remote_addr(&[127, 0, 0, 1], &config));
    assert_ne!(a, hash_remote_addr(&[127, 0, 0, 2], &config));
    let expected = siphasher::sip::SipHasher::new_with_key(&config.addr_key).hash(&[127, 0, 0, 1]);
    assert_eq!(a, expected);
    let mut other = config;
    other.addr_key = [5u8; 16];
    assert_ne!(a, hash_remote_addr(&[127, 0, 0, 1], &other));
}

#[test]
fn set_cookie_value() {
    assert_eq!(
        challenge_cookie_header(b"00ab", 300),
        b"pow_chal=00ab; Path=/; Max-Age=300; SameSite=Strict".to_vec()
    );
    assert_eq!(
        challenge_cookie_header(b"", 0),
        b"pow_chal=; Path=/; Max-Age=0; SameSite=Strict".to_vec()
    );
    assert_eq!(
        challenge_cookie_header(b"f", u64::MAX),
        b"pow_chal=f; Path=/; Max-Age=18446744073709551615; SameSite=Strict".to_vec()
    );
}

#[test]
fn challenge_page_cookie_is_stable() {
    let config = config();
    let a = match gatekeep_decision(None, 10, &config, 1_700_000_010) {
        GateDecision::Challenge(t) => challenge_cookie_header(t.as_bytes(), config.expiry_seconds),
        other => panic!("expected a challenge, got {:?}", other),
    };
    let b = match gatekeep_decision(None, 10, &config, 1_700_000_011) {
        GateDecision::Challenge(t) => challenge_cookie_header(t.as_bytes(), config.expiry_seconds),
        other => panic!("expected a challenge, got {:?}", other),
    };
    assert!(a.len() > 60);
    assert_eq!(a, b);
}

#[test]
fn cchal_header_round_trip() {
    let config = config();
    let now = 1_700_000_000;
    let token = match gatekeep_decision(None, 3, &config, now) {
        GateDecision::Challenge(t) => t,
        other => panic!("expected a challenge, got {:?}", other),
    };
    let magic = solve_work(&hex::decode(&token).unwrap(), 8).unwrap();
    let header = format!("pow_cchal={}; pow_magic={}", token, magic);
    assert!(matches!(
        gatekeep_decision(Some(header.as_bytes()), 3, &config, now),
        GateDecision::Forward
    ));
}
