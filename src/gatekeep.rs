use vstd::prelude::*;

use crate::config::Config;
use crate::cookie_verify::{cookie_verdict, generate_challenge_cookie_at, issued_token, parse_and_verify_cookie_at};
use crate::cookie_parse::decimal_text;
use crate::hex_codec::ascii_chars;

verus! {

/// What becomes of one request.
#[derive(Debug)]
pub enum GateDecision {
    /// The cookies carry a valid, solved challenge: pass the request on.
    Forward,
    /// Serve the challenge page, setting this token as the `pow_chal` cookie.
    Challenge(String),
    /// No challenge could be issued: answer with the fixed failure response.
    Unavailable,
}

/// The request with this cookie header is let through.
pub open spec fn admitted(config: Config, cookie_header: Option<&[u8]>, client: u64, now: u64) -> bool {
    match cookie_header {
        Some(h) => cookie_verdict(config, h@, client, now) == Some(true),
        None => false,
    }
}

/// Decides a request from its cookie header (if any), the client
/// identifier and the current time: forward when the cookies hold a valid
/// solved challenge for this client, else issue a fresh challenge. Every
/// other outcome of the check, malformed input included, leads to the same
/// challenge.
pub fn gatekeep_decision(cookie_header: Option<&[u8]>, ip_hash: u64, config: &Config, now: u64) -> (r: GateDecision)
    ensures
        admitted(*config, cookie_header, ip_hash, now) ==> r is Forward,
        !admitted(*config, cookie_header, ip_hash, now) ==> match issued_token(
            *config,
            ip_hash,
            now,
        ) {
            Some(t) => r matches GateDecision::Challenge(s) && s@ == ascii_chars(t),
            None => r is Unavailable,
        },
{
    let can_pass = match cookie_header {
        Some(header) => parse_and_verify_cookie_at(header, ip_hash, config, now),
        None => None,
    };
    match can_pass {
        Some(true) => GateDecision::Forward,
        _ => match generate_challenge_cookie_at(ip_hash, config, now) {
            Some(token) => GateDecision::Challenge(token),
            None => GateDecision::Unavailable,
        },
    }
}

/// `pow_chal=`
pub open spec fn chal_cookie_name() -> Seq<u8> {
    seq![112u8, 111u8, 119u8, 95u8, 99u8, 104u8, 97u8, 108u8, 61u8]
}

/// `; Path=/; Max-Age=`
pub open spec fn path_and_max_age() -> Seq<u8> {
    seq![
        59u8, 32u8, 80u8, 97u8, 116u8, 104u8, 61u8, 47u8, 59u8, 32u8, 77u8, 97u8, 120u8, 45u8,
        65u8, 103u8, 101u8, 61u8,
    ]
}

/// `; SameSite=Strict`
pub open spec fn same_site_strict() -> Seq<u8> {
    seq![59u8, 32u8, 83u8, 97u8, 109u8, 101u8, 83u8, 105u8, 116u8, 101u8, 61u8, 83u8, 116u8, 114u8, 105u8, 99u8, 116u8]
}

/// Appends the decimal digits of `n` to `out`.
fn push_decimal(out: &mut Vec<u8>, n: u64)
    ensures
        final(out)@ == old(out)@ + decimal_text(n as nat),
    decreases n,
{
    if n >= 10 {
        push_decimal(out, n / 10);
    }
    out.push((48 + n % 10) as u8);
    assert(final(out)@ =~= old(out)@ + decimal_text(n as nat));
}

/// The `Set-Cookie` value that hands a challenge token to the browser:
/// `pow_chal=<token>; Path=/; Max-Age=<expiry_seconds>; SameSite=Strict`.
pub fn challenge_cookie_header(token: &[u8], expiry_seconds: u64) -> (r: Vec<u8>)
    ensures
        r@ == chal_cookie_name() + token@ + path_and_max_age() + decimal_text(
            expiry_seconds as nat,
        ) + same_site_strict(),
{
    let mut out: Vec<u8> = vec![112u8, 111u8, 119u8, 95u8, 99u8, 104u8, 97u8, 108u8, 61u8];
    out.extend_from_slice(token);
    let path: Vec<u8> = vec![
        59u8, 32u8, 80u8, 97u8, 116u8, 104u8, 61u8, 47u8, 59u8, 32u8, 77u8, 97u8, 120u8, 45u8,
        65u8, 103u8, 101u8, 61u8,
    ];
    out.extend_from_slice(path.as_slice());
    push_decimal(&mut out, expiry_seconds);
    let same_site: Vec<u8> = vec![
        59u8, 32u8, 83u8, 97u8, 109u8, 101u8, 83u8, 105u8, 116u8, 101u8, 61u8, 83u8, 116u8,
        114u8, 105u8, 99u8, 116u8,
    ];
    out.extend_from_slice(same_site.as_slice());
    assert(out@ =~= chal_cookie_name() + token@ + path_and_max_age() + decimal_text(
        expiry_seconds as nat,
    ) + same_site_strict());
    out
}

} // verus!
