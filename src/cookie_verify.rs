use vstd::prelude::*;

use crate::config::Config;
use crate::cookie_parse::{
    cookies_of, lemma_solution_header, parse_cookies, solution_header, MAX_COOKIE_HEADER_SIZE,
};
use crate::encryption::{
    hmac_sign, hmac_tag_of, hmac_verify, lemma_sign_then_verify, signed, verified_message,
    HMAC_INPUT_LIMIT, HMAC_LENGTH,
};
use crate::hex_codec::{
    ascii_chars, hex_bytes, hex_decode, hex_encode, hex_text, lemma_hex_bytes_len, lemma_hex_injective,
    lemma_hex_text_shape,
    lemma_hex_round_trip,
};
use crate::pow::{validate_work, work_ok};
use crate::util::{
    be8, be_u64, lemma_be8_then_read, push_be_u64, quick_be_u64, round_time,
    window_start,
};

verus! {

/// The 16-byte challenge payload: expiry, then client binding, both
/// big-endian.
pub open spec fn challenge_payload(expiry: u64, client: u64) -> Seq<u8> {
    be8(expiry) + be8(client)
}

/// The expiry of a challenge issued at `now`: the start of the 30-second
/// window of `now` plus `expiry_seconds`; `None` where that passes
/// `u64::MAX`.
pub open spec fn issue_expiry(now: u64, expiry_seconds: u64) -> Option<u64> {
    if window_start(now) + expiry_seconds <= u64::MAX {
        Some((window_start(now) + expiry_seconds) as u64)
    } else {
        None
    }
}

/// The signed challenge issued at `now` to `client`, as bytes (tag, then
/// payload).
pub open spec fn issued_signed(config: Config, client: u64, now: u64) -> Option<Seq<u8>> {
    match issue_expiry(now, config.expiry_seconds) {
        Some(e) => Some(signed(config.hmac_key@, challenge_payload(e, client))),
        None => None,
    }
}

/// The challenge token issued at `now` to `client`: the hexadecimal text of
/// the signed challenge.
pub open spec fn issued_token(config: Config, client: u64, now: u64) -> Option<Seq<u8>> {
    match issued_signed(config, client, now) {
        Some(s) => Some(hex_text(s)),
        None => None,
    }
}

/// The verdict on a decoded signed challenge and a solution. `None` when the
/// tag is wrong or the payload is not 16 bytes; otherwise whether the
/// payload binds `client`, has not expired at `now`, and `magic` solves the
/// whole signed challenge at the configured difficulty.
pub open spec fn signed_verdict(
    config: Config,
    signed_msg: Seq<u8>,
    magic: u32,
    client: u64,
    now: u64,
) -> Option<bool> {
    match verified_message(config.hmac_key@, signed_msg) {
        Some(p) => if p.len() == 16 {
            Some(
                be_u64(p.subrange(8, 16)) == client && be_u64(p.subrange(0, 8)) >= now
                    && work_ok(signed_msg, magic, config.required_bits()),
            )
        } else {
            None
        },
        None => None,
    }
}

/// The verdict on a hexadecimal challenge token and a solution; `None` also
/// when the token is not hexadecimal.
pub open spec fn token_verdict(config: Config, token: Seq<u8>, magic: u32, client: u64, now: u64) -> Option<bool> {
    match hex_bytes(token) {
        Some(s) => signed_verdict(config, s, magic, client, now),
        None => None,
    }
}

/// The verdict on a raw cookie header; `None` also when the header does not
/// yield both cookies.
pub open spec fn cookie_verdict(config: Config, header: Seq<u8>, client: u64, now: u64) -> Option<bool> {
    match cookies_of(header) {
        Some((token, magic)) => token_verdict(config, token, magic, client, now),
        None => None,
    }
}

/// Relies on `std::time::SystemTime::now`: whole seconds since the Unix
/// epoch, `None` for a clock set before it.
#[verifier::external_body]
fn unix_now() -> (r: Option<u64>) {
    std::time::SystemTime::now().duration_since(std::time::UNIX_EPOCH).ok().map(|d| d.as_secs())
}

/// Checks a hexadecimal challenge token and a solution for `client` at time
/// `now` (seconds since the Unix epoch).
pub fn verify_token(token: &[u8], magic: u32, client: u64, config: &Config, now: u64) -> (r: Option<bool>)
    requires
        token@.len() < HMAC_INPUT_LIMIT,
    ensures
        r == token_verdict(*config, token@, magic, client, now),
{
    let signed_challenge = match hex_decode(token) {
        Some(v) => v,
        None => return None,
    };
    proof {
        lemma_hex_bytes_len(token@);
    }
    let payload = match hmac_verify(signed_challenge.as_slice(), config) {
        Some(p) => p,
        None => return None,
    };
    if payload.len() != 16 {
        return None;
    }
    let expiry = quick_be_u64(&payload.as_slice()[0..8]);
    let bound = quick_be_u64(&payload.as_slice()[8..16]);
    match (expiry, bound) {
        (Some(expiry), Some(bound)) => Some(
            bound == client && expiry >= now && validate_work(
                signed_challenge.as_slice(),
                magic,
                config.difficulty_bits(),
            ),
        ),
        _ => None,
    }
}

/// Extracts the challenge token and the solution from a raw cookie header
/// and checks them for `client` at time `now`. `None` when the header is
/// malformed or the tag is wrong, `Some(false)` when the binding, the expiry
/// or the work fails.
pub fn parse_and_verify_cookie_at(cookie_source: &[u8], client: u64, config: &Config, now: u64) -> (r: Option<bool>)
    ensures
        r == cookie_verdict(*config, cookie_source@, client, now),
{
    match parse_cookies(cookie_source) {
        Some((token, magic)) => verify_token(token, magic, client, config, now),
        None => None,
    }
}

/// `parse_and_verify_cookie_at` at the current time; `None` as well when
/// the clock reads before the Unix epoch.
pub fn parse_and_verify_cookie(cookie_source: &[u8], correct_remote_addr_hash: u64, config: &Config) -> (r: Option<bool>)
    ensures
        r.is_none() || exists|now: u64|
            r == cookie_verdict(*config, cookie_source@, correct_remote_addr_hash, now),
{
    match unix_now() {
        Some(now) => parse_and_verify_cookie_at(cookie_source, correct_remote_addr_hash, config, now),
        None => None,
    }
}

/// Issues the challenge token for `client` at time `now`: the payload of
/// expiry and binding, signed, in lower-case hexadecimal. `None` where the
/// expiry passes `u64::MAX`.
pub fn generate_challenge_cookie_at(client: u64, config: &Config, now: u64) -> (r: Option<String>)
    ensures
        match r {
            Some(s) => issued_token(*config, client, now) matches Some(t) && s@ == ascii_chars(t),
            None => issued_token(*config, client, now).is_none(),
        },
{
    let start = round_time(now);
    if config.expiry_seconds > u64::MAX - start {
        return None;
    }
    let expiry = start + config.expiry_seconds;
    let mut message: Vec<u8> = Vec::new();
    push_be_u64(&mut message, expiry);
    push_be_u64(&mut message, client);
    assert(message@ =~= challenge_payload(expiry, client));
    let signed_challenge = hmac_sign(message.as_slice(), config);
    Some(hex_encode(signed_challenge.as_slice()))
}

/// `generate_challenge_cookie_at` at the current time; `None` as well when
/// the clock reads before the Unix epoch.
pub fn generate_challenge_cookie(remote_addr_hash: u64, config: &Config) -> (r: Option<String>)
    ensures
        r.is_none() || exists|now: u64|
            #[trigger] issued_token(*config, remote_addr_hash, now) matches Some(t) && r.unwrap()@
                == ascii_chars(t),
{
    match unix_now() {
        Some(now) => generate_challenge_cookie_at(remote_addr_hash, config, now),
        None => None,
    }
}

/// What the verifier reads back from the payload of an issued challenge.
proof fn lemma_issued_reads_back(config: Config, client: u64, now: u64)
    requires
        issue_expiry(now, config.expiry_seconds).is_some(),
    ensures
        ({
            let e = issue_expiry(now, config.expiry_seconds).unwrap();
            let s = issued_signed(config, client, now).unwrap();
            let p = challenge_payload(e, client);
            &&& hex_bytes(issued_token(config, client, now).unwrap()) == Some(s)
            &&& s.len() == HMAC_LENGTH + 16
            &&& s.subrange(HMAC_LENGTH as int, s.len() as int) == p
            &&& verified_message(config.hmac_key@, s) == Some(p)
            &&& be_u64(p.subrange(0, 8)) == e
            &&& be_u64(p.subrange(8, 16)) == client
        }),
{
    let e = issue_expiry(now, config.expiry_seconds).unwrap();
    let s = issued_signed(config, client, now).unwrap();
    let p = challenge_payload(e, client);
    lemma_hex_round_trip(s);
    lemma_sign_then_verify(config.hmac_key@, p);
    assert(s.subrange(HMAC_LENGTH as int, s.len() as int) =~= p);
    assert(p.subrange(0, 8) =~= be8(e));
    assert(p.subrange(8, 16) =~= be8(client));
    lemma_be8_then_read(e);
    lemma_be8_then_read(client);
}

/// A token is accepted right after it was issued, by the client it was
/// issued to, with a solution of its signed bytes, until it expires.
pub proof fn lemma_issue_then_verify(config: Config, client: u64, issued_at: u64, now: u64, magic: u32)
    requires
        issue_expiry(issued_at, config.expiry_seconds) matches Some(e) && now <= e,
        work_ok(issued_signed(config, client, issued_at).unwrap(), magic, config.required_bits()),
    ensures
        token_verdict(config, issued_token(config, client, issued_at).unwrap(), magic, client, now)
            == Some(true),
{
    lemma_issued_reads_back(config, client, issued_at);
}

/// A token presented for another client than the one it was issued to is
/// refused.
pub proof fn lemma_binding(config: Config, client: u64, other: u64, issued_at: u64, now: u64, magic: u32)
    requires
        issue_expiry(issued_at, config.expiry_seconds).is_some(),
        other != client,
    ensures
        token_verdict(config, issued_token(config, client, issued_at).unwrap(), magic, other, now)
            == Some(false),
{
    lemma_issued_reads_back(config, client, issued_at);
}

/// A token is refused once the current time has passed its expiry; with
/// `expiry_seconds` zero that is as soon as the time passes the start of
/// the window it was issued in.
pub proof fn lemma_expiry(config: Config, client: u64, issued_at: u64, now: u64, magic: u32)
    requires
        issue_expiry(issued_at, config.expiry_seconds) matches Some(e) && now > e,
    ensures
        token_verdict(config, issued_token(config, client, issued_at).unwrap(), magic, client, now)
            == Some(false),
        config.expiry_seconds == 0 ==> issue_expiry(issued_at, config.expiry_seconds) == Some(
            window_start(issued_at),
        ),
{
    lemma_issued_reads_back(config, client, issued_at);
    let e = issue_expiry(issued_at, config.expiry_seconds).unwrap();
    let p = challenge_payload(e, client);
    let sg = issued_signed(config, client, issued_at).unwrap();
    assert(verified_message(config.hmac_key@, sg) == Some(p));
    assert(be_u64(p.subrange(0, 8)) < now);
    assert(signed_verdict(config, sg, magic, client, now) == Some(false));
}

/// Changing one byte of the tag of an issued challenge gets it refused, and
/// so does changing one byte of its payload, unless the changed payload has
/// the same HMAC tag as the issued one.
pub proof fn lemma_tamper(
    config: Config,
    client: u64,
    issued_at: u64,
    k: int,
    v: u8,
    magic: u32,
    claimed: u64,
    now: u64,
)
    requires
        issue_expiry(issued_at, config.expiry_seconds).is_some(),
        0 <= k < HMAC_LENGTH + 16,
        v != issued_signed(config, client, issued_at).unwrap()[k],
        k >= HMAC_LENGTH ==> ({
            let s = issued_signed(config, client, issued_at).unwrap();
            let t = s.update(k, v);
            hmac_tag_of(config.hmac_key@, t.subrange(HMAC_LENGTH as int, t.len() as int))
                != hmac_tag_of(config.hmac_key@, s.subrange(HMAC_LENGTH as int, s.len() as int))
        }),
    ensures
        signed_verdict(
            config,
            issued_signed(config, client, issued_at).unwrap().update(k, v),
            magic,
            claimed,
            now,
        ).is_none(),
{
    lemma_issued_reads_back(config, client, issued_at);
    let s = issued_signed(config, client, issued_at).unwrap();
    let t = s.update(k, v);
    let key = config.hmac_key@;
    if k < HMAC_LENGTH {
        assert(t.subrange(HMAC_LENGTH as int, t.len() as int) =~= s.subrange(
            HMAC_LENGTH as int,
            s.len() as int,
        ));
        assert(t.subrange(0, HMAC_LENGTH as int)[k] != s.subrange(0, HMAC_LENGTH as int)[k]);
    } else {
        assert(t.subrange(0, HMAC_LENGTH as int) =~= s.subrange(0, HMAC_LENGTH as int));
    }
}

proof fn lemma_window_start(t: u64)
    ensures
        window_start(t) == 30 * (t / 30),
{
}

proof fn lemma_payload_differs(config: Config, client: u64, t1: u64, t2: u64)
    requires
        issue_expiry(t1, config.expiry_seconds) matches Some(e1) && issue_expiry(
            t2,
            config.expiry_seconds,
        ) matches Some(e2) && e1 != e2,
    ensures
        issued_signed(config, client, t1) != issued_signed(config, client, t2),
{
    let e1 = issue_expiry(t1, config.expiry_seconds).unwrap();
    let e2 = issue_expiry(t2, config.expiry_seconds).unwrap();
    lemma_issued_reads_back(config, client, t1);
    lemma_issued_reads_back(config, client, t2);
    let p1 = challenge_payload(e1, client);
    let p2 = challenge_payload(e2, client);
    assert(be_u64(p1.subrange(0, 8)) != be_u64(p2.subrange(0, 8)));
    assert(p1 != p2);
}

/// Two challenges for one client issued within one 30-second window are the
/// same token; issued in different windows, they differ.
pub proof fn lemma_same_window(config: Config, client: u64, t1: u64, t2: u64)
    requires
        issue_expiry(t1, config.expiry_seconds).is_some(),
        issue_expiry(t2, config.expiry_seconds).is_some(),
    ensures
        t1 / 30 == t2 / 30 ==> issued_token(config, client, t1) == issued_token(config, client, t2),
        t1 / 30 != t2 / 30 ==> issued_token(config, client, t1) != issued_token(config, client, t2),
{
    lemma_window_start(t1);
    lemma_window_start(t2);
    if t1 / 30 != t2 / 30 {
        lemma_payload_differs(config, client, t1, t2);
        let s1 = issued_signed(config, client, t1).unwrap();
        let s2 = issued_signed(config, client, t2).unwrap();
        lemma_hex_injective(s1, s2);
    }
}

/// The header that the page script sends back for a token is judged as
/// the token and the solution themselves.
proof fn lemma_header_verdict(config: Config, signed_msg: Seq<u8>, magic: u32, client: u64, now: u64)
    requires
        signed_msg.len() == HMAC_LENGTH + 16,
    ensures
        cookie_verdict(config, solution_header(hex_text(signed_msg), magic), client, now)
            == token_verdict(config, hex_text(signed_msg), magic, client, now),
{
    lemma_hex_text_shape(signed_msg);
    lemma_solution_header(hex_text(signed_msg), magic);
}

/// The cookie header that the page script sends back for an issued token
/// and a solution of it is accepted, by the client it was issued to, until
/// the token expires.
pub proof fn lemma_issue_then_verify_header(
    config: Config,
    client: u64,
    issued_at: u64,
    now: u64,
    magic: u32,
)
    requires
        issue_expiry(issued_at, config.expiry_seconds) matches Some(e) && now <= e,
        work_ok(issued_signed(config, client, issued_at).unwrap(), magic, config.required_bits()),
    ensures
        cookie_verdict(
            config,
            solution_header(issued_token(config, client, issued_at).unwrap(), magic),
            client,
            now,
        ) == Some(true),
{
    lemma_issued_reads_back(config, client, issued_at);
    lemma_header_verdict(config, issued_signed(config, client, issued_at).unwrap(), magic, client, now);
    lemma_issue_then_verify(config, client, issued_at, now, magic);
}

/// The cookie header sent back with a counter that does not solve the
/// issued token is refused (and so answered with a new challenge).
pub proof fn lemma_wrong_solution_header(
    config: Config,
    client: u64,
    issued_at: u64,
    now: u64,
    magic: u32,
)
    requires
        issue_expiry(issued_at, config.expiry_seconds).is_some(),
        !work_ok(issued_signed(config, client, issued_at).unwrap(), magic, config.required_bits()),
    ensures
        cookie_verdict(
            config,
            solution_header(issued_token(config, client, issued_at).unwrap(), magic),
            client,
            now,
        ) == Some(false),
{
    lemma_issued_reads_back(config, client, issued_at);
    lemma_header_verdict(config, issued_signed(config, client, issued_at).unwrap(), magic, client, now);
}

/// A cookie header carrying an issued challenge with one byte changed is
/// refused, under the same condition as `lemma_tamper`.
pub proof fn lemma_tamper_header(
    config: Config,
    client: u64,
    issued_at: u64,
    k: int,
    v: u8,
    magic: u32,
    claimed: u64,
    now: u64,
)
    requires
        issue_expiry(issued_at, config.expiry_seconds).is_some(),
        0 <= k < HMAC_LENGTH + 16,
        v != issued_signed(config, client, issued_at).unwrap()[k],
        k >= HMAC_LENGTH ==> ({
            let s = issued_signed(config, client, issued_at).unwrap();
            let t = s.update(k, v);
            hmac_tag_of(config.hmac_key@, t.subrange(HMAC_LENGTH as int, t.len() as int))
                != hmac_tag_of(config.hmac_key@, s.subrange(HMAC_LENGTH as int, s.len() as int))
        }),
    ensures
        cookie_verdict(
            config,
            solution_header(
                hex_text(issued_signed(config, client, issued_at).unwrap().update(k, v)),
                magic,
            ),
            claimed,
            now,
        ).is_none(),
{
    lemma_issued_reads_back(config, client, issued_at);
    let t = issued_signed(config, client, issued_at).unwrap().update(k, v);
    lemma_header_verdict(config, t, magic, claimed, now);
    lemma_hex_round_trip(t);
    lemma_tamper(config, client, issued_at, k, v, magic, claimed, now);
}

/// A cookie header longer than `MAX_COOKIE_HEADER_SIZE` is never accepted,
/// whatever it holds.
pub proof fn lemma_oversized_header(config: Config, header: Seq<u8>, client: u64, now: u64)
    requires
        header.len() > MAX_COOKIE_HEADER_SIZE,
    ensures
        cookie_verdict(config, header, client, now).is_none(),
{
}

} // verus!
