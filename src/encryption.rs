use vstd::prelude::*;

verus! {

/// Length of an HMAC-SHA256 tag.
pub const HMAC_LENGTH: usize = 32;

/// Messages at least this long are not signed or checked: the digest
/// counts its input in bits within a `u64`.
pub const HMAC_INPUT_LIMIT: u64 = 0x1000_0000_0000_0000;

/// The HMAC-SHA256 tag of `msg` under `key`.
pub uninterp spec fn hmac_sha256(key: Seq<u8>, msg: Seq<u8>) -> Seq<u8>;

/// The tag as it is carried: the 32 bytes of `hmac_sha256`.
pub open spec fn hmac_tag_of(key: Seq<u8>, msg: Seq<u8>) -> Seq<u8> {
    Seq::new(HMAC_LENGTH as nat, |i: int| hmac_sha256(key, msg)[i])
}

/// Relies on `ring::hmac::sign` with `HMAC_SHA256`, keyed by `ring::hmac::Key::new`:
/// the HMAC-SHA256 tag of `msg`, 32 bytes long.
#[verifier::external_body]
fn hmac_tag(key: &[u8; 32], msg: &[u8]) -> (r: Vec<u8>)
    requires
        msg@.len() < HMAC_INPUT_LIMIT,
    ensures
        r@ == hmac_sha256(key@, msg@),
        r@ == hmac_tag_of(key@, msg@),
{
    let key = ring::hmac::Key::new(ring::hmac::HMAC_SHA256, key);
    ring::hmac::sign(&key, msg).as_ref().to_vec()
}

/// Relies on `ring::hmac::verify` with `HMAC_SHA256`: succeeds exactly when
/// `tag` equals the 32-byte tag of `msg`, compared in constant time.
#[verifier::external_body]
fn hmac_tag_matches(key: &[u8; 32], msg: &[u8], tag: &[u8]) -> (r: bool)
    requires
        msg@.len() < HMAC_INPUT_LIMIT,
    ensures
        r == (tag@ == hmac_tag_of(key@, msg@)),
{
    let key = ring::hmac::Key::new(ring::hmac::HMAC_SHA256, key);
    ring::hmac::verify(&key, msg, tag).is_ok()
}

/// Relies on `ring::rand::SystemRandom::fill`: bytes from the operating
/// system's secure generator, `None` when the generator fails.
#[verifier::external_body]
pub(crate) fn random_bytes<const N: usize>() -> (r: Option<[u8; N]>) {
    let mut bytes = [0u8; N];
    match ring::rand::SecureRandom::fill(&ring::rand::SystemRandom::new(), &mut bytes) {
        Ok(()) => Some(bytes),
        Err(_) => None,
    }
}

/// A fresh random HMAC-SHA256 key, 32 bytes long; `None` when the
/// operating system's generator fails.
pub fn hmac_gen_key() -> (r: Option<[u8; 32]>) {
    random_bytes::<32>()
}

/// A signed message: its tag, then the message.
pub open spec fn signed(key: Seq<u8>, msg: Seq<u8>) -> Seq<u8> {
    hmac_tag_of(key, msg) + msg
}

/// The message within `signed_msg` when its first 32 bytes are the tag of
/// the rest; `None` otherwise, and when it is shorter than a tag.
pub open spec fn verified_message(key: Seq<u8>, signed_msg: Seq<u8>) -> Option<Seq<u8>> {
    if signed_msg.len() >= HMAC_LENGTH && signed_msg.subrange(0, HMAC_LENGTH as int)
        == hmac_tag_of(key, signed_msg.subrange(HMAC_LENGTH as int, signed_msg.len() as int)) {
        Some(signed_msg.subrange(HMAC_LENGTH as int, signed_msg.len() as int))
    } else {
        None
    }
}

/// Prefixes `msg` with its HMAC-SHA256 tag under the configured key.
pub fn hmac_sign(msg: &[u8], config: &crate::config::Config) -> (r: Vec<u8>)
    requires
        msg@.len() < HMAC_INPUT_LIMIT,
    ensures
        r@ == signed(config.hmac_key@, msg@),
{
    let mut out = hmac_tag(&config.hmac_key, msg);
    out.extend_from_slice(msg);
    out
}

/// Splits `signed_msg` into tag and message and gives the message back when
/// the tag is right; a message too short to hold a tag is refused.
pub fn hmac_verify(signed_msg: &[u8], config: &crate::config::Config) -> (r: Option<Vec<u8>>)
    requires
        signed_msg@.len() < HMAC_INPUT_LIMIT,
    ensures
        match r {
            Some(v) => verified_message(config.hmac_key@, signed_msg@) == Some(v@),
            None => verified_message(config.hmac_key@, signed_msg@).is_none(),
        },
{
    if signed_msg.len() < HMAC_LENGTH {
        return None;
    }
    let tag = &signed_msg[0..HMAC_LENGTH];
    let msg = &signed_msg[HMAC_LENGTH..signed_msg.len()];
    if !hmac_tag_matches(&config.hmac_key, msg, tag) {
        return None;
    }
    let mut out: Vec<u8> = Vec::new();
    out.extend_from_slice(msg);
    Some(out)
}

/// A signed message passes the check and gives the message back.
pub proof fn lemma_sign_then_verify(key: Seq<u8>, msg: Seq<u8>)
    ensures
        verified_message(key, signed(key, msg)) == Some(msg),
{
    let s = signed(key, msg);
    assert(s.subrange(0, HMAC_LENGTH as int) =~= hmac_tag_of(key, msg));
    assert(s.subrange(HMAC_LENGTH as int, s.len() as int) =~= msg);
}

} // verus!
