use vstd::prelude::*;

use crate::encryption::{hmac_gen_key, random_bytes};

verus! {

/// Process-wide settings, made once at start and only read afterwards.
#[derive(Clone, Copy)]
pub struct Config {
    /// Leading zero bytes that a solution's digest must start with.
    pub difficulty_bytes: usize,
    /// How long a challenge stays valid, counted from the start of its
    /// 30-second window.
    pub expiry_seconds: u64,
    /// The HMAC-SHA256 signing key.
    pub hmac_key: [u8; 32],
    /// The SipHash key of the client identifier.
    pub addr_key: [u8; 16],
}

impl Config {
    /// The number of leading zero bits that `difficulty_bytes` asks for
    /// (saturating at `usize::MAX`).
    pub open spec fn required_bits(&self) -> int {
        if self.difficulty_bytes <= usize::MAX / 8 {
            8 * self.difficulty_bytes
        } else {
            usize::MAX as int
        }
    }

    /// Computes `required_bits`.
    pub fn difficulty_bits(&self) -> (r: usize)
        ensures
            r == self.required_bits(),
    {
        if self.difficulty_bytes <= usize::MAX / 8 {
            8 * self.difficulty_bytes
        } else {
            usize::MAX
        }
    }
}

impl Config {
    /// Two zero bytes of work, five minutes of validity, and fresh random
    /// keys; `None` when no random keys can be drawn.
    pub fn generate() -> (r: Option<Config>)
        ensures
            r matches Some(c) ==> c.difficulty_bytes == 2 && c.expiry_seconds == 300,
    {
        let hmac_key = match hmac_gen_key() {
            Some(k) => k,
            None => return None,
        };
        let addr_key = match random_bytes::<16>() {
            Some(k) => k,
            None => return None,
        };
        Some(Config { difficulty_bytes: 2, expiry_seconds: 300, hmac_key, addr_key })
    }
}

} // verus!
