use vstd::prelude::*;

use crate::util::{be4, push_be_u32};

verus! {

/// The SHA-256 digest of a byte string.
pub uninterp spec fn sha256_of(data: Seq<u8>) -> Seq<u8>;

/// Relies on `sha2::Sha256::digest`: the SHA-256 digest of `data`, which is
/// 32 bytes long.
#[verifier::external_body]
fn sha256(data: &[u8]) -> (r: Vec<u8>)
    ensures
        r@ == sha256_of(data@),
        r@.len() == 32,
{
    <sha2::Sha256 as sha2::Digest>::digest(data).to_vec()
}

/// Bit `i` of `b`, counting from the most significant bit of the first byte.
pub open spec fn bit_is_set(b: Seq<u8>, i: int) -> bool {
    (b[i / 8] >> ((7 - i % 8) as u8)) & 1u8 == 1u8
}

/// The first `n` bits of `b` are zero (all of them, where `b` holds fewer).
pub open spec fn leading_zero_bits(b: Seq<u8>, n: int) -> bool {
    forall|i: int| 0 <= i < n && i < 8 * b.len() ==> !#[trigger] bit_is_set(b, i)
}

/// The input that a solution is hashed over: the counter, big-endian, then
/// the challenge.
pub open spec fn work_input(challenge: Seq<u8>, magic: u32) -> Seq<u8> {
    be4(magic) + challenge
}

/// `magic` solves `challenge` at `difficulty` bits.
pub open spec fn work_ok(challenge: Seq<u8>, magic: u32, difficulty: int) -> bool {
    leading_zero_bits(sha256_of(work_input(challenge, magic)), difficulty)
}

/// Checks that the first `zero_count` bits of `bits` are zero, the most
/// significant bit of each byte first. Where `bits` holds fewer bits, all
/// of them are checked.
pub fn has_leading_zeroes(bits: &[u8], zero_count: usize) -> (r: bool)
    ensures
        r == leading_zero_bits(bits@, zero_count as int),
{
    let mut i: usize = 0;
    while i < zero_count && i / 8 < bits.len()
        invariant
            i <= zero_count,
            i <= 8 * bits@.len(),
            forall|j: int| 0 <= j < i ==> !#[trigger] bit_is_set(bits@, j),
        decreases zero_count - i,
    {
        if (bits[i / 8] >> ((7 - i % 8) as u8)) & 1u8 == 1u8 {
            assert(bit_is_set(bits@, i as int));
            return false;
        }
        i = i + 1;
    }
    true
}

/// Checks one submitted solution: hashes the four big-endian bytes of
/// `magic` followed by `challenge` with SHA-256 and tests that the first
/// `difficulty` bits of the digest are zero.
pub fn validate_work(challenge: &[u8], magic: u32, difficulty: usize) -> (r: bool)
    ensures
        r == work_ok(challenge@, magic, difficulty as int),
        sha256_of(work_input(challenge@, magic)).len() == 32,
{
    let mut input: Vec<u8> = Vec::new();
    push_be_u32(&mut input, magic);
    input.extend_from_slice(challenge);
    assert(input@ =~= work_input(challenge@, magic));
    let hash = sha256(input.as_slice());
    has_leading_zeroes(hash.as_slice(), difficulty)
}

/// Searches the counters from zero upwards for the first one that solves
/// `challenge` at `difficulty` bits; `None` when no 32-bit counter does.
pub fn solve_work(challenge: &[u8], difficulty: usize) -> (r: Option<u32>)
    ensures
        match r {
            Some(m) => work_ok(challenge@, m, difficulty as int) && forall|k: u32|
                k < m ==> !#[trigger] work_ok(challenge@, k, difficulty as int),
            None => forall|k: u32| !#[trigger] work_ok(challenge@, k, difficulty as int),
        },
{
    let mut m: u64 = 0;
    while m <= u32::MAX as u64
        invariant
            m <= u32::MAX as u64 + 1,
            forall|k: u32| (k as u64) < m ==> !#[trigger] work_ok(challenge@, k, difficulty as int),
        decreases u32::MAX as u64 + 1 - m,
    {
        if validate_work(challenge, m as u32, difficulty) {
            return Some(m as u32);
        }
        m = m + 1;
    }
    None
}

/// Zero required bits are met by every counter on every challenge.
pub proof fn lemma_zero_difficulty(challenge: Seq<u8>, magic: u32)
    ensures
        work_ok(challenge, magic, 0),
{
}

/// A solution at some difficulty is a solution at every lower difficulty.
pub proof fn lemma_difficulty_monotone(challenge: Seq<u8>, magic: u32, lower: int, higher: int)
    requires
        lower <= higher,
        work_ok(challenge, magic, higher),
    ensures
        work_ok(challenge, magic, lower),
{
}

} // verus!
