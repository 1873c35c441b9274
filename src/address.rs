use vstd::prelude::*;

use crate::config::Config;

verus! {

/// SipHash-2-4 of `data` under a 16-byte key.
pub uninterp spec fn siphash24(key: Seq<u8>, data: Seq<u8>) -> u64;

/// Relies on `siphasher::sip::SipHasher::new_with_key` and its `hash`:
/// SipHash-2-4 of `data` under `key`.
#[verifier::external_body]
fn siphash(key: &[u8; 16], data: &[u8]) -> (r: u64)
    ensures
        r == siphash24(key@, data@),
{
    siphasher::sip::SipHasher::new_with_key(key).hash(data)
}

/// The client identifier of a network address (its raw octets): a keyed
/// hash, stable while the process runs and unpredictable to clients.
pub fn hash_remote_addr(addr: &[u8], config: &Config) -> (r: u64)
    ensures
        r == siphash24(config.addr_key@, addr@),
{
    siphash(&config.addr_key, addr)
}

} // verus!
