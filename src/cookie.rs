//! The cookie: a 32-bit authenticator derived from a target and the scan's
//! seed and start time, recomputed for every reply instead of being stored.
use std::collections::hash_map::DefaultHasher;
use std::hash::{Hash, Hasher};
use vstd::prelude::*;

verus! {

/// An IPv4 socket: the address as a big-endian 32-bit value, and a port.
#[derive(Clone, Copy, Debug, PartialEq, Eq, Structural)]
pub struct Endpoint {
    pub ip: u32,
    pub port: u16,
}

impl Endpoint {
    pub fn new(ip: u32, port: u16) -> (r: Endpoint)
        ensures
            r.ip == ip && r.port == port,
    {
        Endpoint { ip, port }
    }
}

/// What std's `DefaultHasher` yields for the tuple (address, port, seed, start).
pub uninterp spec fn sip_digest(ip: u32, port: u16, seed: i64, start_ms: i64) -> u64;

/// The cookie of `target` for a scan with `seed` that started at `start_ms`.
pub open spec fn spec_cookie(target: Endpoint, seed: i64, start_ms: i64) -> u32 {
    sip_digest(target.ip, target.port, seed, start_ms) as u32
}

/// Relies on std's `DefaultHasher` (its `new`, the `Hash` impl of the tuple and
/// `finish`): hashers made by `new` all start from the same fixed state, so the
/// digest depends on the hashed values alone.
#[verifier::external_body]
fn digest(ip: u32, port: u16, seed: i64, start_ms: i64) -> (r: u64)
    ensures
        r == sip_digest(ip, port, seed, start_ms),
{
    let mut hasher = DefaultHasher::new();
    (pnet::util::core_net::Ipv4Addr::from(ip), port, seed, start_ms).hash(&mut hasher);
    hasher.finish()
}

/// The cookie for `target`: a pure function of the target, the seed and the
/// scan's start time.
pub fn cookie(target: &Endpoint, seed: i64, start_ms: i64) -> (r: u32)
    ensures
        r == spec_cookie(*target, seed, start_ms),
{
    digest(target.ip, target.port, seed, start_ms) as u32
}

/// The cookie is deterministic: equal targets under the same seed and start
/// time get equal cookies.
pub proof fn lemma_cookie_deterministic(a: Endpoint, b: Endpoint, seed: i64, start_ms: i64)
    requires
        a == b,
    ensures
        spec_cookie(a, seed, start_ms) == spec_cookie(b, seed, start_ms),
{
}

} // verus!
