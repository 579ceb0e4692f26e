//! What this library takes on trust.
//!
//! Three things come from outside and are not verified here: the BLAKE3
//! hash, random numbers and the system clock. Each is declared below with
//! all that the rest of the library may assume of it. Of the hash that is
//! one thing only, that the digest depends on nothing but the bytes hashed;
//! of a random number and of the time, nothing at all.

use core::time::Duration;
use vstd::prelude::*;

verus! {

/// The BLAKE3 digest of `data`, as the `blake3` crate computes it.
pub uninterp spec fn blake3_digest(data: Seq<u8>) -> Seq<u8>;

/// Hashes `data` with `blake3::hash`.
///
/// Trusted: the result is taken to be a function of the input bytes alone,
/// named `blake3_digest`. Nothing else is claimed of it.
#[verifier::external_body]
pub(crate) fn blake3_hash(data: &[u8]) -> (digest: [u8; 32])
    ensures
        digest@ == blake3_digest(data@),
{
    *blake3::hash(data).as_bytes()
}

/// `rand::random` draws a value from the thread-local generator. Nothing is
/// claimed of the value drawn.
pub assume_specification<T>[ rand::random::<T> ]() -> (value: T)
    where rand::distributions::Standard: rand::distributions::Distribution<T>
;

/// The time since the Unix epoch by the system clock, read with
/// `SystemTime::elapsed` on `UNIX_EPOCH`; `None` when the clock is set
/// before the epoch. Nothing is claimed of the duration.
#[verifier::external_body]
pub(crate) fn since_epoch() -> (elapsed: Option<Duration>) {
    match std::time::UNIX_EPOCH.elapsed() {
        Ok(elapsed) => Some(elapsed),
        Err(_) => None,
    }
}

/// The whole seconds in a duration, from `Duration::as_secs`. Nothing is
/// claimed of the number.
#[verifier::external_body]
pub(crate) fn whole_seconds(elapsed: Duration) -> (seconds: u64) {
    elapsed.as_secs()
}

} // verus!
