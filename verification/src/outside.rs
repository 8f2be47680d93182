//! The calls that leave the verified library. Verus takes the contracts in
//! this file on trust.

use vstd::prelude::*;

verus! {

/// `serde_json::Value`, carried through property maps without being read.
#[verifier::external_type_specification]
#[verifier::external_body]
pub struct ExJsonValue(serde_json::Value);

/// Asks the operating system for sixteen random bytes with `getrandom::fill`
/// and hands them out as one number, the first byte foremost; `None` where
/// the system's random source fails. The bytes are random: nothing is
/// promised of them.
#[verifier::external_body]
pub(crate) fn random_u128() -> (value: Option<u128>)
{
    let mut bytes = [0u8; 16];
    match getrandom::fill(&mut bytes) {
        Ok(()) => Some(u128::from_be_bytes(bytes)),
        Err(_) => None,
    }
}

/// The SHA-256 digest of a byte string.
pub uninterp spec fn sha256_digest(data: Seq<u8>) -> Seq<u8>;

/// Hashes `data` with `sha2::Sha256` (`Digest::digest`): the result is the
/// SHA-256 digest of the bytes, a function of the bytes alone.
#[verifier::external_body]
pub(crate) fn sha256(data: &[u8]) -> (digest: Vec<u8>)
    ensures
        digest@ == sha256_digest(data@),
{
    <sha2::Sha256 as sha2::Digest>::digest(data).to_vec()
}

/// `String::push`: appends one character to the text.
#[verifier::external_body]
pub(crate) fn push_char(text: &mut String, c: char)
    ensures
        final(text)@ == old(text)@.push(c),
{
    text.push(c)
}

/// `std::time::Instant`, a reading of the monotonic clock.
#[verifier::external_type_specification]
#[verifier::external_body]
pub struct ExInstant(std::time::Instant);

/// `Instant::now`: reads the clock. Nothing is promised of the reading.
#[verifier::external_body]
pub(crate) fn clock_now() -> (now: std::time::Instant)
{
    std::time::Instant::now()
}

/// `Instant::elapsed`: the time since a reading. Nothing is promised of it.
#[verifier::external_body]
pub(crate) fn clock_elapsed(since: &std::time::Instant) -> (elapsed: std::time::Duration)
{
    since.elapsed()
}

/// `Duration::as_nanos`: a duration in whole nanoseconds.
#[verifier::external_body]
pub(crate) fn duration_nanos(duration: &std::time::Duration) -> (nanos: u128)
{
    duration.as_nanos()
}

} // verus!
