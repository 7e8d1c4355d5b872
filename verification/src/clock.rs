//! Durations and instants of `std::time`, as the frame statistics use them.
use vstd::prelude::*;
use std::time::{Duration, Instant};

verus! {

#[verifier::external_type_specification]
#[verifier::external_body]
pub struct ExInstant(Instant);

/// Nanoseconds in one second.
pub const NANOS_PER_SEC: u128 = 1_000_000_000;

/// Length of the longest `Duration`: `u64::MAX` seconds and 999 999 999 nanoseconds.
pub const MAX_DURATION_NANOS: u128 = 18_446_744_073_709_551_615_999_999_999;

/// Length of a `Duration` in nanoseconds.
pub uninterp spec fn duration_nanos(d: Duration) -> nat;

/// `Duration::as_nanos`: the total number of nanoseconds of `d`, which is at most
/// the length of the longest duration.
#[verifier::external_body]
pub(crate) fn duration_as_nanos(d: Duration) -> (r: u128)
    ensures
        r == duration_nanos(d),
        r <= MAX_DURATION_NANOS,
{
    d.as_nanos()
}

/// `Duration::new`: `secs` seconds and `nanos` nanoseconds (below one second, so
/// nothing carries over and nothing can overflow).
#[verifier::external_body]
pub(crate) fn duration_new(secs: u64, nanos: u32) -> (r: Duration)
    requires
        nanos < 1_000_000_000,
    ensures
        duration_nanos(r) == secs * 1_000_000_000 + nanos,
{
    Duration::new(secs, nanos)
}

/// `Duration::from_secs`: `secs` whole seconds.
#[verifier::external_body]
pub(crate) fn duration_from_secs(secs: u64) -> (r: Duration)
    ensures
        duration_nanos(r) == secs * 1_000_000_000,
{
    Duration::from_secs(secs)
}

/// `Instant::now`: the current instant; nothing is stated of it.
#[verifier::external_body]
pub(crate) fn instant_now() -> (r: Instant) {
    Instant::now()
}

/// `Instant::elapsed`: the time passed since `i`, zero if `i` lies ahead of the
/// clock; its length depends on when it is called, so nothing is stated of it.
#[verifier::external_body]
pub(crate) fn instant_elapsed(i: &Instant) -> (r: Duration) {
    i.elapsed()
}

/// A `Duration` of `nanos` nanoseconds.
pub(crate) fn duration_from_nanos(nanos: u128) -> (r: Duration)
    requires
        nanos <= MAX_DURATION_NANOS,
    ensures
        duration_nanos(r) == nanos,
{
    let secs = nanos / NANOS_PER_SEC;
    let sub = nanos % NANOS_PER_SEC;
    assert(secs <= u64::MAX);
    duration_new(secs as u64, sub as u32)
}

} // verus!
