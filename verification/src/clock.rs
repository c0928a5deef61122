//! The wall clock and the monotonic clock.

use vstd::prelude::*;

verus! {

/// `SystemTime::now`, in milliseconds since the Unix epoch. Nothing is claimed of
/// the value: the clock may stand anywhere and may be set back.
#[verifier::external_body]
pub(crate) fn wall_clock_ms() -> (ms: u64) {
    std::time::SystemTime::now()
        .duration_since(std::time::UNIX_EPOCH)
        .unwrap_or_default()
        .as_millis() as u64
}

/// `std::time::Instant`: a point on the monotonic clock.
#[verifier::external_type_specification]
#[verifier::external_body]
pub struct ExInstant(std::time::Instant);

/// `Instant::now`. Nothing is claimed of the value.
#[verifier::external_body]
pub(crate) fn instant_now() -> (r: std::time::Instant) {
    std::time::Instant::now()
}

/// `Instant::elapsed`, in milliseconds modulo 2^32. Nothing is claimed of the
/// value.
#[verifier::external_body]
pub(crate) fn elapsed_ms(since: &std::time::Instant) -> (ms: u32) {
    since.elapsed().as_millis() as u32
}

/// `Instant::elapsed`, as whole seconds and the nanoseconds behind them, which
/// are less than a second. Nothing else is claimed of the value.
#[verifier::external_body]
pub(crate) fn elapsed_parts(since: &std::time::Instant) -> (r: (u64, u32))
    ensures
        r.1 < 1_000_000_000,
{
    let elapsed = since.elapsed();
    (elapsed.as_secs(), elapsed.subsec_nanos())
}

/// `SystemTime::now`, as whole seconds since the Unix epoch and the nanoseconds
/// behind them, which are less than a second. Nothing else is claimed of the
/// value.
#[verifier::external_body]
pub(crate) fn wall_clock_parts() -> (r: (u64, u32))
    ensures
        r.1 < 1_000_000_000,
{
    let now = std::time::SystemTime::now()
        .duration_since(std::time::UNIX_EPOCH)
        .unwrap_or_default();
    (now.as_secs(), now.subsec_nanos())
}

} // verus!
