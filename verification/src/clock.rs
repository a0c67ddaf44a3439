//! Readings of the system clocks.
//!
//! The clocks are outside the library: a reading depends on when it is
//! taken, so nothing is promised about its value.  `Instant` and `SystemTime`
//! are opaque here; durations between readings come back as plain integers.
use vstd::prelude::*;

verus! {

#[verifier::external_type_specification]
#[verifier::external_body]
pub struct ExInstant(std::time::Instant);

#[verifier::external_type_specification]
#[verifier::external_body]
pub struct ExSystemTime(std::time::SystemTime);

/// `std::time::Instant::now`: a reading of the monotonic clock.  It depends
/// on when it is taken, so its contract states nothing.
#[verifier::external_body]
pub(crate) fn instant_now() -> (r: std::time::Instant) {
    std::time::Instant::now()
}

/// `std::time::Instant::duration_since`: the time from `earlier` to `later`,
/// zero when `later` is the earlier one (the standard library saturates
/// there).  The instants are opaque, so the contract does not say how the
/// duration relates to them.
#[verifier::external_body]
pub(crate) fn duration_between(later: &std::time::Instant, earlier: &std::time::Instant) -> (r: std::time::Duration) {
    later.duration_since(*earlier)
}

/// `std::time::Duration::as_micros`: the whole microseconds of a duration.
/// The duration is opaque, so the contract does not say which number that is.
#[verifier::external_body]
pub(crate) fn duration_micros(d: &std::time::Duration) -> (r: u128) {
    d.as_micros()
}

/// `std::time::Duration::as_millis`: the whole milliseconds of a duration.
/// The duration is opaque, so the contract does not say which number that is.
#[verifier::external_body]
pub(crate) fn duration_millis(d: &std::time::Duration) -> (r: u128) {
    d.as_millis()
}

/// `std::time::SystemTime::now`: a reading of the wall clock.  It depends on
/// when it is taken, so its contract states nothing.
#[verifier::external_body]
pub(crate) fn system_now() -> (r: std::time::SystemTime) {
    std::time::SystemTime::now()
}

/// `std::time::SystemTime::duration_since` against the Unix epoch: the time
/// since the epoch, or `None` where the standard library returns an error
/// (a reading before the epoch).  The reading is opaque, so the contract
/// does not say which.
#[verifier::external_body]
pub(crate) fn since_unix_epoch(t: &std::time::SystemTime) -> (r: Option<std::time::Duration>) {
    match t.duration_since(std::time::UNIX_EPOCH) {
        Ok(d) => Some(d),
        Err(_) => None,
    }
}

} // verus!
