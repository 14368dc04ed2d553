//! The wall clock.
use vstd::prelude::*;

verus! {

/// Reads the system clock with `std::time::SystemTime::now`, turns the
/// reading into a `chrono::DateTime<chrono::Utc>` through chrono's
/// `From<SystemTime>`, and gives the moment as
/// `chrono::DateTime::timestamp_millis` counts it: in milliseconds since the
/// Unix epoch, negative for a clock that stands before the epoch.
///
/// Nothing is proved of this function, and nothing is claimed of the number
/// that comes back: it depends on the machine. The conversion panics only
/// on a reading outside the years that chrono can hold, some 262,000 to
/// either side of the epoch.
#[verifier::external_body]
pub(crate) fn now_millis() -> (millis: i64) {
    chrono::DateTime::<chrono::Utc>::from(std::time::SystemTime::now()).timestamp_millis()
}

} // verus!
