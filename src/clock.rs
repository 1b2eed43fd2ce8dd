use vstd::prelude::*;

verus! {

/// Relies on `std::time::SystemTime::now`, chrono's `From<SystemTime>` for
/// `DateTime<Utc>` (which also takes times before the Unix epoch) and
/// `DateTime::timestamp_millis`: the wall-clock time in milliseconds since the
/// Unix epoch. Nothing is promised of its value.
#[verifier::external_body]
pub(crate) fn now_millis() -> (r: i64) {
    chrono::DateTime::<chrono::Utc>::from(std::time::SystemTime::now()).timestamp_millis()
}

} // verus!
