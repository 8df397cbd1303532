use vstd::prelude::*;

verus! {

/// Relies on chrono's `Local::now` and `DateTime::timestamp_millis`: the
/// current time as milliseconds since the Unix epoch. Nothing is promised of
/// the value.
#[verifier::external_body]
pub(crate) fn now_millis() -> (r: i64) {
    chrono::Local::now().timestamp_millis()
}

} // verus!
