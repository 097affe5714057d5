//! The wall clock, read through the system's local time zone.

use vstd::prelude::*;

verus! {

/// Relies on `chrono::Local::now` and `DateTime::timestamp_millis`: the
/// current wall-clock time in milliseconds since the Unix epoch. Nothing is
/// assumed of the value; callers state what holds for every reading.
#[verifier::external_body]
pub fn now_millis() -> i64 {
    chrono::Local::now().timestamp_millis()
}

}
