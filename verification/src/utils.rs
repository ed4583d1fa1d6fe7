//! Small helpers shared by the command handlers.

use vstd::prelude::*;

verus! {

/// Milliseconds since the Unix epoch, used to stamp linked-account rows.
///
/// Relies on `std::time::SystemTime::now`, read as a duration since
/// `UNIX_EPOCH`; a clock before the epoch yields 0, a duration too large
/// for `i64` saturates.
#[verifier::external_body]
pub fn get_timestamp_millis() -> (r: i64)
    ensures
        r >= 0,
{
    match std::time::SystemTime::now().duration_since(std::time::UNIX_EPOCH) {
        Ok(d) => i64::try_from(d.as_millis()).unwrap_or(i64::MAX),
        Err(_) => 0,
    }
}

} // verus!
