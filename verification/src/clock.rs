//! The one place the library reads the wall clock.

use vstd::prelude::*;

verus! {

/// Relies on `std::time::SystemTime`: seconds since the Unix epoch, clamped
/// into `i64`; a clock before the epoch reads as zero. The value depends on
/// the environment, so nothing more is promised of it.
#[verifier::external_body]
pub fn now_unix() -> (r: i64)
    ensures
        r >= 0,
{
    match std::time::SystemTime::now().duration_since(std::time::UNIX_EPOCH) {
        Ok(d) => {
            let secs = d.as_secs();
            if secs > i64::MAX as u64 {
                i64::MAX
            } else {
                secs as i64
            }
        },
        Err(_) => 0,
    }
}

} // verus!
