use vstd::prelude::*;
use std::time::{Duration, SystemTime, UNIX_EPOCH};

verus! {

/// Relies on std::time::SystemTime::now and SystemTime::duration_since: the
/// wall-clock time elapsed since the Unix epoch. The value depends on the
/// machine's clock, so nothing is promised of it; callers take the
/// millisecond timestamps they derive from it as opaque, and the engine's
/// contracts ask the caller to deliver them monotonically.
#[verifier::external_body]
pub fn get_current_duration() -> Duration {
    SystemTime::now().duration_since(UNIX_EPOCH).unwrap()
}

} // verus!
