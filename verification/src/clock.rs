//! Where identifiers and the time come from: the `uuid` crate, the system
//! clock and `chrono`'s local clock.
//!
//! Nothing is claimed of what these calls return: each may return any
//! value of its type.

use crate::message::Timestamp;
use std::time::{SystemTime, UNIX_EPOCH};
use vstd::prelude::*;

verus! {

/// `Uuid::new_v4`: a random 128-bit identifier.
#[verifier::external_body]
pub(crate) fn fresh_id() -> u128 {
    uuid::Uuid::new_v4().as_u128()
}

/// `SystemTime::now`, as the time since the Unix epoch; `None` where the
/// clock stands before the epoch.
#[verifier::external_body]
pub(crate) fn since_epoch() -> Option<Timestamp> {
    match SystemTime::now().duration_since(UNIX_EPOCH) {
        Ok(d) => Some(Timestamp { secs: d.as_secs(), nanos: d.subsec_nanos() }),
        Err(_) => None,
    }
}

/// `Local::now`: the present instant in whole seconds since the Unix
/// epoch, and the seconds by which the local clock is ahead of UTC at
/// present.
#[verifier::external_body]
pub(crate) fn local_now() -> (i64, i32) {
    let now = chrono::Local::now();
    (now.timestamp(), now.offset().local_minus_utc())
}

/// The instant `at` where there is one, else the epoch itself.
pub(crate) fn or_epoch(at: Option<Timestamp>) -> (r: Timestamp)
    ensures
        r == match at {
            Some(t) => t,
            None => (Timestamp { secs: 0, nanos: 0 }),
        },
{
    match at {
        Some(t) => t,
        None => Timestamp { secs: 0, nanos: 0 },
    }
}

/// The wall-clock time; the epoch itself where the clock stands before it.
pub(crate) fn system_now() -> Timestamp {
    or_epoch(since_epoch())
}

} // verus!
