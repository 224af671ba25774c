//! The system clock.

use vstd::prelude::*;
use std::time::{SystemTime, UNIX_EPOCH};

verus! {

/// Relies on std's `SystemTime::now`, `SystemTime::duration_since` and
/// `Duration::as_millis`: the wall clock as milliseconds since the Unix
/// epoch, or nothing when the clock reads earlier than the epoch. No
/// contract constrains the value: callers must hold for every outcome.
#[verifier::external_body]
pub fn now_millis() -> Option<u128> {
    match SystemTime::now().duration_since(UNIX_EPOCH) {
        Ok(d) => Some(d.as_millis()),
        Err(_) => None,
    }
}

} // verus!
