//! The wall clock, in whole seconds.

use vstd::prelude::*;
use crate::outside::{since_unix_epoch, whole_seconds};

verus! {

/// Seconds since the Unix epoch by the system clock; zero where the clock
/// stands before the epoch.
pub fn get_current_timestamp() -> u64 {
    let seconds_since_epoch = match since_unix_epoch() {
        Some(d) => Some(whole_seconds(&d)),
        None => None,
    };
    timestamp_from(seconds_since_epoch)
}

/// The timestamp for what the clock gave: the whole seconds since the Unix
/// epoch, and zero where the clock stands before the epoch.
pub fn timestamp_from(seconds_since_epoch: Option<u64>) -> (timestamp: u64)
    ensures
        timestamp == match seconds_since_epoch {
            Some(seconds) => seconds,
            None => 0,
        },
{
    match seconds_since_epoch {
        Some(seconds) => seconds,
        None => 0,
    }
}

} // verus!
