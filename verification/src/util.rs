//! Helpers shared across modules.
use crate::duration::Duration;
use vstd::prelude::*;

verus! {

/// True if shutdown has fired or its sender was dropped (`closed`).
pub fn shutdown_observed(closed: bool, fired: bool) -> (observed: bool)
    ensures
        observed == (closed || fired),
{
    closed || fired
}

/// Unix time in milliseconds, from the time since the epoch; 0 if the system
/// clock is before the epoch. A time that 64 bits cannot hold wraps around.
pub fn epoch_millis(since_epoch: Option<Duration>) -> (millis: u64)
    ensures
        match since_epoch {
            Some(d) => millis == (d.secs * 1000 + d.nanos as int / 1_000_000)
                % 0x1_0000_0000_0000_0000,
            None => millis == 0,
        },
{
    match since_epoch {
        Some(d) => ((d.secs as u128 * 1000 + (d.nanos / 1_000_000) as u128)
            % 0x1_0000_0000_0000_0000) as u64,
        None => 0,
    }
}

} // verus!
