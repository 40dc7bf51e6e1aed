//! What the owner of the rigctld connection decides: health of the connection,
//! and when to reconnect.
//!
//! On any I/O error the connection is dropped and made anew with capped
//! exponential backoff (500 ms, 1 s, 2 s, 5 s, 10 s).
use crate::duration::Duration;
use vstd::prelude::*;

verus! {

/// Connectivity health for the rigctld socket and the rig behind it.
///
/// `Unreachable`: TCP `connect()` is failing (rigctld itself is down).
/// `Unresponsive`: TCP works but commands fail (rig off, stuck CAT). The
/// distinction is preserved in the kind tag so the operator can tell from one
/// log line whether to check rigctld or the rig.
#[derive(Debug, Clone, Copy, PartialEq, Eq, Structural)]
pub enum HealthState {
    Healthy,
    Degraded { kind: DegradedKind, failures: u32 },
}

#[derive(Debug, Clone, Copy, PartialEq, Eq, Structural)]
pub enum DegradedKind {
    Unreachable,
    Unresponsive,
}

impl DegradedKind {
    pub fn as_str(self) -> (s: &'static str)
        ensures
            s@ == match self {
                DegradedKind::Unreachable => "unreachable"@,
                DegradedKind::Unresponsive => "unresponsive"@,
            },
    {
        match self {
            DegradedKind::Unreachable => "unreachable",
            DegradedKind::Unresponsive => "unresponsive",
        }
    }
}

/// The health behind a failure: one more of its kind in a row, or the first.
pub open spec fn after_failure(state: HealthState, kind: DegradedKind) -> HealthState {
    match state {
        HealthState::Degraded { kind: prior, failures } => if prior == kind {
            HealthState::Degraded {
                kind,
                failures: if failures < u32::MAX {
                    (failures + 1) as u32
                } else {
                    failures
                },
            }
        } else {
            HealthState::Degraded { kind, failures: 1 }
        },
        HealthState::Healthy => HealthState::Degraded { kind, failures: 1 },
    }
}

/// Health of the connection. The state is what is published to readers.
#[derive(Debug, Clone, Copy, PartialEq, Eq, Structural)]
pub struct Health {
    pub state: HealthState,
}

impl Health {
    pub fn new() -> (h: Health)
        ensures
            h.state == HealthState::Healthy,
    {
        Health { state: HealthState::Healthy }
    }

    pub fn state(&self) -> (state: HealthState)
        ensures
            state == self.state,
    {
        self.state
    }

    /// Records a failure. Returns the number of failures of this kind in a row:
    /// `1` means that the failure changed the state (`Healthy` to `Degraded`,
    /// or another kind), so that the operator gets one warning per streak.
    pub fn record_failure(&mut self, kind: DegradedKind) -> (failures: u32)
        ensures
            final(self).state == after_failure(old(self).state, kind),
            final(self).state == (HealthState::Degraded { kind, failures }),
    {
        let failures: u32 = match self.state {
            HealthState::Degraded { kind: prior, failures } => if prior == kind {
                failures.saturating_add(1)
            } else {
                1
            },
            HealthState::Healthy => 1,
        };
        self.state = HealthState::Degraded { kind, failures };
        failures
    }

    /// Records a successful command. Returns `true` when this ended a degraded
    /// streak.
    pub fn record_success(&mut self) -> (recovered: bool)
        ensures
            final(self).state == HealthState::Healthy,
            recovered == (old(self).state is Degraded),
    {
        match self.state {
            HealthState::Degraded { .. } => {
                self.state = HealthState::Healthy;
                true
            },
            HealthState::Healthy => false,
        }
    }
}

/// The failures that a row of `n` failures of one kind comes to.
pub open spec fn failed_times(state: HealthState, kind: DegradedKind, n: nat) -> HealthState
    decreases n,
{
    if n == 0 {
        state
    } else {
        after_failure(failed_times(state, kind, (n - 1) as nat), kind)
    }
}

/// Failures of one kind are counted from one, up to the largest number; only
/// the first of a streak counts one.
pub proof fn streak_counts_from_one(state: HealthState, kind: DegradedKind, n: nat)
    requires
        n > 0,
        match state {
            HealthState::Healthy => true,
            HealthState::Degraded { kind: prior, .. } => prior != kind,
        },
    ensures
        failed_times(state, kind, n) == (HealthState::Degraded {
            kind,
            failures: if n <= u32::MAX {
                n as u32
            } else {
                u32::MAX
            },
        }),
    decreases n,
{
    if n > 1 {
        streak_counts_from_one(state, kind, (n - 1) as nat);
    } else {
        assert(failed_times(state, kind, 0) == state);
    }
}

/// The delay before the reconnect with this index, in milliseconds.
pub open spec fn backoff_millis(idx: int) -> int {
    if idx <= 0 {
        500
    } else if idx == 1 {
        1000
    } else if idx == 2 {
        2000
    } else if idx == 3 {
        5000
    } else {
        10000
    }
}

/// The delay before the reconnect with this index.
pub fn backoff_delay(idx: usize) -> (delay: Duration)
    ensures
        delay.wf(),
        delay.total() == backoff_millis(idx as int) * 1_000_000,
        delay.total() == (match idx {
            0 => 500_000_000,
            1 => 1_000_000_000,
            2 => 2_000_000_000,
            3 => 5_000_000_000,
            _ => 10_000_000_000int,
        }),
{
    match idx {
        0 => Duration::from_millis(500),
        1 => Duration::from_secs(1),
        2 => Duration::from_secs(2),
        3 => Duration::from_secs(5),
        _ => Duration::from_secs(10),
    }
}

/// Delays grow with every attempt and stop growing at ten seconds.
pub proof fn backoff_is_capped(i: int, j: int)
    requires
        0 <= i <= j,
    ensures
        500 <= backoff_millis(i) <= backoff_millis(j) <= 10_000,
        j >= 4 ==> backoff_millis(j) == 10_000,
{
}

/// The state of the connection's owner.
#[derive(Debug, Clone, Copy, PartialEq, Eq, Structural)]
pub struct RigActor {
    pub health: Health,
    /// How many reconnects have been delayed since the last connection.
    pub backoff_idx: usize,
}

impl RigActor {
    pub fn new() -> (a: RigActor)
        ensures
            a.health.state == HealthState::Healthy,
            a.backoff_idx == 0,
    {
        RigActor { health: Health::new(), backoff_idx: 0 }
    }

    /// The connection is up. Says whether to announce it: a reconnect during a
    /// degraded streak is silent, because a fresh socket to rigctld does not
    /// prove that the rig is responsive again.
    pub fn on_connected(&mut self) -> (announce: bool)
        ensures
            final(self).health == old(self).health,
            final(self).backoff_idx == 0,
            announce == (old(self).health.state is Healthy),
    {
        self.backoff_idx = 0;
        matches!(self.health.state, HealthState::Healthy)
    }

    /// The connection could not be made. Returns the failures in a row.
    pub fn on_connect_failed(&mut self) -> (failures: u32)
        ensures
            final(self).health.state == after_failure(
                old(self).health.state,
                DegradedKind::Unreachable,
            ),
            final(self).health.state == (HealthState::Degraded {
                kind: DegradedKind::Unreachable,
                failures,
            }),
            final(self).backoff_idx == old(self).backoff_idx,
    {
        self.health.record_failure(DegradedKind::Unreachable)
    }

    /// A command was answered. Returns whether that ended a degraded streak.
    pub fn on_command_answered(&mut self) -> (recovered: bool)
        ensures
            final(self).health.state == HealthState::Healthy,
            recovered == (old(self).health.state is Degraded),
            final(self).backoff_idx == old(self).backoff_idx,
    {
        self.health.record_success()
    }

    /// A command lost the connection. Returns the failures in a row.
    pub fn on_command_lost(&mut self) -> (failures: u32)
        ensures
            final(self).health.state == after_failure(
                old(self).health.state,
                DegradedKind::Unresponsive,
            ),
            final(self).health.state == (HealthState::Degraded {
                kind: DegradedKind::Unresponsive,
                failures,
            }),
            final(self).backoff_idx == old(self).backoff_idx,
    {
        self.health.record_failure(DegradedKind::Unresponsive)
    }

    /// The delay before the next attempt to connect.
    pub fn next_delay(&mut self) -> (delay: Duration)
        ensures
            final(self).health == old(self).health,
            delay.wf(),
            delay.total() == backoff_millis(old(self).backoff_idx as int) * 1_000_000,
            final(self).backoff_idx == (if old(self).backoff_idx < usize::MAX {
                old(self).backoff_idx + 1
            } else {
                usize::MAX as int
            }),
    {
        let delay = backoff_delay(self.backoff_idx);
        self.backoff_idx = self.backoff_idx.saturating_add(1);
        delay
    }
}

} // verus!
