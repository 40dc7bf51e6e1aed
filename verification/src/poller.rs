//! Periodic poll and push.
//!
//! Two cooperating tasks:
//!
//! - The tick loop polls the rig each tick, hands the snapshot to the WebSocket
//!   clients and publishes it to the radio worker. It never waits for a network
//!   POST.
//! - The radio worker takes the latest snapshot, runs the deduper, and POSTs to
//!   `/api/radio` with the shared retry policy. Snapshots that arrive while a
//!   slow POST is in flight are superseded: the WebSocket stays live, HTTP may
//!   lag.
//!
//! Errors of a tick are logged and the loop continues; only a shutdown ends it.
use crate::binary32;
use crate::binary32::Binary32;
use crate::duration::Duration;
use crate::rigctld::exchange::{RigError, RigState, RigStateView};
use crate::text;
use crate::util;
use vstd::arithmetic::power2::pow2;
use vstd::prelude::*;

verus! {

/// How long an unchanged state is not pushed again, in seconds.
pub const HEARTBEAT_SECS: u64 = 30;

/// The half-percent bin of full scale that an RFPOWER reading falls into: 200
/// times the reading, as a whole number.
pub open spec fn rfpower_bin(rfpower: Binary32) -> int {
    binary32::nearest_i32(
        binary32::product(rfpower, Binary32 { bits: binary32::TWO_HUNDRED_BITS }),
    )
}

/// Quantizes an RFPOWER reading (`0.0..=1.0`) into half-percent bins of full
/// scale. The dedupe key compares on this value so that a continuously drifting
/// RFPOWER does not generate one POST per tick; keeping the bin relative means
/// that a low-`power_max` rig still benefits from dedupe.
pub fn quantize_rfpower(rfpower: Binary32) -> (bin: i32)
    ensures
        bin == rfpower_bin(rfpower),
{
    rfpower.times(Binary32::from_bits(binary32::TWO_HUNDRED_BITS)).to_nearest_i32()
}

/// What is compared to tell whether a state has changed.
#[verifier::ext_equal]
pub struct DedupeKeyView {
    pub freq: u64,
    pub mode: Seq<char>,
    /// `None` when the rig backend does not expose RFPOWER. Part of the key, so
    /// that a rig that starts or stops reporting power is pushed again.
    pub rfpower_q: Option<int>,
}

/// The key of a state.
pub open spec fn dedupe_key(state: RigStateView) -> DedupeKeyView {
    DedupeKeyView {
        freq: state.freq,
        mode: state.mode,
        rfpower_q: match state.power {
            Some(p) => Some(rfpower_bin(p)),
            None => None,
        },
    }
}

/// What was pushed last, and when.
struct Pushed {
    freq: u64,
    mode: String,
    rfpower_q: Option<i32>,
    at: Duration,
}

/// Skips a push when frequency, mode, and a quantized RFPOWER reading have not
/// changed and the last successful POST was less than the heartbeat ago. It
/// learns of a push only after it succeeded: a transient Wavelog outage during
/// a real QSY must not silently swallow the QSY once Wavelog comes back.
pub struct Deduper {
    last: Option<Pushed>,
}

impl View for Deduper {
    /// The key of the last push and its time in nanoseconds.
    type V = Option<(DedupeKeyView, int)>;

    closed spec fn view(&self) -> Option<(DedupeKeyView, int)> {
        match self.last {
            None => None,
            Some(p) => Some(
                (
                    DedupeKeyView {
                        freq: p.freq,
                        mode: p.mode@,
                        rfpower_q: match p.rfpower_q {
                            Some(q) => Some(q as int),
                            None => None,
                        },
                    },
                    p.at.total(),
                ),
            ),
        }
    }
}

/// A state need not be pushed at `now` (in nanoseconds).
pub open spec fn is_redundant(
    last: Option<(DedupeKeyView, int)>,
    state: RigStateView,
    now: int,
) -> bool {
    match last {
        None => false,
        Some((key, at)) => key == dedupe_key(state) && now - at < HEARTBEAT_SECS * 1_000_000_000,
    }
}

impl Deduper {
    /// The remembered time is one.
    pub closed spec fn wf(&self) -> bool {
        match self.last {
            Some(p) => p.at.wf(),
            None => true,
        }
    }

    pub fn new() -> (d: Deduper)
        ensures
            d.wf(),
            d@ is None,
    {
        Deduper { last: None }
    }

    /// Tells whether to skip the push of a state.
    pub fn should_skip(&self, state: &RigState, now: Duration) -> (skip: bool)
        requires
            self.wf(),
            now.wf(),
        ensures
            skip == is_redundant(self@, state@, now.total()),
    {
        let last = match &self.last {
            Some(p) => p,
            None => {
                return false;
            },
        };
        let same_power = match (last.rfpower_q, state.power) {
            (Some(q), Some(p)) => q == quantize_rfpower(p),
            (None, None) => true,
            _ => false,
        };
        let same_mode = text::same_text(last.mode.as_str(), state.mode.as_str());
        let heartbeat = Duration::from_secs(HEARTBEAT_SECS);
        let recent = now.since(&last.at).is_shorter_than(&heartbeat);
        proof {
            let key = self@->Some_0.0;
            let other = dedupe_key(state@);
            if last.freq == state.freq && same_mode && same_power {
                assert(key =~= other);
            } else {
                assert(key.freq != other.freq || key.mode != other.mode || key.rfpower_q
                    != other.rfpower_q);
            }
        }
        last.freq == state.freq && same_mode && same_power && recent
    }

    /// Learns of a successful push.
    pub fn record(&mut self, state: &RigState, now: Duration)
        requires
            now.wf(),
        ensures
            final(self).wf(),
            final(self)@ == Some((dedupe_key(state@), now.total())),
    {
        let rfpower_q: Option<i32> = match state.power {
            Some(p) => Some(quantize_rfpower(p)),
            None => None,
        };
        self.last = Some(Pushed { freq: state.freq, mode: state.mode.clone(), rfpower_q, at: now });
        assert(self@->Some_0.0 =~= dedupe_key(state@));
    }
}

impl Default for Deduper {
    fn default() -> (d: Self)
        ensures
            d.wf(),
            d@ is None,
    {
        Deduper::new()
    }
}

/// A state that differs in frequency, mode or power bin is pushed at once.
pub proof fn changed_state_is_pushed(last: (DedupeKeyView, int), state: RigStateView, now: int)
    requires
        last.0.freq != state.freq || last.0.mode != state.mode || last.0.rfpower_q != dedupe_key(
            state,
        ).rfpower_q,
    ensures
        !is_redundant(Some(last), state, now),
{
}

/// A state that was pushed at `at` is pushed again when the heartbeat is over,
/// and not before.
pub proof fn heartbeat_pushes_unchanged_state(state: RigStateView, at: int, now: int)
    ensures
        is_redundant(Some((dedupe_key(state), at)), state, now) <==> now < at + HEARTBEAT_SECS
            * 1_000_000_000,
{
}

/// A push that failed is due again at any later time, because the failure is
/// not remembered.
pub proof fn failed_push_stays_due(
    last: Option<(DedupeKeyView, int)>,
    state: RigStateView,
    now: int,
    later: int,
)
    requires
        !is_redundant(last, state, now),
        now <= later,
    ensures
        !is_redundant(last, state, later),
{
}

/// What the tick loop does after a poll.
pub enum TickAction {
    /// Broadcast the snapshot and publish it to the radio worker.
    Publish(RigState),
    /// Log the error and wait for the next tick.
    Report(RigError),
}

/// Decides what a poll comes to. An error ends nothing but this tick.
pub fn on_poll(polled: Result<RigState, RigError>) -> (action: TickAction)
    ensures
        match polled {
            Ok(state) => action == TickAction::Publish(state),
            Err(e) => action == TickAction::Report(e),
        },
{
    match polled {
        Ok(state) => TickAction::Publish(state),
        Err(e) => TickAction::Report(e),
    }
}

/// What the radio worker does next.
#[derive(Debug, Clone, Copy, PartialEq, Eq, Structural)]
pub enum WorkerAction {
    /// Wait for the next snapshot, or for shutdown.
    Wait,
    /// POST the state in flight, and watch for shutdown meanwhile.
    Push,
    /// Return.
    Stop,
}

/// The radio worker: takes the latest snapshots, skips the redundant ones, and
/// pushes the others one at a time. If shutdown fires during a push, the worker
/// returns without waiting for the retry schedule to exhaust.
pub struct RadioWorker {
    deduper: Deduper,
    in_flight: Option<(RigState, Duration)>,
}

impl RadioWorker {
    pub closed spec fn wf(&self) -> bool {
        &&& self.deduper.wf()
        &&& self.in_flight matches Some((_, at)) ==> at.wf()
    }

    /// What the deduper remembers.
    pub closed spec fn remembered(&self) -> Option<(DedupeKeyView, int)> {
        self.deduper@
    }

    /// The state that is being pushed and the time it was taken at.
    pub closed spec fn pushing(&self) -> Option<(RigStateView, int)> {
        match self.in_flight {
            Some((state, at)) => Some((state@, at.total())),
            None => None,
        }
    }

    pub fn new() -> (w: RadioWorker)
        ensures
            w.wf(),
            w.remembered() is None,
            w.pushing() is None,
    {
        RadioWorker { deduper: Deduper::new(), in_flight: None }
    }

    /// A snapshot was published (`None` where there has been none yet).
    pub fn on_snapshot(&mut self, snapshot: Option<RigState>, now: Duration) -> (action:
        WorkerAction)
        requires
            old(self).wf(),
            old(self).pushing() is None,
            now.wf(),
        ensures
            final(self).wf(),
            final(self).remembered() == old(self).remembered(),
            match snapshot {
                None => action == WorkerAction::Wait && final(self).pushing() is None,
                Some(state) => if is_redundant(old(self).remembered(), state@, now.total()) {
                    action == WorkerAction::Wait && final(self).pushing() is None
                } else {
                    action == WorkerAction::Push && final(self).pushing() == Some(
                        (state@, now.total()),
                    )
                },
            },
    {
        match snapshot {
            None => WorkerAction::Wait,
            Some(state) => if self.deduper.should_skip(&state, now) {
                WorkerAction::Wait
            } else {
                self.in_flight = Some((state, now));
                WorkerAction::Push
            },
        }
    }

    /// The state in flight.
    pub fn state_in_flight(&self) -> (state: Option<&RigState>)
        ensures
            match state {
                Some(s) => self.pushing() matches Some((v, _)) && v == s@,
                None => self.pushing() is None,
            },
    {
        match &self.in_flight {
            Some(p) => Some(&p.0),
            None => None,
        }
    }

    /// The push ended. Only a success is remembered.
    pub fn on_pushed(&mut self, succeeded: bool) -> (action: WorkerAction)
        requires
            old(self).wf(),
        ensures
            final(self).wf(),
            final(self).pushing() is None,
            action == WorkerAction::Wait,
            match old(self).pushing() {
                Some((state, at)) => final(self).remembered() == (if succeeded {
                    Some((dedupe_key(state), at))
                } else {
                    old(self).remembered()
                }),
                None => final(self).remembered() == old(self).remembered(),
            },
    {
        let in_flight = self.in_flight.take();
        if let Some((state, at)) = in_flight {
            if succeeded {
                self.deduper.record(&state, at);
            }
        }
        WorkerAction::Wait
    }

    /// No more snapshots will come.
    pub fn on_closed(&self) -> (action: WorkerAction)
        ensures
            action == WorkerAction::Stop,
    {
        WorkerAction::Stop
    }

    /// The shutdown signal changed (or its sender is gone). A push in flight is
    /// given up and not remembered.
    pub fn on_shutdown(&mut self, closed: bool, fired: bool) -> (action: WorkerAction)
        requires
            old(self).wf(),
        ensures
            final(self).wf(),
            final(self).remembered() == old(self).remembered(),
            final(self).pushing() is None,
            action == (if closed || fired {
                WorkerAction::Stop
            } else {
                WorkerAction::Wait
            }),
    {
        self.in_flight = None;
        if util::shutdown_observed(closed, fired) {
            WorkerAction::Stop
        } else {
            WorkerAction::Wait
        }
    }
}

/// The bin of a reading between 0.0 and 1.0 is the whole number nearest to two
/// hundred times the reading (off by no more than a half and 2^-17), from 0 to 200.
pub proof fn bin_is_nearest_half_percent(p: Binary32)
    requires
        p.spec_is_finite(),
        0 <= p.value() <= binary32::one(),
    ensures
        0 <= rfpower_bin(p) <= 200,
        2 * binary32::distance(rfpower_bin(p) * binary32::one(), 200 * p.value())
            <= binary32::one() + 2 * pow2(132),
{
    let u = binary32::one() as int;
    binary32::bits_of_zero_and_one();
    binary32::two_hundred_times_is_close(p);
    let w = binary32::product(p, Binary32 { bits: binary32::TWO_HUNDRED_BITS });
    binary32::whole_number_is_nearest(w);
    let n = rfpower_bin(p);
    assert(n >= 0) by (nonlinear_arith)
        requires
            2 * (n * u - w.value()) >= -u,
            w.value() >= 0,
            u > 0,
    ;
    assert(n <= 200) by (nonlinear_arith)
        requires
            2 * (n * u - w.value()) <= u,
            w.value() <= 200 * u,
            u > 0,
    ;
}

/// What was pushed is not pushed again for 30 seconds, as long as frequency, mode
/// and power stay as they were; then it is pushed again.
pub proof fn unchanged_state_is_pushed_every_half_minute(state: RigStateView, at: int, now: int)
    ensures
        is_redundant(Some((dedupe_key(state), at)), state, now) <==> now < at + 30_000_000_000,
{
}

/// A state is pushed at once where it differs from what was pushed last in its
/// frequency, in its mode, in whether the power is known, or in a power that is more
/// than one percent of full scale away; and the first state is pushed.
pub proof fn changes_are_pushed_at_once(last: RigStateView, state: RigStateView, at: int, now: int)
    requires
        last.power matches Some(p) ==> p.spec_is_finite() && 0 <= p.value() <= binary32::one(),
        state.power matches Some(p) ==> p.spec_is_finite() && 0 <= p.value() <= binary32::one(),
    ensures
        last.freq != state.freq ==> !is_redundant(Some((dedupe_key(last), at)), state, now),
        last.mode != state.mode ==> !is_redundant(Some((dedupe_key(last), at)), state, now),
        last.power is Some != state.power is Some ==> !is_redundant(
            Some((dedupe_key(last), at)),
            state,
            now,
        ),
        last.power is Some && state.power is Some && 100 * binary32::distance(
            last.power->Some_0.value(),
            state.power->Some_0.value(),
        ) > binary32::one() ==> !is_redundant(Some((dedupe_key(last), at)), state, now),
        !is_redundant(None, state, now),
{
    if last.power is Some && state.power is Some {
        let (p, q) = (last.power->Some_0, state.power->Some_0);
        let u = binary32::one() as int;
        bin_is_nearest_half_percent(p);
        bin_is_nearest_half_percent(q);
        vstd::arithmetic::power2::lemma2_to64();
        vstd::arithmetic::power2::lemma_pow2_adds(17, 132);
        if 100 * binary32::distance(p.value(), q.value()) > u {
            let (a, b) = (rfpower_bin(p), rfpower_bin(q));
            // Twice the distance is more than two whole bins.
            assert(a != b);
        }
    }
}

/// Small changes of the power are not pushed: states of equal frequency and mode
/// whose powers fall into the same half percent are the same to Wavelog.
pub proof fn drift_within_a_bin_is_not_pushed(
    last: RigStateView,
    state: RigStateView,
    p: Binary32,
    q: Binary32,
    at: int,
    now: int,
)
    requires
        last.freq == state.freq,
        last.mode == state.mode,
        last.power == Some(p),
        state.power == Some(q),
        rfpower_bin(p) == rfpower_bin(q),
    ensures
        is_redundant(Some((dedupe_key(last), at)), state, now) <==> now < at + 30_000_000_000,
{
    assert(dedupe_key(last) =~= dedupe_key(state));
}

/// The bin of any reading is the whole number nearest to two hundred times the reading, and
/// readings that have no such number are put at the ends.
pub proof fn any_reading_has_a_bin(p: Binary32)
    ensures
        ({
            let w = binary32::product(p, Binary32 { bits: 0x4348_0000 });
            let one = binary32::one();
            &&& w.spec_is_nan() ==> rfpower_bin(p) == 0
            &&& w.spec_is_finite() && w.value() >= 0x8000_0000 * one ==> rfpower_bin(p)
                == 0x7fff_ffff
            &&& w.spec_is_finite() && w.value() <= -0x8000_0000 * one ==> rfpower_bin(p)
                == -0x8000_0000
            &&& w.spec_is_finite() && -(0x7fff_ffff * one) <= w.value() <= 0x7fff_ffff * one ==> 2
                * binary32::distance(rfpower_bin(p) * one, w.value()) <= one
        }),
{
    let w = binary32::product(p, Binary32 { bits: 0x4348_0000 });
    binary32::whole_numbers_saturate(w);
    if w.spec_is_finite() && -(0x7fff_ffff * binary32::one()) <= w.value() <= 0x7fff_ffff
        * binary32::one() {
        binary32::whole_number_is_nearest(w);
    }
}

} // verus!
