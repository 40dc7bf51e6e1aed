//! WebSocket server for Wavelog's frontend.
//!
//! Wavelog's `assets/js/cat.js` opens a WebSocket and consumes `radio_status`
//! frames to drive its live widgets.
//!
//! - One outbound message type besides the welcome: `radio_status`, sent on
//!   every poll tick and not deduped.
//! - Inbound messages are accepted and discarded.
//! - The origin check is strict. The WebSocket handshake has no CORS; the server
//!   alone decides whether to accept it. The `Origin` header has to equal the
//!   configured Wavelog URL's origin.
use crate::binary32;
use crate::binary32::Binary32;
use crate::listener;
use crate::rigctld::exchange::RigState;
use crate::text;
use crate::util;
use vstd::prelude::*;

verus! {

/// Frames that a client may fall behind before it is dropped.
pub const CHANNEL_CAPACITY: usize = 16;

/// How many characters of an inbound text are logged.
pub const INBOUND_LOG_TRUNC: usize = 120;

pub const STATUS_FORBIDDEN: u16 = 403;

/// Why the server stopped.
#[derive(Debug)]
pub enum WsError {
    Serve(String),
}

impl WsError {
    /// The error as shown to the operator.
    pub fn message(&self) -> (shown: String)
        ensures
            self matches WsError::Serve(why) && shown@ == "axum serve loop failed: "@ + why@,
    {
        let WsError::Serve(why) = self;
        let mut shown = String::new();
        shown.append("axum serve loop failed: ");
        shown.append(why.as_str());
        assert(shown@ == "axum serve loop failed: "@ + why@);
        shown
    }
}

/// The first frame that a client gets.
pub fn welcome_frame() -> (frame: &'static str)
    ensures
        frame@ == "{\"type\":\"welcome\"}"@,
{
    "{\"type\":\"welcome\"}"
}

/// A `radio_status` frame, before it is serialized.
#[derive(Debug)]
pub struct RadioStatus {
    /// The `type` of the frame: always `radio_status`.
    pub kind: &'static str,
    pub radio: String,
    pub frequency: u64,
    pub mode: String,
    /// Watts. Omitted when the rig backend does not expose RFPOWER readback, so
    /// that the rig card shows freq/mode without a fake wattage.
    pub power: Option<Binary32>,
    /// Unix epoch milliseconds: Wavelog drives the rig card's staleness
    /// indicator by it.
    pub timestamp: u64,
}

/// The watts of an RFPOWER reading.
pub open spec fn watts(power: Option<Binary32>, power_max: Binary32) -> Option<Binary32> {
    match power {
        Some(p) => Some(binary32::product(p, power_max)),
        None => None,
    }
}

/// Scales an RFPOWER reading to watts.
pub fn to_watts(power: Option<Binary32>, power_max: Binary32) -> (scaled: Option<Binary32>)
    ensures
        scaled == watts(power, power_max),
{
    match power {
        Some(p) => Some(p.times(power_max)),
        None => None,
    }
}

/// Builds the `radio_status` frame of a snapshot.
pub fn radio_status(
    radio: &str,
    power_max: Binary32,
    state: &RigState,
    now_millis: u64,
) -> (frame: RadioStatus)
    ensures
        frame.kind@ == "radio_status"@,
        frame.radio@ == radio@,
        frame.frequency == state.freq,
        frame.mode@ == state.mode@,
        frame.power == watts(state.power, power_max),
        frame.timestamp == now_millis,
{
    RadioStatus {
        kind: "radio_status",
        radio: radio.to_owned(),
        frequency: state.freq,
        mode: state.mode.clone(),
        power: to_watts(state.power, power_max),
        timestamp: now_millis,
    }
}

/// Decides on a handshake: accepted only from the allowed origin, else answered
/// with the returned status. A handshake without an origin is refused.
pub fn vet_origin(origin: Option<&[u8]>, allowed: &[u8]) -> (vetted: Result<(), u16>)
    ensures
        vetted is Ok <==> (origin matches Some(o) && o@ == allowed@),
        vetted matches Err(status) ==> status == 403,
{
    match origin {
        Some(o) => if listener::origin_matches(o, allowed) {
            Ok(())
        } else {
            Err(STATUS_FORBIDDEN)
        },
        None => Err(STATUS_FORBIDDEN),
    }
}

/// What comes from the broadcast of frames.
#[derive(Debug, Clone, Copy, PartialEq, Eq, Structural)]
pub enum Broadcast {
    /// A frame.
    Frame,
    /// The client fell behind by this many frames.
    Lagged(u64),
    /// There will be no more frames.
    Closed,
}

/// What comes from the client.
#[derive(Debug)]
pub enum Inbound {
    Text(String),
    Binary,
    PingOrPong,
    Close,
    /// The socket failed.
    Failed,
    /// The socket is at its end.
    End,
}

/// What to do next on a connection.
#[derive(Debug)]
pub enum WsAction {
    /// Send the welcome frame.
    Welcome,
    /// Send the frame that was broadcast.
    Forward,
    /// Wait for what comes next.
    Wait,
    /// Log this beginning of an ignored text, and wait.
    LogText(String),
    /// Send a close frame and return.
    CloseAndStop,
    /// Return.
    Stop,
}

/// What an inbound message says.
#[verifier::ext_equal]
pub enum InboundView {
    Text(Seq<char>),
    Binary,
    PingOrPong,
    Close,
    Failed,
    End,
}

impl View for Inbound {
    type V = InboundView;

    open spec fn view(&self) -> InboundView {
        match self {
            Inbound::Text(s) => InboundView::Text(s@),
            Inbound::Binary => InboundView::Binary,
            Inbound::PingOrPong => InboundView::PingOrPong,
            Inbound::Close => InboundView::Close,
            Inbound::Failed => InboundView::Failed,
            Inbound::End => InboundView::End,
        }
    }
}

/// What an action says.
#[verifier::ext_equal]
pub enum WsActionView {
    Welcome,
    Forward,
    Wait,
    LogText(Seq<char>),
    CloseAndStop,
    Stop,
}

impl View for WsAction {
    type V = WsActionView;

    open spec fn view(&self) -> WsActionView {
        match self {
            WsAction::Welcome => WsActionView::Welcome,
            WsAction::Forward => WsActionView::Forward,
            WsAction::Wait => WsActionView::Wait,
            WsAction::LogText(s) => WsActionView::LogText(s@),
            WsAction::CloseAndStop => WsActionView::CloseAndStop,
            WsAction::Stop => WsActionView::Stop,
        }
    }
}

/// Where a connection stands.
#[derive(Debug, Clone, Copy, PartialEq, Eq, Structural)]
pub enum Phase {
    /// The welcome frame is on its way.
    Greeting,
    /// The client has been welcomed.
    Open,
    /// The connection is over.
    Over,
}

/// A connection at its beginning: the client is welcomed, unless shutdown fired
/// already.
pub open spec fn opened(fired: bool) -> (Phase, WsActionView) {
    if fired {
        (Phase::Over, WsActionView::CloseAndStop)
    } else {
        (Phase::Greeting, WsActionView::Welcome)
    }
}

/// The beginning of a text that is logged.
pub open spec fn truncated(s: Seq<char>) -> Seq<char> {
    if s.len() > INBOUND_LOG_TRUNC {
        s.take(INBOUND_LOG_TRUNC as int)
    } else {
        s
    }
}

/// What happens on a connection.
pub enum WsEvent {
    /// The frame of the last action was sent, or could not be.
    Sent(bool),
    /// The shutdown signal changed, or its sender is gone.
    Shutdown { closed: bool, fired: bool },
    /// The broadcast yielded something.
    Got(Broadcast),
    /// The client sent something.
    Inbound(InboundView),
}

/// What a connection that is not over does on an event.
pub open spec fn stepped(phase: Phase, event: WsEvent) -> (Phase, WsActionView) {
    match event {
        WsEvent::Sent(true) => (Phase::Open, WsActionView::Wait),
        WsEvent::Sent(false) => (Phase::Over, WsActionView::Stop),
        WsEvent::Shutdown { closed, fired } => if closed || fired {
            (Phase::Over, WsActionView::CloseAndStop)
        } else {
            (phase, WsActionView::Wait)
        },
        WsEvent::Got(Broadcast::Frame) => (phase, WsActionView::Forward),
        WsEvent::Got(Broadcast::Lagged(_)) => (Phase::Over, WsActionView::CloseAndStop),
        WsEvent::Got(Broadcast::Closed) => (Phase::Over, WsActionView::Stop),
        WsEvent::Inbound(InboundView::Text(s)) => (phase, WsActionView::LogText(truncated(s))),
        WsEvent::Inbound(InboundView::Binary) => (phase, WsActionView::Wait),
        WsEvent::Inbound(InboundView::PingOrPong) => (phase, WsActionView::Wait),
        WsEvent::Inbound(_) => (Phase::Over, WsActionView::Stop),
    }
}

/// An event that can happen in a phase: while the welcome is on its way nothing
/// else is waited for.
pub open spec fn can_happen(phase: Phase, event: WsEvent) -> bool {
    match phase {
        Phase::Greeting => event is Sent,
        Phase::Open => true,
        Phase::Over => false,
    }
}

/// One client's connection.
#[derive(Debug, Clone, Copy, PartialEq, Eq, Structural)]
pub struct WsConnection {
    pub phase: Phase,
}

impl WsConnection {
    /// A client has connected.
    pub fn open(fired: bool) -> (connection: (WsConnection, WsAction))
        ensures
            (connection.0.phase, connection.1@) == opened(fired),
    {
        if fired {
            (WsConnection { phase: Phase::Over }, WsAction::CloseAndStop)
        } else {
            (WsConnection { phase: Phase::Greeting }, WsAction::Welcome)
        }
    }

    /// The frame of the last action was sent, or could not be.
    pub fn on_sent(&mut self, succeeded: bool) -> (action: WsAction)
        requires
            can_happen(old(self).phase, WsEvent::Sent(succeeded)),
        ensures
            (final(self).phase, action@) == stepped(old(self).phase, WsEvent::Sent(succeeded)),
    {
        if succeeded {
            self.phase = Phase::Open;
            WsAction::Wait
        } else {
            self.phase = Phase::Over;
            WsAction::Stop
        }
    }

    /// The shutdown signal changed, or its sender is gone.
    pub fn on_shutdown(&mut self, closed: bool, fired: bool) -> (action: WsAction)
        requires
            can_happen(old(self).phase, WsEvent::Shutdown { closed, fired }),
        ensures
            (final(self).phase, action@) == stepped(
                old(self).phase,
                WsEvent::Shutdown { closed, fired },
            ),
    {
        if util::shutdown_observed(closed, fired) {
            self.phase = Phase::Over;
            WsAction::CloseAndStop
        } else {
            WsAction::Wait
        }
    }

    /// The broadcast yielded something. A client that lags is dropped: the
    /// frontend reconnects, and stale state is worse than a gap.
    pub fn on_broadcast(&mut self, got: Broadcast) -> (action: WsAction)
        requires
            can_happen(old(self).phase, WsEvent::Got(got)),
        ensures
            (final(self).phase, action@) == stepped(old(self).phase, WsEvent::Got(got)),
    {
        match got {
            Broadcast::Frame => WsAction::Forward,
            Broadcast::Lagged(_) => {
                self.phase = Phase::Over;
                WsAction::CloseAndStop
            },
            Broadcast::Closed => {
                self.phase = Phase::Over;
                WsAction::Stop
            },
        }
    }

    /// The client sent something. Nothing that a client sends is answered.
    pub fn on_inbound(&mut self, got: Inbound) -> (action: WsAction)
        requires
            can_happen(old(self).phase, WsEvent::Inbound(got@)),
        ensures
            (final(self).phase, action@) == stepped(old(self).phase, WsEvent::Inbound(got@)),
    {
        match got {
            Inbound::Text(s) => WsAction::LogText(truncate(s.as_str())),
            Inbound::Binary => WsAction::Wait,
            Inbound::PingOrPong => WsAction::Wait,
            _ => {
                self.phase = Phase::Over;
                WsAction::Stop
            },
        }
    }
}

/// The events can happen one after the other, from this phase on.
pub open spec fn is_course(phase: Phase, events: Seq<WsEvent>) -> bool
    decreases events.len(),
{
    events.len() == 0 || (can_happen(phase, events[0]) && is_course(
        stepped(phase, events[0]).0,
        events.skip(1),
    ))
}

/// What a connection does on events, from this phase on.
pub open spec fn actions(phase: Phase, events: Seq<WsEvent>) -> Seq<WsActionView>
    decreases events.len(),
{
    if events.len() == 0 {
        Seq::empty()
    } else {
        seq![stepped(phase, events[0]).1] + actions(
            stepped(phase, events[0]).0,
            events.skip(1),
        )
    }
}

/// The welcome is the first frame that a client gets, and the only one of its
/// kind: nothing is forwarded before it was sent, and it is not sent again.
pub proof fn welcome_comes_first(events: Seq<WsEvent>)
    requires
        events.len() > 0,
        is_course(opened(false).0, events),
    ensures
        opened(false).1 == WsActionView::Welcome,
        events[0] is Sent,
        actions(opened(false).0, events)[0] != WsActionView::Forward,
        forall|i: int|
            0 <= i < events.len() ==> #[trigger] actions(opened(false).0, events)[i]
                != WsActionView::Welcome,
{
    lemma_no_second_welcome(opened(false).0, events);
}

proof fn lemma_no_second_welcome(phase: Phase, events: Seq<WsEvent>)
    ensures
        actions(phase, events).len() == events.len(),
        forall|i: int|
            0 <= i < events.len() ==> #[trigger] actions(phase, events)[i]
                != WsActionView::Welcome,
    decreases events.len(),
{
    if events.len() > 0 {
        let next = stepped(phase, events[0]).0;
        lemma_no_second_welcome(next, events.skip(1));
        assert forall|i: int| 0 <= i < events.len() implies #[trigger] actions(phase, events)[i]
            != WsActionView::Welcome by {
            if i > 0 {
                assert(actions(phase, events)[i] == actions(next, events.skip(1))[i - 1]);
            }
        }
    }
}

/// What a client sends is discarded: no frame is sent on account of it.
pub proof fn inbound_is_never_answered(phase: Phase, got: InboundView)
    ensures
        ({
            let action = stepped(phase, WsEvent::Inbound(got)).1;
            action is Wait || action is LogText || action is Stop
        }),
{
}

/// Every snapshot's frame reaches a welcomed client: frames are not deduped.
pub proof fn every_frame_is_forwarded(frames: Seq<WsEvent>)
    requires
        forall|i: int| 0 <= i < frames.len() ==> #[trigger] frames[i] == WsEvent::Got(
            Broadcast::Frame,
        ),
    ensures
        is_course(Phase::Open, frames),
        actions(Phase::Open, frames) == Seq::new(
            frames.len(),
            |i: int| WsActionView::Forward,
        ),
    decreases frames.len(),
{
    if frames.len() > 0 {
        let rest = frames.skip(1);
        assert forall|i: int| 0 <= i < rest.len() implies #[trigger] rest[i] == WsEvent::Got(
            Broadcast::Frame,
        ) by {
            assert(rest[i] == frames[i + 1]);
        }
        every_frame_is_forwarded(rest);
        assert(frames[0] == WsEvent::Got(Broadcast::Frame));
    }
}

fn truncate(s: &str) -> (shown: String)
    ensures
        shown@ == truncated(s@),
{
    let chars = text::chars_of(s);
    if chars.len() > INBOUND_LOG_TRUNC {
        let head = vstd::slice::slice_subrange(chars.as_slice(), 0, INBOUND_LOG_TRUNC);
        assert(head@ == s@.take(INBOUND_LOG_TRUNC as int));
        text::string_of(head)
    } else {
        s.to_owned()
    }
}

/// The watts of a reading between 0.0 and 1.0 are the exact share of the maximum,
/// rounded to the nearest number: no number of the format is nearer to the reading
/// times the maximum, whatever the maximum is.
pub proof fn watts_are_the_share_of_the_maximum(p: Binary32, power_max: Binary32, c: Binary32)
    requires
        p.spec_is_finite(),
        0 <= p.value() <= binary32::one(),
        power_max.spec_is_finite(),
        power_max.value() > 0,
        c.spec_is_finite(),
    ensures
        watts(Some(p), power_max) matches Some(w) && {
            &&& w.spec_is_finite()
            &&& 0 <= w.value() <= power_max.value()
            &&& binary32::distance(p.value() * power_max.value(), w.value() * binary32::one())
                <= binary32::distance(p.value() * power_max.value(), c.value() * binary32::one())
            &&& binary32::distance(p.value() * power_max.value(), w.value() * binary32::one())
                == binary32::distance(p.value() * power_max.value(), c.value() * binary32::one())
                && c.value() != w.value() ==> w.bits % 2 == 0
        },
{
    let u = binary32::one() as int;
    let (v, m) = (p.value(), power_max.value());
    binary32::bits_of_zero_and_one();
    assert(0 <= v * m <= m * u) by (nonlinear_arith)
        requires
            0 <= v <= u,
            m > 0,
    ;
    binary32::product_is_finite_in_range(p, power_max, power_max);
    binary32::finite_product_is_nearest(p, power_max, c);
    binary32::finite_product_is_nearest(p, power_max, power_max);
    let zero = Binary32 { bits: 0 };
    binary32::finite_product_is_nearest(p, power_max, zero);
    let w = binary32::product(p, power_max).value();
    assert(0 * u == 0);
    if w > m {
        assert(w * u > m * u) by (nonlinear_arith)
            requires
                w > m,
                u > 0,
        ;
    }
    if w < 0 {
        assert(w * u < 0) by (nonlinear_arith)
            requires
                w < 0,
                u > 0,
        ;
    }
}

/// Full power is reported as the maximum itself, and a rig that does not give its
/// power is reported without one.
pub proof fn full_power_is_the_maximum(power_max: Binary32)
    requires
        power_max.spec_is_finite(),
    ensures
        watts(Some(Binary32 { bits: 0x3f80_0000 }), power_max) == Some(power_max),
        watts(None, power_max) is None,
{
    binary32::times_one_changes_nothing(power_max);
}

/// Of what a client sends the beginning is logged: at most 120 characters, unchanged.
pub proof fn logged_text_is_a_beginning(s: Seq<char>)
    ensures
        truncated(s).len() <= 120,
        truncated(s) == s.take(truncated(s).len() as int),
        s.len() <= 120 ==> truncated(s) == s,
        s.len() > 120 ==> truncated(s).len() == 120,
{
    assert(s.take(s.len() as int) == s);
}

/// A connection ends exactly when shutdown is seen, when the client lags, goes or
/// fails, or when there are no more frames; else it goes on as it was.
pub proof fn connection_ends_when(phase: Phase, event: WsEvent)
    requires
        can_happen(phase, event),
    ensures
        ({
            let (next, action) = stepped(phase, event);
            let closes = match event {
                WsEvent::Shutdown { closed, fired } => closed || fired,
                WsEvent::Got(got) => got is Lagged,
                _ => false,
            };
            let stops = match event {
                WsEvent::Sent(succeeded) => !succeeded,
                WsEvent::Got(got) => got is Closed,
                WsEvent::Inbound(got) => got is Close || got is Failed || got is End,
                _ => false,
            };
            &&& next is Over <==> closes || stops
            &&& action is CloseAndStop <==> closes
            &&& action is Stop <==> stops
            &&& !(next is Over) ==> next is Open
            &&& action is Forward <==> event == WsEvent::Got(Broadcast::Frame)
        }),
        opened(true) == (Phase::Over, WsActionView::CloseAndStop),
{
}

/// Any reading is scaled to the number that is nearest to its share of the maximum, also one
/// outside the range of a rig, as long as the numbers reach that far.
pub proof fn any_reading_is_scaled(p: Binary32, power_max: Binary32, reach: Binary32, c: Binary32)
    requires
        p.spec_is_finite(),
        power_max.spec_is_finite(),
        reach.spec_is_finite(),
        c.spec_is_finite(),
        -(reach.value() * binary32::one()) <= p.value() * power_max.value() <= reach.value()
            * binary32::one(),
    ensures
        watts(Some(p), power_max) matches Some(w) && {
            &&& w.spec_is_finite()
            &&& binary32::distance(p.value() * power_max.value(), w.value() * binary32::one())
                <= binary32::distance(p.value() * power_max.value(), c.value() * binary32::one())
            &&& binary32::distance(p.value() * power_max.value(), w.value() * binary32::one())
                == binary32::distance(p.value() * power_max.value(), c.value() * binary32::one())
                && c.value() != w.value() ==> w.bits % 2 == 0
        },
{
    binary32::product_is_finite_in_range(p, power_max, reach);
    binary32::finite_product_is_nearest(p, power_max, c);
}

} // verus!
