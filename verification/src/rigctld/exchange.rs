//! The rigctld line protocol: what each command sends and what its answer
//! means.
//!
//! An [`Exchange`] is one command under way. It is fed the lines that rigctld
//! sends, and says after each whether to send another line, to read on, or what
//! to reply to the caller. Per-command hamlib errors (`RPRT -N`) are surfaced to
//! the caller without disturbing the connection; an I/O error answers
//! `Disconnected`.
use crate::binary32;
use crate::binary32::Binary32;
use crate::modes;
use crate::modes::HamlibMode;
use crate::text;
use vstd::prelude::*;

verus! {

/// Snapshot of rig state captured by a single poll cycle.
#[derive(Debug, Clone)]
pub struct RigState {
    pub freq: u64,
    /// Hamlib mode name as reported by rigctld (e.g. `USB`, `CW-U`). Passed
    /// through to Wavelog unmodified; Wavelog normalizes server-side.
    pub mode: String,
    /// Raw RFPOWER fraction, `0.0..=1.0`. Convert to watts by multiplying by
    /// the rig's max RF power. `None` when the rig backend does not expose
    /// RFPOWER readback (`RPRT -11` etc.): the consumer should omit the field
    /// rather than substitute a fake value.
    pub power: Option<Binary32>,
}

/// What a snapshot says.
#[verifier::ext_equal]
pub struct RigStateView {
    pub freq: u64,
    pub mode: Seq<char>,
    pub power: Option<Binary32>,
}

impl View for RigState {
    type V = RigStateView;

    open spec fn view(&self) -> RigStateView {
        RigStateView { freq: self.freq, mode: self.mode@, power: self.power }
    }
}

/// Why a command failed.
#[derive(Debug, Clone)]
pub enum RigError {
    Disconnected,
    Hamlib(i32),
    BadResponse(String),
}

/// What an error says.
#[verifier::ext_equal]
pub enum RigErrorView {
    Disconnected,
    Hamlib(int),
    BadResponse(Seq<char>),
}

impl View for RigError {
    type V = RigErrorView;

    open spec fn view(&self) -> RigErrorView {
        match self {
            RigError::Disconnected => RigErrorView::Disconnected,
            RigError::Hamlib(code) => RigErrorView::Hamlib(*code as int),
            RigError::BadResponse(line) => RigErrorView::BadResponse(line@),
        }
    }
}

impl RigError {
    /// The error as shown to the operator.
    pub open spec fn text(&self) -> Seq<char> {
        match self {
            RigError::Disconnected => "rigctld connection lost"@,
            RigError::Hamlib(code) => "rigctld returned error code "@ + text::signed_decimal(
                *code as int,
            ),
            RigError::BadResponse(line) => "rigctld returned an unparseable response: "@ + line@,
        }
    }

    /// Renders the error.
    pub fn message(&self) -> (shown: String)
        ensures
            shown@ == self.text(),
    {
        let mut shown = String::new();
        match self {
            RigError::Disconnected => shown.append("rigctld connection lost"),
            RigError::Hamlib(code) => {
                shown.append("rigctld returned error code ");
                text::push_signed_decimal(&mut shown, *code);
            },
            RigError::BadResponse(line) => {
                shown.append("rigctld returned an unparseable response: ");
                shown.append(line.as_str());
            },
        }
        assert(shown@ == self.text());
        shown
    }
}

/// The code of a report line, `RPRT <code>`.
pub open spec fn rprt_code(line: Seq<char>) -> Option<int> {
    if text::starts_with(line, "RPRT "@) {
        text::signed_value(text::trimmed(line.skip(5)))
    } else {
        None
    }
}

/// Reads the code of a report line.
pub fn parse_rprt(line: &str) -> (code: Option<i32>)
    ensures
        match code {
            Some(n) => rprt_code(line@) == Some(n as int),
            None => rprt_code(line@) is None,
        },
{
    let chars = text::chars_of(line);
    let prefix = text::chars_of("RPRT ");
    proof {
        reveal_strlit("RPRT ");
    }
    match text::strip_prefix(chars.as_slice(), prefix.as_slice()) {
        Some(rest) => text::parse_signed(text::trim(rest)),
        None => None,
    }
}

/// What the answer to a set command means.
pub open spec fn set_outcome(line: Seq<char>) -> Result<(), RigErrorView> {
    match rprt_code(line) {
        Some(code) => if code == 0 {
            Ok(())
        } else {
            Err(RigErrorView::Hamlib(code))
        },
        None => Err(RigErrorView::BadResponse(line)),
    }
}

/// Reads the answer to a set command.
pub fn parse_set_response(line: &str) -> (outcome: Result<(), RigError>)
    ensures
        match outcome {
            Ok(()) => set_outcome(line@) is Ok,
            Err(e) => set_outcome(line@) == Err::<(), RigErrorView>(e@),
        },
{
    match parse_rprt(line) {
        Some(code) => if code == 0 {
            Ok(())
        } else {
            Err(RigError::Hamlib(code))
        },
        None => Err(RigError::BadResponse(line.to_owned())),
    }
}

/// What the answer to `f` means.
pub open spec fn freq_outcome(line: Seq<char>) -> Result<nat, RigErrorView> {
    match rprt_code(line) {
        Some(code) => Err(RigErrorView::Hamlib(code)),
        None => match text::unsigned_value(line, u64::MAX as nat) {
            Some(hz) => Ok(hz),
            None => Err(RigErrorView::BadResponse(line)),
        },
    }
}

/// Reads the answer to `f`.
pub fn parse_freq_response(line: &str) -> (outcome: Result<u64, RigError>)
    ensures
        match outcome {
            Ok(hz) => freq_outcome(line@) == Ok::<nat, RigErrorView>(hz as nat),
            Err(e) => freq_outcome(line@) == Err::<nat, RigErrorView>(e@),
        },
{
    if let Some(code) = parse_rprt(line) {
        return Err(RigError::Hamlib(code));
    }
    let chars = text::chars_of(line);
    match text::parse_unsigned(chars.as_slice(), u64::MAX) {
        Some(hz) => Ok(hz),
        None => Err(RigError::BadResponse(line.to_owned())),
    }
}

/// The value of a number in the range from 0.0 to 1.0 that is nearest to `x`.
pub open spec fn unit_clamped(x: Binary32) -> Binary32 {
    if x.value() < 0 {
        Binary32 { bits: 0 }
    } else if x.value() > binary32::one() {
        Binary32 { bits: binary32::ONE_BITS }
    } else {
        x
    }
}

/// What the answer to `\get_level RFPOWER` means, where `number` is the number
/// that the line denotes, if it denotes one.
pub open spec fn power_outcome(line: Seq<char>, number: Option<Binary32>) -> Result<
    Binary32,
    RigErrorView,
> {
    match rprt_code(line) {
        Some(code) => Err(RigErrorView::Hamlib(code)),
        None => match number {
            Some(x) => if x.spec_is_finite() {
                Ok(unit_clamped(x))
            } else {
                Err(RigErrorView::BadResponse(line))
            },
            None => Err(RigErrorView::BadResponse(line)),
        },
    }
}

/// Reads the answer to `\get_level RFPOWER`. Some hamlib backends overshoot the
/// documented range by a hair due to internal scaling rounding (e.g. 1.001), so
/// a finite number is clamped rather than rejected.
pub fn parse_power_response(line: &str, number: Option<Binary32>) -> (outcome: Result<
    Binary32,
    RigError,
>)
    ensures
        match outcome {
            Ok(x) => power_outcome(line@, number) == Ok::<Binary32, RigErrorView>(x),
            Err(e) => power_outcome(line@, number) == Err::<Binary32, RigErrorView>(e@),
        },
{
    if let Some(code) = parse_rprt(line) {
        return Err(RigError::Hamlib(code));
    }
    match number {
        Some(x) => if x.is_finite() {
            Ok(x.clamp_unit())
        } else {
            Err(RigError::BadResponse(line.to_owned()))
        },
        None => Err(RigError::BadResponse(line.to_owned())),
    }
}

/// A line as rigctld sent it, without its line end; `None` at the end of the
/// stream, where nothing was read.
pub fn received_line(raw: &str) -> (line: Option<String>)
    ensures
        line is None <==> raw@.len() == 0,
        line matches Some(s) ==> s@ == text::without_line_end(raw@),
{
    let chars = text::chars_of(raw);
    if chars.len() == 0 {
        return None;
    }
    Some(text::string_of(text::trim_line_end(chars.as_slice())))
}

/// A command to the rig.
#[derive(Debug, Clone, Copy, PartialEq, Eq, Structural)]
pub enum RigCommand {
    GetFreq,
    GetMode,
    GetPower,
    /// Atomic freq + mode + RFPOWER snapshot. Backends that do not support
    /// RFPOWER yield `power = None` rather than failing the whole snapshot.
    Poll,
    SetFreq { hz: u64 },
    SetMode { mode: HamlibMode },
    /// Atomic freq + mode set: no other command comes between the two.
    SetFreqMode { hz: u64, mode: HamlibMode },
}

/// The answer to a command that succeeded.
#[derive(Debug)]
pub enum RigReply {
    Freq(u64),
    Mode(String),
    Power(Binary32),
    State(RigState),
    Done,
}

/// What an answer says.
#[verifier::ext_equal]
pub enum RigReplyView {
    Freq(u64),
    Mode(Seq<char>),
    Power(Binary32),
    State(RigStateView),
    Done,
}

impl View for RigReply {
    type V = RigReplyView;

    open spec fn view(&self) -> RigReplyView {
        match self {
            RigReply::Freq(hz) => RigReplyView::Freq(*hz),
            RigReply::Mode(mode) => RigReplyView::Mode(mode@),
            RigReply::Power(x) => RigReplyView::Power(*x),
            RigReply::State(state) => RigReplyView::State(state@),
            RigReply::Done => RigReplyView::Done,
        }
    }
}

/// The answer is of the kind that the command asks for.
pub open spec fn answers(command: RigCommand, reply: RigReplyView) -> bool {
    match command {
        RigCommand::GetFreq => reply is Freq,
        RigCommand::GetMode => reply is Mode,
        RigCommand::GetPower => reply is Power,
        RigCommand::Poll => reply is State,
        _ => reply is Done,
    }
}

/// What is said of an outcome.
pub open spec fn outcome_view(outcome: Result<RigReply, RigError>) -> Result<
    RigReplyView,
    RigErrorView,
> {
    match outcome {
        Ok(reply) => Ok(reply@),
        Err(e) => Err(e@),
    }
}

/// The line that an exchange waits for.
#[derive(Debug)]
pub enum Waiting {
    /// The answer to `f`.
    Freq,
    /// The first line of the answer to `m`.
    Mode,
    /// The passband line behind this mode.
    Passband(String),
    /// The passband line behind this first line, which named no mode.
    Discard(String),
    /// The answer to `\get_level RFPOWER`.
    Power,
    /// The answer to `F`.
    FreqSet,
    /// The answer to `M`.
    ModeSet,
}

/// What a state of waiting says.
#[verifier::ext_equal]
pub enum WaitingView {
    Freq,
    Mode,
    Passband(Seq<char>),
    Discard(Seq<char>),
    Power,
    FreqSet,
    ModeSet,
}

impl View for Waiting {
    type V = WaitingView;

    open spec fn view(&self) -> WaitingView {
        match self {
            Waiting::Freq => WaitingView::Freq,
            Waiting::Mode => WaitingView::Mode,
            Waiting::Passband(mode) => WaitingView::Passband(mode@),
            Waiting::Discard(line) => WaitingView::Discard(line@),
            Waiting::Power => WaitingView::Power,
            Waiting::FreqSet => WaitingView::FreqSet,
            Waiting::ModeSet => WaitingView::ModeSet,
        }
    }
}

/// A command under way.
#[derive(Debug)]
pub struct Exchange {
    command: RigCommand,
    waiting: Waiting,
    /// The frequency that a poll has read.
    freq: u64,
    /// The mode that a poll has read.
    mode: String,
}

/// What a command under way says.
#[verifier::ext_equal]
pub struct ExchangeView {
    pub command: RigCommand,
    pub waiting: WaitingView,
    pub freq: u64,
    pub mode: Seq<char>,
}

impl View for Exchange {
    type V = ExchangeView;

    closed spec fn view(&self) -> ExchangeView {
        ExchangeView {
            command: self.command,
            waiting: self.waiting@,
            freq: self.freq,
            mode: self.mode@,
        }
    }
}

impl ExchangeView {
    /// The command is one that waits for such a line.
    pub open spec fn wf(&self) -> bool {
        match self.waiting {
            WaitingView::Freq => self.command is GetFreq || self.command is Poll,
            WaitingView::Mode => self.command is GetMode || self.command is Poll,
            WaitingView::Passband(_) => self.command is GetMode || self.command is Poll,
            WaitingView::Discard(_) => self.command is GetMode || self.command is Poll,
            WaitingView::Power => self.command is GetPower || self.command is Poll,
            WaitingView::FreqSet => self.command is SetFreq || self.command is SetFreqMode,
            WaitingView::ModeSet => self.command is SetMode || self.command is SetFreqMode,
        }
    }

    /// A bound on the number of lines that are still read.
    pub open spec fn lines_left(&self) -> nat {
        match self.waiting {
            WaitingView::Freq => 4,
            WaitingView::Mode => 3,
            WaitingView::Passband(_) => 2,
            WaitingView::Discard(_) => 2,
            WaitingView::Power => 1,
            WaitingView::FreqSet => 2,
            WaitingView::ModeSet => 1,
        }
    }
}

/// What to do next in an exchange.
#[derive(Debug)]
pub enum Step {
    /// Send this line, then read one.
    Send(Exchange, String),
    /// Read another line.
    Read(Exchange),
    /// Reply this to the caller: the exchange is over.
    Finish(Result<RigReply, RigError>),
}

/// What a step says.
#[verifier::ext_equal]
pub enum StepView {
    Send(ExchangeView, Seq<char>),
    Read(ExchangeView),
    Finish(Result<RigReplyView, RigErrorView>),
}

impl View for Step {
    type V = StepView;

    open spec fn view(&self) -> StepView {
        match self {
            Step::Send(next, line) => StepView::Send(next@, line@),
            Step::Read(next) => StepView::Read(next@),
            Step::Finish(outcome) => StepView::Finish(outcome_view(*outcome)),
        }
    }
}

/// The line that sets a frequency.
pub open spec fn set_freq_line(hz: u64) -> Seq<char> {
    "F "@ + text::decimal(hz as nat)
}

/// The line that sets a mode. Passband -1 is `RIG_PASSBAND_NOCHANGE`: it keeps
/// the user's DSP filter width, which 0 (`RIG_PASSBAND_NORMAL`) would reset on
/// each tune.
pub open spec fn set_mode_line(mode: HamlibMode) -> Seq<char> {
    "M "@ + modes::hamlib_name(mode) + " -1"@
}

/// The first line that a command sends.
pub open spec fn first_line(command: RigCommand) -> Seq<char> {
    match command {
        RigCommand::GetFreq | RigCommand::Poll => "f"@,
        RigCommand::GetMode => "m"@,
        RigCommand::GetPower => "\\get_level RFPOWER"@,
        RigCommand::SetFreq { hz } => set_freq_line(hz),
        RigCommand::SetFreqMode { hz, mode } => set_freq_line(hz),
        RigCommand::SetMode { mode } => set_mode_line(mode),
    }
}

/// A command at its beginning.
pub open spec fn begun(command: RigCommand) -> ExchangeView {
    ExchangeView {
        command,
        waiting: match command {
            RigCommand::GetFreq | RigCommand::Poll => WaitingView::Freq,
            RigCommand::GetMode => WaitingView::Mode,
            RigCommand::GetPower => WaitingView::Power,
            RigCommand::SetFreq { .. } | RigCommand::SetFreqMode { .. } => WaitingView::FreqSet,
            RigCommand::SetMode { .. } => WaitingView::ModeSet,
        },
        freq: 0,
        mode: Seq::empty(),
    }
}

/// What an exchange does on a line, where `number` is the number that the line
/// denotes, if it denotes one.
pub open spec fn advanced(
    x: ExchangeView,
    line: Seq<char>,
    number: Option<Binary32>,
) -> StepView {
    let polling = x.command is Poll;
    match x.waiting {
        WaitingView::Freq => match freq_outcome(line) {
            Err(e) => StepView::Finish(Err(e)),
            Ok(hz) => if polling {
                StepView::Send(
                    ExchangeView { waiting: WaitingView::Mode, freq: hz as u64, ..x },
                    "m"@,
                )
            } else {
                StepView::Finish(Ok(RigReplyView::Freq(hz as u64)))
            },
        },
        WaitingView::Mode => match rprt_code(line) {
            Some(code) => StepView::Finish(Err(RigErrorView::Hamlib(code))),
            None => if text::first_word(line).len() == 0 {
                StepView::Read(ExchangeView { waiting: WaitingView::Discard(line), ..x })
            } else {
                StepView::Read(
                    ExchangeView { waiting: WaitingView::Passband(text::first_word(line)), ..x },
                )
            },
        },
        WaitingView::Passband(mode) => if polling {
            StepView::Send(
                ExchangeView { waiting: WaitingView::Power, mode, ..x },
                "\\get_level RFPOWER"@,
            )
        } else {
            StepView::Finish(Ok(RigReplyView::Mode(mode)))
        },
        WaitingView::Discard(bad) => StepView::Finish(Err(RigErrorView::BadResponse(bad))),
        WaitingView::Power => match power_outcome(line, number) {
            Ok(p) => if polling {
                StepView::Finish(
                    Ok(
                        RigReplyView::State(
                            RigStateView { freq: x.freq, mode: x.mode, power: Some(p) },
                        ),
                    ),
                )
            } else {
                StepView::Finish(Ok(RigReplyView::Power(p)))
            },
            Err(e) => if polling && e is Hamlib {
                StepView::Finish(
                    Ok(
                        RigReplyView::State(
                            RigStateView { freq: x.freq, mode: x.mode, power: None },
                        ),
                    ),
                )
            } else {
                StepView::Finish(Err(e))
            },
        },
        WaitingView::FreqSet => match (set_outcome(line), x.command) {
            (Err(e), _) => StepView::Finish(Err(e)),
            (Ok(_), RigCommand::SetFreqMode { hz, mode }) => StepView::Send(
                ExchangeView { waiting: WaitingView::ModeSet, ..x },
                set_mode_line(mode),
            ),
            (Ok(_), _) => StepView::Finish(Ok(RigReplyView::Done)),
        },
        WaitingView::ModeSet => match set_outcome(line) {
            Err(e) => StepView::Finish(Err(e)),
            Ok(_) => StepView::Finish(Ok(RigReplyView::Done)),
        },
    }
}

/// A step of an exchange keeps it well-formed, reads fewer and fewer lines, and
/// ends in an answer of the kind that the command asks for.
pub proof fn step_makes_progress(x: ExchangeView, line: Seq<char>, number: Option<Binary32>)
    requires
        x.wf(),
    ensures
        match advanced(x, line, number) {
            StepView::Send(next, _) => next.wf() && next.command == x.command && next.lines_left()
                < x.lines_left(),
            StepView::Read(next) => next.wf() && next.command == x.command && next.lines_left()
                < x.lines_left(),
            StepView::Finish(Ok(reply)) => answers(x.command, reply),
            StepView::Finish(Err(_)) => true,
        },
{
}

fn write_set_freq(hz: u64) -> (line: String)
    ensures
        line@ == set_freq_line(hz),
{
    let mut line = String::new();
    line.append("F ");
    text::push_decimal(&mut line, hz);
    assert(line@ == set_freq_line(hz));
    line
}

fn write_set_mode(mode: HamlibMode) -> (line: String)
    ensures
        line@ == set_mode_line(mode),
{
    let mut line = String::new();
    line.append("M ");
    line.append(mode.as_str());
    line.append(" -1");
    assert(line@ == set_mode_line(mode));
    line
}

impl Exchange {
    /// Begins a command: the line to send first.
    pub fn begin(command: RigCommand) -> (begun_with: (Exchange, String))
        ensures
            begun_with.0@ == begun(command),
            begun_with.0@.wf(),
            begun_with.1@ == first_line(command),
    {
        let (waiting, line) = match command {
            RigCommand::GetFreq => (Waiting::Freq, "f".to_owned()),
            RigCommand::Poll => (Waiting::Freq, "f".to_owned()),
            RigCommand::GetMode => (Waiting::Mode, "m".to_owned()),
            RigCommand::GetPower => (Waiting::Power, "\\get_level RFPOWER".to_owned()),
            RigCommand::SetFreq { hz } => (Waiting::FreqSet, write_set_freq(hz)),
            RigCommand::SetFreqMode { hz, mode } => (Waiting::FreqSet, write_set_freq(hz)),
            RigCommand::SetMode { mode } => (Waiting::ModeSet, write_set_mode(mode)),
        };
        let x = Exchange { command, waiting, freq: 0, mode: String::new() };
        assert(x@ =~= begun(command));
        (x, line)
    }

    /// Takes the next line from rigctld, and the number it denotes, if any.
    pub fn on_line(self, line: &str, number: Option<Binary32>) -> (step: Step)
        requires
            self@.wf(),
        ensures
            step@ == advanced(self@, line@, number),
            match step {
                Step::Send(next, _) => next@.wf(),
                Step::Read(next) => next@.wf(),
                Step::Finish(Ok(reply)) => answers(self@.command, reply@),
                Step::Finish(Err(_)) => true,
            },
    {
        proof {
            step_makes_progress(self@, line@, number);
        }
        let polling = matches!(self.command, RigCommand::Poll);
        let step = match self.waiting {
            Waiting::Freq => match parse_freq_response(line) {
                Err(e) => Step::Finish(Err(e)),
                Ok(hz) => if polling {
                    Step::Send(
                        Exchange {
                            command: self.command,
                            waiting: Waiting::Mode,
                            freq: hz,
                            mode: self.mode,
                        },
                        "m".to_owned(),
                    )
                } else {
                    Step::Finish(Ok(RigReply::Freq(hz)))
                },
            },
            Waiting::Mode => match parse_rprt(line) {
                Some(code) => Step::Finish(Err(RigError::Hamlib(code))),
                None => {
                    let chars = text::chars_of(line);
                    let word = text::word(chars.as_slice());
                    let waiting = if word.len() == 0 {
                        // Rejected before an empty mode reaches the Wavelog
                        // payload. The passband line is read all the same, so
                        // that the connection stays in sync.
                        Waiting::Discard(line.to_owned())
                    } else {
                        Waiting::Passband(text::string_of(word))
                    };
                    Step::Read(
                        Exchange {
                            command: self.command,
                            waiting,
                            freq: self.freq,
                            mode: self.mode,
                        },
                    )
                },
            },
            Waiting::Passband(mode) => if polling {
                Step::Send(
                    Exchange {
                        command: self.command,
                        waiting: Waiting::Power,
                        freq: self.freq,
                        mode,
                    },
                    "\\get_level RFPOWER".to_owned(),
                )
            } else {
                Step::Finish(Ok(RigReply::Mode(mode)))
            },
            Waiting::Discard(bad) => Step::Finish(Err(RigError::BadResponse(bad))),
            Waiting::Power => match parse_power_response(line, number) {
                Ok(p) => if polling {
                    Step::Finish(
                        Ok(
                            RigReply::State(
                                RigState { freq: self.freq, mode: self.mode, power: Some(p) },
                            ),
                        ),
                    )
                } else {
                    Step::Finish(Ok(RigReply::Power(p)))
                },
                Err(e) => match (polling, e) {
                    (true, RigError::Hamlib(_)) => Step::Finish(
                        Ok(
                            RigReply::State(
                                RigState { freq: self.freq, mode: self.mode, power: None },
                            ),
                        ),
                    ),
                    (_, e) => Step::Finish(Err(e)),
                },
            },
            Waiting::FreqSet => match parse_set_response(line) {
                Err(e) => Step::Finish(Err(e)),
                Ok(()) => match self.command {
                    RigCommand::SetFreqMode { hz, mode } => Step::Send(
                        Exchange {
                            command: self.command,
                            waiting: Waiting::ModeSet,
                            freq: self.freq,
                            mode: self.mode,
                        },
                        write_set_mode(mode),
                    ),
                    _ => Step::Finish(Ok(RigReply::Done)),
                },
            },
            Waiting::ModeSet => match parse_set_response(line) {
                Err(e) => Step::Finish(Err(e)),
                Ok(()) => Step::Finish(Ok(RigReply::Done)),
            },
        };
        assert(step@ =~= advanced(self@, line@, number));
        step
    }

    /// Takes an I/O error: what to reply to the caller, and whether the
    /// connection is lost. The caller learns `Disconnected`, except where the
    /// answer was bad already and only its passband line was still to be read.
    pub fn on_io_error(self) -> (failed: (RigError, bool))
        ensures
            self@.waiting matches WaitingView::Discard(bad) ==> failed.0@
                == RigErrorView::BadResponse(bad) && !failed.1,
            !(self@.waiting is Discard) ==> failed.0@ == RigErrorView::Disconnected && failed.1,
    {
        match self.waiting {
            Waiting::Discard(bad) => (RigError::BadResponse(bad), false),
            _ => (RigError::Disconnected, true),
        }
    }
}

/// What becomes of an exchange on a whole answer: the lines that it sends after
/// the first, and the outcome once there is one.
pub open spec fn run(x: ExchangeView, lines: Seq<(Seq<char>, Option<Binary32>)>) -> (
    Seq<Seq<char>>,
    Option<Result<RigReplyView, RigErrorView>>,
)
    decreases lines.len(),
{
    if lines.len() == 0 {
        (Seq::empty(), None)
    } else {
        match advanced(x, lines[0].0, lines[0].1) {
            StepView::Send(next, line) => {
                let rest = run(next, lines.skip(1));
                (seq![line] + rest.0, rest.1)
            },
            StepView::Read(next) => run(next, lines.skip(1)),
            StepView::Finish(outcome) => (Seq::empty(), Some(outcome)),
        }
    }
}

/// Every exchange comes to its end, whatever rigctld answers: the connection is
/// held for at most four lines.
pub proof fn exchange_ends(x: ExchangeView, lines: Seq<(Seq<char>, Option<Binary32>)>)
    requires
        x.wf(),
        lines.len() >= x.lines_left(),
    ensures
        run(x, lines).1 is Some,
        run(x, lines).1 matches Some(Ok(reply)) ==> answers(x.command, reply),
    decreases lines.len(),
{
    step_makes_progress(x, lines[0].0, lines[0].1);
    match advanced(x, lines[0].0, lines[0].1) {
        StepView::Send(next, _) => exchange_ends(next, lines.skip(1)),
        StepView::Read(next) => exchange_ends(next, lines.skip(1)),
        StepView::Finish(_) => {},
    }
}

/// A poll is one snapshot: frequency, mode (first word of its line) and power
/// from four lines in a row. A hamlib error on the power leaves it out.
pub proof fn poll_takes_one_snapshot(
    freq: Seq<char>,
    mode: Seq<char>,
    passband: Seq<char>,
    power: Seq<char>,
    number: Option<Binary32>,
)
    requires
        freq_outcome(freq) is Ok,
        rprt_code(mode) is None,
        text::first_word(mode).len() > 0,
    ensures
        ({
            let lines = seq![
                (freq, None::<Binary32>),
                (mode, None),
                (passband, None),
                (power, number),
            ];
            let (sent, outcome) = run(begun(RigCommand::Poll), lines);
            let state = RigStateView {
                freq: freq_outcome(freq)->Ok_0 as u64,
                mode: text::first_word(mode),
                power: None,
            };
            &&& sent == seq!["m"@, "\\get_level RFPOWER"@]
            &&& match power_outcome(power, number) {
                Ok(p) => outcome == Some(
                    Ok::<_, RigErrorView>(
                        RigReplyView::State(RigStateView { power: Some(p), ..state }),
                    ),
                ),
                Err(e) => if e is Hamlib {
                    outcome == Some(Ok::<_, RigErrorView>(RigReplyView::State(state)))
                } else {
                    outcome == Some(Err::<RigReplyView, _>(e))
                },
            }
        }),
{
    let lines = seq![(freq, None::<Binary32>), (mode, None), (passband, None), (power, number)];
    reveal_with_fuel(run, 5);
    assert(lines.skip(1) == seq![(mode, None::<Binary32>), (passband, None), (power, number)]);
    assert(lines.skip(1).skip(1) == seq![(passband, None::<Binary32>), (power, number)]);
    assert(lines.skip(1).skip(1).skip(1) == seq![(power, number)]);
    let (sent, _) = run(begun(RigCommand::Poll), lines);
    assert(sent == seq!["m"@, "\\get_level RFPOWER"@]);
}

/// A frequency and a mode are set back to back: the mode line follows the
/// acknowledged frequency at once, and is not sent where the frequency was
/// refused.
pub proof fn set_freq_mode_is_atomic(hz: u64, mode: HamlibMode, first: Seq<char>, second: Seq<char>)
    ensures
        ({
            let lines = seq![(first, None::<Binary32>), (second, None)];
            let (sent, outcome) = run(begun(RigCommand::SetFreqMode { hz, mode }), lines);
            match set_outcome(first) {
                Ok(_) => sent == seq![set_mode_line(mode)] && outcome == match set_outcome(second) {
                    Ok(_) => Some(Ok::<_, RigErrorView>(RigReplyView::Done)),
                    Err(e) => Some(Err(e)),
                },
                Err(e) => sent.len() == 0 && outcome == Some(Err::<RigReplyView, _>(e)),
            }
        }),
{
    let lines = seq![(first, None::<Binary32>), (second, None)];
    reveal_with_fuel(run, 3);
    assert(lines.skip(1) == seq![(second, None::<Binary32>)]);
    let (sent, _) = run(begun(RigCommand::SetFreqMode { hz, mode }), lines);
    if set_outcome(first) is Ok {
        assert(sent == seq![set_mode_line(mode)]);
    }
}

} // verus!
