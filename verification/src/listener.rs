//! Click-to-tune HTTP listener.
//!
//! Wavelog's frontend issues `fetch('<cat_url>/<freq_hz>/<mode>')` whenever a
//! DX-cluster or bandmap spot is clicked. A request is carried out here as a
//! [`Tuning`]: parse the path, resolve the lowercase Wavelog mode to a hamlib
//! name via the overrides, then set the frequency and the mode.
//!
//! CORS is required (the browser issues this as a `cors`-mode `fetch`); exactly
//! one origin is allowed, that of the configured Wavelog base URL.
use crate::modes;
use crate::modes::{HamlibMode, Mode, ModeOverrides};
use crate::text;
use crate::text_laws;
use vstd::prelude::*;

verus! {

pub const STATUS_OK: u16 = 200;

pub const STATUS_BAD_REQUEST: u16 = 400;

pub const STATUS_BAD_GATEWAY: u16 = 502;

/// Why the listener stopped.
#[derive(Debug)]
pub enum ListenerError {
    Serve(String),
}

impl ListenerError {
    /// The error as shown to the operator.
    pub fn message(&self) -> (shown: String)
        ensures
            self matches ListenerError::Serve(why) && shown@ == "axum serve loop failed: "@ + why@,
    {
        let ListenerError::Serve(why) = self;
        let mut shown = String::new();
        shown.append("axum serve loop failed: ");
        shown.append(why.as_str());
        assert(shown@ == "axum serve loop failed: "@ + why@);
        shown
    }
}

/// What a path asks for: a frequency in Hz and a hamlib mode.
pub open spec fn tune_target(
    freq: Seq<char>,
    mode: Seq<char>,
    overrides: ModeOverrides,
) -> Option<(nat, HamlibMode)> {
    match text::unsigned_value(freq, u64::MAX as nat) {
        None => None,
        Some(hz) => if modes::is_segment(mode) {
            let m = choose|m: Mode| mode == #[trigger] modes::segment(m);
            Some((hz, modes::resolved(m, overrides)))
        } else {
            None
        },
    }
}

/// Where a request stands.
#[derive(Debug, Clone, Copy, PartialEq, Eq, Structural)]
pub enum Tuning {
    /// The frequency is being set.
    Freq { hz: u64, mode: HamlibMode },
    /// The mode is being set.
    Mode { mode: HamlibMode },
    /// The request was answered.
    Answered,
}

/// What to do next for a request.
#[derive(Debug, Clone, Copy, PartialEq, Eq, Structural)]
pub enum TuneAction {
    SetFreq(u64),
    SetMode(HamlibMode),
    /// Answer with this HTTP status.
    Respond(u16),
}

/// A request at its beginning.
pub open spec fn begun_tuning(target: Option<(nat, HamlibMode)>) -> (Tuning, TuneAction) {
    match target {
        Some((hz, mode)) => (
            Tuning::Freq { hz: hz as u64, mode },
            TuneAction::SetFreq(hz as u64),
        ),
        None => (Tuning::Answered, TuneAction::Respond(STATUS_BAD_REQUEST)),
    }
}

/// A request behind an answer of the rig.
pub open spec fn replied_tuning(tuning: Tuning, succeeded: bool) -> (Tuning, TuneAction) {
    match (tuning, succeeded) {
        (Tuning::Freq { hz, mode }, true) => (Tuning::Mode { mode }, TuneAction::SetMode(mode)),
        (Tuning::Mode { .. }, true) => (Tuning::Answered, TuneAction::Respond(STATUS_OK)),
        (Tuning::Answered, true) => (Tuning::Answered, TuneAction::Respond(STATUS_OK)),
        (_, false) => (Tuning::Answered, TuneAction::Respond(STATUS_BAD_GATEWAY)),
    }
}

/// A request for a target sets its frequency, then its mode, and is answered
/// `200` where both succeed. Where one fails nothing more is set and the answer
/// is `502`. A path without a target is answered `400` and sets nothing.
pub proof fn tuning_sets_frequency_then_mode(
    target: Option<(nat, HamlibMode)>,
    freq_set: bool,
    mode_set: bool,
)
    ensures
        ({
            let (first, a) = begun_tuning(target);
            let (second, b) = replied_tuning(first, freq_set);
            let (third, c) = replied_tuning(second, mode_set);
            match target {
                None => a == TuneAction::Respond(STATUS_BAD_REQUEST),
                Some((hz, mode)) => {
                    &&& a == TuneAction::SetFreq(hz as u64)
                    &&& freq_set ==> b == TuneAction::SetMode(mode)
                    &&& !freq_set ==> b == TuneAction::Respond(STATUS_BAD_GATEWAY)
                    &&& freq_set && mode_set ==> c == TuneAction::Respond(STATUS_OK)
                    &&& freq_set && !mode_set ==> c == TuneAction::Respond(STATUS_BAD_GATEWAY)
                    &&& freq_set ==> third == Tuning::Answered
                },
            }
        }),
{
}

impl Tuning {
    /// Takes a request. A path that is none is answered `400` without touching
    /// the rig.
    pub fn begin(freq: &str, mode: &str, overrides: &ModeOverrides) -> (begun: (Tuning, TuneAction))
        ensures
            begun == begun_tuning(tune_target(freq@, mode@, *overrides)),
    {
        let digits = text::chars_of(freq);
        let hz: u64 = match text::parse_unsigned(digits.as_slice(), u64::MAX) {
            Some(hz) => hz,
            None => {
                return (Tuning::Answered, TuneAction::Respond(STATUS_BAD_REQUEST));
            },
        };
        match Mode::parse(mode) {
            Ok(m) => {
                proof {
                    modes::segments_are_distinct(
                        m,
                        choose|other: Mode| mode@ == #[trigger] modes::segment(other),
                    );
                }
                (Tuning::Freq { hz, mode: m.resolve(overrides) }, TuneAction::SetFreq(hz))
            },
            Err(_) => (Tuning::Answered, TuneAction::Respond(STATUS_BAD_REQUEST)),
        }
    }

    /// The rig answered the command of the last action. The mode is set only
    /// after the frequency was; a refusal is answered `502`.
    pub fn on_rig_reply(self, succeeded: bool) -> (next: (Tuning, TuneAction))
        requires
            self != Tuning::Answered,
        ensures
            next == replied_tuning(self, succeeded),
    {
        match self {
            Tuning::Freq { hz, mode } => if succeeded {
                (Tuning::Mode { mode }, TuneAction::SetMode(mode))
            } else {
                (Tuning::Answered, TuneAction::Respond(STATUS_BAD_GATEWAY))
            },
            _ => if succeeded {
                (Tuning::Answered, TuneAction::Respond(STATUS_OK))
            } else {
                (Tuning::Answered, TuneAction::Respond(STATUS_BAD_GATEWAY))
            },
        }
    }
}

/// Tells whether a request's `Origin` header is the allowed one, byte for byte.
pub fn origin_matches(origin: &[u8], allowed: &[u8]) -> (same: bool)
    ensures
        same == (origin@ == allowed@),
{
    if origin.len() != allowed.len() {
        return false;
    }
    let mut i: usize = 0;
    while i < origin.len()
        invariant
            i <= origin@.len() == allowed@.len(),
            forall|j: int| 0 <= j < i ==> origin@[j] == allowed@[j],
        decreases origin@.len() - i,
    {
        if origin[i] != allowed[i] {
            return false;
        }
        i += 1;
    }
    assert(origin@ =~= allowed@);
    true
}

/// A request for a frequency and a mode asks for exactly that frequency, in any
/// notation of it, and for that mode's target.
pub proof fn path_names_its_target(freq: Seq<char>, hz: u64, mode: Mode, overrides: ModeOverrides)
    requires
        text::unsigned_value(freq, u64::MAX as nat) == Some(hz as nat),
    ensures
        tune_target(freq, modes::segment(mode), overrides) == Some(
            (hz as nat, modes::resolved(mode, overrides)),
        ),
{
    let m = choose|m: Mode| modes::segment(mode) == #[trigger] modes::segment(m);
    assert(modes::is_segment(modes::segment(mode)));
    modes::segments_are_distinct(m, mode);
}

/// The path of a frequency and a mode asks for exactly these.
pub proof fn path_names_its_target_exactly(hz: u64, mode: Mode, overrides: ModeOverrides)
    ensures
        tune_target(text::decimal(hz as nat), modes::segment(mode), overrides) == Some(
            (hz as nat, modes::resolved(mode, overrides)),
        ),
{
    text_laws::decimal_is_read(hz as nat, u64::MAX as nat);
    path_names_its_target(text::decimal(hz as nat), hz, mode, overrides);
}

/// Clicking a spot at `hz` sets the rig to `hz`, then to the mode that was asked
/// for under its name in upper case, and is answered `200` once the rig took both.
pub proof fn click_sets_what_was_asked_for(hz: u64, mode: Mode, overrides: ModeOverrides)
    requires
        mode != Mode::Pkt,
        mode != Mode::Dig,
    ensures
        ({
            let target = tune_target(text::decimal(hz as nat), modes::segment(mode), overrides);
            let (first, a) = begun_tuning(target);
            let (second, b) = replied_tuning(first, true);
            let (third, c) = replied_tuning(second, true);
            &&& a == TuneAction::SetFreq(hz)
            &&& b matches TuneAction::SetMode(m) && modes::is_upper_case_of(
                modes::hamlib_name(m),
                modes::segment(mode),
            )
            &&& c == TuneAction::Respond(200)
        }),
{
    text_laws::decimal_is_read(hz as nat, u64::MAX as nat);
    path_names_its_target(text::decimal(hz as nat), hz, mode, overrides);
    modes::mode_keeps_its_name(mode, overrides);
}

/// A path whose frequency is no number or whose mode is none is answered `400` and
/// the rig is not touched; a rig that refuses is answered for with `502`.
pub proof fn refusals_are_told_apart(
    freq: Seq<char>,
    mode: Seq<char>,
    overrides: ModeOverrides,
    tuning: Tuning,
)
    ensures
        text::unsigned_value(freq, u64::MAX as nat) is None || !modes::is_segment(mode)
            ==> begun_tuning(tune_target(freq, mode, overrides)) == (
            Tuning::Answered,
            TuneAction::Respond(400),
        ),
        replied_tuning(tuning, false) == (Tuning::Answered, TuneAction::Respond(502)),
{
}

} // verus!
