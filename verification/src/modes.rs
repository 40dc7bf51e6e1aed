//! Click-to-tune mode parsing and hamlib mapping.
//!
//! Wavelog sends the mode as a lowercase path segment in the CAT URL
//! (`http://<listener>/<freq_hz>/<mode>`). The accepted set mirrors the
//! `validModes` whitelist in Wavelog's `assets/js/cat.js`
//! (`performRadioTuning`). Two of those modes, `pkt` and `dig`, are ambiguous
//! between USB- and LSB-side packet variants; their concrete hamlib target is
//! resolved through [`ModeOverrides`], which is loaded from the optional
//! `[mode_overrides]` TOML table.
use crate::text;
use vstd::prelude::*;

verus! {

/// A click-to-tune mode parsed from a Wavelog CAT URL path segment.
#[derive(Debug, Clone, Copy, PartialEq, Eq, Structural, Hash)]
pub enum Mode {
    Lsb,
    Usb,
    Cw,
    Fm,
    Am,
    Rtty,
    /// Generic packet. Resolved via [`ModeOverrides::pkt`].
    Pkt,
    /// Generic digital. Resolved via [`ModeOverrides::dig`].
    Dig,
    PktLsb,
    PktUsb,
    PktFm,
}

/// A path segment that is no mode.
#[derive(Debug)]
pub enum ModeParseError {
    Unknown(String),
}

impl ModeParseError {
    /// The error as shown to the operator.
    pub fn message(&self) -> (shown: String)
        ensures
            self matches ModeParseError::Unknown(s) && shown@ == "unrecognized wavelog mode `"@ + s@
                + "`"@,
    {
        let ModeParseError::Unknown(s) = self;
        let mut shown = String::new();
        shown.append("unrecognized wavelog mode `");
        shown.append(s.as_str());
        shown.append("`");
        assert(shown@ == "unrecognized wavelog mode `"@ + s@ + "`"@);
        shown
    }
}

/// The path segment that stands for a mode.
pub open spec fn segment(mode: Mode) -> Seq<char> {
    match mode {
        Mode::Lsb => "lsb"@,
        Mode::Usb => "usb"@,
        Mode::Cw => "cw"@,
        Mode::Fm => "fm"@,
        Mode::Am => "am"@,
        Mode::Rtty => "rtty"@,
        Mode::Pkt => "pkt"@,
        Mode::Dig => "dig"@,
        Mode::PktLsb => "pktlsb"@,
        Mode::PktUsb => "pktusb"@,
        Mode::PktFm => "pktfm"@,
    }
}

/// The segment of some mode.
pub open spec fn is_segment(s: Seq<char>) -> bool {
    exists|m: Mode| s == #[trigger] segment(m)
}

/// No two modes share a path segment.
pub proof fn segments_are_distinct(a: Mode, b: Mode)
    requires
        segment(a) == segment(b),
    ensures
        a == b,
{
    reveal_strlit("lsb");
    reveal_strlit("usb");
    reveal_strlit("cw");
    reveal_strlit("fm");
    reveal_strlit("am");
    reveal_strlit("rtty");
    reveal_strlit("pkt");
    reveal_strlit("dig");
    reveal_strlit("pktlsb");
    reveal_strlit("pktusb");
    reveal_strlit("pktfm");
    let (x, y) = (segment(a), segment(b));
    assert(x.len() == y.len() && x[0] == y[0] && x[1] == y[1]);
    assert(x.len() > 2 ==> x[2] == y[2]);
    assert(x.len() > 3 ==> x[3] == y[3]);
}

impl Mode {
    /// Parses a path segment. Only the exact lowercase spellings are modes.
    pub fn parse(s: &str) -> (parsed: Result<Mode, ModeParseError>)
        ensures
            parsed is Ok <==> is_segment(s@),
            parsed matches Ok(mode) ==> s@ == segment(mode),
            parsed matches Err(ModeParseError::Unknown(other)) ==> other@ == s@,
    {
        let mode = if text::same_text(s, "lsb") {
            Mode::Lsb
        } else if text::same_text(s, "usb") {
            Mode::Usb
        } else if text::same_text(s, "cw") {
            Mode::Cw
        } else if text::same_text(s, "fm") {
            Mode::Fm
        } else if text::same_text(s, "am") {
            Mode::Am
        } else if text::same_text(s, "rtty") {
            Mode::Rtty
        } else if text::same_text(s, "pkt") {
            Mode::Pkt
        } else if text::same_text(s, "dig") {
            Mode::Dig
        } else if text::same_text(s, "pktlsb") {
            Mode::PktLsb
        } else if text::same_text(s, "pktusb") {
            Mode::PktUsb
        } else if text::same_text(s, "pktfm") {
            Mode::PktFm
        } else {
            return Err(ModeParseError::Unknown(s.to_owned()));
        };
        assert(s@ == segment(mode));
        Ok(mode)
    }

    /// Resolves to a concrete [`HamlibMode`], substituting `Pkt` and `Dig` with
    /// the user's override targets.
    #[must_use]
    pub fn resolve(self, overrides: &ModeOverrides) -> (target: HamlibMode)
        ensures
            target == resolved(self, *overrides),
    {
        match self {
            Mode::Lsb => HamlibMode::Lsb,
            Mode::Usb => HamlibMode::Usb,
            Mode::Cw => HamlibMode::Cw,
            Mode::Fm => HamlibMode::Fm,
            Mode::Am => HamlibMode::Am,
            Mode::Rtty => HamlibMode::Rtty,
            Mode::PktLsb => HamlibMode::PktLsb,
            Mode::PktUsb => HamlibMode::PktUsb,
            Mode::PktFm => HamlibMode::PktFm,
            Mode::Pkt => overrides.pkt,
            Mode::Dig => overrides.dig,
        }
    }
}

impl core::str::FromStr for Mode {
    type Err = ModeParseError;

    fn from_str(s: &str) -> (parsed: Result<Mode, ModeParseError>)
        ensures
            parsed is Ok <==> is_segment(s@),
            parsed matches Ok(mode) ==> s@ == segment(mode),
            parsed matches Err(ModeParseError::Unknown(other)) ==> other@ == s@,
    {
        Mode::parse(s)
    }
}

/// The hamlib mode that a mode stands for.
pub open spec fn resolved(mode: Mode, overrides: ModeOverrides) -> HamlibMode {
    match mode {
        Mode::Lsb => HamlibMode::Lsb,
        Mode::Usb => HamlibMode::Usb,
        Mode::Cw => HamlibMode::Cw,
        Mode::Fm => HamlibMode::Fm,
        Mode::Am => HamlibMode::Am,
        Mode::Rtty => HamlibMode::Rtty,
        Mode::PktLsb => HamlibMode::PktLsb,
        Mode::PktUsb => HamlibMode::PktUsb,
        Mode::PktFm => HamlibMode::PktFm,
        Mode::Pkt => overrides.pkt,
        Mode::Dig => overrides.dig,
    }
}

/// Overrides bear on the ambiguous modes only.
pub proof fn overrides_bear_on_ambiguous_modes_only(mode: Mode, a: ModeOverrides, b: ModeOverrides)
    requires
        mode != Mode::Pkt,
        mode != Mode::Dig,
    ensures
        resolved(mode, a) == resolved(mode, b),
{
}

/// A hamlib mode string suitable for the rigctld `M <mode> <passband>` command
/// and for the `mode` field in Wavelog's `/api/radio` JSON.
#[derive(Debug, Clone, Copy, PartialEq, Eq, Structural, Hash)]
pub enum HamlibMode {
    Lsb,
    Usb,
    Cw,
    Fm,
    Am,
    Rtty,
    PktLsb,
    PktUsb,
    PktFm,
}

/// Hamlib's name of a mode.
pub open spec fn hamlib_name(mode: HamlibMode) -> Seq<char> {
    match mode {
        HamlibMode::Lsb => "LSB"@,
        HamlibMode::Usb => "USB"@,
        HamlibMode::Cw => "CW"@,
        HamlibMode::Fm => "FM"@,
        HamlibMode::Am => "AM"@,
        HamlibMode::Rtty => "RTTY"@,
        HamlibMode::PktLsb => "PKTLSB"@,
        HamlibMode::PktUsb => "PKTUSB"@,
        HamlibMode::PktFm => "PKTFM"@,
    }
}

impl HamlibMode {
    #[must_use]
    pub fn as_str(self) -> (name: &'static str)
        ensures
            name@ == hamlib_name(self),
    {
        match self {
            HamlibMode::Lsb => "LSB",
            HamlibMode::Usb => "USB",
            HamlibMode::Cw => "CW",
            HamlibMode::Fm => "FM",
            HamlibMode::Am => "AM",
            HamlibMode::Rtty => "RTTY",
            HamlibMode::PktLsb => "PKTLSB",
            HamlibMode::PktUsb => "PKTUSB",
            HamlibMode::PktFm => "PKTFM",
        }
    }
}

/// Resolution targets for the ambiguous `pkt` and `dig` Wavelog modes. Both
/// default to `PKTUSB`; override via the `[mode_overrides]` TOML table.
#[derive(Debug, Clone, Copy, PartialEq, Eq, Structural)]
pub struct ModeOverrides {
    pub pkt: HamlibMode,
    pub dig: HamlibMode,
}

impl Default for ModeOverrides {
    fn default() -> (o: Self)
        ensures
            o.pkt == HamlibMode::PktUsb,
            o.dig == HamlibMode::PktUsb,
    {
        ModeOverrides { pkt: HamlibMode::PktUsb, dig: HamlibMode::PktUsb }
    }
}

/// Reads the literals that modes are written with.
proof fn lemma_mode_literals()
    ensures
        "lsb"@ == seq!['l', 's', 'b'],
        "usb"@ == seq!['u', 's', 'b'],
        "cw"@ == seq!['c', 'w'],
        "fm"@ == seq!['f', 'm'],
        "am"@ == seq!['a', 'm'],
        "rtty"@ == seq!['r', 't', 't', 'y'],
        "pkt"@ == seq!['p', 'k', 't'],
        "dig"@ == seq!['d', 'i', 'g'],
        "pktlsb"@ == seq!['p', 'k', 't', 'l', 's', 'b'],
        "pktusb"@ == seq!['p', 'k', 't', 'u', 's', 'b'],
        "pktfm"@ == seq!['p', 'k', 't', 'f', 'm'],
        "LSB"@ == seq!['L', 'S', 'B'],
        "USB"@ == seq!['U', 'S', 'B'],
        "CW"@ == seq!['C', 'W'],
        "FM"@ == seq!['F', 'M'],
        "AM"@ == seq!['A', 'M'],
        "RTTY"@ == seq!['R', 'T', 'T', 'Y'],
        "PKTLSB"@ == seq!['P', 'K', 'T', 'L', 'S', 'B'],
        "PKTUSB"@ == seq!['P', 'K', 'T', 'U', 'S', 'B'],
        "PKTFM"@ == seq!['P', 'K', 'T', 'F', 'M'],
{
    reveal_strlit("lsb");
    reveal_strlit("usb");
    reveal_strlit("cw");
    reveal_strlit("fm");
    reveal_strlit("am");
    reveal_strlit("rtty");
    reveal_strlit("pkt");
    reveal_strlit("dig");
    reveal_strlit("pktlsb");
    reveal_strlit("pktusb");
    reveal_strlit("pktfm");
    reveal_strlit("LSB");
    reveal_strlit("USB");
    reveal_strlit("CW");
    reveal_strlit("FM");
    reveal_strlit("AM");
    reveal_strlit("RTTY");
    reveal_strlit("PKTLSB");
    reveal_strlit("PKTUSB");
    reveal_strlit("PKTFM");
}

/// `upper` is `lower` with every small letter made a capital one.
pub open spec fn is_upper_case_of(upper: Seq<char>, lower: Seq<char>) -> bool {
    &&& upper.len() == lower.len()
    &&& forall|i: int|
        0 <= i < lower.len() ==> 'a' <= #[trigger] lower[i] <= 'z' && upper[i] as int
            == lower[i] as int - 32
}

/// A mode that is not ambiguous is sent to the rig under its own name: hamlib's
/// name of its target is its path segment in upper case.
pub proof fn mode_keeps_its_name(mode: Mode, overrides: ModeOverrides)
    requires
        mode != Mode::Pkt,
        mode != Mode::Dig,
    ensures
        is_upper_case_of(hamlib_name(resolved(mode, overrides)), segment(mode)),
{
    lemma_mode_literals();
}

/// Different modes that are not ambiguous have different targets.
pub proof fn targets_are_distinct(a: Mode, b: Mode, overrides: ModeOverrides)
    requires
        a != Mode::Pkt && a != Mode::Dig,
        b != Mode::Pkt && b != Mode::Dig,
        resolved(a, overrides) == resolved(b, overrides),
    ensures
        a == b,
{
    mode_keeps_its_name(a, overrides);
    mode_keeps_its_name(b, overrides);
    let (x, y) = (segment(a), segment(b));
    let name = hamlib_name(resolved(a, overrides));
    assert forall|i: int| 0 <= i < x.len() implies x[i] == y[i] by {
        assert(name[i] as int == x[i] as int - 32);
        assert(name[i] as int == y[i] as int - 32);
    }
    assert(x =~= y);
    segments_are_distinct(a, b);
}

/// The ambiguous modes go to the targets that are set for them, each to its own.
pub proof fn ambiguous_modes_follow_their_overrides(overrides: ModeOverrides)
    ensures
        resolved(Mode::Pkt, overrides) == overrides.pkt,
        resolved(Mode::Dig, overrides) == overrides.dig,
{
}

/// No two targets share a name.
pub proof fn hamlib_names_are_distinct(a: HamlibMode, b: HamlibMode)
    requires
        hamlib_name(a) == hamlib_name(b),
    ensures
        a == b,
{
    lemma_mode_literals();
    let (x, y) = (hamlib_name(a), hamlib_name(b));
    assert(x.len() == y.len() && x[0] == y[0] && x[1] == y[1]);
    assert(x.len() > 2 ==> x[2] == y[2]);
    assert(x.len() > 3 ==> x[3] == y[3]);
}

/// The segments that Wavelog sends are the modes, and no other text is one.
pub proof fn segments_are_those_of_wavelog(s: Seq<char>)
    ensures
        is_segment(s) <==> {
            ||| s == seq!['l', 's', 'b']
            ||| s == seq!['u', 's', 'b']
            ||| s == seq!['c', 'w']
            ||| s == seq!['f', 'm']
            ||| s == seq!['a', 'm']
            ||| s == seq!['r', 't', 't', 'y']
            ||| s == seq!['p', 'k', 't']
            ||| s == seq!['d', 'i', 'g']
            ||| s == seq!['p', 'k', 't', 'l', 's', 'b']
            ||| s == seq!['p', 'k', 't', 'u', 's', 'b']
            ||| s == seq!['p', 'k', 't', 'f', 'm']
        },
        segment(Mode::Pkt) == seq!['p', 'k', 't'],
        segment(Mode::Dig) == seq!['d', 'i', 'g'],
{
    lemma_mode_literals();
    assert(is_segment(segment(Mode::Lsb)));
    assert(is_segment(segment(Mode::Usb)));
    assert(is_segment(segment(Mode::Cw)));
    assert(is_segment(segment(Mode::Fm)));
    assert(is_segment(segment(Mode::Am)));
    assert(is_segment(segment(Mode::Rtty)));
    assert(is_segment(segment(Mode::Pkt)));
    assert(is_segment(segment(Mode::Dig)));
    assert(is_segment(segment(Mode::PktLsb)));
    assert(is_segment(segment(Mode::PktUsb)));
    assert(is_segment(segment(Mode::PktFm)));
}

} // verus!
