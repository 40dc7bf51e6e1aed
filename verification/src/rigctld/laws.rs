//! What is said to the rig, and what its answers come to, line by line.
use crate::binary32;
use crate::binary32::Binary32;
use crate::listener;
use crate::listener::TuneAction;
use crate::modes;
use crate::modes::{HamlibMode, Mode, ModeOverrides};
use crate::rigctld::actor;
use crate::rigctld::actor::{DegradedKind, HealthState};
use crate::rigctld::exchange;
use crate::rigctld::exchange::{
    RigCommand, RigErrorView, RigReplyView, RigStateView,
};
use crate::text;
use crate::text_laws;
use vstd::prelude::*;

verus! {

/// A report line: `RPRT`, a blank, and the code with any white space around it.
pub open spec fn report_line(before: Seq<char>, code: i32, after: Seq<char>) -> Seq<char> {
    seq!['R', 'P', 'R', 'T', ' '] + (before + text::signed_decimal(code as int) + after)
}

proof fn lemma_signed_decimal_is_tight(code: i32)
    ensures
        text_laws::is_tight(text::signed_decimal(code as int)),
        text::signed_decimal(code as int).len() > 0,
{
    let d = if code < 0 {
        text::decimal((-(code as int)) as nat)
    } else {
        text::decimal(code as nat)
    };
    text::decimal_round_trip(
        if code < 0 {
            (-(code as int)) as nat
        } else {
            code as nat
        },
    );
    assert(text::is_digit(d[0]));
    assert(text::is_digit(d[d.len() - 1]));
    let s = text::signed_decimal(code as int);
    assert(s.last() == d.last());
}

/// The code of a report is read, whatever it is, and only reports have one.
pub proof fn report_code_is_read(before: Seq<char>, code: i32, after: Seq<char>, line: Seq<char>)
    requires
        text_laws::is_blank(before),
        text_laws::is_blank(after),
    ensures
        exchange::rprt_code(report_line(before, code, after)) == Some(code as int),
        exchange::rprt_code(line) is Some ==> line.len() > 5 && line.take(5) == seq![
            'R',
            'P',
            'R',
            'T',
            ' ',
        ],
{
    reveal_strlit("RPRT ");
    let prefix = seq!['R', 'P', 'R', 'T', ' '];
    assert("RPRT "@ =~= prefix);
    let digits = text::signed_decimal(code as int);
    let rest = before + digits + after;
    text_laws::prefix_is_found(prefix, rest);
    lemma_signed_decimal_is_tight(code);
    text_laws::trimming_removes_white_space_only(before, digits, after);
    text_laws::signed_decimal_is_read(code);
    if exchange::rprt_code(line) is Some {
        assert(line.take(5) == prefix);
        if line.len() == 5 {
            assert(line.skip(5) == Seq::<char>::empty());
            assert(text::trimmed(line.skip(5)) == Seq::<char>::empty());
            assert(false);
        }
    }
}

/// A rig that answers a set command with code 0 has carried it out; any other code
/// is its refusal, told with that code; what is no report is no answer.
pub proof fn set_answers_are_told_apart(code: i32, line: Seq<char>)
    ensures
        ({
            let answer = exchange::set_outcome(report_line(Seq::empty(), code, Seq::empty()));
            if code == 0 {
                answer == Ok::<(), RigErrorView>(())
            } else {
                answer == Err::<(), RigErrorView>(RigErrorView::Hamlib(code as int))
            }
        }),
        exchange::set_outcome(line) is Ok ==> exchange::rprt_code(line) == Some(0int),
        exchange::rprt_code(line) is None ==> exchange::set_outcome(line) == Err::<
            (),
            RigErrorView,
        >(RigErrorView::BadResponse(line)),
{
    report_code_is_read(Seq::empty(), code, Seq::empty(), line);
}

proof fn lemma_number_is_no_report(line: Seq<char>)
    requires
        line.len() > 0,
        line[0] != 'R',
    ensures
        exchange::rprt_code(line) is None,
{
    if exchange::rprt_code(line) is Some {
        report_code_is_read(Seq::empty(), 0, Seq::empty(), line);
        assert(line.take(5)[0] == 'R');
    }
}

/// Every frequency that the rig can report is read as it is.
pub proof fn every_frequency_is_read(hz: u64)
    ensures
        exchange::freq_outcome(text::decimal(hz as nat)) == Ok::<nat, RigErrorView>(hz as nat),
{
    let line = text::decimal(hz as nat);
    text::decimal_round_trip(hz as nat);
    assert(text::is_digit(line[0]));
    lemma_number_is_no_report(line);
    text_laws::decimal_is_read(hz as nat, u64::MAX as nat);
}

/// A line of digits is read as the number that they denote, where 64 bits hold it.
/// Nothing but a number is a frequency: a report is the rig's refusal, with its
/// code, and any other line is handed on as unreadable.
pub proof fn only_numbers_are_frequencies(line: Seq<char>, code: i32)
    ensures
        line.len() > 0 && text::all_digits(line) ==> exchange::freq_outcome(line) == (
        if text::digits_value(line) <= u64::MAX {
            Ok::<nat, RigErrorView>(text::digits_value(line))
        } else {
            Err(RigErrorView::BadResponse(line))
        }),
        exchange::freq_outcome(line) is Ok ==> line.len() > 0 && forall|i: int|
            0 < i < line.len() ==> '0' <= #[trigger] line[i] <= '9',
        exchange::freq_outcome(line) matches Err(RigErrorView::BadResponse(l)) ==> l == line,
        exchange::freq_outcome(report_line(Seq::empty(), code, Seq::empty())) == Err::<
            nat,
            RigErrorView,
        >(RigErrorView::Hamlib(code as int)),
{
    if line.len() > 0 && text::all_digits(line) {
        assert(text::is_digit(line[0]));
        lemma_number_is_no_report(line);
        text_laws::digits_are_read(line, u64::MAX as nat);
    }
    if exchange::freq_outcome(line) is Ok {
        text_laws::only_numbers_are_read(line, u64::MAX as nat);
    }
    report_code_is_read(Seq::empty(), code, Seq::empty(), line);
}

/// The number of a range that is nearest to `x`.
pub open spec fn between(x: int, low: int, high: int) -> int {
    if x < low {
        low
    } else if x > high {
        high
    } else {
        x
    }
}

/// A power reading is taken as it is where it lies between 0.0 and 1.0, and moved to
/// the nearer end where it does not; what is no number is unreadable. A report is
/// the rig's refusal, with its code.
pub proof fn power_is_read(line: Seq<char>, x: Binary32, code: i32, number: Option<Binary32>)
    requires
        exchange::rprt_code(line) is None,
    ensures
        x.spec_is_finite() ==> {
            &&& exchange::power_outcome(line, Some(x)) matches Ok(p)
            &&& p.spec_is_finite()
            &&& p.value() == between(x.value(), 0, binary32::one() as int)
            &&& 0 <= x.value() <= binary32::one() ==> p == x
        },
        !x.spec_is_finite() ==> exchange::power_outcome(line, Some(x)) == Err::<
            Binary32,
            RigErrorView,
        >(RigErrorView::BadResponse(line)),
        exchange::power_outcome(line, None) == Err::<Binary32, RigErrorView>(
            RigErrorView::BadResponse(line),
        ),
        exchange::power_outcome(report_line(Seq::empty(), code, Seq::empty()), number) == Err::<
            Binary32,
            RigErrorView,
        >(RigErrorView::Hamlib(code as int)),
{
    binary32::bits_of_zero_and_one();
    report_code_is_read(Seq::empty(), code, Seq::empty(), line);
}

/// A mode line: the mode's name is its first word, and it is no report.
pub open spec fn is_mode_line(line: Seq<char>, name: Seq<char>) -> bool {
    &&& name.len() > 0
    &&& text::first_word(line) == name
    &&& exchange::rprt_code(line) is None
}

/// A line that begins with a mode's name is a mode line, whatever stands behind white space,
/// and white space in front of it does not matter.
pub proof fn names_make_mode_lines(before: Seq<char>, name: Seq<char>, rest: Seq<char>)
    requires
        text_laws::is_blank(before),
        name.len() > 0,
        name != seq!['R', 'P', 'R', 'T'],
        forall|i: int| 0 <= i < name.len() ==> !text::is_white_space(#[trigger] name[i]),
        rest.len() > 0 ==> text::is_white_space(rest[0]),
    ensures
        is_mode_line(before + name + rest, name),
{
    let line = before + name + rest;
    text_laws::first_word_is_whole(before, name, rest);
    report_code_is_read(Seq::empty(), 0, Seq::empty(), line);
    if exchange::rprt_code(line) is Some {
        let head = line.take(5);
        if before.len() > 0 {
            assert(line[0] == before[0]);
            assert(text::is_white_space(before[0]));
            assert(head[0] == 'R');
        } else {
            assert(head[0] == 'R' && head[1] == 'P' && head[2] == 'R' && head[3] == 'T' && head[4]
                == ' ');
            assert forall|i: int| 0 <= i < 5 && i < name.len() implies name[i] == head[i] by {
                assert(line[i] == name[i]);
            }
            if name.len() < 5 {
                assert(line[name.len() as int] == rest[0]);
            }
            assert(name =~= seq!['R', 'P', 'R', 'T']);
        }
    }
}

/// A poll reports what the rig answered: the frequency in Hz, the mode's name
/// unchanged, and the power. A rig that does not give its power is reported without
/// one.
pub proof fn poll_reports_what_the_rig_answered(
    hz: u64,
    mode_line: Seq<char>,
    name: Seq<char>,
    passband: Seq<char>,
    power_line: Seq<char>,
    x: Binary32,
    code: i32,
)
    requires
        is_mode_line(mode_line, name),
        exchange::rprt_code(power_line) is None,
        x.spec_is_finite(),
        0 <= x.value() <= binary32::one(),
    ensures
        exchange::first_line(RigCommand::Poll) == seq!['f'],
        ({
            let lines = seq![
                (text::decimal(hz as nat), None::<Binary32>),
                (mode_line, None),
                (passband, None),
                (power_line, Some(x)),
            ];
            let (sent, outcome) = exchange::run(exchange::begun(RigCommand::Poll), lines);
            &&& sent.len() == 2
            &&& sent[0] == seq!['m']
            &&& outcome == Some(
                Ok::<_, RigErrorView>(
                    RigReplyView::State(RigStateView { freq: hz, mode: name, power: Some(x) }),
                ),
            )
        }),
        ({
            let refusal = report_line(Seq::empty(), code, Seq::empty());
            let lines = seq![
                (text::decimal(hz as nat), None::<Binary32>),
                (mode_line, None),
                (passband, None),
                (refusal, Some(x)),
            ];
            exchange::run(exchange::begun(RigCommand::Poll), lines).1 == Some(
                Ok::<_, RigErrorView>(
                    RigReplyView::State(RigStateView { freq: hz, mode: name, power: None }),
                ),
            )
        }),
{
    reveal_strlit("f");
    reveal_strlit("m");
    assert("f"@ =~= seq!['f']);
    assert("m"@ =~= seq!['m']);
    every_frequency_is_read(hz);
    power_is_read(power_line, x, code, Some(x));
    let freq = text::decimal(hz as nat);
    exchange::poll_takes_one_snapshot(freq, mode_line, passband, power_line, Some(x));
    let refusal = report_line(Seq::empty(), code, Seq::empty());
    exchange::poll_takes_one_snapshot(freq, mode_line, passband, refusal, Some(x));
}

/// A single question is answered with what the rig said: its frequency, its mode's
/// name, its power.
pub proof fn questions_are_answered(
    hz: u64,
    mode_line: Seq<char>,
    name: Seq<char>,
    passband: Seq<char>,
    power_line: Seq<char>,
    x: Binary32,
)
    requires
        is_mode_line(mode_line, name),
        exchange::rprt_code(power_line) is None,
        x.spec_is_finite(),
        0 <= x.value() <= binary32::one(),
    ensures
        exchange::run(
            exchange::begun(RigCommand::GetFreq),
            seq![(text::decimal(hz as nat), None)],
        ).1 == Some(Ok::<_, RigErrorView>(RigReplyView::Freq(hz))),
        exchange::run(
            exchange::begun(RigCommand::GetMode),
            seq![(mode_line, None), (passband, None)],
        ).1 == Some(Ok::<_, RigErrorView>(RigReplyView::Mode(name))),
        exchange::run(exchange::begun(RigCommand::GetPower), seq![(power_line, Some(x))]).1 == Some(
            Ok::<_, RigErrorView>(RigReplyView::Power(x)),
        ),
        exchange::first_line(RigCommand::GetFreq) == seq!['f'],
        exchange::first_line(RigCommand::GetMode) == seq!['m'],
        exchange::first_line(RigCommand::GetPower) == "\\get_level RFPOWER"@,
{
    reveal_strlit("f");
    reveal_strlit("m");
    assert("f"@ =~= seq!['f']);
    assert("m"@ =~= seq!['m']);
    every_frequency_is_read(hz);
    power_is_read(power_line, x, 0, None);
    reveal_with_fuel(exchange::run, 3);
    let lines = seq![(mode_line, None::<Binary32>), (passband, None)];
    assert(lines.skip(1) == seq![(passband, None::<Binary32>)]);
}

/// The rig's refusal of a poll's first questions ends the poll with that code, and
/// so does a mode line that names no mode, once its passband was read.
pub proof fn refused_polls_end(hz: u64, code: i32, blank: Seq<char>, passband: Seq<char>)
    requires
        text_laws::is_blank(blank),
    ensures
        ({
            let refusal = report_line(Seq::empty(), code, Seq::empty());
            let poll = exchange::begun(RigCommand::Poll);
            let freq = (text::decimal(hz as nat), None::<Binary32>);
            &&& exchange::run(poll, seq![(refusal, None)]).1 == Some(
                Err::<RigReplyView, _>(RigErrorView::Hamlib(code as int)),
            )
            &&& exchange::run(poll, seq![freq, (refusal, None)]).1 == Some(
                Err::<RigReplyView, _>(RigErrorView::Hamlib(code as int)),
            )
            &&& exchange::run(poll, seq![freq, (blank, None)]).1 is None
            &&& exchange::run(poll, seq![freq, (blank, None), (passband, None)]).1 == Some(
                Err::<RigReplyView, _>(RigErrorView::BadResponse(blank)),
            )
        }),
{
    let refusal = report_line(Seq::empty(), code, Seq::empty());
    let freq = (text::decimal(hz as nat), None::<Binary32>);
    report_code_is_read(Seq::empty(), code, Seq::empty(), blank);
    every_frequency_is_read(hz);
    if exchange::rprt_code(blank) is Some {
        assert(blank.take(5)[0] == 'R');
        assert(text::is_white_space(blank[0]));
    }
    assert(blank + Seq::<char>::empty() + Seq::<char>::empty() == blank);
    text_laws::first_word_is_whole(blank, Seq::empty(), Seq::empty());
    reveal_with_fuel(exchange::run, 4);
    let a = seq![freq, (refusal, None)];
    assert(a.skip(1) == seq![(refusal, None::<Binary32>)]);
    let b = seq![freq, (blank, None)];
    assert(b.skip(1) == seq![(blank, None::<Binary32>)]);
    let c = seq![freq, (blank, None), (passband, None)];
    assert(c.skip(1) == seq![(blank, None::<Binary32>), (passband, None)]);
    assert(c.skip(1).skip(1) == seq![(passband, None::<Binary32>)]);
    assert(b.skip(1).skip(1) == Seq::<(Seq<char>, Option<Binary32>)>::empty());
}

/// The line that sets a frequency says that frequency in decimal notation, the line
/// that sets a mode says hamlib's name of it and keeps the passband.
pub proof fn set_lines_say_what_is_set(hz: u64, mode: HamlibMode)
    ensures
        ({
            let line = exchange::first_line(RigCommand::SetFreq { hz });
            &&& line.take(2) == seq!['F', ' ']
            &&& text::unsigned_value(line.skip(2), u64::MAX as nat) == Some(hz as nat)
            &&& text::all_digits(line.skip(2))
        }),
        exchange::first_line(RigCommand::SetFreqMode { hz, mode }) == exchange::first_line(
            RigCommand::SetFreq { hz },
        ),
        exchange::first_line(RigCommand::SetMode { mode }) == seq!['M', ' '] + modes::hamlib_name(
            mode,
        ) + seq![' ', '-', '1'],
{
    reveal_strlit("F ");
    reveal_strlit("M ");
    reveal_strlit(" -1");
    assert("F "@ =~= seq!['F', ' ']);
    assert("M "@ =~= seq!['M', ' ']);
    assert(" -1"@ =~= seq![' ', '-', '1']);
    let digits = text::decimal(hz as nat);
    let line = "F "@ + digits;
    assert(line.take(2) =~= seq!['F', ' ']);
    assert(line.skip(2) =~= digits);
    text::decimal_round_trip(hz as nat);
    text_laws::decimal_is_read(hz as nat, u64::MAX as nat);
}

/// Clicking a spot sends the rig its frequency and its mode's name in upper case.
pub proof fn click_is_sent_to_the_rig(hz: u64, mode: Mode, overrides: ModeOverrides)
    requires
        mode != Mode::Pkt,
        mode != Mode::Dig,
    ensures
        ({
            let target = listener::tune_target(
                text::decimal(hz as nat),
                modes::segment(mode),
                overrides,
            );
            let (first, a) = listener::begun_tuning(target);
            let (_, b) = listener::replied_tuning(first, true);
            &&& a matches TuneAction::SetFreq(f) && exchange::first_line(
                RigCommand::SetFreq { hz: f },
            ) == seq!['F', ' '] + text::decimal(hz as nat)
            &&& b matches TuneAction::SetMode(m) && exists|name: Seq<char>|
                #![trigger modes::is_upper_case_of(name, modes::segment(mode))]
                modes::is_upper_case_of(name, modes::segment(mode)) && exchange::first_line(
                    RigCommand::SetMode { mode: m },
                ) == seq!['M', ' '] + name + seq![' ', '-', '1']
        }),
{
    listener::click_sets_what_was_asked_for(hz, mode, overrides);
    let m = modes::resolved(mode, overrides);
    set_lines_say_what_is_set(hz, m);
    reveal_strlit("F ");
    assert("F "@ =~= seq!['F', ' ']);
    listener::path_names_its_target_exactly(hz, mode, overrides);
    modes::mode_keeps_its_name(mode, overrides);
}

/// A frequency and a mode that the rig takes are both set: the mode's line follows
/// the frequency's, and the command is done.
pub proof fn taken_settings_are_done(hz: u64, mode: HamlibMode)
    ensures
        ({
            let ok = (report_line(Seq::empty(), 0, Seq::empty()), None::<Binary32>);
            let (sent, outcome) = exchange::run(
                exchange::begun(RigCommand::SetFreqMode { hz, mode }),
                seq![ok, ok],
            );
            &&& sent == seq![exchange::first_line(RigCommand::SetMode { mode })]
            &&& outcome == Some(Ok::<_, RigErrorView>(RigReplyView::Done))
            &&& exchange::run(exchange::begun(RigCommand::SetFreq { hz }), seq![ok]) == (
                Seq::<Seq<char>>::empty(),
                Some(Ok::<_, RigErrorView>(RigReplyView::Done)),
            )
            &&& exchange::run(exchange::begun(RigCommand::SetMode { mode }), seq![ok]) == (
                Seq::<Seq<char>>::empty(),
                Some(Ok::<_, RigErrorView>(RigReplyView::Done)),
            )
        }),
{
    let line = report_line(Seq::empty(), 0, Seq::empty());
    set_answers_are_told_apart(0, line);
    exchange::set_freq_mode_is_atomic(hz, mode, line, line);
    reveal_with_fuel(exchange::run, 2);
}

/// A setting that the rig refuses with a code is answered with that code.
pub proof fn refused_settings_are_reported(command: RigCommand, code: i32)
    requires
        command is SetFreq || command is SetMode || command is SetFreqMode,
        code != 0,
    ensures
        exchange::run(
            exchange::begun(command),
            seq![(report_line(Seq::empty(), code, Seq::empty()), None)],
        ) == (
            Seq::<Seq<char>>::empty(),
            Some(Err::<RigReplyView, _>(RigErrorView::Hamlib(code as int))),
        ),
{
    set_answers_are_told_apart(code, Seq::empty());
    reveal_with_fuel(exchange::run, 2);
}

/// Reconnects are delayed by 500 ms, 1 s, 2 s, 5 s, and 10 s from then on.
pub proof fn reconnects_back_off(n: int)
    requires
        n >= 0,
    ensures
        actor::backoff_millis(n) == (if n == 0 {
            500
        } else if n == 1 {
            1_000
        } else if n == 2 {
            2_000
        } else if n == 3 {
            5_000
        } else {
            10_000int
        }),
{
}

/// The first failure of a kind counts one, and every further one of the same kind
/// one more, up to what 32 bits hold.
pub proof fn failures_in_a_row_are_counted(state: HealthState, kind: DegradedKind)
    ensures
        actor::after_failure(state, kind) matches HealthState::Degraded { kind: k, failures: n }
            && k == kind && match state {
            HealthState::Degraded { kind: was, failures: before } if was == kind => n == before + 1
                || (before == u32::MAX && n == before),
            _ => n == 1,
        },
{
}

/// Whatever it is the answer to, a report with a code other than 0 is the rig's refusal, and
/// any report is one where a value was asked for. A plus sign in front of a frequency does
/// not matter.
pub proof fn reports_are_refusals(line: Seq<char>, number: Option<Binary32>, digits: Seq<char>)
    requires
        digits.len() > 0,
        text::all_digits(digits),
    ensures
        exchange::rprt_code(line) matches Some(code) ==> {
            &&& exchange::set_outcome(line) == (if code == 0 {
                Ok::<(), RigErrorView>(())
            } else {
                Err(RigErrorView::Hamlib(code))
            })
            &&& exchange::freq_outcome(line) == Err::<nat, RigErrorView>(RigErrorView::Hamlib(code))
            &&& exchange::power_outcome(line, number) == Err::<Binary32, RigErrorView>(
                RigErrorView::Hamlib(code),
            )
        },
        text::digits_value(digits) <= u64::MAX ==> exchange::freq_outcome(seq!['+'] + digits)
            == Ok::<nat, RigErrorView>(text::digits_value(digits)),
{
    let line = seq!['+'] + digits;
    lemma_number_is_no_report(line);
    assert(line.skip(1) =~= digits);
}

/// A question that the rig refuses is answered with the rig's code, and one that it answers
/// with what is no answer is told so.
pub proof fn refused_questions_are_told(
    code: i32,
    line: Seq<char>,
    number: Option<Binary32>,
    blank: Seq<char>,
    passband: Seq<char>,
)
    requires
        exchange::rprt_code(line) is None,
        text_laws::is_blank(blank),
    ensures
        ({
            let refusal = report_line(Seq::empty(), code, Seq::empty());
            let told = Some(Err::<RigReplyView, _>(RigErrorView::Hamlib(code as int)));
            let unreadable = Some(Err::<RigReplyView, _>(RigErrorView::BadResponse(line)));
            let freq = exchange::begun(RigCommand::GetFreq);
            let mode = exchange::begun(RigCommand::GetMode);
            let power = exchange::begun(RigCommand::GetPower);
            &&& exchange::run(freq, seq![(refusal, number)]).1 == told
            &&& exchange::run(mode, seq![(refusal, number)]).1 == told
            &&& exchange::run(power, seq![(refusal, number)]).1 == told
            &&& line.len() > 0 && !('0' <= line[0] <= '9') && line[0] != '+' ==> exchange::run(
                freq,
                seq![(line, number)],
            ).1 == unreadable
            &&& exchange::run(mode, seq![(blank, number), (passband, number)]).1 == Some(
                Err::<RigReplyView, _>(RigErrorView::BadResponse(blank)),
            )
            &&& exchange::run(power, seq![(line, None)]).1 == unreadable
        }),
{
    let refusal = report_line(Seq::empty(), code, Seq::empty());
    report_code_is_read(Seq::empty(), code, Seq::empty(), blank);
    if exchange::rprt_code(blank) is Some {
        assert(blank.take(5)[0] == 'R');
        assert(text::is_white_space(blank[0]));
    }
    assert(blank + Seq::<char>::empty() + Seq::<char>::empty() == blank);
    text_laws::first_word_is_whole(blank, Seq::empty(), Seq::empty());
    reveal_with_fuel(exchange::run, 3);
    let c = seq![(blank, number), (passband, number)];
    assert(c.skip(1) =~= seq![(passband, number)]);
    if text::unsigned_value(line, u64::MAX as nat) is Some {
        text_laws::only_numbers_are_read(line, u64::MAX as nat);
    }
}

} // verus!
