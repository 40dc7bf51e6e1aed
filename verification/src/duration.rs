//! Spans of time.
use crate::text;
use vstd::prelude::*;

verus! {

/// Nanoseconds in a second.
pub const NANOS_PER_SEC: u32 = 1_000_000_000;

/// A span of time: whole seconds and nanoseconds below a second. Points in time
/// are given as the span since some fixed start.
#[derive(Debug, Clone, Copy, PartialEq, Eq, Structural)]
pub struct Duration {
    pub secs: u64,
    pub nanos: u32,
}

impl Duration {
    /// The nanoseconds do not make up a second.
    pub open spec fn wf(&self) -> bool {
        self.nanos < NANOS_PER_SEC
    }

    /// The span in nanoseconds.
    pub open spec fn total(&self) -> int {
        self.secs * 1_000_000_000 + self.nanos
    }

    pub fn from_secs(secs: u64) -> (d: Duration)
        ensures
            d.wf(),
            d.total() == secs * 1_000_000_000,
            d == (Duration { secs, nanos: 0 }),
    {
        Duration { secs, nanos: 0 }
    }

    pub fn from_millis(millis: u64) -> (d: Duration)
        ensures
            d.wf(),
            d.total() == millis * 1_000_000,
    {
        Duration { secs: millis / 1000, nanos: (millis % 1000) as u32 * 1_000_000 }
    }

    /// No time at all.
    pub fn is_zero(&self) -> (yes: bool)
        ensures
            yes == (self.total() == 0),
    {
        self.secs == 0 && self.nanos == 0
    }

    /// This span is shorter than `other`.
    pub fn is_shorter_than(&self, other: &Duration) -> (yes: bool)
        requires
            self.wf(),
            other.wf(),
        ensures
            yes == (self.total() < other.total()),
    {
        self.secs < other.secs || (self.secs == other.secs && self.nanos < other.nanos)
    }

    /// The span from `earlier` to this point in time; none where `earlier` is
    /// later.
    pub fn since(&self, earlier: &Duration) -> (d: Duration)
        requires
            self.wf(),
            earlier.wf(),
        ensures
            d.wf(),
            d.total() == (if self.total() > earlier.total() {
                self.total() - earlier.total()
            } else {
                0
            }),
    {
        if self.is_shorter_than(earlier) {
            Duration { secs: 0, nanos: 0 }
        } else if self.nanos >= earlier.nanos {
            Duration { secs: self.secs - earlier.secs, nanos: self.nanos - earlier.nanos }
        } else {
            Duration {
                secs: self.secs - earlier.secs - 1,
                nanos: self.nanos + NANOS_PER_SEC - earlier.nanos,
            }
        }
    }
}

/// The span, in seconds and nanoseconds, that a text such as `1s`, `500ms` or
/// `1h 30m` denotes for `humantime::parse_duration`; where it denotes none, what
/// the `Display` of the error says.
pub uninterp spec fn human_duration(s: Seq<char>) -> Result<(u64, u32), Seq<char>>;

/// A letter that units are spelled with.
pub open spec fn is_unit_letter(c: char) -> bool {
    ('a' <= c && c <= 'z') || ('A' <= c && c <= 'Z') || c == '\u{b5}'
}

/// No number follows a unit: the text is one number with its unit.
pub open spec fn is_one_number(s: Seq<char>) -> bool {
    forall|i: int, j: int|
        0 <= i < j < s.len() && is_unit_letter(#[trigger] s[i]) ==> !text::is_digit(
            #[trigger] s[j],
        )
}

/// The unit that begins at `i` is one of nano-, micro- or milliseconds (or
/// minutes in a longer spelling).
pub open spec fn is_fine_unit(s: Seq<char>, i: int) -> bool {
    ||| s[i] == 'n' || s[i] == 'u' || s[i] == '\u{b5}'
    ||| s[i] == 'm' && i + 1 < s.len() && (s[i + 1] == 's' || s[i + 1] == 'i')
}

/// At least the seconds that `n` of the unit that begins at `i` come to. What is
/// counted in nanoseconds has 64 bits for them.
pub open spec fn unit_seconds(s: Seq<char>, i: int, n: nat) -> nat {
    let next_is_o = i + 1 < s.len() && s[i + 1] == 'o';
    let next_is_s = i + 1 < s.len() && s[i + 1] == 's';
    if s[i] == 'n' || s[i] == 'u' || s[i] == '\u{b5}' || (s[i] == 'm' && next_is_s) {
        18_446_744_074
    } else if s[i] == 's' {
        n
    } else if s[i] == 'm' && !next_is_o {
        n * 60
    } else if s[i] == 'h' {
        n * 3_600
    } else if s[i] == 'd' {
        n * 86_400
    } else if s[i] == 'w' {
        n * 604_800
    } else if s[i] == 'm' || s[i] == 'M' {
        n * 2_630_016
    } else {
        n * 31_557_600
    }
}

/// At least the seconds that the text from `i` on comes to, where `n` is the
/// number read so far, unless a unit has been (`in_unit`). Digits behind a
/// decimal point are counted as if there were none.
pub open spec fn seconds_from(s: Seq<char>, i: int, n: nat, in_unit: bool) -> nat
    decreases s.len() - i,
{
    if !(0 <= i < s.len()) {
        0
    } else if text::is_digit(s[i]) {
        let d = (s[i] as int - '0' as int) as nat;
        let number = if in_unit {
            d
        } else {
            n * 10 + d
        };
        seconds_from(s, i + 1, number, false)
    } else if is_unit_letter(s[i]) && !in_unit {
        unit_seconds(s, i, n) + seconds_from(s, i + 1, 0, true)
    } else {
        seconds_from(s, i + 1, n, in_unit)
    }
}

/// The text from `i` on has parts of a second: a decimal point, or a fine unit.
pub open spec fn fine_from(s: Seq<char>, i: int, in_unit: bool) -> bool
    decreases s.len() - i,
{
    if !(0 <= i < s.len()) {
        false
    } else if s[i] == '.' {
        true
    } else if text::is_digit(s[i]) {
        fine_from(s, i + 1, false)
    } else if is_unit_letter(s[i]) && !in_unit {
        is_fine_unit(s, i) || fine_from(s, i + 1, true)
    } else {
        fine_from(s, i + 1, in_unit)
    }
}

/// A text whose numbers can be summed up: only one number, no parts of a second,
/// or fewer seconds than the largest 64-bit number.
pub open spec fn is_summable(s: Seq<char>) -> bool {
    is_one_number(s) || !fine_from(s, 0, false) || seconds_from(s, 0, 0, false) < u64::MAX
}

/// `humantime::parse_duration`: reads a span of time, or says why the text
/// denotes none. The contract names the result, claims that the span and the
/// wording of the error depend on the text alone, and that the nanoseconds do
/// not make up a second. `humantime` panics only where several numbers sum up to
/// the largest 64-bit number of seconds and parts of a second sum up to exactly
/// one more. One number alone does not do that, nor do numbers without parts of
/// a second, nor numbers that stay below that many seconds.
#[verifier::external_body]
fn parse_human(s: &str) -> (parsed: Result<(u64, u32), String>)
    requires
        is_summable(s@),
    ensures
        match parsed {
            Ok((secs, nanos)) => human_duration(s@) == Ok::<(u64, u32), Seq<char>>((secs, nanos))
                && nanos < NANOS_PER_SEC,
            Err(why) => human_duration(s@) == Err::<(u64, u32), Seq<char>>(why@),
        },
{
    match humantime::parse_duration(s) {
        Ok(d) => Ok((d.as_secs(), d.subsec_nanos())),
        Err(e) => Err(format!("{e}")),
    }
}

/// A text that denotes no span of time.
#[derive(Debug)]
pub struct DurationParseError {
    /// Why not.
    pub why: String,
}

/// `parsed` is this span, or this error.
pub open spec fn is_parsed(
    parsed: Result<Duration, DurationParseError>,
    span: Result<(u64, u32), Seq<char>>,
) -> bool {
    match parsed {
        Ok(d) => d.wf() && span == Ok::<(u64, u32), Seq<char>>((d.secs, d.nanos)),
        Err(e) => span == Err::<(u64, u32), Seq<char>>(e.why@),
    }
}

/// Parses a span of time (e.g. `1s`, `500ms`).
pub fn parse_duration(s: &str) -> (parsed: Result<Duration, DurationParseError>)
    requires
        is_summable(s@),
    ensures
        is_parsed(parsed, human_duration(s@)),
{
    accept_span(parse_human(s))
}

/// Takes over what `humantime` made of a text.
pub fn accept_span(span: Result<(u64, u32), String>) -> (parsed: Result<
    Duration,
    DurationParseError,
>)
    requires
        span matches Ok((_, nanos)) ==> nanos < NANOS_PER_SEC,
    ensures
        match span {
            Ok((secs, nanos)) => parsed == Ok::<Duration, DurationParseError>(
                (Duration { secs, nanos }),
            ) && parsed->Ok_0.wf(),
            Err(why) => parsed matches Err(e) && e.why@ == why@,
        },
{
    match span {
        Ok((secs, nanos)) => Ok(Duration { secs, nanos }),
        Err(why) => Err(DurationParseError { why }),
    }
}

/// Tells whether a text is one number with its unit.
pub fn has_one_number(s: &str) -> (yes: bool)
    ensures
        yes == is_one_number(s@),
{
    let chars = text::chars_of(s);
    let mut unit_begun = false;
    let mut i: usize = 0;
    while i < chars.len()
        invariant
            chars@ == s@,
            i <= chars@.len(),
            unit_begun == exists|k: int| 0 <= k < i && is_unit_letter(#[trigger] chars@[k]),
            is_one_number(chars@.take(i as int)),
        decreases chars@.len() - i,
    {
        let c = chars[i];
        if unit_begun && '0' <= c && c <= '9' {
            assert(text::is_digit(s@[i as int]));
            return false;
        }
        if ('a' <= c && c <= 'z') || ('A' <= c && c <= 'Z') || c == '\u{b5}' {
            unit_begun = true;
            assert(is_unit_letter(chars@[i as int]));
        }
        i += 1;
    }
    assert(chars@.take(i as int) == s@);
    true
}

/// The smaller of a number and the largest 64-bit one.
pub open spec fn capped(n: nat) -> nat {
    if n < u64::MAX {
        n
    } else {
        u64::MAX as nat
    }
}

fn cap(n: u128) -> (c: u64)
    ensures
        c == capped(n as nat),
{
    if n < u64::MAX as u128 {
        n as u64
    } else {
        u64::MAX
    }
}

/// How many seconds one of the unit that begins at `i` comes to at most; `None`
/// where the number of them does not matter.
fn unit_weight(s: &[char], i: usize) -> (weight: Option<u32>)
    requires
        i < s@.len(),
    ensures
        match weight {
            Some(w) => 1 <= w <= 31_557_600 && forall|n: nat| #[trigger]
                unit_seconds(s@, i as int, n) == n * w,
            None => forall|n: nat| #[trigger]
                unit_seconds(s@, i as int, n) == 18_446_744_074,
        },
{
    let c = s[i];
    let next = if i + 1 < s.len() {
        Some(s[i + 1])
    } else {
        None
    };
    if c == 'n' || c == 'u' || c == '\u{b5}' || (c == 'm' && next == Some('s')) {
        None
    } else if c == 's' {
        Some(1)
    } else if c == 'm' && next != Some('o') {
        Some(60)
    } else if c == 'h' {
        Some(3_600)
    } else if c == 'd' {
        Some(86_400)
    } else if c == 'w' {
        Some(604_800)
    } else if c == 'm' || c == 'M' {
        Some(2_630_016)
    } else {
        Some(31_557_600)
    }
}

/// Tells whether a unit that begins at `i` counts parts of a second.
fn has_fine_unit(s: &[char], i: usize) -> (yes: bool)
    requires
        i < s@.len(),
    ensures
        yes == is_fine_unit(s@, i as int),
{
    let c = s[i];
    c == 'n' || c == 'u' || c == '\u{b5}' || (c == 'm' && i + 1 < s.len() && (s[i + 1] == 's'
        || s[i + 1] == 'i'))
}

/// Multiplying capped numbers loses nothing below the cap.
proof fn lemma_capped_product(n: nat, w: nat)
    requires
        w > 0,
    ensures
        capped(capped(n) * w) == capped(n * w),
        capped(n) * w <= n * w,
{
    if n >= u64::MAX {
        assert(capped(n) * w >= u64::MAX) by (nonlinear_arith)
            requires
                capped(n) == u64::MAX,
                w >= 1,
        ;
        assert(capped(n) * w <= n * w) by (nonlinear_arith)
            requires
                capped(n) <= n,
        ;
    }
}

/// Tells whether the numbers of a text can be summed up.
pub fn can_be_summed(text: &str) -> (yes: bool)
    ensures
        yes == is_summable(text@),
{
    if has_one_number(text) {
        return true;
    }
    let chars = text::chars_of(text);
    let s = chars.as_slice();
    let mut i: usize = 0;
    let mut n: u64 = 0;
    let mut total: u64 = 0;
    let mut in_unit = false;
    let mut fine = false;
    let mut number: Ghost<nat> = Ghost(0);
    let mut sum: Ghost<nat> = Ghost(0);
    while i < s.len()
        invariant
            i <= s@.len(),
            n == capped(number@),
            total == capped(sum@),
            seconds_from(s@, 0, 0, false) == sum@ + seconds_from(
                s@,
                i as int,
                number@,
                in_unit,
            ),
            fine_from(s@, 0, false) == (fine || fine_from(s@, i as int, in_unit)),
        decreases s@.len() - i,
    {
        let c = s[i];
        if c == '.' {
            fine = true;
        }
        if '0' <= c && c <= '9' {
            let d: u32 = c as u32 - '0' as u32;
            if in_unit {
                n = d as u64;
                proof {
                    number@ = d as nat;
                }
            } else {
                n = cap(n as u128 * 10 + d as u128);
                proof {
                    number@ = number@ * 10 + d as nat;
                }
            }
            in_unit = false;
        } else if !in_unit && (('a' <= c && c <= 'z') || ('A' <= c && c <= 'Z') || c
            == '\u{b5}') {
            if has_fine_unit(s, i) {
                fine = true;
            }
            let ghost more = unit_seconds(s@, i as int, number@);
            match unit_weight(s, i) {
                Some(w) => {
                    proof {
                        lemma_capped_product(number@, w as nat);
                        assert(n * w <= 0xffff_ffff_ffff_ffff * 31_557_600) by (nonlinear_arith)
                            requires
                                n <= 0xffff_ffff_ffff_ffff,
                                w <= 31_557_600,
                        ;
                    }
                    total = cap(total as u128 + n as u128 * w as u128);
                },
                None => {
                    total = cap(total as u128 + 18_446_744_074);
                },
            }
            proof {
                sum@ = sum@ + more;
                number@ = 0;
            }
            n = 0;
            in_unit = true;
        }
        i += 1;
    }
    !fine || total < u64::MAX
}

/// Parses a span of time; `None` where its numbers cannot be summed up.
pub fn try_parse_duration(s: &str) -> (parsed: Option<Result<Duration, DurationParseError>>)
    ensures
        parsed is Some <==> is_summable(s@),
        parsed matches Some(p) ==> is_parsed(p, human_duration(s@)),
{
    if can_be_summed(s) {
        Some(parse_duration(s))
    } else {
        None
    }
}

/// A minute has 60 seconds, an hour 60 minutes, a day 24 hours, a week 7 days, a month
/// 30.44 days and a year 365.25 days.
pub proof fn units_are_multiples(s: Seq<char>, i: int, n: nat)
    requires
        0 <= i < s.len(),
    ensures
        s[i] == 's' ==> unit_seconds(s, i, n) == n,
        s[i] == 'm' && (i + 1 == s.len() || (s[i + 1] != 's' && s[i + 1] != 'o')) ==> unit_seconds(
            s,
            i,
            n,
        ) == 60 * n,
        s[i] == 'h' ==> unit_seconds(s, i, n) == 60 * (60 * n),
        s[i] == 'd' ==> unit_seconds(s, i, n) == 24 * (60 * (60 * n)),
        s[i] == 'w' ==> unit_seconds(s, i, n) == 7 * (24 * (60 * (60 * n))),
        s[i] == 'M' ==> 100 * unit_seconds(s, i, n) == 3044 * (24 * (60 * (60 * n))),
        s[i] == 'm' && i + 1 < s.len() && s[i + 1] == 'o' ==> 100 * unit_seconds(s, i, n) == 3044 * (
        24 * (60 * (60 * n))),
        s[i] == 'y' ==> 100 * unit_seconds(s, i, n) == 36525 * (24 * (60 * (60 * n))),
{
}

/// One number with its unit can always be parsed.
pub proof fn single_numbers_can_be_parsed(number: Seq<char>, unit: Seq<char>)
    requires
        forall|i: int| 0 <= i < number.len() ==> !is_unit_letter(#[trigger] number[i]),
        forall|i: int| 0 <= i < unit.len() ==> !('0' <= #[trigger] unit[i] <= '9'),
    ensures
        is_summable(number + unit),
{
    let s = number + unit;
    assert forall|i: int, j: int|
        0 <= i < j < s.len() && is_unit_letter(#[trigger] s[i]) implies !text::is_digit(
        #[trigger] s[j],
    ) by {
        assert(i >= number.len());
        assert(unit[j - number.len()] == s[j]);
    }
}

/// Whole numbers of seconds, hours, days, weeks and years can always be parsed.
pub proof fn coarse_spans_can_be_parsed(s: Seq<char>)
    requires
        forall|i: int|
            0 <= i < s.len() ==> #[trigger] s[i] != '.' && s[i] != 'n' && s[i] != 'u' && s[i]
                != '\u{b5}' && s[i] != 'm',
    ensures
        is_summable(s),
{
    lemma_not_fine(s, 0, false);
}

proof fn lemma_not_fine(s: Seq<char>, i: int, in_unit: bool)
    requires
        0 <= i,
        forall|i: int|
            0 <= i < s.len() ==> #[trigger] s[i] != '.' && s[i] != 'n' && s[i] != 'u' && s[i]
                != '\u{b5}' && s[i] != 'm',
    ensures
        !fine_from(s, i, in_unit),
    decreases s.len() - i,
{
    if i < s.len() {
        lemma_not_fine(s, i + 1, in_unit);
        lemma_not_fine(s, i + 1, false);
        lemma_not_fine(s, i + 1, true);
    }
}

/// The digits of a number add up to it, whatever they follow.
proof fn lemma_digits_are_summed(s: Seq<char>, from: int, digits: Seq<char>, k: int, in_unit: bool)
    requires
        0 <= from,
        from + digits.len() <= s.len(),
        s.subrange(from, from + digits.len()) == digits,
        text::all_digits(digits),
        0 < k <= digits.len(),
    ensures
        seconds_from(s, from, 0, in_unit) == seconds_from(
            s,
            from + k,
            text::digits_value(digits.take(k)),
            false,
        ),
    decreases k,
{
    reveal_with_fuel(text::digits_value, 2);
    assert(digits[k - 1] == s[from + k - 1]);
    assert(text::is_digit(digits[k - 1]));
    assert(digits.take(k).drop_last() =~= digits.take(k - 1));
    if k > 1 {
        lemma_digits_are_summed(s, from, digits, k - 1, in_unit);
    } else {
        assert(digits.take(0) =~= Seq::<char>::empty());
    }
}

/// Spans are added up: hours, days or weeks with milli-, micro- or nanoseconds behind
/// them can be parsed where their seconds have 64 bits.
pub proof fn spans_are_added_up(a: nat, unit: char, b: nat, fine: char)
    requires
        unit == 'h' || unit == 'd' || unit == 'w',
        fine == 'm' || fine == 'u' || fine == 'n',
    ensures
        ({
            let s = text::decimal(a) + seq![unit] + text::decimal(b) + seq![fine, 's'];
            let weight: nat = if unit == 'h' {
                3_600
            } else if unit == 'd' {
                86_400
            } else {
                604_800
            };
            is_summable(s) <==> a * weight + 18_446_744_074 < 0xffff_ffff_ffff_ffff
        }),
{
    let (x, y) = (text::decimal(a), text::decimal(b));
    let s = x + seq![unit] + y + seq![fine, 's'];
    text::decimal_round_trip(a);
    text::decimal_round_trip(b);
    let p = x.len() as int;
    let q = p + 1 + y.len();
    assert(s.subrange(0, x.len() as int) =~= x);
    assert(s.subrange(p + 1, p + 1 + y.len()) =~= y);
    lemma_digits_are_summed(s, 0, x, p, false);
    lemma_digits_are_summed(s, p + 1, y, y.len() as int, true);
    assert(x.take(p) =~= x);
    assert(y.take(y.len() as int) =~= y);
    assert(s[p] == unit && s[q] == fine && s[q + 1] == 's' && s.len() == q + 2);
    reveal_with_fuel(seconds_from, 3);
    assert(text::is_digit(y[0]));
    assert(s[p + 1] == y[0]);
    assert(!is_one_number(s)) by {
        assert(is_unit_letter(s[p]) && text::is_digit(s[p + 1]));
    }
    lemma_fine_behind(s, 0, q, false);
}

/// A span is fine where one of its units is.
proof fn lemma_fine_behind(s: Seq<char>, i: int, q: int, in_unit: bool)
    requires
        0 <= i <= q < s.len(),
        is_fine_unit(s, q),
        is_unit_letter(s[q]),
        q > 0 && text::is_digit(s[q - 1]),
        i == q ==> !in_unit,
    ensures
        fine_from(s, i, in_unit),
    decreases q - i,
{
    if i < q {
        if text::is_digit(s[i]) {
            lemma_fine_behind(s, i + 1, q, false);
        } else if i + 1 < q {
            lemma_fine_behind(s, i + 1, q, true);
            lemma_fine_behind(s, i + 1, q, in_unit);
        }
    }
}

/// A parsed duration lasts as long as its span: the seconds and the nanoseconds.
pub proof fn durations_last_as_long_as_their_span(
    parsed: Result<Duration, DurationParseError>,
    secs: u64,
    nanos: u32,
)
    requires
        is_parsed(parsed, Ok((secs, nanos))),
    ensures
        parsed matches Ok(d) && d.total() == secs * 1_000_000_000 + nanos && d.nanos < 1_000_000_000,
{
}

/// What stands before the place where a sum begins does not bear on it.
proof fn lemma_sum_moved(a: Seq<char>, b: Seq<char>, i: int, n: nat, in_unit: bool)
    requires
        0 <= i <= b.len(),
    ensures
        seconds_from(a + b, a.len() + i, n, in_unit) == seconds_from(b, i, n, in_unit),
    decreases b.len() - i,
{
    let s = a + b;
    if i < b.len() {
        assert(s[a.len() + i] == b[i]);
        assert(i + 1 < b.len() ==> s[a.len() + i + 1] == b[i + 1]);
        let d = (b[i] as int - '0' as int) as nat;
        lemma_sum_moved(a, b, i + 1, n, in_unit);
        lemma_sum_moved(a, b, i + 1, 0, true);
        lemma_sum_moved(a, b, i + 1, if in_unit {
            d
        } else {
            n * 10 + d
        }, false);
    }
}

/// Letters behind the first one of a unit, and what stands between two numbers, add
/// nothing.
proof fn lemma_rest_of_unit(s: Seq<char>, i: int, end: int)
    requires
        0 <= i <= end <= s.len(),
        forall|j: int| i <= j < end ==> !text::is_digit(#[trigger] s[j]),
    ensures
        seconds_from(s, i, 0, true) == seconds_from(s, end, 0, true),
    decreases end - i,
{
    if i < end {
        assert(!text::is_digit(s[i]));
        lemma_rest_of_unit(s, i + 1, end);
    }
}

/// A span is summed up number by number: one number with its unit comes to what that unit
/// is worth, and what follows is added to it.
pub proof fn spans_are_summed_in_turn(n: nat, unit: Seq<char>, gap: Seq<char>, rest: Seq<char>)
    requires
        unit.len() > 0,
        forall|i: int| 0 <= i < unit.len() ==> is_unit_letter(#[trigger] unit[i]),
        forall|i: int|
            0 <= i < gap.len() ==> !is_unit_letter(#[trigger] gap[i]) && !('0' <= gap[i] <= '9'),
        rest.len() > 0 ==> '0' <= rest[0] <= '9',
    ensures
        seconds_from(text::decimal(n) + unit + gap + rest, 0, 0, false) == unit_seconds(unit, 0, n)
            + seconds_from(rest, 0, 0, false),
        seconds_from(Seq::empty(), 0, 0, false) == 0,
{
    let x = text::decimal(n);
    let s = x + unit + gap + rest;
    let p = x.len() as int;
    let q = p + unit.len();
    let r = q + gap.len();
    text::decimal_round_trip(n);
    assert(s.subrange(0, p) =~= x);
    lemma_digits_are_summed(s, 0, x, p, false);
    assert(x.take(p) =~= x);
    assert(s[p] == unit[0]);
    assert(unit.len() > 1 ==> s[p + 1] == unit[1]);
    if unit.len() == 1 && p + 1 < s.len() {
        if gap.len() > 0 {
            assert(s[p + 1] == gap[0]);
        } else {
            assert(s[p + 1] == rest[0]);
        }
    }
    assert(unit_seconds(s, p, n) == unit_seconds(unit, 0, n));
    assert(!text::is_digit(s[p]) && is_unit_letter(s[p])) by {
        assert(is_unit_letter(unit[0]));
    }
    assert forall|j: int| p + 1 <= j < r implies !text::is_digit(#[trigger] s[j]) by {
        if j < q {
            assert(s[j] == unit[j - p]);
            assert(is_unit_letter(unit[j - p]));
        } else {
            assert(s[j] == gap[j - q]);
        }
    }
    lemma_rest_of_unit(s, p + 1, r);
    let head = x + unit + gap;
    assert(s =~= head + rest);
    lemma_sum_moved(head, rest, 0, 0, true);
}

/// What comes to fewer seconds than 64 bits hold can be parsed.
pub proof fn spans_that_fit_can_be_parsed(s: Seq<char>)
    requires
        seconds_from(s, 0, 0, false) < 0xffff_ffff_ffff_ffff,
    ensures
        is_summable(s),
{
}

} // verus!
