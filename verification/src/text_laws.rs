//! What numbers, white space, lines and words in texts are.
use crate::text;
use vstd::prelude::*;

verus! {

/// `10^n`.
pub open spec fn power_of_ten(n: nat) -> nat
    decreases n,
{
    if n == 0 {
        1
    } else {
        10 * power_of_ten((n - 1) as nat)
    }
}

/// Digits are read as in positional notation: those in front weigh ten times more
/// for each digit behind them.
pub proof fn digits_are_positional(a: Seq<char>, b: Seq<char>)
    requires
        text::all_digits(a),
        text::all_digits(b),
    ensures
        text::digits_value(a + b) == text::digits_value(a) * power_of_ten(b.len())
            + text::digits_value(b),
    decreases b.len(),
{
    let all = a + b;
    if b.len() == 0 {
        assert(all == a);
        let v = text::digits_value(a) as int;
        assert(v * 1 == v);
        assert(power_of_ten(b.len()) == 1);
        assert(text::digits_value(b) == 0);
    } else {
        let rest = b.drop_last();
        assert forall|i: int| 0 <= i < rest.len() implies text::is_digit(#[trigger] rest[i]) by {
            assert(text::is_digit(b[i]));
        }
        digits_are_positional(a, rest);
        assert(all.drop_last() == a + rest);
        assert(text::is_digit(b[b.len() - 1]));
        let v = text::digits_value(a) as int;
        let p = power_of_ten(rest.len()) as int;
        let r = text::digits_value(rest) as int;
        let d = b.last() as int - '0' as int;
        assert(power_of_ten(b.len()) == 10 * power_of_ten(rest.len()));
        assert(10 * (v * p + r) + d == v * (10 * p) + (10 * r + d)) by (nonlinear_arith);
        assert(all.last() == b.last());
    }
}

/// One digit denotes its distance from the zero.
pub proof fn one_digit_is_its_value(c: char)
    requires
        '0' <= c <= '9',
    ensures
        text::all_digits(seq![c]),
        text::digits_value(seq![c]) == c as int - '0' as int,
{
    reveal_with_fuel(text::digits_value, 2);
    assert(seq![c].drop_last() == Seq::<char>::empty());
}

/// The decimal notation of a number that fits is read as that number, with or
/// without a plus sign in front.
pub proof fn decimal_is_read(n: nat, max: nat)
    requires
        n <= max,
    ensures
        text::unsigned_value(text::decimal(n), max) == Some(n),
        text::unsigned_value(seq!['+'] + text::decimal(n), max) == Some(n),
{
    text::decimal_round_trip(n);
    let d = text::decimal(n);
    assert(text::is_digit(d[0]));
    assert(text::unsigned_digits(d) == d);
    assert((seq!['+'] + d).skip(1) == d);
}

/// What is read as a number is one: an optional plus sign and at least one digit,
/// nothing else, and the number is not too large.
pub proof fn only_numbers_are_read(s: Seq<char>, max: nat)
    requires
        text::unsigned_value(s, max) is Some,
    ensures
        text::unsigned_value(s, max)->Some_0 <= max,
        s.len() > 0,
        s.last() != '+',
        '0' <= s[0] <= '9' || s[0] == '+',
        forall|i: int| 0 < i < s.len() ==> '0' <= #[trigger] s[i] <= '9',
{
    let d = text::unsigned_digits(s);
    assert forall|i: int| 0 < i < s.len() implies '0' <= #[trigger] s[i] <= '9' by {
        if s[0] == '+' {
            assert(d[i - 1] == s[i]);
            assert(text::is_digit(d[i - 1]));
        } else {
            assert(text::is_digit(d[i]));
        }
    }
    assert(text::is_digit(d[0]));
}

/// Digits that denote a number within the bound are read as that number, also
/// with zeros in front.
pub proof fn digits_are_read(s: Seq<char>, max: nat)
    requires
        s.len() > 0,
        forall|i: int| 0 <= i < s.len() ==> '0' <= #[trigger] s[i] <= '9',
    ensures
        text::unsigned_value(s, max) == (if text::digits_value(s) <= max {
            Some(text::digits_value(s))
        } else {
            None
        }),
{
    assert(s[0] != '+');
    assert(text::unsigned_digits(s) == s);
    assert(text::all_digits(s));
}

/// The decimal notation of a 32-bit signed number is read as that number.
pub proof fn signed_decimal_is_read(n: i32)
    ensures
        text::signed_value(text::signed_decimal(n as int)) == Some(n as int),
{
    if n < 0 {
        let d = text::decimal((-(n as int)) as nat);
        text::decimal_round_trip((-(n as int)) as nat);
        assert((seq!['-'] + d).skip(1) == d);
    } else {
        decimal_is_read(n as nat, 0x7fff_ffff);
        text::decimal_round_trip(n as nat);
        assert(text::is_digit(text::decimal(n as nat)[0]));
    }
}

/// Different numbers have different notations.
pub proof fn decimals_differ(a: nat, b: nat)
    requires
        text::decimal(a) == text::decimal(b),
    ensures
        a == b,
{
    text::decimal_round_trip(a);
    text::decimal_round_trip(b);
}

/// Decimal notation has no superfluous zero in front, and has `n` digits exactly
/// for the numbers from `10^(n-1)` up to `10^n`.
pub proof fn decimal_is_shortest(n: nat)
    ensures
        n > 0 ==> text::decimal(n)[0] != '0',
        n < power_of_ten(text::decimal(n).len()),
        n > 0 ==> n >= power_of_ten((text::decimal(n).len() - 1) as nat),
    decreases n,
{
    reveal_with_fuel(power_of_ten, 2);
    if n >= 10 {
        decimal_is_shortest(n / 10);
        let len = text::decimal(n).len();
        assert(len == text::decimal(n / 10).len() + 1);
        assert(text::decimal(n)[0] == text::decimal(n / 10)[0]);
        text::decimal_round_trip(n / 10);
        assert(power_of_ten(len) == 10 * power_of_ten((len - 1) as nat));
        assert(power_of_ten((len - 1) as nat) == 10 * power_of_ten((len - 2) as nat));
    }
}

/// Blanks, tabs and line ends are white space; the visible ASCII characters are
/// not.
pub proof fn ascii_white_space(c: char)
    requires
        (c as u32) < 0x7f,
    ensures
        text::is_white_space(c) <==> c == ' ' || '\t' <= c <= '\r',
{
}

/// A text without white space at its ends.
pub open spec fn is_tight(s: Seq<char>) -> bool {
    s.len() > 0 ==> !text::is_white_space(s[0]) && !text::is_white_space(s.last())
}

/// White space only.
pub open spec fn is_blank(s: Seq<char>) -> bool {
    forall|i: int| 0 <= i < s.len() ==> text::is_white_space(#[trigger] s[i])
}

/// Trimming removes the white space at both ends, all of it, and nothing else.
pub proof fn trimming_removes_white_space_only(before: Seq<char>, s: Seq<char>, after: Seq<char>)
    requires
        is_blank(before),
        is_tight(s),
        is_blank(after),
    ensures
        text::trimmed(before + s + after) == s,
{
    let rest = s + after;
    assert(before + s + after == before + rest);
    if s.len() > 0 {
        lemma_trim_start(before, rest);
        assert(rest[0] == s[0]);
        lemma_trim_end(s, after);
    } else {
        let all = before + s + after;
        assert forall|i: int| 0 <= i < all.len() implies text::is_white_space(#[trigger] all[i]) by {
            if i < before.len() {
                assert(all[i] == before[i]);
            } else {
                assert(all[i] == after[i - before.len()]);
            }
        }
        assert(all + Seq::<char>::empty() == all);
        lemma_trim_start(all, Seq::empty());
        assert(text::trimmed(all) == s);
    }
}

proof fn lemma_trim_start(before: Seq<char>, s: Seq<char>)
    requires
        is_blank(before),
        s.len() > 0 ==> !text::is_white_space(s[0]),
    ensures
        text::trimmed_start(before + s) == s,
    decreases before.len(),
{
    let all = before + s;
    if before.len() == 0 {
        assert(all == s);
    } else {
        assert(all[0] == before[0]);
        let rest = before.skip(1);
        assert forall|i: int| 0 <= i < rest.len() implies text::is_white_space(#[trigger] rest[i]) by {
            assert(rest[i] == before[i + 1]);
        }
        lemma_trim_start(rest, s);
        assert(all.skip(1) == rest + s);
    }
}

proof fn lemma_trim_end(s: Seq<char>, after: Seq<char>)
    requires
        s.len() > 0 ==> !text::is_white_space(s.last()),
        is_blank(after),
    ensures
        text::trimmed_end(s + after) == s,
    decreases after.len(),
{
    let all = s + after;
    if after.len() == 0 {
        assert(all == s);
    } else {
        assert(all.last() == after[after.len() - 1]);
        let rest = after.drop_last();
        assert forall|i: int| 0 <= i < rest.len() implies text::is_white_space(#[trigger] rest[i]) by {
            assert(rest[i] == after[i]);
        }
        lemma_trim_end(s, rest);
        assert(all.drop_last() == s + rest);
    }
}

/// The first word is what stands before the first white space, behind any white
/// space in front; all of it, unchanged.
pub proof fn first_word_is_whole(before: Seq<char>, word: Seq<char>, rest: Seq<char>)
    requires
        is_blank(before),
        forall|i: int| 0 <= i < word.len() ==> !text::is_white_space(#[trigger] word[i]),
        rest.len() > 0 ==> text::is_white_space(rest[0]) && word.len() > 0,
    ensures
        text::first_word(before + word + rest) == word,
{
    let tail = word + rest;
    assert(before + word + rest == before + tail);
    if word.len() > 0 {
        assert(tail[0] == word[0]);
    }
    lemma_trim_start(before, tail);
    lemma_first_white_space(tail, 0, word.len() as int);
    assert(tail.take(word.len() as int) == word);
}

proof fn lemma_first_white_space(s: Seq<char>, from: int, at: int)
    requires
        0 <= from <= at <= s.len(),
        at < s.len() ==> text::is_white_space(s[at]),
        forall|i: int| from <= i < at ==> !text::is_white_space(#[trigger] s[i]),
    ensures
        text::first_white_space(s, from) == at,
    decreases at - from,
{
    if from < at {
        assert(!text::is_white_space(s[from]));
        lemma_first_white_space(s, from + 1, at);
    }
}

/// A line is received without its line end, and otherwise as it was sent.
pub proof fn line_end_is_removed(s: Seq<char>)
    requires
        s.len() > 0 ==> s.last() != '\r' && s.last() != '\n',
    ensures
        text::without_line_end(s) == s,
        text::without_line_end(s.push('\n')) == s,
        text::without_line_end(s.push('\r').push('\n')) == s,
{
    assert(s.push('\n').drop_last() == s);
    assert(s.push('\r').push('\n').drop_last() == s.push('\r'));
    assert(s.push('\r').drop_last() == s);
    reveal_with_fuel(text::without_line_end, 3);
}

/// A line feed ends a line, with or without a carriage return before it, and the
/// lines behind it are split on their own.
pub proof fn lines_end_at_line_feeds(line: Seq<char>, rest: Seq<char>)
    requires
        forall|i: int| 0 <= i < line.len() ==> line[i] != '\n',
        line.len() > 0 ==> line.last() != '\r',
    ensures
        text::lines(line.push('\n') + rest) == seq![line] + text::lines(rest),
        text::lines(line.push('\r').push('\n') + rest) == seq![line] + text::lines(rest),
        line.len() > 0 ==> text::lines(line) == seq![line],
        text::lines(Seq::empty()).len() == 0,
{
    let a = line.push('\n') + rest;
    text::first_index_unique(a, '\n', 0, line.len() as int);
    assert(a.take(line.len() as int) == line);
    assert(a.skip(line.len() as int + 1) == rest);
    let b = line.push('\r').push('\n') + rest;
    text::first_index_unique(b, '\n', 0, line.len() as int + 1);
    assert(b.take(line.len() as int + 1) == line.push('\r'));
    assert(line.push('\r').drop_last() == line);
    assert(b.skip(line.len() as int + 2) == rest);
    text::first_index_unique(line, '\n', 0, line.len() as int);
}

/// The lines that are not blank are kept, all of them, in order.
pub proof fn only_blank_lines_are_dropped(line: Seq<char>, rest: Seq<char>)
    requires
        forall|i: int| 0 <= i < line.len() ==> line[i] != '\n',
        line.len() > 0 ==> line.last() != '\r',
    ensures
        is_blank(line) ==> text::non_blank_lines(line.push('\n') + rest) == text::non_blank_lines(
            rest,
        ),
        !is_blank(line) ==> text::non_blank_lines(line.push('\n') + rest) == seq![line]
            + text::non_blank_lines(rest),
{
    lines_end_at_line_feeds(line, rest);
    let keep = text::is_not_blank();
    Seq::filter_distributes_over_add(seq![line], text::lines(rest), keep);
    reveal_with_fuel(Seq::filter, 2);
    assert(seq![line].drop_last() == Seq::<Seq<char>>::empty());
    lemma_blank_iff_trimmed_empty(line);
    if is_blank(line) {
        assert(seq![line].filter(keep) == Seq::<Seq<char>>::empty());
        assert(Seq::<Seq<char>>::empty() + text::non_blank_lines(rest) == text::non_blank_lines(
            rest,
        ));
    } else {
        assert(seq![line].filter(keep) == seq![line]);
    }
}

proof fn lemma_blank_iff_trimmed_empty(s: Seq<char>)
    ensures
        is_blank(s) <==> text::trimmed(s).len() == 0,
    decreases s.len(),
{
    if s.len() == 0 {
    } else if text::is_white_space(s[0]) {
        let rest = s.skip(1);
        lemma_blank_iff_trimmed_empty(rest);
        if is_blank(rest) {
            assert forall|i: int| 0 <= i < s.len() implies text::is_white_space(#[trigger] s[i]) by {
                if i > 0 {
                    assert(rest[i - 1] == s[i]);
                }
            }
        } else if is_blank(s) {
            assert forall|i: int| 0 <= i < rest.len() implies text::is_white_space(
                #[trigger] rest[i],
            ) by {
                assert(rest[i] == s[i + 1]);
            }
        }
    } else {
        lemma_trim_end_keeps(s);
    }
}

proof fn lemma_trim_end_keeps(s: Seq<char>)
    requires
        s.len() > 0,
        !text::is_white_space(s[0]),
    ensures
        text::trimmed_end(s).len() > 0,
    decreases s.len(),
{
    if text::is_white_space(s.last()) {
        lemma_trim_end_keeps(s.drop_last());
    }
}

/// A prefix is found exactly where it stands.
pub proof fn prefix_is_found(prefix: Seq<char>, rest: Seq<char>)
    ensures
        text::starts_with(prefix + rest, prefix),
        (prefix + rest).skip(prefix.len() as int) == rest,
{
    assert((prefix + rest).take(prefix.len() as int) == prefix);
    assert((prefix + rest).skip(prefix.len() as int) == rest);
}

/// The value of a lower-case hexadecimal digit.
pub open spec fn hex_digit(c: char) -> int {
    if c <= '9' {
        c as int - '0' as int
    } else {
        c as int - 'a' as int + 10
    }
}

proof fn lemma_hex_char(d: int)
    requires
        0 <= d < 16,
    ensures
        hex_digit(text::hex_char(d)) == d,
        '0' <= text::hex_char(d) <= '9' || 'a' <= text::hex_char(d) <= 'f',
{
}

proof fn lemma_hex_split(m: int)
    requires
        0 <= m < 0x1_0000_0000,
    ensures
        m == m / 0x1000_0000 * 0x1000_0000 + m / 0x100_0000 % 16 * 0x100_0000 + m / 0x10_0000 % 16
            * 0x10_0000 + m / 0x1_0000 % 16 * 0x1_0000 + m / 0x1000 % 16 * 0x1000 + m / 0x100 % 16
            * 0x100 + m / 0x10 % 16 * 0x10 + m % 16,
        0 <= m / 0x1000_0000 < 16,
{
    let a = m / 0x10;
    let b = a / 0x10;
    let c = b / 0x10;
    let d = c / 0x10;
    let e = d / 0x10;
    let f = e / 0x10;
    let g = f / 0x10;
    assert(b == m / 0x100);
    assert(c == m / 0x1000) by (nonlinear_arith)
        requires
            c == b / 0x10,
            b == m / 0x100,
    ;
    assert(d == m / 0x1_0000) by (nonlinear_arith)
        requires
            d == c / 0x10,
            c == m / 0x1000,
    ;
    assert(e == m / 0x10_0000) by (nonlinear_arith)
        requires
            e == d / 0x10,
            d == m / 0x1_0000,
    ;
    assert(f == m / 0x100_0000) by (nonlinear_arith)
        requires
            f == e / 0x10,
            e == m / 0x10_0000,
    ;
    assert(g == m / 0x1000_0000) by (nonlinear_arith)
        requires
            g == f / 0x10,
            f == m / 0x100_0000,
    ;
}

/// Eight hexadecimal digits, most significant first, denote their number.
pub proof fn hex_digits_denote_their_number(n: u32)
    ensures
        ({
            let s = text::hex8(n);
            &&& s.len() == 8
            &&& forall|i: int|
                0 <= i < 8 ==> '0' <= #[trigger] s[i] <= '9' || 'a' <= s[i] <= 'f'
            &&& n == hex_digit(s[0]) * 0x1000_0000 + hex_digit(s[1]) * 0x100_0000 + hex_digit(
                s[2],
            ) * 0x10_0000 + hex_digit(s[3]) * 0x1_0000 + hex_digit(s[4]) * 0x1000 + hex_digit(
                s[5],
            ) * 0x100 + hex_digit(s[6]) * 0x10 + hex_digit(s[7])
        }),
{
    let m = n as int;
    lemma_hex_split(m);
    lemma_hex_char(m / 0x1000_0000);
    lemma_hex_char(m / 0x100_0000 % 16);
    lemma_hex_char(m / 0x10_0000 % 16);
    lemma_hex_char(m / 0x1_0000 % 16);
    lemma_hex_char(m / 0x1000 % 16);
    lemma_hex_char(m / 0x100 % 16);
    lemma_hex_char(m / 0x10 % 16);
    lemma_hex_char(m % 16);
}

/// The UTF-8 bytes of a text are those of its parts, one behind the other.
pub proof fn utf8_of_parts(a: Seq<char>, b: Seq<char>)
    ensures
        vstd::utf8::encode_utf8(a + b) == vstd::utf8::encode_utf8(a) + vstd::utf8::encode_utf8(b),
    decreases a.len(),
{
    if a.len() == 0 {
        assert(a + b == b);
        assert(vstd::utf8::encode_utf8(a) + vstd::utf8::encode_utf8(b) =~= vstd::utf8::encode_utf8(
            b,
        ));
    } else {
        utf8_of_parts(a.drop_first(), b);
        assert((a + b).drop_first() =~= a.drop_first() + b);
        assert((a + b)[0] == a[0]);
        assert(vstd::utf8::encode_utf8(a + b) =~= vstd::utf8::encode_utf8(a)
            + vstd::utf8::encode_utf8(b));
    }
}

/// A text has no fewer UTF-8 bytes than characters.
pub proof fn utf8_is_no_shorter(a: Seq<char>)
    ensures
        vstd::utf8::encode_utf8(a).len() >= a.len(),
    decreases a.len(),
{
    if a.len() > 0 {
        utf8_is_no_shorter(a.drop_first());
    }
}

/// A character ends where a part of a text ends.
pub proof fn parts_end_at_boundaries(a: Seq<char>, b: Seq<char>)
    ensures
        vstd::utf8::is_char_boundary(
            vstd::utf8::encode_utf8(a + b),
            vstd::utf8::encode_utf8(a).len() as int,
        ),
    decreases a.len(),
{
    let all = vstd::utf8::encode_utf8(a + b);
    vstd::utf8::encode_utf8_valid_utf8(a + b);
    if a.len() == 0 {
        assert(vstd::utf8::encode_utf8(a).len() == 0);
    } else {
        let rest = a.drop_first();
        parts_end_at_boundaries(rest, b);
        utf8_of_parts(a, b);
        assert((a + b).drop_first() =~= rest + b);
        assert((a + b)[0] == a[0]);
        vstd::utf8::encode_utf8_first_scalar(a + b);
        let first = vstd::utf8::encode_scalar(a[0] as u32);
        assert(all == first + vstd::utf8::encode_utf8(rest + b));
        assert(vstd::utf8::pop_first_scalar(all) =~= vstd::utf8::encode_utf8(rest + b));
    }
}

/// White space is what Unicode calls so.
pub proof fn unicode_white_space(c: char)
    ensures
        text::is_white_space(c) <==> seq![
            '\t',
            '\n',
            '\u{b}',
            '\u{c}',
            '\r',
            ' ',
            '\u{85}',
            '\u{a0}',
            '\u{1680}',
            '\u{2000}',
            '\u{2001}',
            '\u{2002}',
            '\u{2003}',
            '\u{2004}',
            '\u{2005}',
            '\u{2006}',
            '\u{2007}',
            '\u{2008}',
            '\u{2009}',
            '\u{200a}',
            '\u{2028}',
            '\u{2029}',
            '\u{202f}',
            '\u{205f}',
            '\u{3000}',
        ].contains(c),
{
    let all = seq![
        '\t',
        '\n',
        '\u{b}',
        '\u{c}',
        '\r',
        ' ',
        '\u{85}',
        '\u{a0}',
        '\u{1680}',
        '\u{2000}',
        '\u{2001}',
        '\u{2002}',
        '\u{2003}',
        '\u{2004}',
        '\u{2005}',
        '\u{2006}',
        '\u{2007}',
        '\u{2008}',
        '\u{2009}',
        '\u{200a}',
        '\u{2028}',
        '\u{2029}',
        '\u{202f}',
        '\u{205f}',
        '\u{3000}',
    ];
    assert(all[0] == '\t' && all[1] == '\n' && all[2] == '\u{b}' && all[3] == '\u{c}' && all[4]
        == '\r' && all[5] == ' ' && all[6] == '\u{85}' && all[7] == '\u{a0}' && all[8]
        == '\u{1680}');
    assert(all[9] == '\u{2000}' && all[10] == '\u{2001}' && all[11] == '\u{2002}' && all[12]
        == '\u{2003}' && all[13] == '\u{2004}' && all[14] == '\u{2005}' && all[15] == '\u{2006}'
        && all[16] == '\u{2007}' && all[17] == '\u{2008}');
    assert(all[18] == '\u{2009}' && all[19] == '\u{200a}' && all[20] == '\u{2028}' && all[21]
        == '\u{2029}' && all[22] == '\u{202f}' && all[23] == '\u{205f}' && all[24] == '\u{3000}');
}

/// What is read as a signed number is one: an optional sign and at least one digit, and it
/// has 32 bits.
pub proof fn only_signed_numbers_are_read(s: Seq<char>)
    requires
        text::signed_value(s) is Some,
    ensures
        -0x8000_0000 <= text::signed_value(s)->Some_0 <= 0x7fff_ffff,
        s[0] == '-' ==> text::signed_value(s)->Some_0 <= 0,
        s[0] != '-' ==> text::signed_value(s)->Some_0 >= 0,
        '0' <= s[0] <= '9' || s[0] == '+' || s[0] == '-',
        '0' <= s.last() <= '9',
        forall|i: int| 0 < i < s.len() ==> '0' <= #[trigger] s[i] <= '9',
{
    if s.len() > 0 && s[0] == '-' {
        let d = s.skip(1);
        assert forall|i: int| 0 < i < s.len() implies '0' <= #[trigger] s[i] <= '9' by {
            assert(text::is_digit(d[i - 1]));
        }
        assert(s.last() == d.last());
    } else {
        only_numbers_are_read(s, 0x7fff_ffff);
        if s.len() == 1 {
            assert(s.last() == s[0]);
        }
    }
}

/// However many carriage returns and line feeds end a line, all of them are removed.
pub proof fn all_line_ends_are_removed(s: Seq<char>, ends: Seq<char>)
    requires
        s.len() > 0 ==> s.last() != '\r' && s.last() != '\n',
        forall|i: int| 0 <= i < ends.len() ==> #[trigger] ends[i] == '\r' || ends[i] == '\n',
    ensures
        text::without_line_end(s + ends) == s,
    decreases ends.len(),
{
    if ends.len() == 0 {
        assert(s + ends =~= s);
    } else {
        all_line_ends_are_removed(s, ends.drop_last());
        assert(ends[ends.len() - 1] == ends.last());
        assert((s + ends).drop_last() =~= s + ends.drop_last());
    }
}

/// A line feed takes at most one carriage return with it, and a last line that no line feed
/// ends is kept as it is.
pub proof fn one_carriage_return_is_removed(line: Seq<char>, rest: Seq<char>)
    requires
        forall|i: int| 0 <= i < line.len() ==> line[i] != '\n',
    ensures
        text::lines(line.push('\r').push('\n') + rest) == seq![line] + text::lines(rest),
        line.len() > 0 ==> text::lines(line) == seq![line],
{
    let a = line.push('\r').push('\n') + rest;
    text::first_index_unique(a, '\n', 0, line.len() as int + 1);
    assert(a.take(line.len() as int + 1) =~= line.push('\r'));
    assert(line.push('\r').drop_last() =~= line);
    assert(a.skip(line.len() as int + 2) =~= rest);
    text::first_index_unique(line, '\n', 0, line.len() as int);
}

} // verus!
