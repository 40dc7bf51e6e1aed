//! Text primitives: decimal and hexadecimal numbers, trimming, splitting.
//!
//! Strings are modelled as sequences of characters (`s@`); where offsets are
//! byte offsets the model is the UTF-8 encoding of that sequence.
use vstd::prelude::*;

verus! {

/// `core::str::Utf8Error`, the error of `core::str::from_utf8`; carried, never
/// looked into.
#[verifier::external_type_specification]
#[verifier::external_body]
pub struct ExUtf8Error(core::str::Utf8Error);

/// `core::str::from_utf8`: succeeds exactly on well-formed UTF-8, and the
/// string it returns is made of the given bytes.
pub assume_specification<'a>[ core::str::from_utf8 ](v: &'a [u8]) -> (res: Result<
    &'a str,
    core::str::Utf8Error,
>)
    ensures
        res is Ok <==> vstd::utf8::valid_utf8(v@),
        res is Ok ==> vstd::utf8::encode_utf8(res->Ok_0@) == v@,
;

/// `String::push`: appends one character.
pub assume_specification[ String::push ](s: &mut String, c: char)
    ensures
        final(s)@ == old(s)@.push(c),
;

/// The characters of a string.
pub fn chars_of(s: &str) -> (chars: Vec<char>)
    ensures
        chars@ == s@,
{
    let mut chars: Vec<char> = Vec::new();
    for c in it: s.chars()
        invariant
            chars@ == s@.take(it.index()),
            it.seq() == s@,
    {
        chars.push(c);
    }
    chars
}

/// The string made of the given characters.
pub fn string_of(chars: &[char]) -> (s: String)
    ensures
        s@ == chars@,
{
    let mut s = String::new();
    let mut i: usize = 0;
    while i < chars.len()
        invariant
            i <= chars@.len(),
            s@ == chars@.take(i as int),
        decreases chars@.len() - i,
    {
        s.push(chars[i]);
        i += 1;
    }
    assert(chars@.take(i as int) == chars@);
    s
}

/// The characters of an optional text.
pub open spec fn text_view(s: Option<String>) -> Option<Seq<char>> {
    match s {
        Some(t) => Some(t@),
        None => None,
    }
}

/// Equality of two strings.
pub fn same_text(a: &str, b: &str) -> (same: bool)
    ensures
        same == (a@ == b@),
{
    let x = a.as_bytes();
    let y = b.as_bytes();
    proof {
        vstd::utf8::encode_utf8_decode_utf8(a@);
        vstd::utf8::encode_utf8_decode_utf8(b@);
    }
    if x.len() != y.len() {
        return false;
    }
    let mut i: usize = 0;
    while i < x.len()
        invariant
            i <= x@.len(),
            x@.len() == y@.len(),
            x@ == vstd::utf8::encode_utf8(a@),
            y@ == vstd::utf8::encode_utf8(b@),
            forall|j: int| 0 <= j < i ==> x@[j] == y@[j],
        decreases x@.len() - i,
    {
        if x[i] != y[i] {
            return false;
        }
        i += 1;
    }
    assert(x@ =~= y@);
    true
}

/// A decimal digit.
pub open spec fn is_digit(c: char) -> bool {
    '0' <= c <= '9'
}

/// Every character is a decimal digit.
pub open spec fn all_digits(s: Seq<char>) -> bool {
    forall|i: int| 0 <= i < s.len() ==> is_digit(#[trigger] s[i])
}

/// The number that a run of decimal digits denotes.
pub open spec fn digits_value(s: Seq<char>) -> nat
    decreases s.len(),
{
    if s.len() == 0 {
        0
    } else {
        (10 * digits_value(s.drop_last()) + (s.last() as int - '0' as int)) as nat
    }
}

/// The digits of an unsigned decimal number: the text without one leading `+`.
pub open spec fn unsigned_digits(s: Seq<char>) -> Seq<char> {
    if s.len() > 0 && s[0] == '+' {
        s.skip(1)
    } else {
        s
    }
}

/// The value of a text as an unsigned decimal number no larger than `max`: an
/// optional `+`, then one or more digits and nothing else.
pub open spec fn unsigned_value(s: Seq<char>, max: nat) -> Option<nat> {
    let digits = unsigned_digits(s);
    if digits.len() > 0 && all_digits(digits) && digits_value(digits) <= max {
        Some(digits_value(digits))
    } else {
        None
    }
}

/// The value of a text as a 32-bit signed decimal number: an optional `+` or
/// `-`, then one or more digits and nothing else.
pub open spec fn signed_value(s: Seq<char>) -> Option<int> {
    if s.len() > 0 && s[0] == '-' {
        let digits = s.skip(1);
        if digits.len() > 0 && all_digits(digits) && digits_value(digits) <= 0x8000_0000 {
            Some(-(digits_value(digits) as int))
        } else {
            None
        }
    } else {
        match unsigned_value(s, 0x7fff_ffff) {
            Some(n) => Some(n as int),
            None => None,
        }
    }
}

/// A longer run of digits never denotes a smaller number.
proof fn lemma_digits_value_monotonic(s: Seq<char>, i: int)
    requires
        all_digits(s),
        0 <= i <= s.len(),
    ensures
        digits_value(s.take(i)) <= digits_value(s),
    decreases s.len() - i,
{
    if i == s.len() {
        assert(s.take(i) == s);
    } else {
        lemma_digits_value_monotonic(s, i + 1);
        assert(s.take(i + 1).drop_last() == s.take(i));
        assert(is_digit(s[i]));
    }
}

/// Reads the digits of `s` from index `from` on as a number no larger than `max`.
fn read_digits(s: &[char], from: usize, max: u64) -> (value: Option<u64>)
    requires
        from <= s@.len(),
    ensures
        match value {
            Some(n) => {
                &&& s@.skip(from as int).len() > 0
                &&& all_digits(s@.skip(from as int))
                &&& n == digits_value(s@.skip(from as int)) <= max
            },
            None => {
                ||| s@.skip(from as int).len() == 0
                ||| !all_digits(s@.skip(from as int))
                ||| digits_value(s@.skip(from as int)) > max
            },
        },
{
    if from == s.len() {
        return None;
    }
    let ghost digits = s@.skip(from as int);
    let mut value: u64 = 0;
    let mut i: usize = from;
    while i < s.len()
        invariant
            from <= i <= s@.len(),
            digits == s@.skip(from as int),
            all_digits(digits.take(i - from)),
            value == digits_value(digits.take(i - from)) <= max,
        decreases s@.len() - i,
    {
        let c = s[i];
        assert(digits[i - from] == c);
        if c < '0' || '9' < c {
            assert(!is_digit(digits[i - from]));
            return None;
        }
        let digit: u64 = (c as u32 - '0' as u32) as u64;
        assert(digits.take(i - from + 1).drop_last() == digits.take(i - from));
        assert(digits.take(i - from + 1).last() == c);
        assert(all_digits(digits.take(i - from + 1))) by {
            assert forall|j: int| 0 <= j < i - from + 1 implies is_digit(
                #[trigger] digits.take(i - from + 1)[j],
            ) by {
                if j < i - from {
                    assert(is_digit(digits.take(i - from)[j]));
                }
            }
        }
        if digit > max || value > (max - digit) / 10 {
            proof {
                if all_digits(digits) {
                    lemma_digits_value_monotonic(digits, i - from + 1);
                }
            }
            return None;
        }
        value = value * 10 + digit;
        i += 1;
    }
    assert(digits.take(i - from) == digits);
    Some(value)
}

/// Parses an unsigned decimal number no larger than `max`.
pub fn parse_unsigned(s: &[char], max: u64) -> (value: Option<u64>)
    ensures
        match value {
            Some(n) => unsigned_value(s@, max as nat) == Some(n as nat),
            None => unsigned_value(s@, max as nat) is None,
        },
{
    if s.len() > 0 && s[0] == '+' {
        read_digits(s, 1, max)
    } else {
        assert(s@.skip(0) == s@);
        read_digits(s, 0, max)
    }
}

/// Parses a 32-bit signed decimal number.
pub fn parse_signed(s: &[char]) -> (value: Option<i32>)
    ensures
        match value {
            Some(n) => signed_value(s@) == Some(n as int),
            None => signed_value(s@) is None,
        },
{
    if s.len() > 0 && s[0] == '-' {
        match read_digits(s, 1, 0x8000_0000) {
            Some(n) => Some((-(n as i64)) as i32),
            None => None,
        }
    } else {
        match parse_unsigned(s, 0x7fff_ffff) {
            Some(n) => Some(n as i32),
            None => None,
        }
    }
}

/// The decimal digit of a number below ten.
pub open spec fn digit_char(d: nat) -> char
    recommends
        d < 10,
{
    (d + '0' as nat) as char
}

/// The shortest decimal notation of a number.
pub open spec fn decimal(n: nat) -> Seq<char>
    decreases n,
{
    if n < 10 {
        seq![digit_char(n)]
    } else {
        decimal(n / 10).push(digit_char(n % 10))
    }
}

/// Decimal notation of a signed number.
pub open spec fn signed_decimal(n: int) -> Seq<char> {
    if n < 0 {
        seq!['-'] + decimal((-n) as nat)
    } else {
        decimal(n as nat)
    }
}

/// Appends the decimal notation of `n`.
pub fn push_decimal(out: &mut String, n: u64)
    ensures
        final(out)@ == old(out)@ + decimal(n as nat),
    decreases n,
{
    let digit: char = (48u8 + (n % 10) as u8) as char;
    if n >= 10 {
        push_decimal(out, n / 10);
    }
    assert(digit == digit_char((n % 10) as nat));
    out.push(digit);
}

/// Appends the decimal notation of the signed number `n`.
pub fn push_signed_decimal(out: &mut String, n: i32)
    ensures
        final(out)@ == old(out)@ + signed_decimal(n as int),
{
    if n < 0 {
        out.push('-');
        push_decimal(out, (-(n as i64)) as u64);
    } else {
        push_decimal(out, n as u64);
    }
}

/// Decimal notation is made of digits, never empty, and denotes its number.
pub proof fn decimal_round_trip(n: nat)
    ensures
        decimal(n).len() > 0,
        all_digits(decimal(n)),
        digits_value(decimal(n)) == n,
        unsigned_value(decimal(n), n) == Some(n),
    decreases n,
{
    reveal_with_fuel(digits_value, 2);
    if n >= 10 {
        decimal_round_trip(n / 10);
        assert(decimal(n).drop_last() == decimal(n / 10));
        assert forall|i: int| 0 <= i < decimal(n).len() implies is_digit(
            #[trigger] decimal(n)[i],
        ) by {
            if i < decimal(n / 10).len() {
                assert(is_digit(decimal(n / 10)[i]));
            }
        }
    } else {
        assert(decimal(n).drop_last() == Seq::<char>::empty());
    }
    assert(is_digit(decimal(n)[0]));
    assert(unsigned_digits(decimal(n)) == decimal(n));
}

/// The index of the first `x` at or after `from`; the length where there is none.
pub open spec fn first_index<T>(s: Seq<T>, x: T, from: int) -> int
    decreases s.len() - from,
{
    if from >= s.len() {
        s.len() as int
    } else if s[from] == x {
        from
    } else {
        first_index(s, x, from + 1)
    }
}

/// `first_index` is what its name says.
pub proof fn first_index_is_first<T>(s: Seq<T>, x: T, from: int)
    requires
        0 <= from <= s.len(),
    ensures
        from <= first_index(s, x, from) <= s.len(),
        first_index(s, x, from) < s.len() ==> s[first_index(s, x, from)] == x,
        forall|i: int| from <= i < first_index(s, x, from) ==> s[i] != x,
    decreases s.len() - from,
{
    if from < s.len() && s[from] != x {
        first_index_is_first(s, x, from + 1);
    }
}

/// The position that the properties of `first_index` describe is `first_index`.
pub proof fn first_index_unique<T>(s: Seq<T>, x: T, from: int, at: int)
    requires
        0 <= from <= at <= s.len(),
        at < s.len() ==> s[at] == x,
        forall|i: int| from <= i < at ==> s[i] != x,
    ensures
        first_index(s, x, from) == at,
    decreases s.len() - from,
{
    if from < at {
        first_index_unique(s, x, from + 1, at);
    }
}

/// Finds the first `c` at or after `from`.
pub fn find_char(s: &[char], c: char, from: usize) -> (at: usize)
    requires
        from <= s@.len(),
    ensures
        at == first_index(s@, c, from as int),
        from <= at <= s@.len(),
{
    let mut i: usize = from;
    while i < s.len()
        invariant
            from <= i <= s@.len(),
            first_index(s@, c, from as int) == first_index(s@, c, i as int),
        decreases s@.len() - i,
    {
        if s[i] == c {
            return i;
        }
        i += 1;
    }
    i
}

/// Finds the first byte `b` at or after `from`.
pub fn find_byte(s: &[u8], b: u8, from: usize) -> (at: usize)
    requires
        from <= s@.len(),
    ensures
        at == first_index(s@, b, from as int),
        from <= at <= s@.len(),
{
    let mut i: usize = from;
    while i < s.len()
        invariant
            from <= i <= s@.len(),
            first_index(s@, b, from as int) == first_index(s@, b, i as int),
        decreases s@.len() - i,
    {
        if s[i] == b {
            return i;
        }
        i += 1;
    }
    i
}

/// The characters with the Unicode property `White_Space`.
pub open spec fn is_white_space(c: char) -> bool {
    let u = c as u32;
    ||| 0x09 <= u <= 0x0d
    ||| u == 0x20
    ||| u == 0x85
    ||| u == 0xa0
    ||| u == 0x1680
    ||| 0x2000 <= u <= 0x200a
    ||| u == 0x2028
    ||| u == 0x2029
    ||| u == 0x202f
    ||| u == 0x205f
    ||| u == 0x3000
}

/// Tests for the property `White_Space`.
pub fn white_space(c: char) -> (yes: bool)
    ensures
        yes == is_white_space(c),
{
    let u: u32 = c as u32;
    (0x09 <= u && u <= 0x0d) || u == 0x20 || u == 0x85 || u == 0xa0 || u == 0x1680 || (0x2000 <= u
        && u <= 0x200a) || u == 0x2028 || u == 0x2029 || u == 0x202f || u == 0x205f || u == 0x3000
}

/// A text without its leading white space.
pub open spec fn trimmed_start(s: Seq<char>) -> Seq<char>
    decreases s.len(),
{
    if s.len() > 0 && is_white_space(s[0]) {
        trimmed_start(s.skip(1))
    } else {
        s
    }
}

/// A text without its trailing white space.
pub open spec fn trimmed_end(s: Seq<char>) -> Seq<char>
    decreases s.len(),
{
    if s.len() > 0 && is_white_space(s.last()) {
        trimmed_end(s.drop_last())
    } else {
        s
    }
}

/// A text without white space at either end.
pub open spec fn trimmed(s: Seq<char>) -> Seq<char> {
    trimmed_end(trimmed_start(s))
}

/// Removes leading white space.
pub fn trim_start(s: &[char]) -> (rest: &[char])
    ensures
        rest@ == trimmed_start(s@),
{
    let mut i: usize = 0;
    assert(s@.skip(0) == s@);
    while i < s.len() && white_space(s[i])
        invariant
            i <= s@.len(),
            trimmed_start(s@) == trimmed_start(s@.skip(i as int)),
        decreases s@.len() - i,
    {
        assert(s@.skip(i as int).skip(1) == s@.skip(i + 1));
        i += 1;
    }
    assert(s@.subrange(i as int, s@.len() as int) == s@.skip(i as int));
    vstd::slice::slice_subrange(s, i, s.len())
}

/// Removes trailing white space.
pub fn trim_end(s: &[char]) -> (rest: &[char])
    ensures
        rest@ == trimmed_end(s@),
{
    let mut i: usize = s.len();
    assert(s@.take(s@.len() as int) == s@);
    while i > 0 && white_space(s[i - 1])
        invariant
            i <= s@.len(),
            trimmed_end(s@) == trimmed_end(s@.take(i as int)),
        decreases i,
    {
        assert(s@.take(i as int).drop_last() == s@.take(i - 1));
        i -= 1;
    }
    assert(s@.subrange(0, i as int) == s@.take(i as int));
    vstd::slice::slice_subrange(s, 0, i)
}

/// Removes white space at both ends.
pub fn trim(s: &[char]) -> (rest: &[char])
    ensures
        rest@ == trimmed(s@),
{
    trim_end(trim_start(s))
}

/// A line without the carriage returns and line feeds at its end.
pub open spec fn without_line_end(s: Seq<char>) -> Seq<char>
    decreases s.len(),
{
    if s.len() > 0 && (s.last() == '\r' || s.last() == '\n') {
        without_line_end(s.drop_last())
    } else {
        s
    }
}

/// Removes the carriage returns and line feeds at the end of a line.
pub fn trim_line_end(s: &[char]) -> (rest: &[char])
    ensures
        rest@ == without_line_end(s@),
{
    let mut i: usize = s.len();
    assert(s@.take(s@.len() as int) == s@);
    while i > 0 && (s[i - 1] == '\r' || s[i - 1] == '\n')
        invariant
            i <= s@.len(),
            without_line_end(s@) == without_line_end(s@.take(i as int)),
        decreases i,
    {
        assert(s@.take(i as int).drop_last() == s@.take(i - 1));
        i -= 1;
    }
    assert(s@.subrange(0, i as int) == s@.take(i as int));
    vstd::slice::slice_subrange(s, 0, i)
}

/// The index of the first white space at or after `from`; the length where
/// there is none.
pub open spec fn first_white_space(s: Seq<char>, from: int) -> int
    decreases s.len() - from,
{
    if from >= s.len() {
        s.len() as int
    } else if is_white_space(s[from]) {
        from
    } else {
        first_white_space(s, from + 1)
    }
}

/// The first word of a text: what stands before, between or after white space.
/// Empty where the text holds white space only.
pub open spec fn first_word(s: Seq<char>) -> Seq<char> {
    trimmed_start(s).take(first_white_space(trimmed_start(s), 0))
}

/// Finds the first word of a text.
pub fn word(s: &[char]) -> (w: &[char])
    ensures
        w@ == first_word(s@),
{
    let rest = trim_start(s);
    let mut i: usize = 0;
    while i < rest.len() && !white_space(rest[i])
        invariant
            i <= rest@.len(),
            first_white_space(rest@, 0) == first_white_space(rest@, i as int),
        decreases rest@.len() - i,
    {
        i += 1;
    }
    assert(rest@.subrange(0, i as int) == rest@.take(i as int));
    vstd::slice::slice_subrange(rest, 0, i)
}

/// `s` begins with `prefix`.
pub open spec fn starts_with(s: Seq<char>, prefix: Seq<char>) -> bool {
    s.len() >= prefix.len() && s.take(prefix.len() as int) == prefix
}

/// The text behind `prefix`, where `s` begins with it.
pub fn strip_prefix<'a>(s: &'a [char], prefix: &[char]) -> (rest: Option<&'a [char]>)
    ensures
        rest is Some <==> starts_with(s@, prefix@),
        rest is Some ==> rest->Some_0@ == s@.skip(prefix@.len() as int),
{
    if s.len() < prefix.len() {
        return None;
    }
    let mut i: usize = 0;
    while i < prefix.len()
        invariant
            i <= prefix@.len() <= s@.len(),
            forall|j: int| 0 <= j < i ==> s@[j] == prefix@[j],
        decreases prefix@.len() - i,
    {
        if s[i] != prefix[i] {
            assert(s@.take(prefix@.len() as int)[i as int] != prefix@[i as int]);
            return None;
        }
        i += 1;
    }
    assert(s@.take(prefix@.len() as int) == prefix@);
    assert(s@.subrange(i as int, s@.len() as int) == s@.skip(i as int));
    Some(vstd::slice::slice_subrange(s, i, s.len()))
}

/// The lower-case hexadecimal digit of a number below sixteen.
pub open spec fn hex_char(d: int) -> char
    recommends
        0 <= d < 16,
{
    if d < 10 {
        (d + '0' as int) as char
    } else {
        (d - 10 + 'a' as int) as char
    }
}

/// The eight lower-case hexadecimal digits of a 32-bit number.
pub open spec fn hex8(n: u32) -> Seq<char> {
    seq![
        hex_char(n as int / 0x1000_0000),
        hex_char(n as int / 0x100_0000 % 16),
        hex_char(n as int / 0x10_0000 % 16),
        hex_char(n as int / 0x1_0000 % 16),
        hex_char(n as int / 0x1000 % 16),
        hex_char(n as int / 0x100 % 16),
        hex_char(n as int / 0x10 % 16),
        hex_char(n as int % 16),
    ]
}

/// Appends one hexadecimal digit.
pub fn push_hex_digit(out: &mut String, d: u32)
    requires
        d < 16,
    ensures
        final(out)@ == old(out)@.push(hex_char(d as int)),
{
    if d < 10 {
        out.push((48u8 + d as u8) as char);
    } else {
        out.push((87u8 + d as u8) as char);
    }
}

/// Appends the eight hexadecimal digits of `n`.
pub fn push_hex8(out: &mut String, n: u32)
    ensures
        final(out)@ == old(out)@ + hex8(n),
{
    push_hex_digit(out, n / 0x1000_0000);
    push_hex_digit(out, n / 0x100_0000 % 16);
    push_hex_digit(out, n / 0x10_0000 % 16);
    push_hex_digit(out, n / 0x1_0000 % 16);
    push_hex_digit(out, n / 0x1000 % 16);
    push_hex_digit(out, n / 0x100 % 16);
    push_hex_digit(out, n / 0x10 % 16);
    push_hex_digit(out, n % 16);
    assert(out@ == old(out)@ + hex8(n));
}

/// In well-formed UTF-8 a character begins at and behind every ASCII byte.
pub proof fn ascii_byte_is_a_character(bytes: Seq<u8>, i: int)
    requires
        vstd::utf8::valid_utf8(bytes),
        0 <= i < bytes.len(),
        bytes[i] < 0x80,
    ensures
        vstd::utf8::is_char_boundary(bytes, i),
        vstd::utf8::is_char_boundary(bytes, i + 1),
    decreases bytes.len(),
{
    let first = vstd::utf8::length_of_first_scalar(bytes);
    if i < first {
        reveal_with_fuel(vstd::utf8::is_char_boundary, 2);
        vstd::utf8::is_char_boundary_iff_not_is_continuation_byte(bytes, i);
    } else {
        let rest = vstd::utf8::pop_first_scalar(bytes);
        ascii_byte_is_a_character(rest, i - first);
    }
}

/// The views of a sequence of strings.
pub open spec fn views(strings: Seq<String>) -> Seq<Seq<char>> {
    strings.map_values(|s: String| s@)
}

/// A line without one carriage return at its end.
pub open spec fn without_cr(line: Seq<char>) -> Seq<char> {
    if line.len() > 0 && line.last() == '\r' {
        line.drop_last()
    } else {
        line
    }
}

/// The lines of a text: each ends at a line feed, with an optional carriage
/// return before it, and the last one may end with the text.
pub open spec fn lines(s: Seq<char>) -> Seq<Seq<char>>
    decreases s.len(),
{
    let end = first_index(s, '\n', 0);
    if s.len() == 0 {
        Seq::empty()
    } else if end >= s.len() {
        seq![s]
    } else {
        proof {
            first_index_is_first(s, '\n', 0);
        }
        seq![without_cr(s.take(end))] + lines(s.skip(end + 1))
    }
}

/// Not made of white space alone.
pub open spec fn is_not_blank() -> spec_fn(Seq<char>) -> bool {
    |line: Seq<char>| trimmed(line).len() > 0
}

/// The lines of a text that are not blank.
pub open spec fn non_blank_lines(s: Seq<char>) -> Seq<Seq<char>> {
    lines(s).filter(is_not_blank())
}

/// `first_index` in a suffix.
proof fn lemma_first_index_skip<T>(s: Seq<T>, x: T, from: int)
    requires
        0 <= from <= s.len(),
    ensures
        first_index(s.skip(from), x, 0) == first_index(s, x, from) - from,
{
    let at = first_index(s, x, from);
    first_index_is_first(s, x, from);
    first_index_unique(s.skip(from), x, 0, at - from);
}

/// Splits a text into its lines and drops the blank ones.
pub fn split_non_blank_lines(contents: &str) -> (kept: Vec<String>)
    ensures
        views(kept@) == non_blank_lines(contents@),
{
    let s = chars_of(contents);
    let mut kept: Vec<String> = Vec::new();
    let mut from: usize = 0;
    assert(s@.skip(0) == s@);
    proof {
        reveal(Seq::filter);
        assert(views(kept@) + non_blank_lines(s@) =~= non_blank_lines(s@));
    }
    while from < s.len()
        invariant
            s@ == contents@,
            from <= s@.len(),
            views(kept@) + non_blank_lines(s@.skip(from as int)) == non_blank_lines(s@),
        decreases s@.len() - from,
    {
        let ghost rest = s@.skip(from as int);
        let end: usize = find_char(s.as_slice(), '\n', from);
        proof {
            lemma_first_index_skip(s@, '\n', from as int);
            first_index_is_first(s@, '\n', from as int);
        }
        let mut stop: usize = end;
        if end < s.len() && end > from && s[end - 1] == '\r' {
            stop = end - 1;
        }
        let line = vstd::slice::slice_subrange(s.as_slice(), from, stop);
        let next: usize = if end < s.len() {
            end + 1
        } else {
            end
        };
        proof {
            if end < s@.len() {
                assert(rest.take(end - from) == s@.subrange(from as int, end as int));
                assert(line@ == without_cr(rest.take(end - from)));
                assert(rest.skip(end - from + 1) == s@.skip(end + 1));
                assert(lines(rest) == seq![line@] + lines(s@.skip(next as int)));
            } else {
                assert(line@ == rest);
                assert(s@.skip(next as int) == Seq::<char>::empty());
                assert(lines(rest) == seq![line@] + lines(s@.skip(next as int)));
            }
            Seq::filter_distributes_over_add(
                seq![line@],
                lines(s@.skip(next as int)),
                is_not_blank(),
            );
            reveal_with_fuel(Seq::filter, 2);
            assert(seq![line@].drop_last() == Seq::<Seq<char>>::empty());
        }
        let ghost before = views(kept@);
        if trim(line).len() > 0 {
            kept.push(string_of(line));
            assert(views(kept@) == before.push(line@));
            assert(before.push(line@) + non_blank_lines(s@.skip(next as int)) == before + (seq![
                line@,
            ] + non_blank_lines(s@.skip(next as int))));
        } else {
            assert(Seq::<Seq<char>>::empty() + non_blank_lines(s@.skip(next as int))
                == non_blank_lines(s@.skip(next as int)));
        }
        from = next;
    }
    proof {
        reveal(Seq::filter);
        assert(s@.skip(from as int) == Seq::<char>::empty());
        assert(views(kept@) + Seq::<Seq<char>>::empty() == views(kept@));
    }
    kept
}

} // verus!
