//! Best-effort ADIF inspection for log lines.
//!
//! ADIF writes a field as `<TAG:LENGTH>value` or `<TAG:LENGTH:TYPE>value`, with
//! the length in bytes. Offsets here are byte offsets into the UTF-8 encoding.
use crate::text;
use crate::text_laws;
use vstd::prelude::*;

verus! {

/// `<`
pub const OPEN: u8 = 0x3c;

/// `>`
pub const CLOSE: u8 = 0x3e;

/// `:`
pub const COLON: u8 = 0x3a;

/// An ASCII letter in lower case, any other byte as it is.
pub open spec fn ascii_lower(b: u8) -> u8 {
    if 0x41 <= b <= 0x5a {
        (b + 0x20) as u8
    } else {
        b
    }
}

/// Equality up to the case of ASCII letters.
pub open spec fn same_tag(a: Seq<u8>, b: Seq<u8>) -> bool {
    a.len() == b.len() && forall|i: int|
        0 <= i < a.len() ==> ascii_lower(#[trigger] a[i]) == ascii_lower(b[i])
}

/// The tag of a field header (what stands between `<` and `>`).
pub open spec fn header_tag(header: Seq<u8>) -> Seq<u8> {
    header.take(text::first_index(header, COLON, 0))
}

/// The bytes of a header, one character each.
pub open spec fn as_chars(bytes: Seq<u8>) -> Seq<char> {
    bytes.map_values(|b: u8| b as char)
}

/// The value length that a field header states. Sentinel tags (`<EOR>`,
/// `<EOH>`) state none.
pub open spec fn header_length(header: Seq<u8>) -> Option<nat> {
    let colon = text::first_index(header, COLON, 0);
    if colon >= header.len() {
        None
    } else {
        let rest = header.skip(colon + 1);
        text::unsigned_value(
            as_chars(rest.take(text::first_index(rest, COLON, 0))),
            usize::MAX as nat,
        )
    }
}

/// Where the next header at or after `from` begins and ends: the offsets behind
/// its `<` and of its `>`.
pub open spec fn next_header(b: Seq<u8>, from: int) -> Option<(int, int)> {
    let open = text::first_index(b, OPEN, from);
    if 0 <= from <= b.len() && open < b.len() {
        let close = text::first_index(b, CLOSE, open + 1);
        if close < b.len() {
            Some((open + 1, close))
        } else {
            None
        }
    } else {
        None
    }
}

/// A header lies behind the offset it is looked for from, inside the text.
pub proof fn next_header_advances(b: Seq<u8>, from: int)
    requires
        next_header(b, from) is Some,
    ensures
        0 <= from < next_header(b, from)->Some_0.0 <= next_header(b, from)->Some_0.1 < b.len(),
        b[next_header(b, from)->Some_0.1] == CLOSE,
{
    let open = text::first_index(b, OPEN, from);
    text::first_index_is_first(b, OPEN, from);
    text::first_index_is_first(b, CLOSE, open + 1);
}

/// The byte range of the value of the first field named `name` at or after
/// `from`. The scan steps over the values of other fields, over headers without
/// a length, and stops at a field that runs past the end.
pub open spec fn field_range(b: Seq<u8>, name: Seq<u8>, from: int) -> Option<(int, int)>
    decreases b.len() - from,
{
    match next_header(b, from) {
        None => None,
        Some((start, close)) => {
            proof {
                next_header_advances(b, from);
            }
            match header_length(b.subrange(start, close)) {
                None => field_range(b, name, close + 1),
                Some(len) => if close + 1 + len > b.len() {
                    None
                } else if same_tag(header_tag(b.subrange(start, close)), name) {
                    Some((close + 1, close + 1 + len as int))
                } else {
                    field_range(b, name, close + 1 + len as int)
                },
            }
        },
    }
}

/// Every value that the scan for `name` meets ends where a character ends.
pub open spec fn scan_aligned(b: Seq<u8>, name: Seq<u8>, from: int) -> bool
    decreases b.len() - from,
{
    match next_header(b, from) {
        None => true,
        Some((start, close)) => {
            proof {
                next_header_advances(b, from);
            }
            match header_length(b.subrange(start, close)) {
                None => scan_aligned(b, name, close + 1),
                Some(len) => if close + 1 + len > b.len() {
                    true
                } else {
                    &&& vstd::utf8::is_char_boundary(b, close + 1 + len as int)
                    &&& same_tag(header_tag(b.subrange(start, close)), name) || scan_aligned(
                        b,
                        name,
                        close + 1 + len as int,
                    )
                },
            }
        },
    }
}

/// The scan for a field ends inside no character.
pub open spec fn aligned_for(adif: Seq<char>, name: Seq<char>) -> bool {
    scan_aligned(vstd::utf8::encode_utf8(adif), vstd::utf8::encode_utf8(name), 0)
}

/// The value of the field named `name`.
pub open spec fn field_value(adif: Seq<char>, name: Seq<char>) -> Option<Seq<char>> {
    let b = vstd::utf8::encode_utf8(adif);
    match field_range(b, vstd::utf8::encode_utf8(name), 0) {
        Some((start, end)) => Some(vstd::utf8::decode_utf8(b.subrange(start, end))),
        None => None,
    }
}

fn lower(b: u8) -> (l: u8)
    ensures
        l == ascii_lower(b),
{
    if 0x41 <= b && b <= 0x5a {
        b + 0x20
    } else {
        b
    }
}

/// Compares two tags up to the case of ASCII letters.
fn tags_match(a: &[u8], b: &[u8]) -> (same: bool)
    ensures
        same == same_tag(a@, b@),
{
    if a.len() != b.len() {
        return false;
    }
    let mut i: usize = 0;
    while i < a.len()
        invariant
            i <= a@.len() == b@.len(),
            forall|j: int| 0 <= j < i ==> ascii_lower(#[trigger] a@[j]) == ascii_lower(b@[j]),
        decreases a@.len() - i,
    {
        if lower(a[i]) != lower(b[i]) {
            return false;
        }
        i += 1;
    }
    true
}

/// Reads the value length of the header `b[start..close]`.
fn read_header_length(b: &[u8], start: usize, close: usize) -> (len: Option<usize>)
    requires
        start <= close <= b@.len(),
    ensures
        match len {
            Some(n) => header_length(b@.subrange(start as int, close as int)) == Some(n as nat),
            None => header_length(b@.subrange(start as int, close as int)) is None,
        },
{
    let header = vstd::slice::slice_subrange(b, start, close);
    let colon: usize = text::find_byte(header, COLON, 0);
    if colon >= header.len() {
        return None;
    }
    let rest = vstd::slice::slice_subrange(header, colon + 1, header.len());
    assert(rest@ == header@.skip(colon + 1));
    let end: usize = text::find_byte(rest, COLON, 0);
    let mut chars: Vec<char> = Vec::new();
    let mut i: usize = 0;
    while i < end
        invariant
            i <= end <= rest@.len(),
            chars@ == as_chars(rest@.take(i as int)),
        decreases end - i,
    {
        chars.push(rest[i] as char);
        assert(chars@ == as_chars(rest@.take(i + 1)));
        i += 1;
    }
    match text::parse_unsigned(chars.as_slice(), usize::MAX as u64) {
        Some(n) => Some(n as usize),
        None => None,
    }
}

/// What a scan for a field comes to.
enum Located {
    /// The field's value lies in this byte range.
    At(usize, usize),
    /// There is no such field.
    Absent,
    /// A value on the way ends inside a character.
    Misaligned,
}

/// Scans for the field with the given tag.
fn locate(adif: &str, name: &str) -> (found: Located)
    ensures
        match found {
            Located::At(start, end) => {
                &&& aligned_for(adif@, name@)
                &&& field_range(
                    vstd::utf8::encode_utf8(adif@),
                    vstd::utf8::encode_utf8(name@),
                    0,
                ) == Some((start as int, end as int))
                &&& start <= end <= vstd::utf8::encode_utf8(adif@).len()
                &&& vstd::utf8::is_char_boundary(vstd::utf8::encode_utf8(adif@), start as int)
                &&& vstd::utf8::is_char_boundary(vstd::utf8::encode_utf8(adif@), end as int)
            },
            Located::Absent => aligned_for(adif@, name@) && field_range(
                vstd::utf8::encode_utf8(adif@),
                vstd::utf8::encode_utf8(name@),
                0,
            ) is None,
            Located::Misaligned => !aligned_for(adif@, name@),
        },
{
    let b = adif.as_bytes();
    let tag = name.as_bytes();
    proof {
        vstd::utf8::encode_utf8_valid_utf8(adif@);
    }
    let mut cursor: usize = 0;
    loop
        invariant
            b@ == vstd::utf8::encode_utf8(adif@),
            tag@ == vstd::utf8::encode_utf8(name@),
            vstd::utf8::valid_utf8(b@),
            cursor <= b@.len(),
            scan_aligned(b@, tag@, 0) == scan_aligned(b@, tag@, cursor as int),
            field_range(b@, tag@, 0) == field_range(b@, tag@, cursor as int),
        decreases b@.len() - cursor,
    {
        let open: usize = text::find_byte(b, OPEN, cursor);
        if open >= b.len() {
            return Located::Absent;
        }
        let start: usize = open + 1;
        let close: usize = text::find_byte(b, CLOSE, start);
        if close >= b.len() {
            return Located::Absent;
        }
        proof {
            next_header_advances(b@, cursor as int);
        }
        let value_start: usize = close + 1;
        match read_header_length(b, start, close) {
            None => {
                cursor = value_start;
            },
            Some(len) => {
                let value_end: usize = match value_start.checked_add(len) {
                    Some(end) => end,
                    None => {
                        return Located::Absent;
                    },
                };
                if value_end > b.len() {
                    return Located::Absent;
                }
                if !adif.is_char_boundary(value_end) {
                    return Located::Misaligned;
                }
                let header = vstd::slice::slice_subrange(b, start, close);
                let colon: usize = text::find_byte(header, COLON, 0);
                let header_name = vstd::slice::slice_subrange(header, 0, colon);
                assert(header_name@ == header_tag(header@));
                if tags_match(header_name, tag) {
                    proof {
                        text::ascii_byte_is_a_character(b@, close as int);
                    }
                    return Located::At(value_start, value_end);
                }
                cursor = value_end;
            },
        }
    }
}

/// Cuts the byte range `start..end` out of a text.
fn slice_text<'a>(adif: &'a str, start: usize, end: usize) -> (value: &'a str)
    requires
        start <= end <= vstd::utf8::encode_utf8(adif@).len(),
        vstd::utf8::is_char_boundary(vstd::utf8::encode_utf8(adif@), start as int),
        vstd::utf8::is_char_boundary(vstd::utf8::encode_utf8(adif@), end as int),
    ensures
        value@ == vstd::utf8::decode_utf8(
            vstd::utf8::encode_utf8(adif@).subrange(start as int, end as int),
        ),
{
    let ghost b = vstd::utf8::encode_utf8(adif@);
    proof {
        vstd::utf8::encode_utf8_valid_utf8(adif@);
        lemma_boundary_in_prefix(b, start as int, end as int);
    }
    let upto = adif.split_at(end).0;
    let value = upto.split_at(start).1;
    proof {
        assert(b.subrange(0, end as int).subrange(start as int, end as int) == b.subrange(
            start as int,
            end as int,
        ));
        vstd::utf8::encode_utf8_decode_utf8(value@);
    }
    value
}

/// What a best-effort look for a field finds: its value, or nothing where a
/// value on the way ends inside a character.
pub open spec fn readable_value(adif: Seq<char>, name: Seq<char>) -> Option<Seq<char>> {
    if aligned_for(adif, name) {
        field_value(adif, name)
    } else {
        None
    }
}

/// Locates an ADIF field's value by tag (case-insensitive). Sentinel tags
/// (`<EOR>`, `<EOH>`) have no length and are skipped. A stated length that ends
/// inside a character makes the rest of the record unreadable.
pub fn adif_field<'a>(adif: &'a str, name: &str) -> (value: Option<&'a str>)
    ensures
        match value {
            Some(v) => readable_value(adif@, name@) == Some(v@),
            None => readable_value(adif@, name@) is None,
        },
{
    match locate(adif, name) {
        Located::At(start, end) => Some(slice_text(adif, start, end)),
        _ => None,
    }
}

/// The fields of a contact that log lines show. Missing fields are `None`.
#[derive(Debug)]
pub struct AdifSummary {
    pub callsign: Option<String>,
    pub mode: Option<String>,
    pub band: Option<String>,
}

/// A field as log lines show it: `?` where it is missing.
pub open spec fn shown(field: Option<String>) -> Seq<char> {
    match field {
        Some(t) => t@,
        None => "?"@,
    }
}

impl AdifSummary {
    pub fn callsign(&self) -> (s: &str)
        ensures
            s@ == shown(self.callsign),
    {
        match &self.callsign {
            Some(t) => t.as_str(),
            None => "?",
        }
    }

    pub fn mode(&self) -> (s: &str)
        ensures
            s@ == shown(self.mode),
    {
        match &self.mode {
            Some(t) => t.as_str(),
            None => "?",
        }
    }

    pub fn band(&self) -> (s: &str)
        ensures
            s@ == shown(self.band),
    {
        match &self.band {
            Some(t) => t.as_str(),
            None => "?",
        }
    }
}

fn owned_field(adif: &str, name: &str) -> (value: Option<String>)
    ensures
        text::text_view(value) == readable_value(adif@, name@),
{
    match adif_field(adif, name) {
        Some(v) => Some(v.to_owned()),
        None => None,
    }
}

/// Picks the summary's fields out of any text; a field that cannot be read is
/// `None`.
pub fn summarize_adif(adif: &str) -> (summary: AdifSummary)
    ensures
        text::text_view(summary.callsign) == readable_value(adif@, "CALL"@),
        text::text_view(summary.mode) == readable_value(adif@, "MODE"@),
        text::text_view(summary.band) == readable_value(adif@, "BAND"@),
{
    AdifSummary {
        callsign: owned_field(adif, "CALL"),
        mode: owned_field(adif, "MODE"),
        band: owned_field(adif, "BAND"),
    }
}

/// A character boundary stays one in a prefix that holds it.
proof fn lemma_boundary_in_prefix(bytes: Seq<u8>, at: int, end: int)
    requires
        vstd::utf8::valid_utf8(bytes),
        0 <= at <= end <= bytes.len(),
        vstd::utf8::is_char_boundary(bytes, at),
        vstd::utf8::is_char_boundary(bytes, end),
    ensures
        vstd::utf8::valid_utf8(bytes.subrange(0, end)),
        vstd::utf8::is_char_boundary(bytes.subrange(0, end), at),
{
    let prefix = bytes.subrange(0, end);
    vstd::utf8::valid_utf8_split(bytes, end);
    if at < end {
        vstd::utf8::is_char_boundary_iff_not_is_continuation_byte(bytes, at);
        vstd::utf8::is_char_boundary_iff_not_is_continuation_byte(prefix, at);
        assert(prefix[at] == bytes[at]);
    } else {
        vstd::utf8::is_char_boundary_start_end_of_seq(prefix);
    }
}

/// The bytes of one field: `<tag:length>value`, with the length given as digits.
pub open spec fn field_bytes(tag: Seq<u8>, digits: Seq<u8>, value: Seq<u8>) -> Seq<u8> {
    seq![OPEN] + tag + seq![COLON] + digits + seq![CLOSE] + value
}

/// The header of a leading field is the first one, and states the field's tag and
/// length.
proof fn lemma_leading_header(tag: Seq<u8>, digits: Seq<u8>, value: Seq<u8>, rest: Seq<u8>)
    requires
        forall|i: int| 0 <= i < tag.len() ==> tag[i] != COLON && tag[i] != CLOSE,
        as_chars(digits) == text::decimal(value.len()),
        value.len() <= usize::MAX,
    ensures
        ({
            let b = field_bytes(tag, digits, value) + rest;
            let close = tag.len() as int + digits.len() as int + 2;
            &&& next_header(b, 0) == Some((1int, close))
            &&& header_tag(b.subrange(1, close)) == tag
            &&& header_length(b.subrange(1, close)) == Some(value.len())
            &&& b.len() == close + 1 + value.len() + rest.len()
            &&& b.subrange(close + 1, close + 1 + value.len()) == value
        }),
{
    let b = field_bytes(tag, digits, value) + rest;
    let close = tag.len() as int + digits.len() as int + 2;
    lemma_digits_are_plain(digits, value.len());
    assert(next_header(b, 0) == Some((1int, close))) by {
        text::first_index_unique(b, OPEN, 0, 0);
        assert(b[close] == CLOSE);
        assert forall|i: int| 1 <= i < close implies b[i] != CLOSE by {
            if i < 1 + tag.len() {
                assert(b[i] == tag[i - 1]);
            } else if i > 1 + tag.len() {
                assert(b[i] == digits[i - 2 - tag.len()]);
            }
        }
        text::first_index_unique(b, CLOSE, 1, close);
    }
    assert(b.subrange(1, close) == tag + seq![COLON] + digits);
    lemma_header(tag, digits, value.len());
    assert(b.subrange(close + 1, close + 1 + value.len()) == value);
}

/// A record that begins with a field, under any spelling of its tag's case,
/// yields that field's value, whatever follows.
pub proof fn leading_field_is_found(
    tag: Seq<u8>,
    digits: Seq<u8>,
    value: Seq<u8>,
    rest: Seq<u8>,
    name: Seq<u8>,
)
    requires
        same_tag(tag, name),
        forall|i: int| 0 <= i < tag.len() ==> tag[i] != COLON && tag[i] != CLOSE,
        as_chars(digits) == text::decimal(value.len()),
        value.len() <= usize::MAX,
    ensures
        ({
            let start = tag.len() as int + digits.len() as int + 3;
            &&& field_range(field_bytes(tag, digits, value) + rest, name, 0) == Some(
                (start, start + value.len()),
            )
            &&& (field_bytes(tag, digits, value) + rest).subrange(start, start + value.len())
                == value
        }),
{
    lemma_leading_header(tag, digits, value, rest);
}

/// The scan for a leading field meets its value alone.
pub proof fn leading_field_is_aligned(
    tag: Seq<u8>,
    digits: Seq<u8>,
    value: Seq<u8>,
    rest: Seq<u8>,
    name: Seq<u8>,
)
    requires
        same_tag(tag, name),
        forall|i: int| 0 <= i < tag.len() ==> tag[i] != COLON && tag[i] != CLOSE,
        as_chars(digits) == text::decimal(value.len()),
        value.len() <= usize::MAX,
    ensures
        scan_aligned(field_bytes(tag, digits, value) + rest, name, 0)
            == vstd::utf8::is_char_boundary(
            field_bytes(tag, digits, value) + rest,
            tag.len() as int + digits.len() as int + 3 + value.len(),
        ),
{
    lemma_leading_header(tag, digits, value, rest);
}

/// A byte range that lies `n` bytes further on.
pub open spec fn moved(range: Option<(int, int)>, n: int) -> Option<(int, int)> {
    match range {
        Some((start, end)) => Some((start + n, end + n)),
        None => None,
    }
}

/// What stands before the place where a scan begins does not bear on it.
proof fn lemma_scan_moved(a: Seq<u8>, b: Seq<u8>, name: Seq<u8>, from: int)
    requires
        0 <= from <= b.len(),
    ensures
        field_range(a + b, name, a.len() + from) == moved(
            field_range(b, name, from),
            a.len() as int,
        ),
    decreases b.len() - from,
{
    let n = a.len() as int;
    lemma_first_index_moved(a, b, OPEN, from);
    let open = text::first_index(b, OPEN, from);
    if open < b.len() {
        text::first_index_is_first(b, OPEN, from);
        lemma_first_index_moved(a, b, CLOSE, open + 1);
    }
    if let Some((start, close)) = next_header(b, from) {
        next_header_advances(b, from);
        assert(next_header(a + b, n + from) == Some((n + start, n + close)));
        let header = b.subrange(start, close);
        assert((a + b).subrange(n + start, n + close) == header);
        match header_length(header) {
            None => lemma_scan_moved(a, b, name, close + 1),
            Some(len) => if close + 1 + len <= b.len() && !same_tag(header_tag(header), name) {
                lemma_scan_moved(a, b, name, close + 1 + len as int);
            },
        }
    }
}

/// A search begins behind a prefix and does not see it.
proof fn lemma_first_index_moved(a: Seq<u8>, b: Seq<u8>, x: u8, from: int)
    requires
        0 <= from <= b.len(),
    ensures
        text::first_index(a + b, x, a.len() + from) == a.len() + text::first_index(b, x, from),
    decreases b.len() - from,
{
    if from < b.len() && b[from] != x {
        lemma_first_index_moved(a, b, x, from + 1);
    }
}

/// A field of another tag is stepped over with its value, whatever the value
/// holds: the rest of the record is scanned as if it stood alone.
pub proof fn other_field_is_stepped_over(
    tag: Seq<u8>,
    digits: Seq<u8>,
    value: Seq<u8>,
    rest: Seq<u8>,
    name: Seq<u8>,
)
    requires
        !same_tag(tag, name),
        forall|i: int| 0 <= i < tag.len() ==> tag[i] != COLON && tag[i] != CLOSE,
        as_chars(digits) == text::decimal(value.len()),
        value.len() <= usize::MAX,
    ensures
        field_range(field_bytes(tag, digits, value) + rest, name, 0) == moved(
            field_range(rest, name, 0),
            field_bytes(tag, digits, value).len() as int,
        ),
{
    lemma_leading_header(tag, digits, value, rest);
    lemma_scan_moved(field_bytes(tag, digits, value), rest, name, 0);
}

/// The digits of a length hold neither a colon nor a closing bracket.
proof fn lemma_digits_are_plain(digits: Seq<u8>, len: nat)
    requires
        as_chars(digits) == text::decimal(len),
    ensures
        forall|i: int| 0 <= i < digits.len() ==> digits[i] != COLON && digits[i] != CLOSE,
{
    text::decimal_round_trip(len);
    assert forall|i: int| 0 <= i < digits.len() implies digits[i] != COLON && digits[i]
        != CLOSE by {
        assert(as_chars(digits)[i] == digits[i] as char);
        assert(text::is_digit(text::decimal(len)[i]));
    }
}

/// A header of a tag and a length states that tag and that length.
proof fn lemma_header(tag: Seq<u8>, digits: Seq<u8>, len: nat)
    requires
        forall|i: int| 0 <= i < tag.len() ==> tag[i] != COLON,
        as_chars(digits) == text::decimal(len),
        len <= usize::MAX,
    ensures
        header_tag(tag + seq![COLON] + digits) == tag,
        header_length(tag + seq![COLON] + digits) == Some(len),
{
    let header = tag + seq![COLON] + digits;
    lemma_digits_are_plain(digits, len);
    text::decimal_round_trip(len);
    text::first_index_unique(header, COLON, 0, tag.len() as int);
    assert(header.take(tag.len() as int) == tag);
    let after = header.skip(tag.len() as int + 1);
    assert(after == digits);
    text::first_index_unique(after, COLON, 0, digits.len() as int);
    assert(after.take(digits.len() as int) == digits);
}

/// A character boundary behind whole characters is one of what follows them.
proof fn lemma_boundary_moved(a: Seq<u8>, b: Seq<u8>, at: int)
    requires
        vstd::utf8::valid_utf8(a),
        vstd::utf8::valid_utf8(b),
        0 <= at <= b.len(),
    ensures
        vstd::utf8::valid_utf8(a + b),
        vstd::utf8::is_char_boundary(a + b, a.len() + at) == vstd::utf8::is_char_boundary(b, at),
{
    vstd::utf8::valid_utf8_concat(a, b);
    if at < b.len() {
        vstd::utf8::is_char_boundary_iff_not_is_continuation_byte(a + b, a.len() + at);
        vstd::utf8::is_char_boundary_iff_not_is_continuation_byte(b, at);
        assert((a + b)[a.len() + at] == b[at]);
    } else {
        vstd::utf8::is_char_boundary_start_end_of_seq(a + b);
        vstd::utf8::is_char_boundary_start_end_of_seq(b);
    }
}

/// What stands before the place where a scan begins does not bear on its alignment.
proof fn lemma_aligned_moved(a: Seq<u8>, b: Seq<u8>, name: Seq<u8>, from: int)
    requires
        vstd::utf8::valid_utf8(a),
        vstd::utf8::valid_utf8(b),
        0 <= from <= b.len(),
    ensures
        scan_aligned(a + b, name, a.len() + from) == scan_aligned(b, name, from),
    decreases b.len() - from,
{
    let n = a.len() as int;
    lemma_first_index_moved(a, b, OPEN, from);
    let open = text::first_index(b, OPEN, from);
    if open < b.len() {
        text::first_index_is_first(b, OPEN, from);
        lemma_first_index_moved(a, b, CLOSE, open + 1);
    }
    if let Some((start, close)) = next_header(b, from) {
        next_header_advances(b, from);
        assert(next_header(a + b, n + from) == Some((n + start, n + close)));
        let header = b.subrange(start, close);
        assert((a + b).subrange(n + start, n + close) == header);
        match header_length(header) {
            None => lemma_aligned_moved(a, b, name, close + 1),
            Some(len) => if close + 1 + len <= b.len() {
                lemma_boundary_moved(a, b, close + 1 + len as int);
                if !same_tag(header_tag(header), name) {
                    lemma_aligned_moved(a, b, name, close + 1 + len as int);
                }
            },
        }
    }
}

/// Where a scan from the beginning comes to the end of a text, it goes on as if what
/// follows stood alone.
proof fn lemma_scan_goes_on(a: Seq<char>, b: Seq<char>, name: Seq<char>)
    requires
        ({
            let (x, y) = (vstd::utf8::encode_utf8(a), vstd::utf8::encode_utf8(b));
            let n = vstd::utf8::encode_utf8(name);
            &&& field_range(x + y, n, 0) == field_range(x + y, n, x.len() as int)
            &&& scan_aligned(x + y, n, 0) == scan_aligned(x + y, n, x.len() as int)
        }),
    ensures
        readable_value(a + b, name) == readable_value(b, name),
{
    let (x, y) = (vstd::utf8::encode_utf8(a), vstd::utf8::encode_utf8(b));
    let n = vstd::utf8::encode_utf8(name);
    text_laws::utf8_of_parts(a, b);
    vstd::utf8::encode_utf8_valid_utf8(a);
    vstd::utf8::encode_utf8_valid_utf8(b);
    lemma_scan_moved(x, y, n, 0);
    lemma_aligned_moved(x, y, n, 0);
    if let Some((start, end)) = field_range(y, n, 0) {
        lemma_range_in_text(y, n, 0);
        assert((x + y).subrange(start + x.len(), end + x.len()) =~= y.subrange(start, end));
    }
}

proof fn lemma_range_in_text(b: Seq<u8>, name: Seq<u8>, from: int)
    requires
        0 <= from <= b.len(),
    ensures
        field_range(b, name, from) matches Some((start, end)) ==> from <= start <= end <= b.len(),
    decreases b.len() - from,
{
    if let Some((start, close)) = next_header(b, from) {
        next_header_advances(b, from);
        match header_length(b.subrange(start, close)) {
            None => lemma_range_in_text(b, name, close + 1),
            Some(len) => if close + 1 + len <= b.len() {
                lemma_range_in_text(b, name, close + 1 + len as int);
            },
        }
    }
}

/// A field of another tag is stepped over together with its value, whatever that
/// holds: what follows is read as if it stood alone.
pub proof fn other_fields_do_not_matter(
    field: Seq<char>,
    tag: Seq<u8>,
    digits: Seq<u8>,
    value: Seq<u8>,
    rest: Seq<char>,
    name: Seq<char>,
)
    requires
        vstd::utf8::encode_utf8(field) == field_bytes(tag, digits, value),
        !same_tag(tag, vstd::utf8::encode_utf8(name)),
        forall|i: int| 0 <= i < tag.len() ==> tag[i] != COLON && tag[i] != CLOSE,
        as_chars(digits) == text::decimal(value.len()),
        value.len() <= usize::MAX,
    ensures
        readable_value(field + rest, name) == readable_value(rest, name),
{
    let x = field_bytes(tag, digits, value);
    let y = vstd::utf8::encode_utf8(rest);
    let n = vstd::utf8::encode_utf8(name);
    lemma_leading_header(tag, digits, value, y);
    text_laws::parts_end_at_boundaries(field, rest);
    text_laws::utf8_of_parts(field, rest);
    assert(x.len() == tag.len() + digits.len() + 3 + value.len());
    lemma_scan_goes_on(field, rest, name);
}

/// A mark without a length, such as `<EOR>`, and text outside of any field are
/// stepped over.
pub proof fn marks_and_comments_do_not_matter(
    mark: Seq<char>,
    comment: Seq<u8>,
    inner: Seq<u8>,
    rest: Seq<char>,
    name: Seq<char>,
)
    requires
        vstd::utf8::encode_utf8(mark) == comment + seq![OPEN] + inner + seq![CLOSE],
        forall|i: int| 0 <= i < comment.len() ==> comment[i] != OPEN,
        forall|i: int| 0 <= i < inner.len() ==> inner[i] != COLON && inner[i] != CLOSE,
    ensures
        readable_value(mark + rest, name) == readable_value(rest, name),
{
    let x = vstd::utf8::encode_utf8(mark);
    let y = vstd::utf8::encode_utf8(rest);
    let b = x + y;
    let open = comment.len() as int;
    let close = open + 1 + inner.len();
    assert forall|i: int| 0 <= i < open implies b[i] != OPEN by {
        assert(b[i] == comment[i]);
    }
    text::first_index_unique(b, OPEN, 0, open);
    assert forall|i: int| open + 1 <= i < close implies b[i] != CLOSE by {
        assert(b[i] == inner[i - open - 1]);
    }
    text::first_index_unique(b, CLOSE, open + 1, close);
    let header = b.subrange(open + 1, close);
    assert(header =~= inner);
    text::first_index_unique(header, COLON, 0, header.len() as int);
    assert(header_length(header) is None);
    assert(close + 1 == x.len());
    lemma_scan_goes_on(mark, rest, name);
}

/// A data type behind the length does not bear on a field: its tag and its length are
/// those that stand before the second colon.
pub proof fn data_types_do_not_matter(tag: Seq<u8>, digits: Seq<u8>, len: nat, kind: Seq<u8>)
    requires
        forall|i: int| 0 <= i < tag.len() ==> tag[i] != COLON,
        as_chars(digits) == text::decimal(len),
        len <= usize::MAX,
    ensures
        header_tag(tag + seq![0x3au8] + digits + seq![0x3au8] + kind) == tag,
        header_length(tag + seq![0x3au8] + digits + seq![0x3au8] + kind) == Some(len),
        header_tag(tag + seq![0x3au8] + digits) == tag,
        header_length(tag + seq![0x3au8] + digits) == Some(len),
{
    let header = tag + seq![0x3au8] + digits + seq![0x3au8] + kind;
    lemma_header(tag, digits, len);
    lemma_digits_are_plain(digits, len);
    text::decimal_round_trip(len);
    text::first_index_unique(header, COLON, 0, tag.len() as int);
    assert(header.take(tag.len() as int) =~= tag);
    let after = header.skip(tag.len() as int + 1);
    assert(after =~= digits + seq![0x3au8] + kind);
    text::first_index_unique(after, COLON, 0, digits.len() as int);
    assert(after.take(digits.len() as int) =~= digits);
}

/// A field whose length goes beyond the end of the record ends the search: neither it nor
/// anything in it is read.
pub proof fn overlong_fields_end_the_search(
    tag: Seq<u8>,
    digits: Seq<u8>,
    len: nat,
    rest: Seq<u8>,
    name: Seq<u8>,
)
    requires
        forall|i: int| 0 <= i < tag.len() ==> tag[i] != COLON && tag[i] != CLOSE,
        as_chars(digits) == text::decimal(len),
        rest.len() < len <= usize::MAX,
    ensures
        field_range(field_bytes(tag, digits, rest), name, 0) is None,
        scan_aligned(field_bytes(tag, digits, rest), name, 0),
{
    let b = field_bytes(tag, digits, rest);
    let close = tag.len() as int + digits.len() as int + 2;
    lemma_digits_are_plain(digits, len);
    assert(next_header(b, 0) == Some((1int, close))) by {
        text::first_index_unique(b, OPEN, 0, 0);
        assert(b[close] == CLOSE);
        assert forall|i: int| 1 <= i < close implies b[i] != CLOSE by {
            if i < 1 + tag.len() {
                assert(b[i] == tag[i - 1]);
            } else if i > 1 + tag.len() {
                assert(b[i] == digits[i - 2 - tag.len()]);
            }
        }
        text::first_index_unique(b, CLOSE, 1, close);
    }
    assert(b.subrange(1, close) =~= tag + seq![COLON] + digits);
    lemma_header(tag, digits, len);
}

/// A missing field is shown by a question mark, any other by its value.
pub proof fn missing_fields_are_shown_so(field: Option<String>)
    ensures
        field is None ==> shown(field) == seq!['?'],
        field matches Some(value) ==> shown(field) == value@,
{
    reveal_strlit("?");
    assert("?"@ =~= seq!['?']);
}

} // verus!
