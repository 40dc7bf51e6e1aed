//! URLs, as the `url` crate (through `reqwest::Url`) reads and writes them.
use crate::text;
use vstd::prelude::*;

verus! {

/// The serialization of the URL that a text denotes; `None` where it denotes
/// none. This is what `reqwest::Url::parse` followed by `Url::as_str` gives.
pub uninterp spec fn url_href(text: Seq<char>) -> Option<Seq<char>>;

/// The ASCII serialization of the origin of the URL that a text denotes; `None`
/// where it denotes none or its origin is opaque. This is what `Url::origin` and
/// `Origin::ascii_serialization` give.
pub uninterp spec fn url_origin(text: Seq<char>) -> Option<Seq<char>>;

/// The serialization of the URL that a text denotes, with one more path segment
/// at its end; `None` where it denotes none or cannot have path segments. This
/// is what `PathSegmentsMut::push` on `Url::path_segments_mut` gives.
pub uninterp spec fn url_with_segment(text: Seq<char>, segment: Seq<char>) -> Option<Seq<char>>;

/// `reqwest::Url::parse`: parses a URL and returns its serialization. The
/// contract names the result and claims that it depends on the text alone.
#[verifier::external_body]
pub(crate) fn parse_url(text: &str) -> (href: Option<String>)
    ensures
        match href {
            Some(h) => url_href(text@) == Some(h@),
            None => url_href(text@) is None,
        },
{
    match reqwest::Url::parse(text) {
        Ok(url) => Some(url.as_str().to_owned()),
        Err(_) => None,
    }
}

/// Where the controls and spaces from `i` on end.
pub open spec fn controls_end(s: Seq<char>, i: int) -> int
    decreases s.len() - i,
{
    if 0 <= i < s.len() && s[i] <= ' ' {
        controls_end(s, i + 1)
    } else {
        i
    }
}

/// A character that a URL is read without.
pub open spec fn is_dropped(c: char) -> bool {
    c == '\t' || c == '\n' || c == '\r'
}

/// An ASCII letter in lower case, any other character as it is.
pub open spec fn lower_case(c: char) -> char {
    if 'A' <= c && c <= 'Z' {
        (c as int + 32) as char
    } else {
        c
    }
}

/// Where the characters of `word` from `k` on end, if they stand from `i` on, in
/// any case, with tabs and newlines anywhere between them.
pub open spec fn word_end(s: Seq<char>, i: int, word: Seq<char>, k: int) -> Option<int>
    decreases s.len() - i,
{
    if k >= word.len() {
        Some(i)
    } else if !(0 <= i < s.len()) {
        None
    } else if is_dropped(s[i]) {
        word_end(s, i + 1, word, k)
    } else if lower_case(s[i]) == word[k] {
        word_end(s, i + 1, word, k + 1)
    } else {
        None
    }
}

/// Where the scheme `blob` ends, if a URL with it begins at `i`.
pub open spec fn blob_end(s: Seq<char>, i: int) -> Option<int> {
    word_end(s, controls_end(s, i), "blob:"@, 0)
}

/// How many `blob` URLs begin at `i`, each but the first in the path of the one
/// before.
pub open spec fn blob_depth(s: Seq<char>, i: int) -> nat
    decreases s.len() - i,
{
    match blob_end(s, i) {
        Some(end) => if i < end <= s.len() {
            1 + blob_depth(s, end)
        } else {
            0
        },
        None => 0,
    }
}

/// How many `blob` URLs inside one another are gone through for an origin.
pub const MAX_BLOB_DEPTH: usize = 1000;

/// Finding the origin goes through few URLs: a `blob` URL has the origin of the
/// URL in its path, which may be a `blob` URL again.
pub open spec fn shallow_origin(text: Seq<char>) -> bool {
    blob_depth(text, 0) <= MAX_BLOB_DEPTH
}

fn to_lower_case(c: char) -> (l: char)
    ensures
        l == lower_case(c),
{
    if 'A' <= c && c <= 'Z' {
        (c as u8 + 32) as char
    } else {
        c
    }
}

/// The scheme ends behind its five characters.
proof fn lemma_word_end(s: Seq<char>, i: int, word: Seq<char>, k: int)
    requires
        0 <= i <= s.len(),
        0 <= k <= word.len(),
    ensures
        word_end(s, i, word, k) matches Some(end) ==> i + word.len() - k <= end <= s.len(),
    decreases s.len() - i,
{
    if k < word.len() && i < s.len() {
        if is_dropped(s[i]) {
            lemma_word_end(s, i + 1, word, k);
        } else if lower_case(s[i]) == word[k] {
            lemma_word_end(s, i + 1, word, k + 1);
        }
    }
}

/// Finds where the scheme `blob` ends.
fn find_blob_end(s: &[char], from: usize) -> (found: Option<usize>)
    requires
        from <= s@.len(),
    ensures
        match found {
            Some(end) => blob_end(s@, from as int) == Some(end as int) && from < end <= s@.len(),
            None => blob_end(s@, from as int) is None,
        },
{
    let word = text::chars_of("blob:");
    let mut i: usize = from;
    while i < s.len() && s[i] <= ' '
        invariant
            from <= i <= s@.len(),
            controls_end(s@, from as int) == controls_end(s@, i as int),
        decreases s@.len() - i,
    {
        i += 1;
    }
    let mut k: usize = 0;
    proof {
        reveal_strlit("blob:");
        lemma_word_end(s@, i as int, word@, 0);
    }
    while k < word.len()
        invariant
            from <= i <= s@.len(),
            k <= word@.len(),
            blob_end(s@, from as int) == word_end(s@, i as int, word@, k as int),
            blob_end(s@, from as int) matches Some(end) ==> from < end <= s@.len(),
        decreases s@.len() - i, word@.len() - k,
    {
        if i == s.len() {
            return None;
        }
        let c = s[i];
        if c == '\t' || c == '\n' || c == '\r' {
            i += 1;
        } else if to_lower_case(c) == word[k] {
            i += 1;
            k += 1;
        } else {
            return None;
        }
    }
    Some(i)
}

/// Tells whether the origin of a URL can be looked for.
pub fn has_shallow_origin(text: &str) -> (yes: bool)
    ensures
        yes == shallow_origin(text@),
{
    let chars = text::chars_of(text);
    let s = chars.as_slice();
    let mut i: usize = 0;
    let mut depth: usize = 0;
    while depth <= MAX_BLOB_DEPTH
        invariant
            s@ == text@,
            i <= s@.len(),
            depth <= MAX_BLOB_DEPTH + 1,
            blob_depth(text@, 0) == depth + blob_depth(text@, i as int),
        decreases MAX_BLOB_DEPTH + 1 - depth,
    {
        match find_blob_end(s, i) {
            Some(end) => {
                i = end;
                depth += 1;
            },
            None => {
                return true;
            },
        }
    }
    false
}

/// `reqwest::Url::origin`: the origin of a URL, where it is not opaque, in ASCII.
/// The contract names the result and claims that it depends on the text alone.
/// For a `blob` URL the call goes into itself once more where the URL in its path
/// is a `blob` URL again, and too many of them exhaust the stack; other URLs take
/// one call, however long they are.
#[verifier::external_body]
pub(crate) fn origin_of(text: &str) -> (origin: Option<String>)
    requires
        shallow_origin(text@),
    ensures
        match origin {
            Some(o) => url_origin(text@) == Some(o@),
            None => url_origin(text@) is None,
        },
{
    match reqwest::Url::parse(text).map(|url| url.origin()) {
        Ok(origin) if origin.is_tuple() => Some(origin.ascii_serialization()),
        _ => None,
    }
}

/// A URL stays within the 4 GiB that the `url` crate allows when a path segment is
/// appended to it: a slash, and at most three characters for each byte.
pub open spec fn has_room(href: Option<Seq<char>>, segment: Seq<char>) -> bool {
    match href {
        Some(h) => vstd::utf8::encode_utf8(h).len() + 1 + 3 * vstd::utf8::encode_utf8(
            segment,
        ).len() <= u32::MAX,
        None => true,
    }
}

/// Tells whether a path segment can be appended to what was read from a text.
pub(crate) fn leaves_room(href: &Option<String>, segment: &str) -> (yes: bool)
    ensures
        yes == has_room(text::text_view(*href), segment@),
{
    match href {
        Some(h) => {
            let len: u128 = h.as_str().as_bytes().len() as u128;
            let more: u128 = segment.as_bytes().len() as u128;
            len + 1 + 3 * more <= u32::MAX as u128
        },
        None => true,
    }
}

/// `reqwest::Url::path_segments_mut`: appends a path segment to a URL, percent-
/// encoded as needed. The contract names the result and claims that it depends
/// on the two texts alone. A URL of more than 4 GiB panics there.
#[verifier::external_body]
pub(crate) fn push_segment(text: &str, segment: &str) -> (href: Option<String>)
    requires
        has_room(url_href(text@), segment@),
    ensures
        match href {
            Some(h) => url_with_segment(text@, segment@) == Some(h@),
            None => url_with_segment(text@, segment@) is None,
        },
{
    let mut url = reqwest::Url::parse(text).ok()?;
    url.path_segments_mut().ok()?.push(segment);
    Some(url.as_str().to_owned())
}

/// An origin is looked for in every URL that does not begin with the scheme `blob`, and in
/// particular in every one that begins with `http`.
pub proof fn other_schemes_have_an_origin(s: Seq<char>)
    requires
        s.len() > 0,
        s[0] > ' ',
        s[0] != 'b',
        s[0] != 'B',
    ensures
        shallow_origin(s),
        has_room(Some(s), Seq::empty()) <==> vstd::utf8::encode_utf8(s).len() < 0xffff_ffff,
{
    reveal_strlit("blob:");
    assert(vstd::utf8::encode_utf8(Seq::<char>::empty()).len() == 0);
    assert(controls_end(s, 0) == 0);
}

/// A `blob` URL around another URL takes one more call, in any spelling of its case, and a
/// thousand of them are the most.
pub proof fn each_blob_takes_a_call(s: Seq<char>)
    requires
        s.len() > 5,
        s[0] == 'b' || s[0] == 'B',
        s[1] == 'l' || s[1] == 'L',
        s[2] == 'o' || s[2] == 'O',
        s[3] == 'b' || s[3] == 'B',
        s[4] == ':',
    ensures
        blob_depth(s, 0) == 1 + blob_depth(s, 5),
        shallow_origin(s) <==> blob_depth(s, 5) < 1000,
{
    reveal_strlit("blob:");
    reveal_with_fuel(word_end, 6);
    assert(controls_end(s, 0) == 0);
    assert(blob_end(s, 0) == Some(5int));
}

/// Controls and spaces in front of a URL do not matter, nor do tabs and newlines in its
/// scheme.
pub proof fn controls_do_not_matter(s: Seq<char>, i: int, word: Seq<char>, k: int)
    requires
        0 <= i < s.len(),
        0 <= k < word.len(),
    ensures
        s[i] <= ' ' ==> blob_end(s, i) == blob_end(s, i + 1),
        s[i] == '\t' || s[i] == '\n' || s[i] == '\r' ==> word_end(s, i, word, k) == word_end(
            s,
            i + 1,
            word,
            k,
        ),
        !(s[i] == '\t' || s[i] == '\n' || s[i] == '\r') && 'a' <= word[k] <= 'z' ==> (
        if s[i] == word[k] || s[i] as int + 32 == word[k] as int {
            word_end(s, i, word, k) == word_end(s, i + 1, word, k + 1)
        } else {
            word_end(s, i, word, k) is None
        }),
{
}

} // verus!
