//! Filesystem paths as bytes.
use vstd::prelude::*;

verus! {

/// A path, in the bytes that the operating system takes. Components are
/// separated by slashes.
#[derive(Debug, Clone, PartialEq, Eq)]
pub struct FilePath {
    pub bytes: Vec<u8>,
}

/// `/`
pub const SEPARATOR: u8 = 0x2f;

impl View for FilePath {
    type V = Seq<u8>;

    open spec fn view(&self) -> Seq<u8> {
        self.bytes@
    }
}

/// A path with one more component, which does not begin with a slash.
pub open spec fn joined(base: Seq<u8>, component: Seq<u8>) -> Seq<u8> {
    if base.len() == 0 || base.last() == SEPARATOR {
        base + component
    } else {
        base.push(SEPARATOR) + component
    }
}

/// The UTF-8 bytes of a text.
pub open spec fn utf8(s: Seq<char>) -> Seq<u8> {
    vstd::utf8::encode_utf8(s)
}

/// The text that `String::from_utf8_lossy` makes of bytes.
pub uninterp spec fn lossy_text(bytes: Seq<u8>) -> Seq<char>;

/// `String::from_utf8_lossy`: bytes as a text, with U+FFFD in place of what is
/// not UTF-8. The contract names the result, claims that it depends on the bytes
/// alone, and that it is made of these bytes where they are UTF-8.
#[verifier::external_body]
fn decode_lossy(bytes: &[u8]) -> (s: String)
    ensures
        s@ == lossy_text(bytes@),
        vstd::utf8::valid_utf8(bytes@) ==> vstd::utf8::encode_utf8(s@) == bytes@,
{
    String::from_utf8_lossy(bytes).into_owned()
}

impl FilePath {
    /// The path as shown to the operator.
    pub fn to_text(&self) -> (s: String)
        ensures
            s@ == lossy_text(self@),
            vstd::utf8::valid_utf8(self@) ==> vstd::utf8::encode_utf8(s@) == self@,
    {
        decode_lossy(self.bytes.as_slice())
    }

    /// The path with these bytes.
    pub fn from_bytes(bytes: &[u8]) -> (p: FilePath)
        ensures
            p@ == bytes@,
    {
        FilePath { bytes: vstd::slice::slice_to_vec(bytes) }
    }

    /// A second path with the same bytes.
    pub fn copy(&self) -> (p: FilePath)
        ensures
            p@ == self@,
    {
        FilePath::from_bytes(self.bytes.as_slice())
    }

    /// Adds a component.
    pub fn join(self, component: &str) -> (p: FilePath)
        ensures
            p@ == joined(self@, utf8(component@)),
    {
        let mut bytes = self.bytes;
        let len: usize = bytes.len();
        if len > 0 && bytes[len - 1] != SEPARATOR {
            bytes.push(SEPARATOR);
        }
        FilePath { bytes }.with_suffix(component)
    }

    /// Adds text behind the last component.
    pub fn with_suffix(self, suffix: &str) -> (p: FilePath)
        ensures
            p@ == self@ + utf8(suffix@),
    {
        let mut bytes = self.bytes;
        let ghost before = bytes@;
        let more = suffix.as_bytes();
        let mut i: usize = 0;
        while i < more.len()
            invariant
                i <= more@.len(),
                bytes@ == before + more@.take(i as int),
            decreases more@.len() - i,
        {
            bytes.push(more[i]);
            assert(bytes@ == before + more@.take(i + 1));
            i += 1;
        }
        assert(more@.take(i as int) == more@);
        FilePath { bytes }
    }
}

} // verus!
