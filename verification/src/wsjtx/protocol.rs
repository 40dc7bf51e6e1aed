//! WSJT-X UDP wire format.
//!
//! WSJT-X (and JTDX/MSHV, which speak the same protocol) frames every
//! datagram as `magic` (`0xadbccbda`), `schema_version` (`quint32`),
//! `message_type` (`quint32`), and a type-specific body. Strings use Qt's
//! `QDataStream` `QString` encoding: a signed `qint32` byte-length prefix
//! (big-endian), then UTF-8 bytes; length `-1` is "null" (treated as empty).
//!
//! Only message type 12 (`Logged ADIF`) is decoded. Every other type is
//! reported as `Ok(None)` so the caller can ignore it without distinguishing
//! parse errors from "not interesting". Traffic that is not WSJT-X (bad magic,
//! truncation, invalid UTF-8) surfaces as `Err`.
use crate::text;
use vstd::prelude::*;

verus! {

/// First field of every WSJT-X datagram.
pub const MAGIC: u32 = 0xadbc_cbda;

/// Message type of a logged contact in ADIF.
pub const MSG_TYPE_LOGGED_ADIF: u32 = 12;

/// A datagram that is not a WSJT-X message.
#[derive(Debug, PartialEq, Eq)]
pub enum WsjtxError {
    Parse(String),
}

impl View for WsjtxError {
    type V = Seq<char>;

    open spec fn view(&self) -> Seq<char> {
        match self {
            WsjtxError::Parse(text) => text@,
        }
    }
}

impl WsjtxError {
    /// The error as shown to the operator.
    pub fn message(&self) -> (shown: String)
        ensures
            shown@ == "malformed WSJT-X packet: "@ + self@,
    {
        let mut shown = String::new();
        shown.append("malformed WSJT-X packet: ");
        match self {
            WsjtxError::Parse(text) => shown.append(text.as_str()),
        }
        assert(shown@ == "malformed WSJT-X packet: "@ + self@);
        shown
    }
}

/// The text for a field that ends behind the datagram.
pub open spec fn truncated_text(n: int, pos: int, len: int) -> Seq<char> {
    "truncated: need "@ + text::decimal(n as nat) + " bytes at offset "@ + text::decimal(
        pos as nat,
    ) + ", have "@ + text::decimal((len - pos) as nat)
}

/// The `n` bytes at offset `pos`, or why they cannot be had.
pub open spec fn bytes_at(buf: Seq<u8>, pos: int, n: int) -> Result<Seq<u8>, Seq<char>> {
    if pos + n > usize::MAX {
        Err("length overflow at offset "@ + text::decimal(pos as nat))
    } else if pos + n > buf.len() {
        Err(truncated_text(n, pos, buf.len() as int))
    } else {
        Ok(buf.subrange(pos, pos + n))
    }
}

/// The number that four bytes denote, most significant byte first.
pub open spec fn be32_value(b: Seq<u8>) -> int {
    b[0] * 0x100_0000 + b[1] * 0x1_0000 + b[2] * 0x100 + b[3]
}

/// The `quint32` at offset `pos`.
pub open spec fn u32_at(buf: Seq<u8>, pos: int) -> Result<int, Seq<char>> {
    match bytes_at(buf, pos, 4) {
        Ok(b) => Ok(be32_value(b)),
        Err(e) => Err(e),
    }
}

/// The `QString` at offset `pos` and the offset behind it. A negative length is
/// the null string, read as empty.
pub open spec fn qstring_at(buf: Seq<u8>, pos: int) -> Result<(Seq<char>, int), Seq<char>> {
    match u32_at(buf, pos) {
        Err(e) => Err(e),
        Ok(len) => if len >= 0x8000_0000 {
            Ok((Seq::<char>::empty(), pos + 4))
        } else {
            match bytes_at(buf, pos + 4, len) {
                Err(e) => Err(e),
                Ok(b) => if vstd::utf8::valid_utf8(b) {
                    Ok((vstd::utf8::decode_utf8(b), pos + 4 + len))
                } else {
                    Err("invalid UTF-8 in QString field"@)
                },
            }
        },
    }
}

/// How far reading the `QString` at offset `pos` gets where it is none: up to its
/// length, up to its bytes, or past them where they are not UTF-8.
pub open spec fn qstring_stop(buf: Seq<u8>, pos: int) -> int {
    match u32_at(buf, pos) {
        Err(_) => pos,
        Ok(len) => if bytes_at(buf, pos + 4, len) is Err {
            pos + 4
        } else {
            pos + 4 + len
        },
    }
}

/// The ADIF text that a datagram logs: `Ok(Some(_))` for a type-12 message,
/// `Ok(None)` for any other type, `Err` where the datagram is not WSJT-X.
pub open spec fn logged_adif(buf: Seq<u8>) -> Result<Option<Seq<char>>, Seq<char>> {
    match u32_at(buf, 0) {
        Err(e) => Err(e),
        Ok(magic) => if magic != MAGIC {
            Err("bad magic: 0x"@ + text::hex8(magic as u32))
        } else {
            match (u32_at(buf, 4), u32_at(buf, 8)) {
                (Err(e), _) => Err(e),
                (Ok(_), Err(e)) => Err(e),
                (Ok(_), Ok(message_type)) => if message_type != MSG_TYPE_LOGGED_ADIF {
                    Ok(None)
                } else {
                    match qstring_at(buf, 12) {
                        Err(e) => Err(e),
                        Ok((_, adif_pos)) => match qstring_at(buf, adif_pos) {
                            Err(e) => Err(e),
                            Ok((adif, _)) => Ok(Some(adif)),
                        },
                    }
                },
            }
        },
    }
}

/// A position in a datagram.
pub struct Cursor<'a> {
    pub buf: &'a [u8],
    pub pos: usize,
}

impl<'a> Cursor<'a> {
    /// The position lies in the datagram or at its end.
    pub open spec fn wf(&self) -> bool {
        self.pos <= self.buf@.len()
    }

    pub fn new(buf: &'a [u8]) -> (c: Self)
        ensures
            c.wf(),
            c.buf@ == buf@,
            c.pos == 0,
    {
        Cursor { buf, pos: 0 }
    }

    /// Reads a `quint32`.
    pub fn read_u32(&mut self) -> (res: Result<u32, WsjtxError>)
        requires
            old(self).wf(),
        ensures
            final(self).wf(),
            final(self).buf@ == old(self).buf@,
            match res {
                Ok(n) => u32_at(old(self).buf@, old(self).pos as int) == Ok::<int, Seq<char>>(
                    n as int,
                ) && final(self).pos == old(self).pos + 4,
                Err(e) => u32_at(old(self).buf@, old(self).pos as int) == Err::<int, Seq<char>>(
                    e@,
                ) && final(self).pos == old(self).pos,
            },
    {
        match self.take(4) {
            Ok(b) => Ok(
                b[0] as u32 * 0x100_0000 + b[1] as u32 * 0x1_0000 + b[2] as u32 * 0x100
                    + b[3] as u32,
            ),
            Err(e) => Err(e),
        }
    }

    /// Reads a Qt `QString`: big-endian `qint32` length, then UTF-8. `-1` is
    /// null (empty).
    pub fn read_qstring(&mut self) -> (res: Result<String, WsjtxError>)
        requires
            old(self).wf(),
        ensures
            final(self).wf(),
            final(self).buf@ == old(self).buf@,
            match res {
                Ok(s) => qstring_at(old(self).buf@, old(self).pos as int) == Ok::<
                    (Seq<char>, int),
                    Seq<char>,
                >((s@, final(self).pos as int)),
                Err(e) => qstring_at(old(self).buf@, old(self).pos as int) == Err::<
                    (Seq<char>, int),
                    Seq<char>,
                >(e@) && final(self).pos == qstring_stop(old(self).buf@, old(self).pos as int),
            },
    {
        let len: u32 = match self.read_u32() {
            Ok(n) => n,
            Err(e) => {
                return Err(e);
            },
        };
        if len >= 0x8000_0000 {
            return Ok(String::new());
        }
        let bytes = match self.take(len as usize) {
            Ok(b) => b,
            Err(e) => {
                return Err(e);
            },
        };
        match core::str::from_utf8(bytes) {
            Ok(s) => {
                proof {
                    vstd::utf8::encode_utf8_decode_utf8(s@);
                }
                Ok(s.to_owned())
            },
            Err(_) => Err(WsjtxError::Parse("invalid UTF-8 in QString field".to_owned())),
        }
    }

    /// Reads the next `n` bytes.
    pub fn take(&mut self, n: usize) -> (res: Result<&'a [u8], WsjtxError>)
        requires
            old(self).wf(),
        ensures
            final(self).wf(),
            final(self).buf@ == old(self).buf@,
            match res {
                Ok(b) => bytes_at(old(self).buf@, old(self).pos as int, n as int) == Ok::<
                    Seq<u8>,
                    Seq<char>,
                >(b@) && final(self).pos == old(self).pos + n,
                Err(e) => bytes_at(old(self).buf@, old(self).pos as int, n as int) == Err::<
                    Seq<u8>,
                    Seq<char>,
                >(e@) && final(self).pos == old(self).pos,
            },
    {
        let end: usize = match self.pos.checked_add(n) {
            Some(end) => end,
            None => {
                let mut why = String::new();
                why.append("length overflow at offset ");
                text::push_decimal(&mut why, self.pos as u64);
                assert(why@ == "length overflow at offset "@ + text::decimal(self.pos as nat));
                return Err(WsjtxError::Parse(why));
            },
        };
        if end > self.buf.len() {
            let mut why = String::new();
            why.append("truncated: need ");
            text::push_decimal(&mut why, n as u64);
            why.append(" bytes at offset ");
            text::push_decimal(&mut why, self.pos as u64);
            why.append(", have ");
            text::push_decimal(&mut why, (self.buf.len() - self.pos) as u64);
            assert(why@ == truncated_text(n as int, self.pos as int, self.buf@.len() as int));
            return Err(WsjtxError::Parse(why));
        }
        let slice = vstd::slice::slice_subrange(self.buf, self.pos, end);
        self.pos = end;
        Ok(slice)
    }
}

/// Parses a WSJT-X datagram. Returns `Ok(Some(adif))` for a `LoggedADIF`
/// (type 12) message, `Ok(None)` for any other WSJT-X message, and `Err` for
/// datagrams that do not look like WSJT-X at all (bad magic, truncated,
/// invalid UTF-8).
pub fn parse_logged_adif(bytes: &[u8]) -> (res: Result<Option<String>, WsjtxError>)
    ensures
        match res {
            Ok(Some(adif)) => logged_adif(bytes@) == Ok::<Option<Seq<char>>, Seq<char>>(
                Some(adif@),
            ),
            Ok(None) => logged_adif(bytes@) == Ok::<Option<Seq<char>>, Seq<char>>(None),
            Err(e) => logged_adif(bytes@) == Err::<Option<Seq<char>>, Seq<char>>(e@),
        },
{
    let mut c = Cursor::new(bytes);
    let magic: u32 = match c.read_u32() {
        Ok(n) => n,
        Err(e) => {
            return Err(e);
        },
    };
    if magic != MAGIC {
        let mut why = String::new();
        why.append("bad magic: 0x");
        text::push_hex8(&mut why, magic);
        assert(why@ == "bad magic: 0x"@ + text::hex8(magic));
        return Err(WsjtxError::Parse(why));
    }
    let schema = c.read_u32();
    if let Err(e) = schema {
        return Err(e);
    }
    let message_type: u32 = match c.read_u32() {
        Ok(n) => n,
        Err(e) => {
            return Err(e);
        },
    };
    if message_type != MSG_TYPE_LOGGED_ADIF {
        return Ok(None);
    }
    // The body of a type-12 message is `id` (the sender's program id, such as
    // "WSJT-X"), then the ADIF text.
    let id = c.read_qstring();
    if let Err(e) = id {
        return Err(e);
    }
    match c.read_qstring() {
        Ok(adif) => Ok(Some(adif)),
        Err(e) => Err(e),
    }
}

/// The four bytes of a number, most significant byte first.
pub open spec fn be32_bytes(n: int) -> Seq<u8>
    recommends
        0 <= n < 0x1_0000_0000,
{
    seq![
        (n / 0x100_0000) as u8,
        (n / 0x1_0000 % 0x100) as u8,
        (n / 0x100 % 0x100) as u8,
        (n % 0x100) as u8,
    ]
}

/// A text as a `QString`.
pub open spec fn qstring_bytes(s: Seq<char>) -> Seq<u8> {
    be32_bytes(vstd::utf8::encode_utf8(s).len() as int) + vstd::utf8::encode_utf8(s)
}

/// A WSJT-X datagram with the given body.
pub open spec fn datagram(schema: u32, message_type: u32, body: Seq<u8>) -> Seq<u8> {
    be32_bytes(MAGIC as int) + be32_bytes(schema as int) + be32_bytes(message_type as int) + body
}

/// The datagram with which program `id` logs a contact.
pub open spec fn logged_adif_datagram(schema: u32, id: Seq<char>, adif: Seq<char>) -> Seq<u8> {
    datagram(schema, MSG_TYPE_LOGGED_ADIF, qstring_bytes(id) + qstring_bytes(adif))
}

proof fn lemma_be32_round_trip(n: int)
    requires
        0 <= n < 0x1_0000_0000,
    ensures
        be32_value(be32_bytes(n)) == n,
        be32_bytes(n).len() == 4,
{
}

/// What stands at `pos` in `buf` is a `QString`, so that is what is read there.
proof fn lemma_qstring_read(buf: Seq<u8>, pos: int, s: Seq<char>)
    requires
        0 <= pos,
        pos + qstring_bytes(s).len() <= buf.len() <= usize::MAX,
        vstd::utf8::encode_utf8(s).len() < 0x8000_0000,
        buf.subrange(pos, pos + qstring_bytes(s).len()) == qstring_bytes(s),
    ensures
        qstring_at(buf, pos) == Ok::<(Seq<char>, int), Seq<char>>(
            (s, pos + qstring_bytes(s).len()),
        ),
{
    let utf8 = vstd::utf8::encode_utf8(s);
    let whole = buf.subrange(pos, pos + qstring_bytes(s).len());
    lemma_be32_round_trip(utf8.len() as int);
    assert(buf.subrange(pos, pos + 4) =~= be32_bytes(utf8.len() as int)) by {
        assert forall|i: int| 0 <= i < 4 implies buf[pos + i] == be32_bytes(utf8.len() as int)[i] by {
            assert(whole[i] == buf[pos + i]);
        }
    }
    assert(buf.subrange(pos + 4, pos + 4 + utf8.len()) =~= utf8) by {
        assert forall|i: int| 0 <= i < utf8.len() implies buf[pos + 4 + i] == utf8[i] by {
            assert(whole[4 + i] == buf[pos + 4 + i]);
        }
    }
    vstd::utf8::encode_utf8_valid_utf8(s);
    vstd::utf8::encode_utf8_decode_utf8(s);
}

/// A logged contact is read back exactly as it was sent, whatever stands behind
/// it in the datagram and whatever its schema version.
pub proof fn logged_adif_is_read_back(
    schema: u32,
    id: Seq<char>,
    adif: Seq<char>,
    trailing: Seq<u8>,
)
    requires
        vstd::utf8::encode_utf8(id).len() < 0x8000_0000,
        vstd::utf8::encode_utf8(adif).len() < 0x8000_0000,
        (logged_adif_datagram(schema, id, adif) + trailing).len() <= usize::MAX,
    ensures
        logged_adif(logged_adif_datagram(schema, id, adif) + trailing) == Ok::<
            Option<Seq<char>>,
            Seq<char>,
        >(Some(adif)),
{
    let buf = logged_adif_datagram(schema, id, adif) + trailing;
    lemma_be32_round_trip(MAGIC as int);
    lemma_be32_round_trip(schema as int);
    lemma_be32_round_trip(MSG_TYPE_LOGGED_ADIF as int);
    assert(buf.subrange(0, 4) =~= be32_bytes(MAGIC as int));
    assert(buf.subrange(4, 8) =~= be32_bytes(schema as int));
    assert(buf.subrange(8, 12) =~= be32_bytes(MSG_TYPE_LOGGED_ADIF as int));
    let a = qstring_bytes(id).len() as int;
    let b = qstring_bytes(adif).len() as int;
    assert(buf.subrange(12, 12 + a) =~= qstring_bytes(id));
    assert(buf.subrange(12 + a, 12 + a + b) =~= qstring_bytes(adif));
    lemma_qstring_read(buf, 12, id);
    lemma_qstring_read(buf, 12 + a, adif);
}

/// A message of any other type is ignored without looking at its body, so a
/// contact that is announced by several messages is taken from one of them.
pub proof fn other_messages_are_ignored(schema: u32, message_type: u32, body: Seq<u8>)
    requires
        message_type != MSG_TYPE_LOGGED_ADIF,
        datagram(schema, message_type, body).len() <= usize::MAX,
    ensures
        logged_adif(datagram(schema, message_type, body)) == Ok::<Option<Seq<char>>, Seq<char>>(
            None,
        ),
{
    let buf = datagram(schema, message_type, body);
    lemma_be32_round_trip(MAGIC as int);
    lemma_be32_round_trip(schema as int);
    lemma_be32_round_trip(message_type as int);
    assert(buf.subrange(0, 4) =~= be32_bytes(MAGIC as int));
    assert(buf.subrange(4, 8) =~= be32_bytes(schema as int));
    assert(buf.subrange(8, 12) =~= be32_bytes(message_type as int));
}

/// A datagram that does not begin with the magic number is refused.
pub proof fn foreign_datagrams_are_refused(buf: Seq<u8>)
    requires
        buf.len() < 4 || be32_value(buf.subrange(0, 4)) != MAGIC,
    ensures
        logged_adif(buf) is Err,
{
}

/// A logged contact that lost bytes at its end is refused, never read as a
/// shorter one.
pub proof fn truncated_contact_is_refused(
    schema: u32,
    id: Seq<char>,
    adif: Seq<char>,
    kept: int,
)
    requires
        vstd::utf8::encode_utf8(id).len() < 0x8000_0000,
        vstd::utf8::encode_utf8(adif).len() < 0x8000_0000,
        0 <= kept < logged_adif_datagram(schema, id, adif).len() <= usize::MAX,
    ensures
        logged_adif(logged_adif_datagram(schema, id, adif).take(kept)) is Err,
{
    let whole = logged_adif_datagram(schema, id, adif);
    let buf = whole.take(kept);
    let a = qstring_bytes(id).len() as int;
    lemma_be32_round_trip(MAGIC as int);
    lemma_be32_round_trip(MSG_TYPE_LOGGED_ADIF as int);
    lemma_be32_round_trip(vstd::utf8::encode_utf8(id).len() as int);
    lemma_be32_round_trip(vstd::utf8::encode_utf8(adif).len() as int);
    if kept >= 12 {
        assert(buf.subrange(0, 4) =~= be32_bytes(MAGIC as int));
        assert(buf.subrange(8, 12) =~= be32_bytes(MSG_TYPE_LOGGED_ADIF as int));
        if kept >= 16 {
            assert(buf.subrange(12, 16) =~= be32_bytes(
                vstd::utf8::encode_utf8(id).len() as int,
            ));
        }
        if kept >= 12 + a {
            assert(buf.subrange(12, 12 + a) =~= qstring_bytes(id));
            lemma_qstring_read(buf, 12, id);
            if kept >= 12 + a + 4 {
                assert(buf.subrange(12 + a, 12 + a + 4) =~= be32_bytes(
                    vstd::utf8::encode_utf8(adif).len() as int,
                ));
            }
        }
    } else if kept >= 4 {
        assert(buf.subrange(0, 4) =~= be32_bytes(MAGIC as int));
    }
}

} // verus!
