//! What becomes of a contact that WSJT-X logs, from the datagram to the queue.
use crate::addr::SocketAddr;
use crate::qso_queue::EntryView;
use crate::text;
use crate::text_laws;
use crate::wavelog::client::WavelogErrorView;
use crate::wsjtx::adif;
use crate::wsjtx::listener;
use crate::wsjtx::listener::{ListenActionView, QueueItemView};
use crate::wsjtx::protocol;
use crate::wsjtx::worker;
use crate::wsjtx::worker::PostOutcome;
use vstd::prelude::*;

verus! {

/// Four bytes are read with the most significant one first.
pub proof fn numbers_are_big_endian(a: u8, b: u8, c: u8, d: u8)
    ensures
        protocol::be32_value(seq![a, b, c, d]) == ((a * 256 + b) * 256 + c) * 256 + d,
{
}

/// The bytes of a logged contact: the magic number, any schema, type 12, then two
/// texts with their lengths in front, and whatever follows.
pub open spec fn contact_bytes(
    schema: Seq<u8>,
    id_len: Seq<u8>,
    id: Seq<char>,
    adif_len: Seq<u8>,
    adif: Seq<char>,
    trailing: Seq<u8>,
) -> Seq<u8> {
    seq![0xad, 0xbc, 0xcb, 0xda] + schema + seq![0, 0, 0, 12] + id_len + vstd::utf8::encode_utf8(id)
        + adif_len + vstd::utf8::encode_utf8(adif) + trailing
}

/// The number that four bytes denote, most significant first.
pub open spec fn number_of(b: Seq<u8>) -> int {
    ((b[0] * 256 + b[1]) * 256 + b[2]) * 256 + b[3]
}

/// A logged contact is taken out of its datagram as it was sent: all of its ADIF, and
/// nothing else. It is persisted before anything else happens to it, or offered to
/// the worker at once where nothing is persisted.
pub proof fn logged_contacts_are_taken(
    schema: Seq<u8>,
    id_len: Seq<u8>,
    id: Seq<char>,
    adif_len: Seq<u8>,
    adif: Seq<char>,
    trailing: Seq<u8>,
)
    requires
        schema.len() == 4 && id_len.len() == 4 && adif_len.len() == 4,
        number_of(id_len) == vstd::utf8::encode_utf8(id).len() < 0x8000_0000,
        number_of(adif_len) == vstd::utf8::encode_utf8(adif).len() < 0x8000_0000,
        contact_bytes(schema, id_len, id, adif_len, adif, trailing).len() <= usize::MAX,
    ensures
        ({
            let bytes = contact_bytes(schema, id_len, id, adif_len, adif, trailing);
            &&& protocol::logged_adif(bytes) == Ok::<Option<Seq<char>>, Seq<char>>(Some(adif))
            &&& listener::datagram_action(bytes, true) == ListenActionView::Persist(adif)
            &&& listener::datagram_action(bytes, false) == ListenActionView::Offer(
                QueueItemView { seq: None, adif },
            )
        }),
{
    let bytes = contact_bytes(schema, id_len, id, adif_len, adif, trailing);
    let (x, y) = (vstd::utf8::encode_utf8(id), vstd::utf8::encode_utf8(adif));
    assert(bytes.subrange(0, 4) =~= seq![0xad, 0xbc, 0xcb, 0xda]);
    assert(bytes.subrange(4, 8) =~= schema);
    assert(bytes.subrange(8, 12) =~= seq![0, 0, 0, 12]);
    assert(bytes.subrange(12, 16) =~= id_len);
    assert(bytes.subrange(16, 16 + x.len() as int) =~= x);
    let p = 16 + x.len() as int;
    assert(bytes.subrange(p, p + 4) =~= adif_len);
    assert(bytes.subrange(p + 4, p + 4 + y.len()) =~= y);
    numbers_are_big_endian(0xad, 0xbc, 0xcb, 0xda);
    numbers_are_big_endian(0, 0, 0, 12);
    vstd::utf8::encode_utf8_valid_utf8(id);
    vstd::utf8::encode_utf8_valid_utf8(adif);
    vstd::utf8::encode_utf8_decode_utf8(id);
    vstd::utf8::encode_utf8_decode_utf8(adif);
}

/// A datagram of any other message, or of another program, or of bytes that are no
/// text, logs nothing: the listener goes on receiving.
pub proof fn other_datagrams_log_nothing(bytes: Seq<u8>, persistent: bool)
    requires
        bytes.len() < 12 || bytes.take(4) != seq![0xadu8, 0xbc, 0xcb, 0xda] || bytes.subrange(8, 12)
            != seq![0u8, 0, 0, 12],
    ensures
        listener::datagram_action(bytes, persistent) == ListenActionView::Receive,
        bytes.len() >= 12 && bytes.take(4) == seq![0xadu8, 0xbc, 0xcb, 0xda]
            ==> protocol::logged_adif(bytes) == Ok::<Option<Seq<char>>, Seq<char>>(None),
        bytes.len() < 12 || bytes.take(4) != seq![0xadu8, 0xbc, 0xcb, 0xda]
            ==> protocol::logged_adif(bytes) is Err,
{
    if bytes.len() >= 4 {
        let m = bytes.subrange(0, 4);
        assert(m =~= bytes.take(4));
        if protocol::be32_value(m) == 0xadbc_cbda {
            lemma_four_bytes(m, 0xad, 0xbc, 0xcb, 0xda);
        }
        if bytes.len() >= 12 {
            let t = bytes.subrange(8, 12);
            if protocol::be32_value(t) == 12 {
                lemma_four_bytes(t, 0, 0, 0, 12);
            }
            assert(bytes.take(4) == seq![0xadu8, 0xbc, 0xcb, 0xda] ==> protocol::be32_value(m)
                == 0xadbc_cbda);
        }
    }
}

proof fn lemma_four_bytes(m: Seq<u8>, a: u8, b: u8, c: u8, d: u8)
    requires
        m.len() == 4,
        protocol::be32_value(m) == ((a * 256 + b) * 256 + c) * 256 + d,
    ensures
        m == seq![a, b, c, d],
{
    assert(m[0] == a && m[1] == b && m[2] == c && m[3] == d);
    assert(m =~= seq![a, b, c, d]);
}

/// A contact that Wavelog took, or refused for good, leaves the queue; after any
/// other failure it stays. Every other contact stays in any case.
pub proof fn only_settled_contacts_leave_the_queue(
    entries: Seq<EntryView>,
    seq: u64,
    adif: Seq<char>,
    reason: Seq<char>,
    e: WavelogErrorView,
    i: int,
)
    requires
        0 <= i < entries.len(),
    ensures
        worker::post_outcome(Ok(())) == PostOutcome::Completed,
        worker::post_outcome(Err(WavelogErrorView::Rejected { reason })) == PostOutcome::Rejected,
        !(e is Rejected) ==> worker::post_outcome(Err(e)) == PostOutcome::Retained,
        ({
            let item = QueueItemView { seq: Some(seq), adif };
            let taken = worker::queue_after_post(entries, Ok(()), item);
            let refused = worker::queue_after_post(
                entries,
                Err(WavelogErrorView::Rejected { reason }),
                item,
            );
            &&& taken == refused
            &&& forall|k: int| 0 <= k < taken.len() ==> (#[trigger] taken[k]).seq != seq
            &&& entries[i].seq != seq ==> taken.contains(entries[i])
            &&& !(e is Rejected) ==> worker::queue_after_post(entries, Err(e), item) == entries
        }),
        ({
            let unpersisted = QueueItemView { seq: None, adif };
            worker::queue_after_post(entries, Ok(()), unpersisted) == entries
        }),
{
    let item = QueueItemView { seq: Some(seq), adif };
    worker::post_settles_its_entry_only(entries, Ok(()), item);
    let taken = worker::queue_after_post(entries, Ok(()), item);
    assert forall|k: int| 0 <= k < taken.len() implies (#[trigger] taken[k]).seq != seq by {
        assert(Some(taken[k].seq) != item.seq);
    }
    if entries[i].seq != seq {
        assert(Some(entries[i].seq) != item.seq);
    }
}

/// The entries of the last run are handed over one by one, each with its number and
/// its ADIF as they were; only then are datagrams received.
pub proof fn replay_is_handed_over(replay: Seq<(u64, Seq<char>)>)
    ensures
        replay.len() > 0 ==> listener::idle_action(replay) == ListenActionView::Hand(
            QueueItemView { seq: Some(replay[0].0), adif: replay[0].1 },
        ) && listener::behind_first(replay) == replay.skip(1),
        replay.len() == 0 ==> listener::idle_action(replay) == ListenActionView::Receive,
{
}

/// Two bytes are the same letter in either case, or the same byte.
pub open spec fn same_letter(a: u8, b: u8) -> bool {
    ||| a == b
    ||| 0x41 <= a <= 0x5a && b == a + 0x20
    ||| 0x41 <= b <= 0x5a && a == b + 0x20
}

/// Tags are the same where they are letter by letter, in either case.
pub proof fn tags_ignore_case_only(a: Seq<u8>, b: Seq<u8>)
    ensures
        adif::same_tag(a, b) <==> a.len() == b.len() && forall|i: int|
            0 <= i < a.len() ==> same_letter(#[trigger] a[i], b[i]),
{
    if adif::same_tag(a, b) {
        assert forall|i: int| 0 <= i < a.len() implies same_letter(#[trigger] a[i], b[i]) by {
            assert(adif::ascii_lower(a[i]) == adif::ascii_lower(b[i]));
        }
    }
    if a.len() == b.len() && forall|i: int| 0 <= i < a.len() ==> same_letter(#[trigger] a[i], b[i]) {
        assert forall|i: int| 0 <= i < a.len() implies adif::ascii_lower(#[trigger] a[i])
            == adif::ascii_lower(b[i]) by {
            assert(same_letter(a[i], b[i]));
        }
    }
}

/// The text of one field.
pub open spec fn field_text(tag: Seq<char>, value: Seq<char>) -> Seq<char> {
    seq!['<'] + tag + seq![':'] + text::decimal(vstd::utf8::encode_utf8(value).len()) + seq!['>']
        + value
}

proof fn lemma_ascii(c: char)
    requires
        (c as u32) < 0x80,
    ensures
        vstd::utf8::encode_utf8(seq![c]) == seq![c as u8],
{
    let s = seq![c];
    assert(vstd::utf8::is_ascii_chars(s)) by {
        assert(s[0] == c);
    }
    vstd::utf8::is_ascii_chars_encode_utf8(s);
    let b = vstd::utf8::encode_utf8(s);
    assert(b[0] == s[0] as u8);
    assert(b =~= seq![c as u8]);
}

proof fn lemma_digits_utf8(n: nat)
    ensures
        adif::as_chars(vstd::utf8::encode_utf8(text::decimal(n))) == text::decimal(n),
{
    let d = text::decimal(n);
    text::decimal_round_trip(n);
    assert(vstd::utf8::is_ascii_chars(d)) by {
        assert forall|i: int| 0 <= i < d.len() implies '\0' <= #[trigger] d[i] <= '\u{7f}' by {
            assert(text::is_digit(d[i]));
        }
    }
    vstd::utf8::is_ascii_chars_encode_utf8(d);
    let b = vstd::utf8::encode_utf8(d);
    assert forall|i: int| 0 <= i < b.len() implies #[trigger] adif::as_chars(b)[i] == d[i] by {
        assert(text::is_digit(d[i]));
        assert(d[i] as u8 == b[i]);
    }
    assert(adif::as_chars(b) =~= d);
}

proof fn lemma_field_utf8(tag: Seq<char>, value: Seq<char>, rest: Seq<char>)
    ensures
        vstd::utf8::encode_utf8(field_text(tag, value) + rest) == adif::field_bytes(
            vstd::utf8::encode_utf8(tag),
            vstd::utf8::encode_utf8(text::decimal(vstd::utf8::encode_utf8(value).len())),
            vstd::utf8::encode_utf8(value),
        ) + vstd::utf8::encode_utf8(rest),
{
    let digits = text::decimal(vstd::utf8::encode_utf8(value).len());
    lemma_ascii('<');
    lemma_ascii(':');
    lemma_ascii('>');
    text_laws::utf8_of_parts(seq!['<'], tag);
    text_laws::utf8_of_parts(seq!['<'] + tag, seq![':']);
    text_laws::utf8_of_parts(seq!['<'] + tag + seq![':'], digits);
    text_laws::utf8_of_parts(seq!['<'] + tag + seq![':'] + digits, seq!['>']);
    text_laws::utf8_of_parts(seq!['<'] + tag + seq![':'] + digits + seq!['>'], value);
    text_laws::utf8_of_parts(field_text(tag, value), rest);
}

/// A tag holds neither the bracket that ends a header nor the colon that ends a tag.
pub open spec fn is_tag(tag: Seq<char>) -> bool {
    forall|i: int|
        0 <= i < vstd::utf8::encode_utf8(tag).len() ==> (#[trigger] vstd::utf8::encode_utf8(tag)[i])
            != adif::COLON && vstd::utf8::encode_utf8(tag)[i] != adif::CLOSE
}

/// The value of a record's first field is found by its tag, whatever follows.
pub proof fn leading_field_is_read(
    tag: Seq<char>,
    value: Seq<char>,
    rest: Seq<char>,
    name: Seq<char>,
)
    requires
        is_tag(tag),
        adif::same_tag(vstd::utf8::encode_utf8(tag), vstd::utf8::encode_utf8(name)),
        vstd::utf8::encode_utf8(value).len() <= usize::MAX,
    ensures
        adif::readable_value(field_text(tag, value) + rest, name) == Some(value),
{
    let all = field_text(tag, value) + rest;
    let b = vstd::utf8::encode_utf8(all);
    let t = vstd::utf8::encode_utf8(tag);
    let v = vstd::utf8::encode_utf8(value);
    let digits = vstd::utf8::encode_utf8(text::decimal(v.len()));
    let n = vstd::utf8::encode_utf8(name);
    lemma_field_utf8(tag, value, rest);
    lemma_digits_utf8(v.len());
    assert forall|i: int| 0 <= i < t.len() implies t[i] != adif::COLON && t[i] != adif::CLOSE by {
        assert(vstd::utf8::encode_utf8(tag)[i] == t[i]);
    }
    adif::leading_field_is_found(t, digits, v, vstd::utf8::encode_utf8(rest), n);
    adif::leading_field_is_aligned(t, digits, v, vstd::utf8::encode_utf8(rest), n);
    let start = t.len() as int + digits.len() as int + 3;
    assert(b.subrange(start, start + v.len()) == v);
    vstd::utf8::encode_utf8_decode_utf8(value);
    text_laws::parts_end_at_boundaries(field_text(tag, value), rest);
    lemma_field_utf8(tag, value, Seq::empty());
    assert(field_text(tag, value) + Seq::<char>::empty() == field_text(tag, value));
    assert(vstd::utf8::encode_utf8(Seq::<char>::empty()).len() == 0);
    assert(vstd::utf8::encode_utf8(field_text(tag, value)).len() == start + v.len());
}

/// An IPv4 address is one of a group where its first octet lies from 224 to 239, an
/// IPv6 address where its first byte is 255.
pub proof fn groups_are_known_by_their_first_byte(ip: u32, ip6: u128, scope_id: u32, port: u16)
    ensures
        (SocketAddr::V4 { ip, port }).spec_is_multicast() <==> 224 <= ip / 0x100_0000 <= 239,
        (SocketAddr::V6 { ip6, scope_id, port }).spec_is_multicast() <==> ip6
            / 0x100_0000_0000_0000_0000_0000_0000_0000 == 255,
{
}

/// A text whose length has its highest bit set is the null text of Qt, and is empty: a
/// contact is taken with a null id, and a contact may be null itself.
pub proof fn null_texts_are_empty(
    schema: Seq<u8>,
    null_len: Seq<u8>,
    adif_len: Seq<u8>,
    adif: Seq<char>,
    trailing: Seq<u8>,
)
    requires
        schema.len() == 4 && null_len.len() == 4 && adif_len.len() == 4,
        number_of(null_len) >= 0x8000_0000,
        number_of(adif_len) == vstd::utf8::encode_utf8(adif).len() < 0x8000_0000,
        contact_bytes(schema, null_len, Seq::empty(), adif_len, adif, trailing).len() <= usize::MAX,
        contact_bytes(schema, null_len, Seq::empty(), null_len, Seq::empty(), trailing).len()
            <= usize::MAX,
    ensures
        protocol::logged_adif(
            contact_bytes(schema, null_len, Seq::empty(), adif_len, adif, trailing),
        ) == Ok::<Option<Seq<char>>, Seq<char>>(Some(adif)),
        protocol::logged_adif(
            contact_bytes(schema, null_len, Seq::empty(), null_len, Seq::empty(), trailing),
        ) == Ok::<Option<Seq<char>>, Seq<char>>(Some(Seq::empty())),
{
    let a = contact_bytes(schema, null_len, Seq::empty(), adif_len, adif, trailing);
    let b = contact_bytes(schema, null_len, Seq::empty(), null_len, Seq::empty(), trailing);
    let y = vstd::utf8::encode_utf8(adif);
    assert(vstd::utf8::encode_utf8(Seq::<char>::empty()).len() == 0);
    numbers_are_big_endian(0xad, 0xbc, 0xcb, 0xda);
    numbers_are_big_endian(0, 0, 0, 12);
    assert(a.subrange(0, 4) =~= seq![0xad, 0xbc, 0xcb, 0xda]);
    assert(a.subrange(8, 12) =~= seq![0, 0, 0, 12]);
    assert(a.subrange(12, 16) =~= null_len);
    assert(a.subrange(16, 20) =~= adif_len);
    assert(a.subrange(20, 20 + y.len() as int) =~= y);
    assert(b.subrange(0, 4) =~= seq![0xad, 0xbc, 0xcb, 0xda]);
    assert(b.subrange(8, 12) =~= seq![0, 0, 0, 12]);
    assert(b.subrange(12, 16) =~= null_len);
    assert(b.subrange(16, 20) =~= null_len);
    vstd::utf8::encode_utf8_valid_utf8(adif);
    vstd::utf8::encode_utf8_decode_utf8(adif);
}

/// A contact of bytes that are no text is refused, and logs nothing.
pub proof fn contacts_are_text(
    schema: Seq<u8>,
    id_len: Seq<u8>,
    id: Seq<char>,
    adif_len: Seq<u8>,
    adif: Seq<u8>,
    trailing: Seq<u8>,
    persistent: bool,
)
    requires
        schema.len() == 4 && id_len.len() == 4 && adif_len.len() == 4,
        number_of(id_len) == vstd::utf8::encode_utf8(id).len() < 0x8000_0000,
        number_of(adif_len) == adif.len() < 0x8000_0000,
        !vstd::utf8::valid_utf8(adif),
        contact_bytes(schema, id_len, id, adif_len, Seq::empty(), adif + trailing).len()
            <= usize::MAX,
    ensures
        ({
            let bytes = contact_bytes(schema, id_len, id, adif_len, Seq::empty(), adif + trailing);
            &&& protocol::logged_adif(bytes) is Err
            &&& listener::datagram_action(bytes, persistent) == ListenActionView::Receive
        }),
{
    let bytes = contact_bytes(schema, id_len, id, adif_len, Seq::empty(), adif + trailing);
    let x = vstd::utf8::encode_utf8(id);
    assert(vstd::utf8::encode_utf8(Seq::<char>::empty()).len() == 0);
    assert(bytes.subrange(0, 4) =~= seq![0xad, 0xbc, 0xcb, 0xda]);
    assert(bytes.subrange(8, 12) =~= seq![0, 0, 0, 12]);
    assert(bytes.subrange(12, 16) =~= id_len);
    assert(bytes.subrange(16, 16 + x.len() as int) =~= x);
    let p = 16 + x.len() as int;
    assert(bytes.subrange(p, p + 4) =~= adif_len);
    assert(bytes.subrange(p + 4, p + 4 + adif.len()) =~= adif);
    numbers_are_big_endian(0xad, 0xbc, 0xcb, 0xda);
    numbers_are_big_endian(0, 0, 0, 12);
    vstd::utf8::encode_utf8_valid_utf8(id);
}

/// A datagram that ends too soon is refused with what was needed, where, and what was
/// there.
pub proof fn truncation_is_told(bytes: Seq<u8>, pos: int, needed: int, had: int)
    requires
        0 <= pos <= bytes.len(),
        bytes.len() == pos + had,
        needed > had,
        pos + needed <= usize::MAX,
    ensures
        protocol::bytes_at(bytes, pos, needed) == Err::<Seq<u8>, Seq<char>>(
            "truncated: need "@ + text::decimal(needed as nat) + " bytes at offset "@
                + text::decimal(pos as nat) + ", have "@ + text::decimal(had as nat),
        ),
{
}

/// Whatever is taken out of a datagram was sent as a logged contact: the magic number and
/// the message type stand in front of it, an id that is text or null, and then its length
/// and all of its bytes.
pub proof fn only_contacts_are_taken(bytes: Seq<u8>, adif: Seq<char>)
    requires
        protocol::logged_adif(bytes) == Ok::<Option<Seq<char>>, Seq<char>>(Some(adif)),
    ensures
        ({
            let id_len = number_of(bytes.subrange(12, 16));
            let p = if id_len >= 0x8000_0000 {
                16
            } else {
                16 + id_len
            };
            let adif_len = number_of(bytes.subrange(p, p + 4));
            &&& bytes.take(4) == seq![0xadu8, 0xbc, 0xcb, 0xda]
            &&& bytes.subrange(8, 12) == seq![0u8, 0, 0, 12]
            &&& 16 <= p <= bytes.len() - 4
            &&& vstd::utf8::valid_utf8(bytes.subrange(16, p))
            &&& adif_len >= 0x8000_0000 ==> adif.len() == 0
            &&& adif_len < 0x8000_0000 ==> p + 4 + adif_len <= bytes.len()
                && vstd::utf8::encode_utf8(adif) == bytes.subrange(p + 4, p + 4 + adif_len)
        }),
{
    let m = bytes.subrange(0, 4);
    assert(m =~= bytes.take(4));
    lemma_four_bytes(m, 0xad, 0xbc, 0xcb, 0xda);
    lemma_four_bytes(bytes.subrange(8, 12), 0, 0, 0, 12);
    let l = bytes.subrange(12, 16);
    numbers_are_big_endian(l[0], l[1], l[2], l[3]);
    assert(l =~= seq![l[0], l[1], l[2], l[3]]);
    let id_len = number_of(l);
    let p = if id_len >= 0x8000_0000 {
        16
    } else {
        16 + id_len
    };
    let k = bytes.subrange(p, p + 4);
    numbers_are_big_endian(k[0], k[1], k[2], k[3]);
    assert(k =~= seq![k[0], k[1], k[2], k[3]]);
    let adif_len = number_of(k);
    if id_len >= 0x8000_0000 {
        assert(bytes.subrange(16, p) =~= vstd::utf8::encode_utf8(Seq::<char>::empty()));
        vstd::utf8::encode_utf8_valid_utf8(Seq::<char>::empty());
    }
    if adif_len < 0x8000_0000 {
        vstd::utf8::decode_utf8_encode_utf8(bytes.subrange(p + 4, p + 4 + adif_len));
    }
}

} // verus!
