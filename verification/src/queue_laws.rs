//! What the spool on disk restores, whatever was done to the queue.
//!
//! The line format is a parameter throughout: `encode` writes an entry as a line
//! and `decode` reads a line.
use crate::opening;
use crate::opening::{OpenActionView, OpenEvent, OpenedView, SpoolView, StageView};
use crate::qso_queue;
use crate::qso_queue::{Decoded, EntryView, LockAttemptView, QsoQueueErrorView, Spool};
use crate::text;
use crate::text_laws;
use vstd::prelude::*;

verus! {

/// The text is empty or its last line is ended.
pub open spec fn ends_line(contents: Seq<char>) -> bool {
    contents.len() == 0 || contents.last() == '\n'
}

/// The lines behind ended lines are split on their own.
proof fn lemma_lines_behind(contents: Seq<char>, rest: Seq<char>)
    requires
        ends_line(contents),
    ensures
        text::lines(contents + rest) == text::lines(contents) + text::lines(rest),
    decreases contents.len(),
{
    let all = contents + rest;
    if contents.len() == 0 {
        assert(all == rest);
    } else {
        let end = text::first_index(contents, '\n', 0);
        text::first_index_is_first(contents, '\n', 0);
        assert(contents[contents.len() - 1] == '\n');
        assert(end < contents.len());
        text::first_index_unique(all, '\n', 0, end);
        let tail = contents.skip(end + 1);
        assert(ends_line(tail)) by {
            if tail.len() > 0 {
                assert(tail.last() == contents.last());
            }
        }
        lemma_lines_behind(tail, rest);
        assert(all.take(end) == contents.take(end));
        assert(all.skip(end + 1) == tail + rest);
        assert(text::lines(all) == text::lines(contents) + text::lines(rest));
    }
}

/// Every entry is written as one spool line that reads back as the entry.
pub open spec fn is_codec(
    encode: spec_fn(EntryView) -> Seq<char>,
    decode: spec_fn(Seq<char>) -> Option<EntryView>,
) -> bool {
    forall|e: EntryView|
        {
            &&& qso_queue::is_spool_line(#[trigger] encode(e))
            &&& decode(encode(e)) == Some(e)
        }
}

/// The text restores these entries, and a line can be added to it.
pub open spec fn restores(
    contents: Seq<char>,
    entries: Seq<EntryView>,
    decode: spec_fn(Seq<char>) -> Option<EntryView>,
) -> bool {
    let lines = qso_queue::read_as(contents, decode);
    &&& ends_line(contents)
    &&& qso_queue::intact(lines)
    &&& !qso_queue::last_malformed(lines)
    &&& qso_queue::entries_in(lines) == entries
}

/// What is read of a text with more lines behind it.
proof fn lemma_read_behind(
    contents: Seq<char>,
    rest: Seq<char>,
    decode: spec_fn(Seq<char>) -> Option<EntryView>,
)
    requires
        ends_line(contents),
    ensures
        qso_queue::read_as(contents + rest, decode) == qso_queue::read_as(contents, decode)
            + qso_queue::read_as(rest, decode),
{
    lemma_lines_behind(contents, rest);
    Seq::filter_distributes_over_add(
        text::lines(contents),
        text::lines(rest),
        text::is_not_blank(),
    );
    assert(qso_queue::read_as(contents + rest, decode) =~= qso_queue::read_as(contents, decode)
        + qso_queue::read_as(rest, decode));
}

/// Lines that restore entries are all entries, the same ones.
proof fn lemma_all_entries(
    contents: Seq<char>,
    entries: Seq<EntryView>,
    decode: spec_fn(Seq<char>) -> Option<EntryView>,
)
    requires
        restores(contents, entries, decode),
    ensures
        qso_queue::read_as(contents, decode) == entries.map_values(|e: EntryView| Some(e)),
{
    let lines = qso_queue::read_as(contents, decode);
    assert forall|i: int| 0 <= i < lines.len() implies #[trigger] lines[i] == Some(entries[i]) by {
        if i == lines.len() - 1 {
            assert(lines.last() is Some);
        }
        assert(lines[i] is Some);
        assert(entries[i] == lines[i]->Some_0);
    }
    assert(lines =~= entries.map_values(|e: EntryView| Some(e)));
}

/// Lines that are all entries restore them.
proof fn lemma_restores(
    contents: Seq<char>,
    entries: Seq<EntryView>,
    decode: spec_fn(Seq<char>) -> Option<EntryView>,
)
    requires
        ends_line(contents),
        qso_queue::read_as(contents, decode) == entries.map_values(|e: EntryView| Some(e)),
    ensures
        restores(contents, entries, decode),
{
    let lines = qso_queue::read_as(contents, decode);
    assert(qso_queue::intact(lines));
    assert(qso_queue::entries_in(lines) =~= entries);
}

/// A spool that is written anew restores the entries it was written from.
pub proof fn rewritten_spool_restores(
    entries: Seq<EntryView>,
    encode: spec_fn(EntryView) -> Seq<char>,
    decode: spec_fn(Seq<char>) -> Option<EntryView>,
)
    requires
        is_codec(encode, decode),
    ensures
        restores(
            qso_queue::spool_text(qso_queue::encoded(entries, encode)),
            entries,
            decode,
        ),
{
    qso_queue::persisted_entries_are_restored(entries, encode, decode);
    lemma_spool_ends_line(qso_queue::encoded(entries, encode));
}

proof fn lemma_spool_ends_line(lines: Seq<Seq<char>>)
    ensures
        ends_line(qso_queue::spool_text(lines)),
    decreases lines.len(),
{
    if lines.len() > 0 {
        let rest = qso_queue::spool_text(lines.skip(1));
        lemma_spool_ends_line(lines.skip(1));
        let all = lines[0] + seq!['\n'] + rest;
        if rest.len() == 0 {
            assert(all.last() == '\n');
        } else {
            assert(all.last() == rest.last());
        }
    }
}

/// The line that an append adds restores the new entry behind the old ones.
pub proof fn appended_entry_is_restored(
    contents: Seq<char>,
    entries: Seq<EntryView>,
    e: EntryView,
    encode: spec_fn(EntryView) -> Seq<char>,
    decode: spec_fn(Seq<char>) -> Option<EntryView>,
)
    requires
        is_codec(encode, decode),
        restores(contents, entries, decode),
    ensures
        restores(contents + encode(e) + seq!['\n'], entries.push(e), decode),
{
    let line = encode(e);
    let added = line + seq!['\n'];
    let all = contents + line + seq!['\n'];
    lemma_all_entries(contents, entries, decode);
    lemma_read_behind(contents, added, decode);
    assert(contents + added == all);
    let one = seq![e];
    assert(qso_queue::encoded(one, encode) =~= seq![line]);
    assert(seq![line].skip(1) =~= Seq::<Seq<char>>::empty());
    assert(qso_queue::spool_text(seq![line]) =~= added) by {
        assert(qso_queue::spool_text(Seq::<Seq<char>>::empty()) == Seq::<char>::empty());
    }
    rewritten_spool_restores(one, encode, decode);
    lemma_all_entries(added, one, decode);
    let all_lines = qso_queue::read_as(all, decode);
    assert(all_lines =~= entries.push(e).map_values(|e: EntryView| Some(e)));
    assert(all.last() == '\n');
    lemma_restores(all, entries.push(e), decode);
}

/// An append that a crash cut short costs that entry alone: the part of a line
/// that reached the disk is dropped, and all earlier entries are restored.
pub proof fn cut_append_loses_only_itself(
    contents: Seq<char>,
    entries: Seq<EntryView>,
    decode: spec_fn(Seq<char>) -> Option<EntryView>,
    cut: Seq<char>,
)
    requires
        restores(contents, entries, decode),
        forall|i: int| 0 <= i < cut.len() ==> cut[i] != '\n',
        decode(cut) is None,
    ensures
        ({
            let lines = qso_queue::read_as(contents + cut, decode);
            &&& qso_queue::intact(lines)
            &&& qso_queue::last_malformed(lines) == text::is_not_blank()(cut)
            &&& qso_queue::entries_in(lines) == entries
        }),
{
    lemma_all_entries(contents, entries, decode);
    lemma_read_behind(contents, cut, decode);
    reveal_with_fuel(Seq::filter, 2);
    let tail = text::non_blank_lines(cut);
    if cut.len() > 0 {
        text::first_index_unique(cut, '\n', 0, cut.len() as int);
        assert(text::lines(cut) == seq![cut]);
        assert(seq![cut].drop_last() == Seq::<Seq<char>>::empty());
    }
    let before = qso_queue::read_as(contents, decode);
    let lines = qso_queue::read_as(contents + cut, decode);
    if text::is_not_blank()(cut) {
        assert(tail == seq![cut]);
        assert(qso_queue::read_as(cut, decode) =~= seq![None::<EntryView>]);
        assert(lines.drop_last() =~= before);
        assert(qso_queue::entries_in(lines) =~= entries);
    } else {
        assert(tail == Seq::<Seq<char>>::empty());
        assert(qso_queue::read_as(cut, decode) =~= Seq::<Option<EntryView>>::empty());
        assert(lines =~= before);
    }
}

/// The queue in memory beside its spool on disk.
#[verifier::ext_equal]
pub struct QueueState {
    pub contents: Seq<char>,
    pub entries: Seq<EntryView>,
    pub next_seq: int,
}

/// What is done to an open queue.
pub enum QueueOp {
    /// Append an ADIF, received at this time.
    Append(Seq<char>, u64),
    /// Remove a sequence number.
    Remove(u64),
}

/// The queue and the spool after an operation: an append that pushes nothing out
/// adds a line, any other change writes the spool anew.
pub open spec fn operated(
    state: QueueState,
    op: QueueOp,
    encode: spec_fn(EntryView) -> Seq<char>,
) -> QueueState {
    match op {
        QueueOp::Append(adif, received_at) => {
            let e = EntryView { seq: state.next_seq as u64, adif, received_at };
            let entries = qso_queue::appended(state.entries, e);
            QueueState {
                contents: if entries.len() == state.entries.len() + 1 {
                    state.contents + encode(e) + seq!['\n']
                } else {
                    qso_queue::spool_text(qso_queue::encoded(entries, encode))
                },
                entries,
                next_seq: state.next_seq + 1,
            }
        },
        QueueOp::Remove(seq) => {
            let entries = qso_queue::removed(state.entries, seq);
            if exists|i: int|
                0 <= i < state.entries.len() && (#[trigger] state.entries[i]).seq == seq {
                QueueState {
                    contents: qso_queue::spool_text(qso_queue::encoded(entries, encode)),
                    entries,
                    next_seq: state.next_seq,
                }
            } else {
                QueueState { contents: state.contents, entries, next_seq: state.next_seq }
            }
        },
    }
}

/// The queue and the spool after operations, one after the other.
pub open spec fn after_all(
    state: QueueState,
    ops: Seq<QueueOp>,
    encode: spec_fn(EntryView) -> Seq<char>,
) -> QueueState
    decreases ops.len(),
{
    if ops.len() == 0 {
        state
    } else {
        operated(after_all(state, ops.drop_last(), encode), ops.last(), encode)
    }
}

/// The queue as opened on a text, beside what opening leaves of that text: a
/// corrupt spool is moved away, one with a malformed last line is written anew.
pub open spec fn opened_on(
    contents: Seq<char>,
    encode: spec_fn(EntryView) -> Seq<char>,
    decode: spec_fn(Seq<char>) -> Option<EntryView>,
) -> QueueState {
    let lines = qso_queue::read_as(contents, decode);
    let entries = if qso_queue::intact(lines) {
        qso_queue::entries_in(lines)
    } else {
        Seq::empty()
    };
    QueueState {
        contents: if !qso_queue::intact(lines) {
            Seq::empty()
        } else if qso_queue::last_malformed(lines) {
            qso_queue::spool_text(qso_queue::encoded(entries, encode))
        } else {
            contents
        },
        entries,
        next_seq: qso_queue::seq_after(entries),
    }
}

/// All sequence numbers in the queue lie below the next one.
pub open spec fn seqs_below(state: QueueState) -> bool {
    forall|i: int|
        0 <= i < state.entries.len() ==> (#[trigger] state.entries[i]).seq < state.next_seq
}

proof fn lemma_operated_restores(
    state: QueueState,
    op: QueueOp,
    encode: spec_fn(EntryView) -> Seq<char>,
    decode: spec_fn(Seq<char>) -> Option<EntryView>,
)
    requires
        is_codec(encode, decode),
        restores(state.contents, state.entries, decode),
        seqs_below(state),
        0 <= state.next_seq <= u64::MAX,
    ensures
        restores(
            operated(state, op, encode).contents,
            operated(state, op, encode).entries,
            decode,
        ),
        seqs_below(operated(state, op, encode)),
        state.next_seq <= operated(state, op, encode).next_seq <= state.next_seq + 1,
{
    let after = operated(state, op, encode);
    match op {
        QueueOp::Append(adif, received_at) => {
            let e = EntryView { seq: state.next_seq as u64, adif, received_at };
            let all = state.entries.push(e);
            qso_queue::append_keeps_the_newest(state.entries, e);
            if after.entries.len() == state.entries.len() + 1 {
                assert(after.entries == all);
                appended_entry_is_restored(state.contents, state.entries, e, encode, decode);
            } else {
                rewritten_spool_restores(after.entries, encode, decode);
            }
            let skipped = all.len() - after.entries.len();
            assert(after.entries == all.skip(skipped));
            assert forall|i: int| 0 <= i < after.entries.len() implies (
            #[trigger] after.entries[i]).seq < after.next_seq by {
                assert(after.entries[i] == all[i + skipped]);
                if i + skipped < state.entries.len() {
                    assert(all[i + skipped] == state.entries[i + skipped]);
                }
            }
        },
        QueueOp::Remove(seq) => {
            if exists|i: int|
                0 <= i < state.entries.len() && (#[trigger] state.entries[i]).seq == seq {
                rewritten_spool_restores(after.entries, encode, decode);
            } else {
                qso_queue::removing_unknown_is_noop(state.entries, seq);
            }
            assert forall|i: int| 0 <= i < after.entries.len() implies (
            #[trigger] after.entries[i]).seq < after.next_seq by {
                state.entries.lemma_filter_contains_rev(
                    qso_queue::other_than(seq),
                    after.entries[i],
                );
                let k = choose|k: int|
                    0 <= k < state.entries.len() && state.entries[k] == after.entries[i];
                assert(state.entries[k].seq < state.next_seq);
            }
        },
    }
}

/// After any number of appends and removes, opening the spool again restores
/// exactly the entries that the queue held, in order, with no repair, and the
/// next sequence number is larger than each of theirs. The exception is a spool
/// whose last line is an entry without a line feed: the next line would be glued
/// to it.
pub proof fn restart_restores_the_queue(
    path: Seq<u8>,
    now_millis: u64,
    contents: Seq<char>,
    ops: Seq<QueueOp>,
    encode: spec_fn(EntryView) -> Seq<char>,
    decode: spec_fn(Seq<char>) -> Option<EntryView>,
)
    requires
        is_codec(encode, decode),
        ends_line(opened_on(contents, encode, decode).contents),
        opened_on(contents, encode, decode).next_seq + ops.len() <= u64::MAX,
    ensures
        ({
            let state = after_all(opened_on(contents, encode, decode), ops, encode);
            let reopened = opened_on(state.contents, encode, decode);
            &&& seqs_below(state)
            &&& reopened.entries == state.entries
            &&& reopened.contents == state.contents
            &&& reopened.next_seq <= state.next_seq
            &&& seqs_below(reopened)
            &&& opening::stepped(
                path,
                StageView::Reading,
                OpenEvent::Read(
                    SpoolView::Lines(qso_queue::read_as(state.contents, decode)),
                    now_millis,
                ),
            ) == (StageView::Open(opening::queue_with(state.entries)), OpenActionView::Ready)
        }),
{
    lemma_after_all_restores(contents, ops, encode, decode);
    let state = after_all(opened_on(contents, encode, decode), ops, encode);
    qso_queue::max_seq_is_largest(state.entries);
}

proof fn lemma_after_all_restores(
    contents: Seq<char>,
    ops: Seq<QueueOp>,
    encode: spec_fn(EntryView) -> Seq<char>,
    decode: spec_fn(Seq<char>) -> Option<EntryView>,
)
    requires
        is_codec(encode, decode),
        ends_line(opened_on(contents, encode, decode).contents),
        opened_on(contents, encode, decode).next_seq + ops.len() <= u64::MAX,
    ensures
        ({
            let start = opened_on(contents, encode, decode);
            let state = after_all(start, ops, encode);
            &&& restores(state.contents, state.entries, decode)
            &&& seqs_below(state)
            &&& 0 < start.next_seq <= state.next_seq <= start.next_seq + ops.len()
        }),
    decreases ops.len(),
{
    let start = opened_on(contents, encode, decode);
    if ops.len() == 0 {
        qso_queue::max_seq_is_largest(start.entries);
        let lines = qso_queue::read_as(contents, decode);
        if !qso_queue::intact(lines) {
            reveal(Seq::filter);
            assert(qso_queue::read_as(Seq::empty(), decode) =~= Seq::<EntryView>::empty().map_values(
                |e: EntryView| Some(e),
            ));
            lemma_restores(Seq::empty(), Seq::empty(), decode);
        } else if qso_queue::last_malformed(lines) {
            rewritten_spool_restores(start.entries, encode, decode);
        }
    } else {
        lemma_after_all_restores(contents, ops.drop_last(), encode, decode);
        let before = after_all(start, ops.drop_last(), encode);
        lemma_operated_restores(before, ops.last(), encode, decode);
    }
}

/// The replay is all of the queue: as many pairs as entries, and at every place the
/// entry's sequence number and its ADIF, unchanged.
pub proof fn replay_is_all_of_the_queue(entries: Seq<EntryView>)
    ensures
        qso_queue::replay_of(entries).len() == entries.len(),
        forall|i: int|
            0 <= i < entries.len() ==> (#[trigger] qso_queue::replay_of(entries)[i]).0
                == entries[i].seq && qso_queue::replay_of(entries)[i].1 == entries[i].adif,
        opening::queue_with(entries).entries == entries,
        opening::queue_with(entries).replay == qso_queue::replay_of(entries),
        opening::queue_with(entries).next_seq == qso_queue::seq_after(entries),
{
}

/// What a pair of a replay says is all of it.
pub proof fn replayed_pairs_say_everything(pairs: Seq<(u64, String)>, i: int)
    requires
        0 <= i < pairs.len(),
    ensures
        qso_queue::pair_views(pairs).len() == pairs.len(),
        qso_queue::pair_views(pairs)[i].0 == pairs[i].0,
        qso_queue::pair_views(pairs)[i].1 == pairs[i].1@,
{
}

/// An intact spool gives the queue its entries, one for each line, in order; a
/// malformed last line costs itself alone, any other malformed line the whole spool.
pub proof fn spool_lines_become_entries(lines: Vec<Decoded>, i: int)
    ensures
        ({
            let entries = qso_queue::opened_entries(Spool::Lines(lines));
            let lines = lines@;
            let n = lines.len() as int;
            &&& (forall|j: int| 0 <= j < n ==> (#[trigger] lines[j]) is Entry) ==> {
                &&& entries.len() == n
                &&& 0 <= i < n ==> entries[i] == lines[i]->Entry_0@
            }
            &&& (n > 0 && lines[n - 1] is Malformed && forall|j: int|
                0 <= j < n - 1 ==> (#[trigger] lines[j]) is Entry) ==> {
                &&& entries.len() == n - 1
                &&& 0 <= i < n - 1 ==> entries[i] == lines[i]->Entry_0@
            }
            &&& (0 <= i < n - 1 && lines[i] is Malformed) ==> entries.len() == 0
        }),
{
    let lines = lines@;
    let views = qso_queue::decoded_views(lines);
    let n = lines.len() as int;
    assert forall|j: int| 0 <= j < n implies #[trigger] views[j] == (match lines[j] {
        Decoded::Entry(e) => Some(e@),
        Decoded::Malformed(_) => None,
    }) by {}
    if forall|j: int| 0 <= j < n ==> (#[trigger] lines[j]) is Entry {
        assert forall|j: int| 0 <= j < n implies (#[trigger] views[j]) is Some by {
            assert(lines[j] is Entry);
        }
        assert(qso_queue::intact(views));
    } else if n > 0 && lines[n - 1] is Malformed && forall|j: int|
        0 <= j < n - 1 ==> (#[trigger] lines[j]) is Entry {
        assert forall|j: int| 0 <= j < n - 1 implies (#[trigger] views[j]) is Some by {
            assert(lines[j] is Entry);
        }
        assert(qso_queue::intact(views));
        assert(views[n - 1] is None);
    }
    if 0 <= i < n - 1 && lines[i] is Malformed {
        assert(views[i] is None);
        assert(!qso_queue::intact(views));
    }
}

/// The next sequence number is larger than all that are in use, and the first one
/// is 1.
pub proof fn next_seq_is_not_in_use(entries: Seq<EntryView>)
    ensures
        forall|i: int| 0 <= i < entries.len() ==> (#[trigger] entries[i]).seq
            < qso_queue::seq_after(entries),
        entries.len() == 0 ==> qso_queue::seq_after(entries) == 1,
        qso_queue::seq_after(entries) == 1 || exists|i: int|
            0 <= i < entries.len() && (#[trigger] entries[i]).seq + 1 == qso_queue::seq_after(
                entries,
            ),
{
    qso_queue::max_seq_is_largest(entries);
    if qso_queue::max_seq(entries) != 0 {
        let i = choose|i: int|
            0 <= i < entries.len() && (#[trigger] entries[i]).seq == qso_queue::max_seq(entries);
        assert(entries[i].seq + 1 == qso_queue::seq_after(entries));
    }
}

/// A thousand contacts are kept; one more pushes out the oldest and leaves the rest
/// in their order.
pub proof fn a_thousand_contacts_are_kept(entries: Seq<EntryView>, e: EntryView)
    ensures
        entries.len() < 1000 ==> qso_queue::appended(entries, e) == entries.push(e),
        entries.len() >= 1000 ==> qso_queue::appended(entries, e).len() == 1000,
        entries.len() == 1000 ==> qso_queue::appended(entries, e) == entries.skip(1).push(e),
        qso_queue::appended(entries, e).last() == e,
{
    if entries.len() == 1000 {
        assert(entries.push(e).skip(1) =~= entries.skip(1).push(e));
    }
}

/// Removing a number is done entry by entry: each one that has it goes, each other
/// one stays where it is.
pub proof fn removing_goes_entry_by_entry(a: Seq<EntryView>, b: Seq<EntryView>, e: EntryView, seq: u64)
    ensures
        qso_queue::removed(a + b, seq) == qso_queue::removed(a, seq) + qso_queue::removed(b, seq),
        e.seq == seq ==> qso_queue::removed(seq![e], seq).len() == 0,
        e.seq != seq ==> qso_queue::removed(seq![e], seq) == seq![e],
        qso_queue::removed(Seq::empty(), seq).len() == 0,
{
    Seq::filter_distributes_over_add(a, b, qso_queue::other_than(seq));
    reveal_with_fuel(Seq::filter, 2);
    assert(seq![e].drop_last() == Seq::<EntryView>::empty());
    assert(seq![e].filter(qso_queue::other_than(seq)) =~= if e.seq == seq {
        Seq::<EntryView>::empty()
    } else {
        seq![e]
    });
}

/// A line in braces without a line feed is one that a spool can hold.
pub proof fn objects_are_spool_lines(inner: Seq<char>)
    requires
        forall|i: int| 0 <= i < inner.len() ==> inner[i] != '\n',
    ensures
        qso_queue::is_spool_line(seq!['{'] + inner + seq!['}']),
{
    let line = seq!['{'] + inner + seq!['}'];
    assert forall|i: int| 0 <= i < line.len() implies line[i] != '\n' by {
        if 0 < i < line.len() - 1 {
            assert(line[i] == inner[i - 1]);
        }
    }
    let none = Seq::<char>::empty();
    assert(none + line + none == line);
    text_laws::trimming_removes_white_space_only(none, line, none);
}

/// Corrupt spools that are set aside at different times get different names, which
/// begin with `corrupt-` and end with the time.
pub proof fn set_aside_names_tell_the_time(now: u64, later: u64)
    ensures
        qso_queue::corrupt_text(now).take(8) == seq!['c', 'o', 'r', 'r', 'u', 'p', 't', '-'],
        text::unsigned_value(qso_queue::corrupt_text(now).skip(8), u64::MAX as nat) == Some(
            now as nat,
        ),
        now != later ==> qso_queue::corrupt_text(now) != qso_queue::corrupt_text(later),
{
    reveal_strlit("corrupt-");
    let head = seq!['c', 'o', 'r', 'r', 'u', 'p', 't', '-'];
    assert("corrupt-"@ =~= head);
    assert(qso_queue::corrupt_text(now).take(8) =~= head);
    assert(qso_queue::corrupt_text(now).skip(8) =~= text::decimal(now as nat));
    assert(qso_queue::corrupt_text(later).skip(8) =~= text::decimal(later as nat));
    text_laws::decimal_is_read(now as nat, u64::MAX as nat);
    if now != later && qso_queue::corrupt_text(now) == qso_queue::corrupt_text(later) {
        text_laws::decimals_differ(now as nat, later as nat);
    }
}

/// The lock of a queue is its path with `.lock` behind it.
pub proof fn lock_stands_beside_its_queue(path: Seq<u8>)
    ensures
        qso_queue::lock_of(path).take(path.len() as int) == path,
        vstd::utf8::decode_utf8(qso_queue::lock_of(path).skip(path.len() as int)) == seq![
            '.',
            'l',
            'o',
            'c',
            'k',
        ],
{
    reveal_strlit(".lock");
    assert(".lock"@ =~= seq!['.', 'l', 'o', 'c', 'k']);
    let lock = qso_queue::lock_of(path);
    assert(lock.take(path.len() as int) =~= path);
    assert(lock.skip(path.len() as int) =~= vstd::utf8::encode_utf8(".lock"@));
    vstd::utf8::encode_utf8_decode_utf8(".lock"@);
}

/// How many contacts were appended by the first `n` operations.
pub open spec fn appends_among(ops: Seq<QueueOp>, n: int) -> int
    decreases n,
{
    if n <= 0 {
        0
    } else {
        appends_among(ops, n - 1) + (if ops[n - 1] is Append {
            1int
        } else {
            0
        })
    }
}

proof fn lemma_appends_of_prefix(ops: Seq<QueueOp>, m: int, n: int)
    requires
        0 <= n <= m <= ops.len(),
    ensures
        appends_among(ops.take(m), n) == appends_among(ops, n),
        0 <= appends_among(ops, n) <= n,
    decreases n,
{
    if n > 0 {
        lemma_appends_of_prefix(ops, m, n - 1);
    }
}

/// The sequence number that operation `i` gives, if it is an append.
pub open spec fn seq_given(start: QueueState, ops: Seq<QueueOp>, i: int) -> int {
    start.next_seq + appends_among(ops, i)
}

proof fn lemma_counts(start: QueueState, ops: Seq<QueueOp>, encode: spec_fn(EntryView) -> Seq<char>)
    ensures
        after_all(start, ops, encode).next_seq == seq_given(start, ops, ops.len() as int),
        after_all(start, ops, encode).entries.len() <= start.entries.len() + ops.len(),
    decreases ops.len(),
{
    if ops.len() > 0 {
        let before = ops.drop_last();
        lemma_counts(start, before, encode);
        lemma_appends_of_prefix(ops, ops.len() - 1, ops.len() - 1);
        assert(ops.take(ops.len() - 1) == before);
        let state = after_all(start, before, encode);
        if let QueueOp::Remove(seq) = ops.last() {
            lemma_removed_is_no_longer(state.entries, seq);
        }
    }
}

proof fn lemma_removed_is_no_longer(entries: Seq<EntryView>, seq: u64)
    ensures
        qso_queue::removed(entries, seq).len() <= entries.len(),
    decreases entries.len(),
{
    reveal(Seq::filter);
    if entries.len() > 0 {
        lemma_removed_is_no_longer(entries.drop_last(), seq);
    }
}

proof fn lemma_pending_stays(
    start: QueueState,
    ops: Seq<QueueOp>,
    i: int,
    adif: Seq<char>,
    received_at: u64,
    encode: spec_fn(EntryView) -> Seq<char>,
)
    requires
        0 <= start.next_seq,
        start.next_seq + ops.len() <= u64::MAX,
        start.entries.len() + ops.len() <= 1000,
        0 <= i < ops.len(),
        ops[i] == QueueOp::Append(adif, received_at),
        forall|j: int|
            i < j < ops.len() && (#[trigger] ops[j]) is Remove ==> ops[j]->Remove_0 != seq_given(
                start,
                ops,
                i,
            ),
    ensures
        after_all(start, ops, encode).entries.contains(
            EntryView { seq: seq_given(start, ops, i) as u64, adif, received_at },
        ),
    decreases ops.len(),
{
    let before = ops.drop_last();
    let state = after_all(start, before, encode);
    let after = after_all(start, ops, encode);
    lemma_counts(start, before, encode);
    lemma_appends_of_prefix(ops, ops.len() - 1, i);
    assert(ops.take(ops.len() - 1) == before);
    let e = EntryView { seq: seq_given(start, ops, i) as u64, adif, received_at };
    if i == ops.len() - 1 {
        lemma_appends_of_prefix(ops, i, i);
        assert(after.entries == state.entries.push(e));
        assert(after.entries[after.entries.len() - 1] == e);
    } else {
        assert forall|j: int| i < j < before.len() && (#[trigger] before[j]) is Remove implies
            before[j]->Remove_0 != seq_given(start, before, i) by {
            assert(before[j] == ops[j]);
        }
        lemma_pending_stays(start, before, i, adif, received_at, encode);
        let k = choose|k: int| 0 <= k < state.entries.len() && state.entries[k] == e;
        match ops.last() {
            QueueOp::Append(a, at) => {
                assert(after.entries[k] == e);
            },
            QueueOp::Remove(seq) => {
                assert(ops[ops.len() - 1] is Remove);
                lemma_appends_of_prefix(ops, i, i);
                qso_queue::removing_takes_that_entry_only(state.entries, seq);
                assert(state.entries[k].seq != seq);
            },
        }
    }
}

/// Whatever was appended and not removed since is replayed at the next start, under
/// its sequence number and with its ADIF unchanged, as long as the cap is not reached.
pub proof fn unsettled_contacts_are_replayed(
    contents: Seq<char>,
    ops: Seq<QueueOp>,
    i: int,
    adif: Seq<char>,
    received_at: u64,
    encode: spec_fn(EntryView) -> Seq<char>,
    decode: spec_fn(Seq<char>) -> Option<EntryView>,
)
    requires
        is_codec(encode, decode),
        ends_line(opened_on(contents, encode, decode).contents),
        opened_on(contents, encode, decode).next_seq + ops.len() <= u64::MAX,
        opened_on(contents, encode, decode).entries.len() + ops.len() <= 1000,
        0 <= i < ops.len(),
        ops[i] == QueueOp::Append(adif, received_at),
        forall|j: int|
            i < j < ops.len() && (#[trigger] ops[j]) is Remove ==> ops[j]->Remove_0 != seq_given(
                opened_on(contents, encode, decode),
                ops,
                i,
            ),
    ensures
        ({
            let start = opened_on(contents, encode, decode);
            let state = after_all(start, ops, encode);
            let replay = opening::queue_with(
                opened_on(state.contents, encode, decode).entries,
            ).replay;
            exists|k: int|
                0 <= k < replay.len() && (#[trigger] replay[k]).0 == seq_given(start, ops, i)
                    && replay[k].1 == adif
        }),
{
    let start = opened_on(contents, encode, decode);
    let state = after_all(start, ops, encode);
    qso_queue::max_seq_is_largest(start.entries);
    lemma_appends_of_prefix(ops, i, i);
    lemma_pending_stays(start, ops, i, adif, received_at, encode);
    restart_restores_the_queue(Seq::empty(), 0, contents, ops, encode, decode);
    let e = EntryView { seq: seq_given(start, ops, i) as u64, adif, received_at };
    let k = choose|k: int| 0 <= k < state.entries.len() && state.entries[k] == e;
    replay_is_all_of_the_queue(state.entries);
    let replay = opening::queue_with(state.entries).replay;
    assert(replay[k].0 == seq_given(start, ops, i));
    assert(replay[k].1 == adif);
}

proof fn lemma_settled_stays_away(
    start: QueueState,
    ops: Seq<QueueOp>,
    i: int,
    seq: u64,
    encode: spec_fn(EntryView) -> Seq<char>,
)
    requires
        0 <= start.next_seq,
        start.next_seq + ops.len() <= u64::MAX,
        0 <= i < ops.len(),
        ops[i] == QueueOp::Remove(seq),
        seq < seq_given(start, ops, i),
    ensures
        forall|k: int|
            0 <= k < after_all(start, ops, encode).entries.len() ==> (#[trigger] after_all(
                start,
                ops,
                encode,
            ).entries[k]).seq != seq,
    decreases ops.len(),
{
    let before = ops.drop_last();
    let state = after_all(start, before, encode);
    let after = after_all(start, ops, encode);
    lemma_counts(start, before, encode);
    lemma_appends_of_prefix(ops, ops.len() - 1, i);
    lemma_appends_of_prefix(ops, ops.len() as int, ops.len() - 1);
    assert(ops.take(ops.len() - 1) == before);
    if i == ops.len() - 1 {
        qso_queue::removing_takes_that_entry_only(state.entries, seq);
    } else {
        lemma_settled_stays_away(start, before, i, seq, encode);
        lemma_appends_grow(ops, i, ops.len() - 1);
        lemma_appends_of_prefix(ops, ops.len() - 1, ops.len() - 1);
        assert forall|k: int| 0 <= k < after.entries.len() implies (#[trigger] after.entries[k]).seq
            != seq by {
            match ops.last() {
                QueueOp::Append(adif, at) => {
                    let e = EntryView { seq: state.next_seq as u64, adif, received_at: at };
                    let all = state.entries.push(e);
                    qso_queue::append_keeps_the_newest(state.entries, e);
                    let skipped = all.len() - after.entries.len();
                    assert(after.entries[k] == all[k + skipped]);
                    if k + skipped < state.entries.len() {
                        assert(state.entries[k + skipped].seq != seq);
                    }
                },
                QueueOp::Remove(other) => {
                    let kept = after.entries[k];
                    state.entries.lemma_filter_contains_rev(qso_queue::other_than(other), kept);
                    let m = choose|m: int| 0 <= m < state.entries.len() && state.entries[m] == kept;
                    assert(state.entries[m].seq != seq);
                },
            }
        }
    }
}

proof fn lemma_appends_grow(ops: Seq<QueueOp>, m: int, n: int)
    requires
        0 <= m <= n <= ops.len(),
    ensures
        appends_among(ops, m) <= appends_among(ops, n),
    decreases n,
{
    if m < n {
        lemma_appends_grow(ops, m, n - 1);
    }
}

/// What was removed is not replayed again, whatever was done since.
pub proof fn settled_contacts_are_not_replayed(
    contents: Seq<char>,
    ops: Seq<QueueOp>,
    i: int,
    seq: u64,
    encode: spec_fn(EntryView) -> Seq<char>,
    decode: spec_fn(Seq<char>) -> Option<EntryView>,
)
    requires
        is_codec(encode, decode),
        ends_line(opened_on(contents, encode, decode).contents),
        opened_on(contents, encode, decode).next_seq + ops.len() <= u64::MAX,
        0 <= i < ops.len(),
        ops[i] == QueueOp::Remove(seq),
        seq < seq_given(opened_on(contents, encode, decode), ops, i),
    ensures
        ({
            let state = after_all(opened_on(contents, encode, decode), ops, encode);
            let replay = opening::queue_with(
                opened_on(state.contents, encode, decode).entries,
            ).replay;
            forall|k: int| 0 <= k < replay.len() ==> (#[trigger] replay[k]).0 != seq
        }),
{
    let start = opened_on(contents, encode, decode);
    let state = after_all(start, ops, encode);
    qso_queue::max_seq_is_largest(start.entries);
    lemma_settled_stays_away(start, ops, i, seq, encode);
    restart_restores_the_queue(Seq::empty(), 0, contents, ops, encode, decode);
    replay_is_all_of_the_queue(state.entries);
    let replay = opening::queue_with(state.entries).replay;
    assert forall|k: int| 0 <= k < replay.len() implies (#[trigger] replay[k]).0 != seq by {
        assert(state.entries[k].seq != seq);
    }
}

/// Entry `e` was in the queue at the start or was appended by one of the operations.
pub open spec fn was_entered(start: QueueState, ops: Seq<QueueOp>, e: EntryView) -> bool {
    ||| start.entries.contains(e)
    ||| exists|i: int|
        0 <= i < ops.len() && #[trigger] ops[i] == QueueOp::Append(e.adif, e.received_at) && e.seq
            == seq_given(start, ops, i)
}

/// Nothing is replayed that was not there at the start or appended since.
pub proof fn nothing_else_is_replayed(
    start: QueueState,
    ops: Seq<QueueOp>,
    k: int,
    encode: spec_fn(EntryView) -> Seq<char>,
)
    requires
        0 <= start.next_seq,
        start.next_seq + ops.len() <= u64::MAX,
        0 <= k < after_all(start, ops, encode).entries.len(),
    ensures
        was_entered(start, ops, after_all(start, ops, encode).entries[k]),
    decreases ops.len(),
{
    let after = after_all(start, ops, encode);
    let e = after.entries[k];
    if ops.len() == 0 {
        assert(start.entries.contains(e));
    } else {
        let before = ops.drop_last();
        let last = ops.len() - 1;
        let state = after_all(start, before, encode);
        lemma_counts(start, before, encode);
        assert(ops.take(last) == before);
        lemma_appends_of_prefix(ops, last, last);
        let m = match ops.last() {
            QueueOp::Append(adif, at) => {
                let new = EntryView { seq: state.next_seq as u64, adif, received_at: at };
                let all = state.entries.push(new);
                qso_queue::append_keeps_the_newest(state.entries, new);
                let skipped = all.len() - after.entries.len();
                assert(e == all[k + skipped]);
                if k + skipped == state.entries.len() {
                    assert(ops[last] == QueueOp::Append(e.adif, e.received_at));
                    assert(was_entered(start, ops, e));
                }
                k + skipped
            },
            QueueOp::Remove(other) => {
                state.entries.lemma_filter_contains_rev(qso_queue::other_than(other), e);
                choose|m: int| 0 <= m < state.entries.len() && state.entries[m] == e
            },
        };
        if m < state.entries.len() {
            assert(state.entries[m] == e);
            nothing_else_is_replayed(start, before, m, encode);
            if !start.entries.contains(e) {
                let i = choose|i: int|
                    0 <= i < before.len() && #[trigger] before[i] == QueueOp::Append(
                        e.adif,
                        e.received_at,
                    ) && e.seq == seq_given(start, before, i);
                lemma_appends_of_prefix(ops, last, i);
                assert(ops[i] == QueueOp::Append(e.adif, e.received_at));
            }
        }
    }
}

/// The entries stand in the order of their sequence numbers.
pub open spec fn is_in_order(entries: Seq<EntryView>) -> bool {
    forall|i: int, j: int|
        0 <= i < j < entries.len() ==> (#[trigger] entries[i]).seq < (#[trigger] entries[j]).seq
}

/// Contacts are replayed in the order in which they were logged.
pub proof fn contacts_are_replayed_in_order(
    start: QueueState,
    ops: Seq<QueueOp>,
    encode: spec_fn(EntryView) -> Seq<char>,
)
    requires
        0 <= start.next_seq,
        start.next_seq + ops.len() <= u64::MAX,
        is_in_order(start.entries),
        seqs_below(start),
    ensures
        is_in_order(after_all(start, ops, encode).entries),
        seqs_below(after_all(start, ops, encode)),
    decreases ops.len(),
{
    if ops.len() > 0 {
        let before = ops.drop_last();
        let state = after_all(start, before, encode);
        let after = after_all(start, ops, encode);
        contacts_are_replayed_in_order(start, before, encode);
        lemma_counts(start, before, encode);
        lemma_appends_of_prefix(ops, ops.len() - 1, ops.len() - 1);
        assert(ops.take(ops.len() - 1) == before);
        match ops.last() {
            QueueOp::Append(adif, at) => {
                let e = EntryView { seq: state.next_seq as u64, adif, received_at: at };
                let all = state.entries.push(e);
                qso_queue::append_keeps_the_newest(state.entries, e);
                let skipped = all.len() - after.entries.len();
                assert(after.entries == all.skip(skipped));
                assert forall|i: int, j: int| 0 <= i < j < all.len() implies (#[trigger] all[i]).seq
                    < (#[trigger] all[j]).seq by {
                    assert(all[i] == state.entries[i]);
                    if j < state.entries.len() {
                        assert(all[j] == state.entries[j]);
                    }
                }
                assert forall|i: int, j: int| 0 <= i < j < after.entries.len() implies (
                #[trigger] after.entries[i]).seq < (#[trigger] after.entries[j]).seq by {
                    assert(after.entries[i] == all[i + skipped]);
                    assert(after.entries[j] == all[j + skipped]);
                }
                assert forall|i: int| 0 <= i < after.entries.len() implies (
                #[trigger] after.entries[i]).seq < after.next_seq by {
                    assert(after.entries[i] == all[i + skipped]);
                    if i + skipped < state.entries.len() {
                        assert(all[i + skipped] == state.entries[i + skipped]);
                    }
                }
            },
            QueueOp::Remove(seq) => {
                lemma_removed_in_order(state.entries, seq, state.next_seq);
            },
        }
    }
}

proof fn lemma_removed_in_order(entries: Seq<EntryView>, seq: u64, bound: int)
    requires
        is_in_order(entries),
        forall|i: int| 0 <= i < entries.len() ==> (#[trigger] entries[i]).seq < bound,
    ensures
        is_in_order(qso_queue::removed(entries, seq)),
        forall|i: int|
            0 <= i < qso_queue::removed(entries, seq).len() ==> (#[trigger] qso_queue::removed(
                entries,
                seq,
            )[i]).seq < bound,
    decreases entries.len(),
{
    reveal(Seq::filter);
    if entries.len() > 0 {
        let rest = entries.drop_last();
        let last = entries.last();
        assert forall|i: int| 0 <= i < rest.len() implies (#[trigger] rest[i]).seq < last.seq by {
            assert(entries[i].seq < entries[entries.len() - 1].seq);
        }
        assert(is_in_order(rest)) by {
            assert forall|i: int, j: int| 0 <= i < j < rest.len() implies (#[trigger] rest[i]).seq
                < (#[trigger] rest[j]).seq by {
                assert(entries[i].seq < entries[j].seq);
            }
        }
        lemma_removed_in_order(rest, seq, last.seq as int);
        let kept = qso_queue::removed(rest, seq);
        let all = qso_queue::removed(entries, seq);
        assert(last.seq < bound) by {
            assert(entries[entries.len() - 1].seq < bound);
        }
        assert forall|i: int| 0 <= i < kept.len() implies (#[trigger] kept[i]).seq < bound by {}
    }
}

/// A spool that cannot be used is not used: one that cannot be read ends the open,
/// with the reason; a corrupt one is moved away and the queue begins empty; one whose
/// last line is malformed is written anew with the entries before it. A repair that
/// fails ends the open, with its error.
pub proof fn damaged_spools_are_dealt_with(
    path: Seq<u8>,
    lines: Seq<Option<EntryView>>,
    why: Seq<char>,
    now: u64,
    queue: OpenedView,
    e: QsoQueueErrorView,
)
    ensures
        opening::stepped(
            path,
            StageView::Reading,
            OpenEvent::Read(SpoolView::Unreadable(why), now),
        ) == (StageView::Ended, OpenActionView::Fail(QsoQueueErrorView::Io(why))),
        opening::stepped(path, StageView::Reading, OpenEvent::Read(SpoolView::Missing, now)) == (
            StageView::Open(opening::queue_with(Seq::empty())),
            OpenActionView::Ready,
        ),
        (exists|i: int| 0 <= i < lines.len() - 1 && (#[trigger] lines[i]) is None)
            ==> opening::stepped(
            path,
            StageView::Reading,
            OpenEvent::Read(SpoolView::Lines(lines), now),
        ) == (
            StageView::Repairing(opening::queue_with(Seq::empty())),
            OpenActionView::SetAside(qso_queue::corrupt_text(now)),
        ),
        (lines.len() > 0 && lines.last() is None && forall|i: int|
            0 <= i < lines.len() - 1 ==> (#[trigger] lines[i]) is Some) ==> {
            let entries = Seq::new(
                (lines.len() - 1) as nat,
                |i: int| lines[i]->Some_0,
            );
            opening::stepped(
                path,
                StageView::Reading,
                OpenEvent::Read(SpoolView::Lines(lines), now),
            ) == (StageView::Repairing(opening::queue_with(entries)), OpenActionView::Rewrite)
        },
        opening::stepped(path, StageView::Repairing(queue), OpenEvent::Repaired(Some(e))) == (
            StageView::Ended,
            OpenActionView::Fail(e),
        ),
        opening::stepped(path, StageView::Repairing(queue), OpenEvent::Repaired(None)) == (
            StageView::Open(queue),
            OpenActionView::Ready,
        ),
        opening::stepped(
            path,
            StageView::Locking,
            OpenEvent::Locked(LockAttemptView::Failed(why)),
        ) == (StageView::Ended, OpenActionView::Fail(QsoQueueErrorView::Io(why))),
{
    if lines.len() > 0 && lines.last() is None && forall|i: int|
        0 <= i < lines.len() - 1 ==> (#[trigger] lines[i]) is Some {
        let entries = Seq::new((lines.len() - 1) as nat, |i: int| lines[i]->Some_0);
        assert(qso_queue::entries_in(lines) =~= entries);
        assert(qso_queue::intact(lines));
    }
}

/// A spool is set aside for the reason that its first malformed line gives.
pub proof fn first_reason_is_given(lines: Seq<Decoded>, i: int, reason: String, why: String)
    requires
        0 <= i < lines.len(),
        lines[i] == Decoded::Malformed(reason),
        forall|j: int| 0 <= j < i ==> (#[trigger] lines[j]) is Entry,
    ensures
        qso_queue::first_malformed(lines, why) <==> why == reason,
{
    assert(lines[i] == Decoded::Malformed(reason));
}

} // verus!
