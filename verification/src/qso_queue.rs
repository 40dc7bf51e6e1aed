//! Persistent JSONL spool for WSJT-X QSO submissions.
//!
//! Without persistence, a Wavelog outage longer than the standard
//! `[0, 1, 4] s` retry schedule drops the QSO.
//!
//! Every accepted ADIF is appended to disk before being queued to the POST
//! worker. Entries are removed only after a successful POST (or a permanent
//! `Rejected` response from Wavelog). At startup, leftover entries from a
//! previous run are replayed into the worker queue, so QSOs captured while
//! Wavelog was unreachable eventually land once it is back.
//!
//! The spool holds one JSON object per line. The program turns lines into
//! entries and entries into lines; which lines count, which entries survive and
//! what is written is decided here.
//!
//! `seq` is a monotonic counter assigned at append time and is how the POST
//! worker identifies the entry to remove on success. At startup the next `seq`
//! continues from `max(seq) + 1`, so a new value never collides with a replayed
//! entry.
use crate::path;
use crate::path::FilePath;
use crate::text;
use vstd::prelude::*;

verus! {

/// Cap on retained queue entries.
pub const MAX_QUEUE_LEN: usize = 1000;

/// Why the spool cannot be opened or written.
#[derive(Debug)]
pub enum QsoQueueError {
    Io(String),
    Serialize(String),
    /// Another process holds the lock on this file.
    AlreadyLocked(FilePath),
}

/// What an error says.
#[verifier::ext_equal]
pub enum QsoQueueErrorView {
    Io(Seq<char>),
    Serialize(Seq<char>),
    AlreadyLocked(Seq<u8>),
}

impl View for QsoQueueError {
    type V = QsoQueueErrorView;

    open spec fn view(&self) -> QsoQueueErrorView {
        match self {
            QsoQueueError::Io(why) => QsoQueueErrorView::Io(why@),
            QsoQueueError::Serialize(why) => QsoQueueErrorView::Serialize(why@),
            QsoQueueError::AlreadyLocked(lock) => QsoQueueErrorView::AlreadyLocked(lock@),
        }
    }
}

impl QsoQueueError {
    /// The error as shown to the operator.
    pub open spec fn text(&self) -> Seq<char> {
        match self {
            QsoQueueError::Io(why) => "queue I/O error: "@ + why@,
            QsoQueueError::Serialize(why) => "queue serialization error: "@ + why@,
            QsoQueueError::AlreadyLocked(lock) =>
                "QSO queue is already locked by another process (lock file: "@ + path::lossy_text(lock@)
                + "). Is another wavelog-relay daemon already running against the same queue path?"@,
        }
    }

    /// Renders the error.
    pub fn message(&self) -> (shown: String)
        ensures
            shown@ == self.text(),
    {
        let mut shown = String::new();
        match self {
            QsoQueueError::Io(why) => {
                shown.append("queue I/O error: ");
                shown.append(why.as_str());
            },
            QsoQueueError::Serialize(why) => {
                shown.append("queue serialization error: ");
                shown.append(why.as_str());
            },
            QsoQueueError::AlreadyLocked(lock) => {
                shown.append("QSO queue is already locked by another process (lock file: ");
                let shown_lock = lock.to_text();
                shown.append(shown_lock.as_str());
                shown.append(
                    "). Is another wavelog-relay daemon already running against the same queue path?",
                );
            },
        }
        assert(shown@ == self.text());
        shown
    }
}

/// How an attempt to lock the spool ended.
pub enum LockAttempt {
    Acquired,
    /// Another process holds the lock.
    Held,
    Failed(String),
}

/// What such an attempt says.
#[verifier::ext_equal]
pub enum LockAttemptView {
    Acquired,
    Held,
    Failed(Seq<char>),
}

impl View for LockAttempt {
    type V = LockAttemptView;

    open spec fn view(&self) -> LockAttemptView {
        match self {
            LockAttempt::Acquired => LockAttemptView::Acquired,
            LockAttempt::Held => LockAttemptView::Held,
            LockAttempt::Failed(why) => LockAttemptView::Failed(why@),
        }
    }
}

/// The lock file of the queue at `path`: `<path>.lock`.
pub open spec fn lock_of(path: Seq<u8>) -> Seq<u8> {
    path + path::utf8(".lock"@)
}

/// Names the lock file of a queue.
pub fn lock_path(path: &FilePath) -> (lock: FilePath)
    ensures
        lock@ == lock_of(path@),
        lock@ == path@ + vstd::utf8::encode_utf8(".lock"@),
{
    path.copy().with_suffix(".lock")
}

/// Why an attempt to lock the queue at `path` ends there, if it does.
pub open spec fn lock_error(attempt: LockAttemptView, path: Seq<u8>) -> Option<
    QsoQueueErrorView,
> {
    match attempt {
        LockAttemptView::Acquired => None,
        LockAttemptView::Held => Some(QsoQueueErrorView::AlreadyLocked(lock_of(path))),
        LockAttemptView::Failed(why) => Some(QsoQueueErrorView::Io(why)),
    }
}

/// Decides whether the queue at `path` may be used, by an exclusive advisory lock
/// on its lock file. A second daemon against the same queue is refused rather
/// than racing writes against the first.
pub fn acquire_lock(attempt: LockAttempt, path: &FilePath) -> (outcome: Result<(), QsoQueueError>)
    ensures
        match outcome {
            Ok(()) => lock_error(attempt@, path@) is None,
            Err(e) => lock_error(attempt@, path@) == Some(e@),
        },
{
    match attempt {
        LockAttempt::Acquired => Ok(()),
        LockAttempt::Held => Err(QsoQueueError::AlreadyLocked(lock_path(path))),
        LockAttempt::Failed(why) => Err(QsoQueueError::Io(why)),
    }
}

/// Different queues never share a lock file.
pub proof fn queues_do_not_share_locks(a: Seq<u8>, b: Seq<u8>)
    requires
        a != b,
    ensures
        lock_of(a) != lock_of(b),
{
    if lock_of(a) == lock_of(b) {
        let suffix = path::utf8(".lock"@);
        assert(lock_of(a).len() == a.len() + suffix.len());
        assert(lock_of(b).len() == b.len() + suffix.len());
        assert(a =~= lock_of(a).take(a.len() as int));
        assert(b =~= lock_of(b).take(b.len() as int));
    }
}

/// The file extension under which a corrupt spool is moved aside.
pub open spec fn corrupt_text(now_millis: u64) -> Seq<char> {
    "corrupt-"@ + text::decimal(now_millis as nat)
}

/// Writes the file extension under which a corrupt spool is moved aside.
pub fn corrupt_extension(now_millis: u64) -> (extension: String)
    ensures
        extension@ == corrupt_text(now_millis),
{
    let mut extension = String::new();
    extension.append("corrupt-");
    text::push_decimal(&mut extension, now_millis);
    assert(extension@ == "corrupt-"@ + text::decimal(now_millis as nat));
    extension
}

/// A pending QSO.
#[derive(Debug)]
pub struct Entry {
    pub seq: u64,
    pub adif: String,
    pub received_at: u64,
}

/// What an entry says.
pub struct EntryView {
    pub seq: u64,
    pub adif: Seq<char>,
    pub received_at: u64,
}

impl View for Entry {
    type V = EntryView;

    open spec fn view(&self) -> EntryView {
        EntryView { seq: self.seq, adif: self.adif@, received_at: self.received_at }
    }
}

impl Entry {
    /// A second entry that says the same.
    pub fn copy(&self) -> (e: Entry)
        ensures
            e@ == self@,
    {
        Entry { seq: self.seq, adif: self.adif.clone(), received_at: self.received_at }
    }
}

/// What a list of entries says.
pub open spec fn entry_views(entries: Seq<Entry>) -> Seq<EntryView> {
    entries.map_values(|e: Entry| e@)
}

/// The entries of an earlier run, to be posted again: sequence number and ADIF.
#[derive(Debug)]
pub struct ReplayEntries(pub Vec<(u64, String)>);

/// What the pairs of a replay say.
pub open spec fn pair_views(pairs: Seq<(u64, String)>) -> Seq<(u64, Seq<char>)> {
    pairs.map_values(|p: (u64, String)| (p.0, p.1@))
}

/// The replay of a list of entries: all of them, in order.
pub open spec fn replay_of(entries: Seq<EntryView>) -> Seq<(u64, Seq<char>)> {
    entries.map_values(|e: EntryView| (e.seq, e.adif))
}

impl View for ReplayEntries {
    type V = Seq<(u64, Seq<char>)>;

    open spec fn view(&self) -> Seq<(u64, Seq<char>)> {
        pair_views(self.0@)
    }
}

impl ReplayEntries {
    pub fn into_vec(self) -> (pairs: Vec<(u64, String)>)
        ensures
            pair_views(pairs@) == self@,
            pairs == self.0,
    {
        self.0
    }

    pub fn len(&self) -> (n: usize)
        ensures
            n == self@.len(),
    {
        self.0.len()
    }

    pub fn is_empty(&self) -> (yes: bool)
        ensures
            yes == (self@.len() == 0),
    {
        self.0.is_empty()
    }
}

impl Default for ReplayEntries {
    fn default() -> (r: Self)
        ensures
            r@ == Seq::<(u64, Seq<char>)>::empty(),
    {
        let r = ReplayEntries(Vec::new());
        assert(r@ == Seq::<(u64, Seq<char>)>::empty());
        r
    }
}

/// What a spool line decodes to: an entry, or why it is none.
pub enum Decoded {
    Entry(Entry),
    Malformed(String),
}

/// What a decoded line says: an entry, or nothing.
pub open spec fn decoded_view(d: Decoded) -> Option<EntryView> {
    match d {
        Decoded::Entry(e) => Some(e@),
        Decoded::Malformed(_) => None,
    }
}

/// What a list of decoded lines says.
pub open spec fn decoded_views(lines: Seq<Decoded>) -> Seq<Option<EntryView>> {
    lines.map_values(|d: Decoded| decoded_view(d))
}

/// Every line but perhaps the last is an entry.
pub open spec fn intact(lines: Seq<Option<EntryView>>) -> bool {
    forall|i: int| 0 <= i < lines.len() - 1 ==> (#[trigger] lines[i]) is Some
}

/// The last line is there and is no entry.
pub open spec fn last_malformed(lines: Seq<Option<EntryView>>) -> bool {
    lines.len() > 0 && lines.last() is None
}

/// The entries of a list of lines up to the last.
pub open spec fn entries_in(lines: Seq<Option<EntryView>>) -> Seq<EntryView> {
    let kept = if last_malformed(lines) {
        lines.drop_last()
    } else {
        lines
    };
    kept.map_values(|l: Option<EntryView>| l->Some_0)
}

/// `why` is the reason of the first malformed line.
pub open spec fn first_malformed(lines: Seq<Decoded>, why: String) -> bool {
    exists|i: int|
        {
            &&& 0 <= i < lines.len()
            &&& #[trigger] lines[i] == Decoded::Malformed(why)
            &&& forall|j: int| 0 <= j < i ==> (#[trigger] lines[j]) is Entry
        }
}

/// Result of parsing the spool.
///
/// `trailing_dropped` flags the case where the final non-empty line failed to
/// parse but every earlier line was valid. The spool is rewritten in that case
/// so the partial bytes do not survive into the next restart.
pub struct ParseOutcome {
    pub entries: Vec<Entry>,
    pub trailing_dropped: bool,
}

/// Sorts out the non-blank lines of a spool. A malformed last line (the likely
/// artifact of a crash in the middle of an append) is dropped; a malformed line
/// anywhere else makes the whole spool corrupt, and the first such line's
/// reason is returned.
pub fn parse_entries(lines: Vec<Decoded>) -> (outcome: Result<ParseOutcome, String>)
    ensures
        outcome is Ok <==> intact(decoded_views(lines@)),
        outcome matches Ok(parsed) ==> {
            &&& entry_views(parsed.entries@) == entries_in(decoded_views(lines@))
            &&& parsed.trailing_dropped == last_malformed(decoded_views(lines@))
        },
        outcome matches Err(why) ==> first_malformed(lines@, why),
{
    let ghost all = lines@;
    let ghost views = decoded_views(lines@);
    let total: usize = lines.len();
    let mut rest = lines;
    let mut entries: Vec<Entry> = Vec::new();
    let mut i: usize = 0;
    while i < total
        invariant
            i <= total == all.len(),
            all == lines@,
            views == decoded_views(all),
            rest@ == all.skip(i as int),
            forall|j: int| 0 <= j < i ==> (#[trigger] all[j]) is Entry,
            entries@.len() == i,
            forall|j: int| 0 <= j < i ==> views[j] == Some(#[trigger] entries@[j]@),
        decreases total - i,
    {
        assert(rest@[0] == all[i as int]);
        assert(views[i as int] == decoded_view(all[i as int]));
        match rest.remove(0) {
            Decoded::Entry(e) => {
                entries.push(e);
            },
            Decoded::Malformed(why) => {
                if i + 1 == total {
                    assert(last_malformed(views));
                    assert(entry_views(entries@) == entries_in(views));
                    return Ok(ParseOutcome { entries, trailing_dropped: true });
                }
                assert(all[i as int] == Decoded::Malformed(why));
                assert(views[i as int] is None);
                return Err(why);
            },
        }
        i += 1;
    }
    assert(entry_views(entries@) == entries_in(views));
    Ok(ParseOutcome { entries, trailing_dropped: false })
}

/// What the spool file turned out to be.
pub enum Spool {
    /// There is none yet.
    Missing,
    /// It cannot be read.
    Unreadable(String),
    /// Its non-blank lines, decoded.
    Lines(Vec<Decoded>),
}

/// What has to be done to the spool file before the queue is used.
pub enum Repair {
    Nothing,
    /// Write the queue's entries over it: its last line was cut short.
    Rewrite,
    /// Move it aside: it is corrupt for this reason.
    SetAside(String),
}

/// The entries that a queue opened on these lines starts with.
pub open spec fn opened_entries_of(lines: Seq<Decoded>) -> Seq<EntryView> {
    if intact(decoded_views(lines)) {
        entries_in(decoded_views(lines))
    } else {
        Seq::empty()
    }
}

/// The entries that a queue opened on a spool starts with.
pub open spec fn opened_entries(spool: Spool) -> Seq<EntryView> {
    match spool {
        Spool::Lines(lines) => opened_entries_of(lines@),
        _ => Seq::empty(),
    }
}

/// The largest sequence number of a list of entries, or 0.
pub open spec fn max_seq(entries: Seq<EntryView>) -> int
    decreases entries.len(),
{
    if entries.len() == 0 {
        0
    } else {
        let rest = max_seq(entries.drop_last());
        let seq = entries.last().seq as int;
        if seq > rest {
            seq
        } else {
            rest
        }
    }
}

/// The sequence number that follows those of a list of entries.
pub open spec fn seq_after(entries: Seq<EntryView>) -> int {
    max_seq(entries) + 1
}

/// No entry has a larger sequence number than the largest, which is theirs or 0.
pub proof fn max_seq_is_largest(entries: Seq<EntryView>)
    ensures
        max_seq(entries) >= 0,
        forall|i: int| 0 <= i < entries.len() ==> (#[trigger] entries[i]).seq <= max_seq(entries),
        max_seq(entries) == 0 || exists|i: int|
            0 <= i < entries.len() && (#[trigger] entries[i]).seq == max_seq(entries),
    decreases entries.len(),
{
    if entries.len() > 0 {
        let rest = entries.drop_last();
        max_seq_is_largest(rest);
        assert forall|i: int| 0 <= i < entries.len() implies (#[trigger] entries[i]).seq
            <= max_seq(entries) by {
            if i < rest.len() {
                assert(rest[i].seq <= max_seq(rest));
            }
        }
        if max_seq(entries) != 0 {
            if entries.last().seq as int > max_seq(rest) {
                assert(entries[entries.len() - 1].seq == max_seq(entries));
            } else {
                let i = choose|i: int| 0 <= i < rest.len() && (#[trigger] rest[i]).seq == max_seq(rest);
                assert(entries[i].seq == max_seq(entries));
            }
        }
    }
}

/// Says whether there is a sequence number that follows those of a spool.
pub fn has_next_seq(spool: &Spool) -> (yes: bool)
    ensures
        yes == (seq_after(opened_entries(*spool)) <= u64::MAX),
{
    match spool {
        Spool::Lines(lines) => {
            let ghost views = decoded_views(lines@);
            let ghost entries = entries_in(views);
            let mut used_up = false;
            let mut i: usize = 0;
            while i < lines.len()
                invariant
                    i <= lines@.len(),
                    *spool == Spool::Lines(*lines),
                    views == decoded_views(lines@),
                    forall|j: int| 0 <= j < i && j < lines@.len() - 1 ==> (#[trigger] views[j]) is Some,
                    used_up == (exists|j: int|
                        0 <= j < i && (#[trigger] views[j]) is Some && views[j]->Some_0.seq
                            == u64::MAX),
                decreases lines@.len() - i,
            {
                assert(views[i as int] == decoded_view(lines@[i as int]));
                match &lines[i] {
                    Decoded::Entry(e) => {
                        if e.seq == u64::MAX {
                            used_up = true;
                        }
                    },
                    Decoded::Malformed(_) => {
                        if i + 1 < lines.len() {
                            assert(!intact(views));
                            assert(max_seq(Seq::<EntryView>::empty()) == 0);
                            return true;
                        }
                    },
                }
                i += 1;
            }
            proof {
                assert(intact(views));
                max_seq_is_largest(entries);
                if used_up {
                    let j = choose|j: int|
                        0 <= j < views.len() && (#[trigger] views[j]) is Some
                            && views[j]->Some_0.seq == u64::MAX;
                    assert(entries[j].seq == u64::MAX);
                } else if max_seq(entries) == u64::MAX {
                    let j = choose|j: int|
                        0 <= j < entries.len() && (#[trigger] entries[j]).seq == max_seq(entries);
                    assert(views[j] is Some);
                    assert(entries[j] == views[j]->Some_0);
                } else if max_seq(entries) > u64::MAX {
                    let j = choose|j: int|
                        0 <= j < entries.len() && (#[trigger] entries[j]).seq == max_seq(entries);
                    assert(entries[j].seq <= u64::MAX);
                }
            }
            !used_up
        },
        _ => {
            assert(max_seq(Seq::<EntryView>::empty()) == 0);
            true
        },
    }
}

/// The entries that remain when `e` has been appended: the newest
/// `MAX_QUEUE_LEN` at most, in order.
pub open spec fn appended(entries: Seq<EntryView>, e: EntryView) -> Seq<EntryView> {
    let all = entries.push(e);
    if all.len() > MAX_QUEUE_LEN {
        all.skip(all.len() - MAX_QUEUE_LEN)
    } else {
        all
    }
}

/// Does not have the given sequence number.
pub open spec fn other_than(seq: u64) -> spec_fn(EntryView) -> bool {
    |e: EntryView| e.seq != seq
}

/// The entries that remain when `seq` has been removed.
pub open spec fn removed(entries: Seq<EntryView>, seq: u64) -> Seq<EntryView> {
    entries.filter(other_than(seq))
}

/// An append that has been decided on and not yet written.
pub struct PendingAppend {
    /// The new entry.
    pub entry: Entry,
    /// How many of the oldest entries it pushes out. Where this is 0 the spool
    /// grows by one line, else it is rewritten.
    pub evicted: usize,
}

/// The queue of pending QSO submissions, as the spool holds it.
#[derive(Debug)]
pub struct QsoQueue {
    entries: Vec<Entry>,
    next_seq: u64,
}

impl View for QsoQueue {
    type V = Seq<EntryView>;

    closed spec fn view(&self) -> Seq<EntryView> {
        entry_views(self.entries@)
    }
}

impl QsoQueue {
    /// The sequence number of the next append.
    pub closed spec fn spec_next_seq(&self) -> u64 {
        self.next_seq
    }

    /// The next sequence number is larger than every one in the queue.
    pub open spec fn wf(&self) -> bool {
        forall|i: int| 0 <= i < self@.len() ==> (#[trigger] self@[i]).seq < self.spec_next_seq()
    }

    /// Opens the queue on a spool.
    ///
    /// A spool whose last line is malformed loses that line and is to be
    /// rewritten. Any other malformed line is corruption: the spool is to be
    /// moved aside and the queue starts fresh. A missing spool is an empty one.
    /// All entries are replayed, in order.
    pub fn open(spool: Spool) -> (opened: Result<(QsoQueue, ReplayEntries, Repair), QsoQueueError>)
        requires
            seq_after(opened_entries(spool)) <= u64::MAX,
        ensures
            opened is Err <==> spool is Unreadable,
            spool matches Spool::Unreadable(why) ==> opened == Err::<
                (QsoQueue, ReplayEntries, Repair),
                QsoQueueError,
            >(QsoQueueError::Io(why)),
            opened matches Ok((queue, replay, repair)) ==> {
                &&& queue.wf()
                &&& queue@ == opened_entries(spool)
                &&& queue.spec_next_seq() == seq_after(opened_entries(spool))
                &&& replay@ == replay_of(opened_entries(spool))
                &&& replay.0@.len() == queue@.len()
                &&& forall|i: int|
                    0 <= i < queue@.len() ==> (#[trigger] replay.0@[i]).0 == queue@[i].seq
                        && replay.0@[i].1@ == queue@[i].adif
                &&& repair is Rewrite <==> (spool matches Spool::Lines(lines)
                    && intact(decoded_views(lines@)) && last_malformed(decoded_views(lines@)))
                &&& repair is SetAside <==> (spool matches Spool::Lines(lines)
                    && !intact(decoded_views(lines@)))
                &&& repair matches Repair::SetAside(why) ==> (spool matches Spool::Lines(lines)
                    && first_malformed(lines@, why))
            },
    {
        let mut repair = Repair::Nothing;
        let entries: Vec<Entry> = match spool {
            Spool::Missing => Vec::new(),
            Spool::Unreadable(why) => {
                return Err(QsoQueueError::Io(why));
            },
            Spool::Lines(lines) => match parse_entries(lines) {
                Ok(parsed) => {
                    if parsed.trailing_dropped {
                        repair = Repair::Rewrite;
                    }
                    parsed.entries
                },
                Err(why) => {
                    repair = Repair::SetAside(why);
                    Vec::new()
                },
            },
        };
        let ghost views = entry_views(entries@);
        assert(views == opened_entries(spool));
        let mut largest: u64 = 0;
        let mut pairs: Vec<(u64, String)> = Vec::new();
        let mut i: usize = 0;
        while i < entries.len()
            invariant
                i <= entries@.len(),
                views == entry_views(entries@),
                largest == max_seq(views.take(i as int)),
                pair_views(pairs@) == replay_of(views.take(i as int)),
            decreases entries@.len() - i,
        {
            assert(views.take(i + 1).drop_last() == views.take(i as int));
            assert(views.take(i + 1).last() == entries@[i as int]@);
            if entries[i].seq > largest {
                largest = entries[i].seq;
            }
            let ghost before = pairs@;
            pairs.push((entries[i].seq, entries[i].adif.clone()));
            assert(pair_views(pairs@) == pair_views(before).push(
                (views[i as int].seq, views[i as int].adif),
            ));
            assert(views.take(i + 1) == views.take(i as int).push(views[i as int]));
            assert(replay_of(views.take(i + 1)) == replay_of(views.take(i as int)).push(
                (views[i as int].seq, views[i as int].adif),
            ));
            i += 1;
        }
        assert(views.take(i as int) == views);
        proof {
            max_seq_is_largest(views);
        }
        assert forall|j: int| 0 <= j < views.len() implies (#[trigger] pairs@[j]).0 == views[j].seq
            && pairs@[j].1@ == views[j].adif by {
            assert(pair_views(pairs@)[j] == (pairs@[j].0, pairs@[j].1@));
        }
        let queue = QsoQueue { entries, next_seq: largest + 1 };
        Ok((queue, ReplayEntries(pairs), repair))
    }

    /// Decides on an append: assigns the next sequence number and says how many
    /// of the oldest entries the cap pushes out. The queue's entries change only
    /// in `commit_append`, once the spool has been written.
    pub fn begin_append(&mut self, adif: String, received_at: u64) -> (pending: PendingAppend)
        requires
            old(self).wf(),
            old(self).spec_next_seq() < u64::MAX,
        ensures
            final(self).wf(),
            final(self)@ == old(self)@,
            final(self).spec_next_seq() == old(self).spec_next_seq() + 1,
            pending.entry@ == (EntryView {
                seq: old(self).spec_next_seq(),
                adif: adif@,
                received_at,
            }),
            pending.evicted == old(self)@.len() + 1 - appended(old(self)@, pending.entry@).len(),
    {
        let seq: u64 = self.next_seq;
        self.next_seq = seq + 1;
        let len: usize = self.entries.len();
        let evicted: usize = if len >= MAX_QUEUE_LEN {
            len - MAX_QUEUE_LEN + 1
        } else {
            0
        };
        assert forall|i: int| 0 <= i < self@.len() implies (#[trigger] self@[i]).seq
            < self.spec_next_seq() by {
            assert(old(self)@[i].seq < old(self).spec_next_seq());
        }
        PendingAppend { entry: Entry { seq, adif, received_at }, evicted }
    }

    /// The entries that the spool holds once an append is written.
    pub fn entries_after(&self, pending: &PendingAppend) -> (entries: Vec<Entry>)
        requires
            pending.evicted == self@.len() + 1 - appended(self@, pending.entry@).len(),
        ensures
            entry_views(entries@) == appended(self@, pending.entry@),
    {
        let ghost all = self@.push(pending.entry@);
        let mut entries: Vec<Entry> = Vec::new();
        let mut i: usize = pending.evicted;
        while i < self.entries.len()
            invariant
                pending.evicted <= i,
                i <= self.entries@.len(),
                self@ == entry_views(self.entries@),
                entry_views(entries@) == self@.subrange(pending.evicted as int, i as int),
            decreases self.entries@.len() - i,
        {
            let ghost before = entries@;
            entries.push(self.entries[i].copy());
            assert(entry_views(entries@) == entry_views(before).push(self@[i as int]));
            assert(entry_views(entries@) == self@.subrange(pending.evicted as int, i + 1));
            i += 1;
        }
        let ghost before = entries@;
        entries.push(pending.entry.copy());
        assert(entry_views(entries@) == entry_views(before).push(pending.entry@));
        assert(entry_views(entries@) == all.skip(pending.evicted as int));
        assert(all.skip(0) == all);
        entries
    }

    /// Takes over an append that the spool now holds, and returns its sequence
    /// number (for `remove` on completion).
    pub fn commit_append(&mut self, pending: PendingAppend) -> (seq: u64)
        requires
            old(self).wf(),
            pending.entry.seq < old(self).spec_next_seq(),
            pending.evicted == old(self)@.len() + 1 - appended(
                old(self)@,
                pending.entry@,
            ).len(),
        ensures
            final(self).wf(),
            final(self)@ == appended(old(self)@, pending.entry@),
            final(self).spec_next_seq() == old(self).spec_next_seq(),
            seq == pending.entry.seq,
    {
        let seq: u64 = pending.entry.seq;
        let ghost all = self@.push(pending.entry@);
        self.entries.push(pending.entry);
        let kept = self.entries.split_off(pending.evicted);
        self.entries = kept;
        assert(self@ == all.skip(pending.evicted as int));
        assert(all.skip(0) == all);
        assert forall|i: int| 0 <= i < self@.len() implies (#[trigger] self@[i]).seq
            < self.spec_next_seq() by {
            let j = i + pending.evicted;
            assert(self@[i] == all[j]);
            if j < old(self)@.len() {
                assert(all[j] == old(self)@[j]);
            }
        }
        seq
    }

    /// Removes the entry with `seq`, and says whether the spool has to be
    /// rewritten. Does nothing where no entry has that sequence number.
    pub fn remove(&mut self, seq: u64) -> (changed: bool)
        requires
            old(self).wf(),
        ensures
            final(self).wf(),
            final(self)@ == removed(old(self)@, seq),
            final(self).spec_next_seq() == old(self).spec_next_seq(),
            changed == (exists|i: int|
                0 <= i < old(self)@.len() && (#[trigger] old(self)@[i]).seq == seq),
    {
        let ghost before = self@;
        let mut kept: Vec<Entry> = Vec::new();
        let mut changed = false;
        let mut i: usize = 0;
        proof {
            reveal(Seq::filter);
        }
        while i < self.entries.len()
            invariant
                i <= self.entries@.len(),
                before == entry_views(self.entries@),
                before == old(self)@,
                self.next_seq == old(self).spec_next_seq(),
                entry_views(kept@) == removed(before.take(i as int), seq),
                changed == (exists|j: int| 0 <= j < i && (#[trigger] before[j]).seq == seq),
            decreases self.entries@.len() - i,
        {
            proof {
                reveal_with_fuel(Seq::filter, 2);
                assert(before.take(i + 1).drop_last() == before.take(i as int));
                assert(before.take(i + 1).last() == self.entries@[i as int]@);
                assert(before[i as int] == self.entries@[i as int]@);
            }
            if self.entries[i].seq == seq {
                changed = true;
            } else {
                kept.push(self.entries[i].copy());
                assert(entry_views(kept@) == removed(before.take(i as int), seq).push(
                    before[i as int],
                ));
            }
            i += 1;
        }
        assert(before.take(i as int) == before);
        self.entries = kept;
        assert forall|j: int| 0 <= j < self@.len() implies (#[trigger] self@[j]).seq
            < self.spec_next_seq() by {
            before.lemma_filter_contains_rev(other_than(seq), self@[j]);
            let k = choose|k: int| 0 <= k < before.len() && before[k] == self@[j];
            assert(before[k].seq < old(self).spec_next_seq());
        }
        changed
    }

    /// Current entry count.
    pub fn len(&self) -> (n: usize)
        ensures
            n == self@.len(),
    {
        self.entries.len()
    }

    pub fn is_empty(&self) -> (yes: bool)
        ensures
            yes == (self@.len() == 0),
    {
        self.entries.is_empty()
    }

    /// The sequence number of the next append.
    pub fn next_seq(&self) -> (seq: u64)
        ensures
            seq == self.spec_next_seq(),
    {
        self.next_seq
    }

    /// The entries that the spool has to hold, oldest first.
    pub fn entries(&self) -> (entries: &[Entry])
        ensures
            entry_views(entries@) == self@,
    {
        self.entries.as_slice()
    }
}

/// The text of a spool: every line, ended by a line feed.
pub open spec fn spool_text(lines: Seq<Seq<char>>) -> Seq<char>
    decreases lines.len(),
{
    if lines.len() == 0 {
        Seq::empty()
    } else {
        lines[0] + seq!['\n'] + spool_text(lines.skip(1))
    }
}

/// Writes out the text of a spool.
pub fn write_spool(lines: &[String]) -> (contents: String)
    ensures
        contents@ == spool_text(text::views(lines@)),
{
    let mut contents = String::new();
    let ghost all = text::views(lines@);
    let mut i: usize = 0;
    assert(all.skip(0) == all);
    assert(contents@ + spool_text(all) == spool_text(all));
    while i < lines.len()
        invariant
            i <= lines@.len(),
            all == text::views(lines@),
            contents@ + spool_text(all.skip(i as int)) == spool_text(all),
        decreases lines@.len() - i,
    {
        let ghost before = contents@;
        let ghost rest = spool_text(all.skip(i + 1));
        assert(all.skip(i as int).skip(1) == all.skip(i + 1));
        contents.append(lines[i].as_str());
        contents.push('\n');
        assert(contents@ + rest == before + (lines@[i as int]@ + seq!['\n'] + rest));
        i += 1;
    }
    assert(contents@ + Seq::<char>::empty() == contents@);
    contents
}

/// A line that a spool can hold: one line, not blank, that does not end in a
/// carriage return.
pub open spec fn is_spool_line(line: Seq<char>) -> bool {
    &&& forall|i: int| 0 <= i < line.len() ==> line[i] != '\n'
    &&& line.len() > 0 && line.last() != '\r'
    &&& text::is_not_blank()(line)
}

/// All lines are lines that a spool can hold.
pub open spec fn are_spool_lines(lines: Seq<Seq<char>>) -> bool {
    forall|i: int| 0 <= i < lines.len() ==> is_spool_line(#[trigger] lines[i])
}

/// Text that begins with a spool line has that line first.
proof fn lemma_first_line(line: Seq<char>, rest: Seq<char>)
    requires
        is_spool_line(line),
    ensures
        text::non_blank_lines(line + seq!['\n'] + rest) == seq![line] + text::non_blank_lines(
            rest,
        ),
{
    let all = line + seq!['\n'] + rest;
    text::first_index_unique(all, '\n', 0, line.len() as int);
    assert(all.take(line.len() as int) == line);
    assert(all.skip(line.len() as int + 1) == rest);
    Seq::filter_distributes_over_add(seq![line], text::lines(rest), text::is_not_blank());
    reveal_with_fuel(Seq::filter, 2);
    assert(seq![line].drop_last() == Seq::<Seq<char>>::empty());
    assert(seq![line].filter(text::is_not_blank()) == seq![line]);
}

/// The text that follows a spool's lines is split on its own.
proof fn lemma_spool_prefix(lines: Seq<Seq<char>>, rest: Seq<char>)
    requires
        are_spool_lines(lines),
    ensures
        text::non_blank_lines(spool_text(lines) + rest) == lines + text::non_blank_lines(rest),
    decreases lines.len(),
{
    if lines.len() == 0 {
        assert(spool_text(lines) + rest == rest);
        assert(lines + text::non_blank_lines(rest) == text::non_blank_lines(rest));
    } else {
        let tail = lines.skip(1);
        assert(are_spool_lines(tail)) by {
            assert forall|i: int| 0 <= i < tail.len() implies is_spool_line(#[trigger] tail[i]) by {
                assert(tail[i] == lines[i + 1]);
            }
        }
        lemma_spool_prefix(tail, rest);
        lemma_first_line(lines[0], spool_text(tail) + rest);
        assert(spool_text(lines) + rest == lines[0] + seq!['\n'] + (spool_text(tail) + rest));
        assert(lines + text::non_blank_lines(rest) == seq![lines[0]] + (tail
            + text::non_blank_lines(rest)));
    }
}

/// What is written to the spool is read from it: the same lines, in order.
pub proof fn spool_is_read_back(lines: Seq<Seq<char>>)
    requires
        are_spool_lines(lines),
    ensures
        text::non_blank_lines(spool_text(lines)) == lines,
{
    lemma_spool_prefix(lines, Seq::empty());
    reveal(Seq::filter);
    assert(spool_text(lines) + Seq::<char>::empty() == spool_text(lines));
    assert(lines + Seq::<Seq<char>>::empty() == lines);
}

/// A spool that grows by one line is the spool that would be written anew.
pub proof fn append_agrees_with_rewrite(lines: Seq<Seq<char>>, line: Seq<char>)
    ensures
        spool_text(lines.push(line)) == spool_text(lines) + line + seq!['\n'],
    decreases lines.len(),
{
    if lines.len() == 0 {
        assert(lines.push(line).skip(1) == lines);
        assert(spool_text(lines.push(line)) == spool_text(lines) + line + seq!['\n']);
    } else {
        append_agrees_with_rewrite(lines.skip(1), line);
        assert(lines.push(line).skip(1) == lines.skip(1).push(line));
        assert(spool_text(lines.push(line)) == spool_text(lines) + line + seq!['\n']);
    }
}

/// The lines that a list of entries is written as.
pub open spec fn encoded(
    entries: Seq<EntryView>,
    encode: spec_fn(EntryView) -> Seq<char>,
) -> Seq<Seq<char>> {
    entries.map_values(encode)
}

/// What the lines of a text are read as.
pub open spec fn read_as(
    contents: Seq<char>,
    decode: spec_fn(Seq<char>) -> Option<EntryView>,
) -> Seq<Option<EntryView>> {
    text::non_blank_lines(contents).map_values(decode)
}

/// Each of the entries is written as one spool line that reads back as the
/// entry.
pub open spec fn codec_holds(
    entries: Seq<EntryView>,
    encode: spec_fn(EntryView) -> Seq<char>,
    decode: spec_fn(Seq<char>) -> Option<EntryView>,
) -> bool {
    forall|i: int|
        0 <= i < entries.len() ==> {
            &&& is_spool_line(encode(#[trigger] entries[i]))
            &&& decode(encode(entries[i])) == Some(entries[i])
        }
}

/// Every persisted entry is replayed after a restart, in order, and the spool
/// needs no repair, whatever the line format, as long as it is read as it was
/// written.
pub proof fn persisted_entries_are_restored(
    entries: Seq<EntryView>,
    encode: spec_fn(EntryView) -> Seq<char>,
    decode: spec_fn(Seq<char>) -> Option<EntryView>,
)
    requires
        codec_holds(entries, encode, decode),
    ensures
        ({
            let lines = read_as(spool_text(encoded(entries, encode)), decode);
            &&& intact(lines)
            &&& !last_malformed(lines)
            &&& entries_in(lines) == entries
        }),
{
    let written = encoded(entries, encode);
    assert(are_spool_lines(written)) by {
        assert forall|i: int| 0 <= i < written.len() implies is_spool_line(
            #[trigger] written[i],
        ) by {
            assert(is_spool_line(encode(entries[i])));
        }
    }
    spool_is_read_back(written);
    let lines = read_as(spool_text(written), decode);
    assert forall|i: int| 0 <= i < lines.len() implies #[trigger] lines[i] == Some(
        entries[i],
    ) by {
        assert(written[i] == encode(entries[i]));
    }
    assert(entries_in(lines) == entries);
}

/// The cap holds after every append, the new entry is kept, and what is kept
/// are the newest entries in their old order.
pub proof fn append_keeps_the_newest(entries: Seq<EntryView>, e: EntryView)
    ensures
        0 < appended(entries, e).len() <= MAX_QUEUE_LEN,
        appended(entries, e).last() == e,
        entries.len() < MAX_QUEUE_LEN ==> appended(entries, e) == entries.push(e),
        appended(entries, e) == entries.push(e).skip(
            entries.len() + 1 - appended(entries, e).len(),
        ),
{
    assert(entries.push(e).skip(0) == entries.push(e));
}

/// Removing a sequence number that no entry has changes nothing.
pub proof fn removing_unknown_is_noop(entries: Seq<EntryView>, seq: u64)
    requires
        forall|i: int| 0 <= i < entries.len() ==> (#[trigger] entries[i]).seq != seq,
    ensures
        removed(entries, seq) == entries,
    decreases entries.len(),
{
    reveal(Seq::filter);
    if entries.len() > 0 {
        let rest = entries.drop_last();
        assert forall|i: int| 0 <= i < rest.len() implies (#[trigger] rest[i]).seq != seq by {
            assert(rest[i] == entries[i]);
        }
        removing_unknown_is_noop(rest, seq);
        assert(entries[entries.len() - 1].seq != seq);
        assert(entries == rest.push(entries.last()));
    }
}

/// Removing a sequence number takes away every entry that has it and no other,
/// and once removed it stays removed.
pub proof fn removing_takes_that_entry_only(entries: Seq<EntryView>, seq: u64)
    ensures
        forall|i: int| 0 <= i < removed(entries, seq).len() ==> (#[trigger] removed(
            entries,
            seq,
        )[i]).seq != seq,
        forall|i: int|
            0 <= i < entries.len() && (#[trigger] entries[i]).seq != seq ==> removed(
                entries,
                seq,
            ).contains(entries[i]),
        removed(removed(entries, seq), seq) == removed(entries, seq),
{
    assert forall|i: int| 0 <= i < removed(entries, seq).len() implies (#[trigger] removed(
        entries,
        seq,
    )[i]).seq != seq by {
        entries.lemma_filter_pred(other_than(seq), i);
    }
    assert forall|i: int|
        0 <= i < entries.len() && (#[trigger] entries[i]).seq != seq implies removed(
        entries,
        seq,
    ).contains(entries[i]) by {
        entries.lemma_filter_contains(other_than(seq), i);
    }
    removing_unknown_is_noop(removed(entries, seq), seq);
}

/// Below the cap, removing the entry that was just appended restores the queue:
/// its sequence number is that of no other entry.
pub proof fn remove_undoes_append(entries: Seq<EntryView>, e: EntryView)
    requires
        entries.len() < MAX_QUEUE_LEN,
        forall|i: int| 0 <= i < entries.len() ==> (#[trigger] entries[i]).seq < e.seq,
    ensures
        removed(appended(entries, e), e.seq) == entries,
{
    reveal(Seq::filter);
    assert(entries.push(e).drop_last() == entries);
    removing_unknown_is_noop(entries, e.seq);
}

} // verus!
