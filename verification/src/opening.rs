//! Opening the queue of pending QSOs, step by step.
//!
//! First the lock, then the read, then the repair of what was read: the spool is
//! neither read nor changed by anyone who does not hold its lock.
use crate::path::FilePath;
use crate::qso_queue;
use crate::qso_queue::{
    Entry, EntryView, LockAttempt, LockAttemptView, QsoQueue, QsoQueueError, QsoQueueErrorView,
    Repair, ReplayEntries, Spool,
};
use vstd::prelude::*;

verus! {

/// What to do next when a queue is opened.
#[derive(Debug)]
pub enum OpenAction {
    /// Create this file and its directories where they are missing, and try to
    /// lock it.
    Lock(FilePath),
    /// Read the spool.
    Read,
    /// Write the pending entries over the spool: its last line was cut short.
    Rewrite,
    /// Move the spool aside under this extension: it is corrupt for this reason.
    SetAside { extension: String, why: String },
    /// The queue is open.
    Ready,
    /// It cannot be opened.
    Fail(QsoQueueError),
}

/// What an action says.
#[verifier::ext_equal]
pub enum OpenActionView {
    Lock(Seq<u8>),
    Read,
    Rewrite,
    SetAside(Seq<char>),
    Ready,
    Fail(QsoQueueErrorView),
}

impl View for OpenAction {
    type V = OpenActionView;

    open spec fn view(&self) -> OpenActionView {
        match self {
            OpenAction::Lock(lock) => OpenActionView::Lock(lock@),
            OpenAction::Read => OpenActionView::Read,
            OpenAction::Rewrite => OpenActionView::Rewrite,
            OpenAction::SetAside { extension, .. } => OpenActionView::SetAside(extension@),
            OpenAction::Ready => OpenActionView::Ready,
            OpenAction::Fail(e) => OpenActionView::Fail(e@),
        }
    }
}

/// What a spool says.
#[verifier::ext_equal]
pub enum SpoolView {
    Missing,
    Unreadable(Seq<char>),
    Lines(Seq<Option<EntryView>>),
}

/// What the spool turned out to be.
pub open spec fn spool_view(spool: Spool) -> SpoolView {
    match spool {
        Spool::Missing => SpoolView::Missing,
        Spool::Unreadable(why) => SpoolView::Unreadable(why@),
        Spool::Lines(lines) => SpoolView::Lines(qso_queue::decoded_views(lines@)),
    }
}

/// A queue and what is replayed from it.
#[verifier::ext_equal]
pub struct OpenedView {
    pub entries: Seq<EntryView>,
    pub next_seq: int,
    pub replay: Seq<(u64, Seq<char>)>,
}

/// The queue that starts with these entries.
pub open spec fn queue_with(entries: Seq<EntryView>) -> OpenedView {
    OpenedView {
        entries,
        next_seq: qso_queue::seq_after(entries),
        replay: qso_queue::replay_of(entries),
    }
}

/// How far a queue has been opened.
#[verifier::ext_equal]
pub enum StageView {
    Locking,
    Reading,
    Repairing(OpenedView),
    Open(OpenedView),
    Ended,
}

/// What happens when a queue is opened.
#[verifier::ext_equal]
pub enum OpenEvent {
    /// The attempt to lock ended so.
    Locked(LockAttemptView),
    /// The spool was read, at this time.
    Read(SpoolView, u64),
    /// The repair ended, with this error if any.
    Repaired(Option<QsoQueueErrorView>),
}

/// An event that can happen at a stage.
pub open spec fn can_happen(stage: StageView, event: OpenEvent) -> bool {
    match stage {
        StageView::Locking => event is Locked,
        StageView::Reading => event is Read,
        StageView::Repairing(_) => event is Repaired,
        _ => false,
    }
}

/// What opening the queue at `path` does on an event that can happen.
pub open spec fn stepped(path: Seq<u8>, stage: StageView, event: OpenEvent) -> (
    StageView,
    OpenActionView,
) {
    match (stage, event) {
        (StageView::Locking, OpenEvent::Locked(attempt)) => match qso_queue::lock_error(
            attempt,
            path,
        ) {
            None => (StageView::Reading, OpenActionView::Read),
            Some(e) => (StageView::Ended, OpenActionView::Fail(e)),
        },
        (StageView::Reading, OpenEvent::Read(spool, now)) => match spool {
            SpoolView::Missing => (
                StageView::Open(queue_with(Seq::empty())),
                OpenActionView::Ready,
            ),
            SpoolView::Unreadable(why) => (
                StageView::Ended,
                OpenActionView::Fail(QsoQueueErrorView::Io(why)),
            ),
            SpoolView::Lines(lines) => if !qso_queue::intact(lines) {
                (
                    StageView::Repairing(queue_with(Seq::empty())),
                    OpenActionView::SetAside(qso_queue::corrupt_text(now)),
                )
            } else if qso_queue::last_malformed(lines) {
                (
                    StageView::Repairing(queue_with(qso_queue::entries_in(lines))),
                    OpenActionView::Rewrite,
                )
            } else {
                (
                    StageView::Open(queue_with(qso_queue::entries_in(lines))),
                    OpenActionView::Ready,
                )
            },
        },
        (StageView::Repairing(queue), OpenEvent::Repaired(error)) => match error {
            None => (StageView::Open(queue), OpenActionView::Ready),
            Some(e) => (StageView::Ended, OpenActionView::Fail(e)),
        },
        (_, _) => (StageView::Ended, OpenActionView::Ready),
    }
}

enum Stage {
    Locking,
    Reading,
    Repairing(QsoQueue, ReplayEntries),
    Open(QsoQueue, ReplayEntries),
    Ended,
}

/// A queue that is being opened.
pub struct Opening {
    path: FilePath,
    stage: Stage,
}

/// What a queue and its replay say.
pub open spec fn opened_view(queue: QsoQueue, replay: ReplayEntries) -> OpenedView {
    OpenedView { entries: queue@, next_seq: queue.spec_next_seq() as int, replay: replay@ }
}

impl View for Opening {
    type V = StageView;

    closed spec fn view(&self) -> StageView {
        match self.stage {
            Stage::Locking => StageView::Locking,
            Stage::Reading => StageView::Reading,
            Stage::Repairing(queue, replay) => StageView::Repairing(opened_view(queue, replay)),
            Stage::Open(queue, replay) => StageView::Open(opened_view(queue, replay)),
            Stage::Ended => StageView::Ended,
        }
    }
}

impl Opening {
    /// Where the queue is.
    pub closed spec fn spec_path(&self) -> Seq<u8> {
        self.path@
    }

    /// A queue that has been read is well-formed.
    pub closed spec fn wf(&self) -> bool {
        match self.stage {
            Stage::Repairing(queue, _) => queue.wf(),
            Stage::Open(queue, _) => queue.wf(),
            _ => true,
        }
    }

    /// Begins to open the queue at `path`: its lock comes first.
    pub fn begin(path: FilePath) -> (begun: (Opening, OpenAction))
        ensures
            begun.0.wf(),
            begun.0.spec_path() == path@,
            begun.0@ == StageView::Locking,
            begun.1@ == OpenActionView::Lock(qso_queue::lock_of(path@)),
    {
        let lock = qso_queue::lock_path(&path);
        (Opening { path, stage: Stage::Locking }, OpenAction::Lock(lock))
    }

    /// The attempt to lock ended.
    pub fn on_locked(self, attempt: LockAttempt) -> (next: (Opening, OpenAction))
        requires
            self@ == StageView::Locking,
        ensures
            next.0.wf(),
            next.0.spec_path() == self.spec_path(),
            (next.0@, next.1@) == stepped(
                self.spec_path(),
                self@,
                OpenEvent::Locked(attempt@),
            ),
    {
        match qso_queue::acquire_lock(attempt, &self.path) {
            Ok(_) => (Opening { path: self.path, stage: Stage::Reading }, OpenAction::Read),
            Err(e) => (Opening { path: self.path, stage: Stage::Ended }, OpenAction::Fail(e)),
        }
    }

    /// The spool was read.
    pub fn on_read(self, spool: Spool, now_millis: u64) -> (next: (Opening, OpenAction))
        requires
            self@ == StageView::Reading,
            qso_queue::seq_after(qso_queue::opened_entries(spool)) <= u64::MAX,
        ensures
            next.0.wf(),
            next.0.spec_path() == self.spec_path(),
            (next.0@, next.1@) == stepped(
                self.spec_path(),
                self@,
                OpenEvent::Read(spool_view(spool), now_millis),
            ),
            next.1 matches OpenAction::SetAside { why, .. } ==> (spool matches Spool::Lines(lines)
                && qso_queue::first_malformed(lines@, why)),
    {
        match QsoQueue::open(spool) {
            Err(e) => (Opening { path: self.path, stage: Stage::Ended }, OpenAction::Fail(e)),
            Ok((queue, replay, repair)) => match repair {
                Repair::Nothing => (
                    Opening { path: self.path, stage: Stage::Open(queue, replay) },
                    OpenAction::Ready,
                ),
                Repair::Rewrite => (
                    Opening { path: self.path, stage: Stage::Repairing(queue, replay) },
                    OpenAction::Rewrite,
                ),
                Repair::SetAside(why) => (
                    Opening { path: self.path, stage: Stage::Repairing(queue, replay) },
                    OpenAction::SetAside {
                        extension: qso_queue::corrupt_extension(now_millis),
                        why,
                    },
                ),
            },
        }
    }

    /// The entries to write over the spool.
    pub fn pending_entries(&self) -> (entries: &[Entry])
        requires
            self@ is Repairing,
        ensures
            self@ matches StageView::Repairing(queue) && qso_queue::entry_views(entries@)
                == queue.entries,
    {
        match &self.stage {
            Stage::Repairing(queue, _) => queue.entries(),
            _ => &[],
        }
    }

    /// The repair ended.
    pub fn on_repaired(self, result: Result<(), QsoQueueError>) -> (next: (Opening, OpenAction))
        requires
            self.wf(),
            self@ is Repairing,
        ensures
            next.0.wf(),
            next.0.spec_path() == self.spec_path(),
            (next.0@, next.1@) == stepped(
                self.spec_path(),
                self@,
                OpenEvent::Repaired(
                    match result {
                        Ok(_) => None,
                        Err(e) => Some(e@),
                    },
                ),
            ),
    {
        match (result, self.stage) {
            (Ok(_), Stage::Repairing(queue, replay)) => (
                Opening { path: self.path, stage: Stage::Open(queue, replay) },
                OpenAction::Ready,
            ),
            (Err(e), _) => (
                Opening { path: self.path, stage: Stage::Ended },
                OpenAction::Fail(e),
            ),
            (_, stage) => (Opening { path: self.path, stage }, OpenAction::Ready),
        }
    }

    /// The open queue, and what is replayed from it; `None` where it is not open.
    pub fn finish(self) -> (opened: Option<(QsoQueue, ReplayEntries)>)
        requires
            self.wf(),
        ensures
            match opened {
                Some((queue, replay)) => queue.wf() && self@ == StageView::Open(
                    opened_view(queue, replay),
                ),
                None => !(self@ is Open),
            },
    {
        match self.stage {
            Stage::Open(queue, replay) => Some((queue, replay)),
            _ => None,
        }
    }
}

/// The events can happen one after the other, from this stage on.
pub open spec fn is_course(path: Seq<u8>, stage: StageView, events: Seq<OpenEvent>) -> bool
    decreases events.len(),
{
    events.len() == 0 || (can_happen(stage, events[0]) && is_course(
        path,
        stepped(path, stage, events[0]).0,
        events.skip(1),
    ))
}

/// What opening does on events, from this stage on.
pub open spec fn actions(path: Seq<u8>, stage: StageView, events: Seq<OpenEvent>) -> Seq<
    OpenActionView,
>
    decreases events.len(),
{
    if events.len() == 0 {
        Seq::empty()
    } else {
        seq![stepped(path, stage, events[0]).1] + actions(
            path,
            stepped(path, stage, events[0]).0,
            events.skip(1),
        )
    }
}

/// The action reads the spool or changes it.
pub open spec fn touches_spool(action: OpenActionView) -> bool {
    action is Read || action is Rewrite || action is SetAside
}

/// The spool is read or changed only after its lock was acquired, and changed
/// only after it was read. Opening takes three events at most.
pub proof fn nothing_is_touched_without_the_lock(path: Seq<u8>, events: Seq<OpenEvent>)
    requires
        is_course(path, StageView::Locking, events),
    ensures
        events.len() <= 3,
        actions(path, StageView::Locking, events).len() == events.len(),
        forall|i: int|
            0 <= i < events.len() && touches_spool(
                #[trigger] actions(path, StageView::Locking, events)[i],
            ) ==> events[0] == OpenEvent::Locked(LockAttemptView::Acquired),
        forall|i: int|
            0 <= i < events.len() && {
                let action = #[trigger] actions(path, StageView::Locking, events)[i];
                action is Rewrite || action is SetAside
            } ==> i == 1 && events[1] is Read && actions(path, StageView::Locking, events)[0]
                == OpenActionView::Read,
{
    reveal_with_fuel(is_course, 5);
    reveal_with_fuel(actions, 5);
    if events.len() > 0 {
        let rest = events.skip(1);
        if rest.len() > 0 {
            assert(rest[0] == events[1]);
            if rest.skip(1).len() > 0 {
                assert(rest.skip(1)[0] == events[2]);
            }
        }
    }
}

/// What an exclusive lock answers while the locks in `held` are held.
pub open spec fn lock_answer(held: Set<Seq<u8>>, lock: Seq<u8>) -> LockAttemptView {
    if held.contains(lock) {
        LockAttemptView::Held
    } else {
        LockAttemptView::Acquired
    }
}

/// While a queue is open, a second one at the same path is refused before its
/// spool is read or changed, and one at another path is not hindered. Once the
/// first is closed, its path can be opened again.
pub proof fn second_open_is_refused(
    held: Set<Seq<u8>>,
    path: Seq<u8>,
    other: Seq<u8>,
    events: Seq<OpenEvent>,
)
    requires
        !held.contains(qso_queue::lock_of(path)),
        other != path,
        events.len() > 0,
        is_course(path, StageView::Locking, events),
        events[0] == OpenEvent::Locked(
            lock_answer(
                held.insert(qso_queue::lock_of(path)),
                qso_queue::lock_of(path),
            ),
        ),
    ensures
        stepped(
            path,
            StageView::Locking,
            OpenEvent::Locked(lock_answer(held, qso_queue::lock_of(path))),
        ) == (StageView::Reading, OpenActionView::Read),
        actions(path, StageView::Locking, events) == seq![
            OpenActionView::Fail(
                QsoQueueErrorView::AlreadyLocked(qso_queue::lock_of(path)),
            ),
        ],
        lock_answer(
            held.insert(qso_queue::lock_of(path)),
            qso_queue::lock_of(other),
        ) == lock_answer(held, qso_queue::lock_of(other)),
        stepped(
            path,
            StageView::Locking,
            OpenEvent::Locked(
                lock_answer(
                    held.insert(qso_queue::lock_of(path)).remove(qso_queue::lock_of(path)),
                    qso_queue::lock_of(path),
                ),
            ),
        ) == (StageView::Reading, OpenActionView::Read),
{
    qso_queue::queues_do_not_share_locks(path, other);
    reveal_with_fuel(is_course, 3);
    reveal_with_fuel(actions, 3);
    assert(events.len() == 1) by {
        if events.len() > 1 {
            assert(events.skip(1).len() > 0);
        }
    }
    assert(actions(path, StageView::Locking, events) =~= seq![
        OpenActionView::Fail(QsoQueueErrorView::AlreadyLocked(qso_queue::lock_of(path))),
    ]);
}

} // verus!
