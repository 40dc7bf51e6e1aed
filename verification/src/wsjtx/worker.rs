//! What the POST worker does with QSOs.
//!
//! A QSO leaves the queue on disk only when Wavelog took it, or refused it for
//! good. Anything else leaves it there for the next start.
use crate::qso_queue;
use crate::qso_queue::EntryView;
use crate::util;
use crate::wavelog::client::{WavelogError, WavelogErrorView};
use crate::wavelog::retry;
use crate::wsjtx::listener;
use crate::wsjtx::listener::{ListenActionView, QueueItem, QueueItemView};
use crate::wsjtx::protocol;
use vstd::prelude::*;

verus! {

/// What a POST came to.
#[derive(Debug, Clone, Copy, PartialEq, Eq, Structural)]
pub enum PostOutcome {
    /// Wavelog logged the QSO.
    Completed,
    /// Wavelog answered cleanly with a permanent "no" (duplicate, validation
    /// error): retrying will produce the same answer.
    Rejected,
    /// The QSO is kept on disk for another try.
    Retained,
}

/// What the result of a POST comes to.
pub open spec fn post_outcome(res: Result<(), WavelogErrorView>) -> PostOutcome {
    match res {
        Ok(_) => PostOutcome::Completed,
        Err(WavelogErrorView::Rejected { .. }) => PostOutcome::Rejected,
        Err(_) => PostOutcome::Retained,
    }
}

/// The entry to remove from disk behind a POST: the item's, unless it is
/// retained.
pub open spec fn settled_seq(res: Result<(), WavelogErrorView>, item: QueueItemView) -> Option<
    u64,
> {
    if post_outcome(res) == PostOutcome::Retained {
        None
    } else {
        item.seq
    }
}

/// Decides what the result of a POST comes to, and which entry to remove from
/// disk.
pub fn handle_post_outcome(res: &Result<(), WavelogError>, item: &QueueItem) -> (handled: (
    PostOutcome,
    Option<u64>,
))
    ensures
        handled.0 == post_outcome(retry::result_view(*res)),
        handled.1 == settled_seq(retry::result_view(*res), item@),
{
    match res {
        Ok(_) => (PostOutcome::Completed, item.seq),
        Err(WavelogError::Rejected { .. }) => (PostOutcome::Rejected, item.seq),
        Err(_) => (PostOutcome::Retained, None),
    }
}

/// The queue on disk behind a POST.
pub open spec fn queue_after_post(
    entries: Seq<EntryView>,
    res: Result<(), WavelogErrorView>,
    item: QueueItemView,
) -> Seq<EntryView> {
    match settled_seq(res, item) {
        Some(seq) => qso_queue::removed(entries, seq),
        None => entries,
    }
}

/// A QSO stays on disk until Wavelog took it or refused it for good: after any
/// other failure the queue is as it was, so that the next start replays it.
pub proof fn failed_post_keeps_entry(
    entries: Seq<EntryView>,
    e: WavelogErrorView,
    item: QueueItemView,
)
    requires
        !(e is Rejected),
    ensures
        queue_after_post(entries, Err(e), item) == entries,
{
}

/// A POST settles no other QSO than its own.
pub proof fn post_settles_its_entry_only(
    entries: Seq<EntryView>,
    res: Result<(), WavelogErrorView>,
    item: QueueItemView,
)
    ensures
        forall|i: int|
            0 <= i < entries.len() && Some((#[trigger] entries[i]).seq) != item.seq
                ==> queue_after_post(entries, res, item).contains(entries[i]),
        post_outcome(res) != PostOutcome::Retained ==> forall|i: int|
            0 <= i < queue_after_post(entries, res, item).len() ==> Some(
                (#[trigger] queue_after_post(entries, res, item)[i]).seq,
            ) != item.seq,
{
    if let Some(seq) = settled_seq(res, item) {
        qso_queue::removing_takes_that_entry_only(entries, seq);
    }
}

/// A QSO that a datagram logs is persisted, and while Wavelog has neither taken
/// nor refused it, it is replayed at the next start.
pub proof fn unsettled_qso_is_replayed(
    bytes: Seq<u8>,
    adif: Seq<char>,
    entries: Seq<EntryView>,
    seq: u64,
    received_at: u64,
    why: WavelogErrorView,
)
    requires
        protocol::logged_adif(bytes) == Ok::<Option<Seq<char>>, Seq<char>>(Some(adif)),
        !(why is Rejected),
    ensures
        listener::datagram_action(bytes, true) == ListenActionView::Persist(adif),
        ({
            let persisted = qso_queue::appended(entries, EntryView { seq, adif, received_at });
            let item = QueueItemView { seq: Some(seq), adif };
            qso_queue::replay_of(queue_after_post(persisted, Err(why), item)).last() == (seq, adif)
        }),
{
    qso_queue::append_keeps_the_newest(entries, EntryView { seq, adif, received_at });
}

/// What the POST worker does next.
#[derive(Debug, Clone, Copy, PartialEq, Eq, Structural)]
pub enum PostAction {
    /// Wait for an item, or for shutdown.
    Wait,
    /// Resolve the station and POST the item in flight, and watch for shutdown
    /// meanwhile.
    Push,
    /// Return.
    Stop,
}

/// The POST worker.
#[derive(Debug)]
pub struct PostWorker {
    in_flight: Option<QueueItem>,
}

impl PostWorker {
    /// The item that is being posted.
    pub closed spec fn posting(&self) -> Option<QueueItemView> {
        match self.in_flight {
            Some(item) => Some(item@),
            None => None,
        }
    }

    pub fn new() -> (w: PostWorker)
        ensures
            w.posting() is None,
    {
        PostWorker { in_flight: None }
    }

    /// An item arrived, or there will be no more.
    pub fn on_item(&mut self, item: Option<QueueItem>) -> (action: PostAction)
        requires
            old(self).posting() is None,
        ensures
            match item {
                Some(i) => action == PostAction::Push && final(self).posting() == Some(i@),
                None => action == PostAction::Stop && final(self).posting() is None,
            },
    {
        match item {
            Some(i) => {
                self.in_flight = Some(i);
                PostAction::Push
            },
            None => PostAction::Stop,
        }
    }

    /// The item in flight.
    pub fn item_in_flight(&self) -> (item: Option<&QueueItem>)
        ensures
            match item {
                Some(i) => self.posting() == Some(i@),
                None => self.posting() is None,
            },
    {
        match &self.in_flight {
            Some(i) => Some(i),
            None => None,
        }
    }

    /// The POST ended: what it came to, and which entry to remove from disk.
    pub fn on_posted(&mut self, res: &Result<(), WavelogError>) -> (handled: Option<
        (PostOutcome, Option<u64>),
    >)
        ensures
            final(self).posting() is None,
            match old(self).posting() {
                Some(item) => handled == Some(
                    (
                        post_outcome(retry::result_view(*res)),
                        settled_seq(retry::result_view(*res), item),
                    ),
                ),
                None => handled is None,
            },
    {
        let in_flight = self.in_flight.take();
        match in_flight {
            Some(item) => Some(handle_post_outcome(res, &item)),
            None => None,
        }
    }

    /// The shutdown signal changed, or its sender is gone. A POST in flight is
    /// given up; its entry stays on disk.
    pub fn on_shutdown(&mut self, closed: bool, fired: bool) -> (action: PostAction)
        ensures
            final(self).posting() is None,
            action == (if closed || fired {
                PostAction::Stop
            } else {
                PostAction::Wait
            }),
    {
        self.in_flight = None;
        if util::shutdown_observed(closed, fired) {
            PostAction::Stop
        } else {
            PostAction::Wait
        }
    }
}

} // verus!
