//! What the UDP listener does with datagrams.
//!
//! The entries that are on disk at startup are handed to the POST worker ahead
//! of any new arrival. After that every logged QSO is persisted (where
//! persistence is on) before it is offered to the worker, so that a crash between
//! accept and POST does not lose it.
use crate::qso_queue;
use crate::util;
use crate::wsjtx::protocol;
use crate::wsjtx::protocol::WsjtxError;
use vstd::prelude::*;

verus! {

/// How many QSOs may wait for the POST worker.
pub const QUEUE_CAPACITY: usize = 32;

/// The largest datagram.
pub const RECV_BUF_SIZE: usize = 65535;

/// A QSO for the POST worker.
#[derive(Debug)]
pub struct QueueItem {
    /// Sequence number on disk; `None` when persistence is disabled.
    pub seq: Option<u64>,
    pub adif: String,
}

/// What an item says.
#[verifier::ext_equal]
pub struct QueueItemView {
    pub seq: Option<u64>,
    pub adif: Seq<char>,
}

impl View for QueueItem {
    type V = QueueItemView;

    open spec fn view(&self) -> QueueItemView {
        QueueItemView { seq: self.seq, adif: self.adif@ }
    }
}

/// What the listener does next.
#[derive(Debug)]
pub enum ListenAction {
    /// Hand this item to the worker, waiting until there is room, and watch for
    /// shutdown meanwhile.
    Hand(QueueItem),
    /// Wait for a datagram, or for shutdown.
    Receive,
    /// Append this ADIF text to the queue on disk.
    Persist(String),
    /// Offer this item to the worker, without waiting.
    Offer(QueueItem),
    /// Return.
    Stop,
}

/// What an action says.
#[verifier::ext_equal]
pub enum ListenActionView {
    Hand(QueueItemView),
    Receive,
    Persist(Seq<char>),
    Offer(QueueItemView),
    Stop,
}

impl View for ListenAction {
    type V = ListenActionView;

    open spec fn view(&self) -> ListenActionView {
        match self {
            ListenAction::Hand(item) => ListenActionView::Hand(item@),
            ListenAction::Receive => ListenActionView::Receive,
            ListenAction::Persist(adif) => ListenActionView::Persist(adif@),
            ListenAction::Offer(item) => ListenActionView::Offer(item@),
            ListenAction::Stop => ListenActionView::Stop,
        }
    }
}

/// What became of a datagram, for the log.
#[derive(Debug)]
pub enum Datagram {
    /// It logs a QSO.
    Logged,
    /// It is another WSJT-X message.
    Ignored,
    /// It is none.
    Malformed(WsjtxError),
}

/// How an offer ended.
#[derive(Debug, Clone, Copy, PartialEq, Eq, Structural)]
pub enum Offered {
    Taken,
    /// There was no room: the item is dropped (and stays on disk).
    Full,
    /// The worker is gone.
    Closed,
}

/// The UDP listener.
#[derive(Debug)]
pub struct Listener {
    /// What is still to be replayed, last first.
    replay: Vec<(u64, String)>,
    persistent: bool,
}

/// What the listener does when it has nothing in hand: replay what is left,
/// then receive.
pub open spec fn idle_action(replay: Seq<(u64, Seq<char>)>) -> ListenActionView {
    if replay.len() > 0 {
        ListenActionView::Hand(QueueItemView { seq: Some(replay[0].0), adif: replay[0].1 })
    } else {
        ListenActionView::Receive
    }
}

/// What is left to replay behind the first.
pub open spec fn behind_first(replay: Seq<(u64, Seq<char>)>) -> Seq<(u64, Seq<char>)> {
    if replay.len() > 0 {
        replay.skip(1)
    } else {
        replay
    }
}

/// What the listener does with a datagram.
pub open spec fn datagram_action(bytes: Seq<u8>, persistent: bool) -> ListenActionView {
    match protocol::logged_adif(bytes) {
        Ok(Some(adif)) => if persistent {
            ListenActionView::Persist(adif)
        } else {
            ListenActionView::Offer(QueueItemView { seq: None, adif })
        },
        _ => ListenActionView::Receive,
    }
}

impl Listener {
    /// What is still to be replayed, in order.
    pub closed spec fn left(&self) -> Seq<(u64, Seq<char>)> {
        qso_queue::pair_views(self.replay@).reverse()
    }

    /// QSOs are persisted.
    pub closed spec fn is_persistent(&self) -> bool {
        self.persistent
    }

    /// A listener with these entries to replay.
    pub fn new(replay: Vec<(u64, String)>, persistent: bool) -> (l: Listener)
        ensures
            l.left() == qso_queue::pair_views(replay@),
            l.is_persistent() == persistent,
    {
        let ghost all = replay@;
        let mut rest = replay;
        let mut reversed: Vec<(u64, String)> = Vec::new();
        while rest.len() > 0
            invariant
                all == replay@,
                rest@ + reversed@.reverse() == all,
            decreases rest@.len(),
        {
            let ghost before = (rest@, reversed@);
            if let Some(pair) = rest.pop() {
                reversed.push(pair);
                assert(before.0 == rest@.push(pair));
                assert(rest@ + reversed@.reverse() =~= before.0 + before.1.reverse());
            }
        }
        assert(reversed@.reverse() =~= all);
        let l = Listener { replay: reversed, persistent };
        assert(l.left() =~= qso_queue::pair_views(all));
        l
    }

    /// Takes the next entry to replay, or turns to datagrams.
    fn next(&mut self) -> (action: ListenAction)
        ensures
            action@ == idle_action(old(self).left()),
            final(self).left() == behind_first(old(self).left()),
            final(self).is_persistent() == old(self).is_persistent(),
    {
        match self.replay.pop() {
            Some((seq, adif)) => {
                assert(self.left() =~= old(self).left().skip(1));
                let action = ListenAction::Hand(QueueItem { seq: Some(seq), adif });
                assert(old(self).left()[0] == (seq, adif@));
                assert(action@ =~= idle_action(old(self).left()));
                action
            },
            None => {
                assert(self.left() =~= old(self).left());
                ListenAction::Receive
            },
        }
    }

    /// Starts, unless shutdown fired already.
    pub fn start(&mut self, fired: bool) -> (action: ListenAction)
        ensures
            final(self).is_persistent() == old(self).is_persistent(),
            fired ==> action@ == ListenActionView::Stop && final(self).left() == old(self).left(),
            !fired ==> action@ == idle_action(old(self).left()) && final(self).left()
                == behind_first(old(self).left()),
    {
        if fired {
            ListenAction::Stop
        } else {
            self.next()
        }
    }

    /// The worker took the item that was handed to it, or is gone.
    pub fn on_handed(&mut self, taken: bool) -> (action: ListenAction)
        ensures
            final(self).is_persistent() == old(self).is_persistent(),
            !taken ==> action@ == ListenActionView::Stop && final(self).left() == old(self).left(),
            taken ==> action@ == idle_action(old(self).left()) && final(self).left()
                == behind_first(old(self).left()),
    {
        if taken {
            self.next()
        } else {
            ListenAction::Stop
        }
    }

    /// The shutdown signal changed, or its sender is gone. An item that was
    /// being handed over is given up; it stays on disk.
    pub fn on_shutdown(&mut self, closed: bool, fired: bool) -> (action: ListenAction)
        ensures
            final(self).is_persistent() == old(self).is_persistent(),
            closed || fired ==> action@ == ListenActionView::Stop && final(self).left() == old(
                self,
            ).left(),
            !(closed || fired) ==> action@ == idle_action(old(self).left()) && final(self).left()
                == behind_first(old(self).left()),
    {
        if util::shutdown_observed(closed, fired) {
            ListenAction::Stop
        } else {
            self.next()
        }
    }

    /// A datagram arrived.
    pub fn on_datagram(&self, bytes: &[u8]) -> (taken: (ListenAction, Datagram))
        ensures
            taken.0@ == datagram_action(bytes@, self.is_persistent()),
            match protocol::logged_adif(bytes@) {
                Ok(Some(_)) => taken.1 is Logged,
                Ok(None) => taken.1 is Ignored,
                Err(why) => taken.1 matches Datagram::Malformed(e) && e@ == why,
            },
    {
        match protocol::parse_logged_adif(bytes) {
            Ok(Some(adif)) => {
                let action = if self.persistent {
                    ListenAction::Persist(adif)
                } else {
                    ListenAction::Offer(QueueItem { seq: None, adif })
                };
                assert(action@ =~= datagram_action(bytes@, self.is_persistent()));
                (action, Datagram::Logged)
            },
            Ok(None) => (ListenAction::Receive, Datagram::Ignored),
            Err(e) => (ListenAction::Receive, Datagram::Malformed(e)),
        }
    }

    /// The ADIF text was persisted under `seq`, or could not be: then it is
    /// dropped.
    pub fn on_persisted(&self, adif: String, seq: Option<u64>) -> (action: ListenAction)
        ensures
            match seq {
                Some(_) => action@ == ListenActionView::Offer(QueueItemView { seq, adif: adif@ }),
                None => action@ == ListenActionView::Receive,
            },
    {
        match seq {
            Some(_) => {
                let action = ListenAction::Offer(QueueItem { seq, adif });
                assert(action@ =~= ListenActionView::Offer(QueueItemView { seq, adif: adif@ }));
                action
            },
            None => ListenAction::Receive,
        }
    }

    /// The offer ended. Only a worker that is gone ends the listener.
    pub fn on_offered(&self, offered: Offered) -> (action: ListenAction)
        ensures
            action@ == (if offered == Offered::Closed {
                ListenActionView::Stop
            } else {
                ListenActionView::Receive
            }),
    {
        match offered {
            Offered::Closed => ListenAction::Stop,
            _ => ListenAction::Receive,
        }
    }
}

/// What the listener does first, when the worker takes the first `n` items.
pub open spec fn primed(replay: Seq<(u64, Seq<char>)>, n: nat) -> Seq<ListenActionView>
    decreases n,
{
    if n == 0 {
        Seq::empty()
    } else {
        seq![idle_action(replay)] + primed(behind_first(replay), (n - 1) as nat)
    }
}

/// Every entry of an earlier run is handed to the worker, in order, before any
/// datagram is received.
pub proof fn replay_comes_first(replay: Seq<(u64, Seq<char>)>)
    ensures
        primed(replay, replay.len()).len() == replay.len(),
        forall|i: int|
            0 <= i < replay.len() ==> #[trigger] primed(replay, replay.len())[i]
                == ListenActionView::Hand(
                QueueItemView { seq: Some(replay[i].0), adif: replay[i].1 },
            ),
        idle_action(replay.skip(replay.len() as int)) == ListenActionView::Receive,
    decreases replay.len(),
{
    if replay.len() > 0 {
        let rest = replay.skip(1);
        replay_comes_first(rest);
        assert forall|i: int| 0 <= i < replay.len() implies #[trigger] primed(
            replay,
            replay.len(),
        )[i] == ListenActionView::Hand(
            QueueItemView { seq: Some(replay[i].0), adif: replay[i].1 },
        ) by {
            if i > 0 {
                assert(primed(replay, replay.len())[i] == primed(rest, rest.len())[i - 1]);
                assert(rest[i - 1] == replay[i]);
            }
        }
    }
}

} // verus!
