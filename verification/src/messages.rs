//! What the messages tell the operator.
use crate::path;
use crate::path::FilePath;
use crate::qso_queue::QsoQueueError;
use crate::rigctld::endpoint::{Endpoint, EndpointParseError};
use crate::rigctld::exchange::RigError;
use crate::text;
use crate::wavelog::client::WavelogError;
use vstd::prelude::*;

verus! {

/// A message consists of these words, a detail, and the words behind it.
pub open spec fn tells(message: Seq<char>, words: Seq<char>, detail: Seq<char>, end: Seq<char>) -> bool {
    &&& message.len() == words.len() + detail.len() + end.len()
    &&& message.take(words.len() as int) == words
    &&& message.subrange(words.len() as int, (words.len() + detail.len()) as int) == detail
    &&& message.skip((words.len() + detail.len()) as int) == end
}

proof fn lemma_tells(words: Seq<char>, detail: Seq<char>, end: Seq<char>)
    ensures
        tells(words + detail + end, words, detail, end),
        tells(words + detail, words, detail, Seq::empty()),
{
    let message = words + detail + end;
    let (p, q) = (words.len() as int, (words.len() + detail.len()) as int);
    assert(message.take(p) =~= words);
    assert(message.subrange(p, q) =~= detail);
    assert(message.skip(q) =~= end);
    assert((words + detail).take(p) =~= words);
    assert((words + detail).subrange(p, q) =~= detail);
    assert((words + detail).skip(q) =~= Seq::<char>::empty());
}

/// A refused endpoint is named, with what it lacks.
pub proof fn endpoint_messages(s: String, t: String)
    ensures
        tells(
            EndpointParseError::MissingPort(s).text(),
            "missing port in rigctld endpoint `"@,
            s@,
            "`"@,
        ),
        tells(
            EndpointParseError::InvalidPort(s).text(),
            "invalid port in rigctld endpoint `"@,
            s@,
            "`"@,
        ),
        tells(
            EndpointParseError::EmptyHost(s).text(),
            "empty host in rigctld endpoint `"@,
            s@,
            "`"@,
        ),
        tells(
            (EndpointParseError::AmbiguousIpv6 { raw: s, addr: t }).text(),
            "IPv6 endpoint must be bracketed: `["@,
            t@,
            "]:port` (got `"@ + s@ + "`)"@,
        ),
{
    lemma_tells("missing port in rigctld endpoint `"@, s@, "`"@);
    lemma_tells("invalid port in rigctld endpoint `"@, s@, "`"@);
    lemma_tells("empty host in rigctld endpoint `"@, s@, "`"@);
    let words = "IPv6 endpoint must be bracketed: `["@;
    let end = "]:port` (got `"@ + s@ + "`)"@;
    lemma_tells(words, t@, end);
    assert((EndpointParseError::AmbiguousIpv6 { raw: s, addr: t }).text() =~= words + t@ + end);
}

/// An endpoint is written as its host, a colon and its port.
pub proof fn endpoints_are_written_in_full(host: String, port: u16)
    ensures
        (Endpoint::Host { host, port }).text() == host@ + seq![':'] + text::decimal(port as nat),
{
}

/// A failure of the rig is told with its code, or with the line that is no answer.
pub proof fn rig_messages(code: i32, line: String)
    ensures
        tells(
            RigError::Hamlib(code).text(),
            "rigctld returned error code "@,
            text::signed_decimal(code as int),
            Seq::empty(),
        ),
        tells(
            RigError::BadResponse(line).text(),
            "rigctld returned an unparseable response: "@,
            line@,
            Seq::empty(),
        ),
        RigError::Disconnected.text() == "rigctld connection lost"@,
{
    lemma_tells(
        "rigctld returned error code "@,
        text::signed_decimal(code as int),
        Seq::empty(),
    );
    lemma_tells("rigctld returned an unparseable response: "@, line@, Seq::empty());
}

/// A failure of Wavelog is told with its status, its answer and its reason.
pub proof fn wavelog_messages(status: u16, s: String)
    ensures
        tells(WavelogError::InvalidUrl(s).text(), "invalid wavelog URL `"@, s@, "`"@),
        tells(WavelogError::Http(s).text(), "HTTP request failed: "@, s@, Seq::empty()),
        tells(
            (WavelogError::Status { status, body: s }).text(),
            "wavelog returned HTTP "@,
            text::decimal(status as nat),
            ": "@ + s@,
        ),
        tells(
            (WavelogError::Rejected { reason: s }).text(),
            "wavelog rejected the submission: "@,
            s@,
            Seq::empty(),
        ),
        tells(
            WavelogError::BadResponse(s).text(),
            "wavelog response could not be parsed: "@,
            s@,
            Seq::empty(),
        ),
        WavelogError::NoActiveStation.text() == "no active station profile in wavelog"@,
{
    lemma_tells("invalid wavelog URL `"@, s@, "`"@);
    lemma_tells("HTTP request failed: "@, s@, Seq::empty());
    let (words, number) = ("wavelog returned HTTP "@, text::decimal(status as nat));
    lemma_tells(words, number, ": "@ + s@);
    assert((WavelogError::Status { status, body: s }).text() =~= words + number + (": "@ + s@));
    lemma_tells("wavelog rejected the submission: "@, s@, Seq::empty());
    lemma_tells("wavelog response could not be parsed: "@, s@, Seq::empty());
}

/// A failure of the queue is told with its reason, or with the lock that is held.
pub proof fn queue_messages(why: String, lock: FilePath)
    ensures
        tells(QsoQueueError::Io(why).text(), "queue I/O error: "@, why@, Seq::empty()),
        tells(
            QsoQueueError::Serialize(why).text(),
            "queue serialization error: "@,
            why@,
            Seq::empty(),
        ),
        tells(
            QsoQueueError::AlreadyLocked(lock).text(),
            "QSO queue is already locked by another process (lock file: "@,
            path::lossy_text(lock.bytes@),
            "). Is another wavelog-relay daemon already running against the same queue path?"@,
        ),
{
    lemma_tells("queue I/O error: "@, why@, Seq::empty());
    lemma_tells("queue serialization error: "@, why@, Seq::empty());
    lemma_tells(
        "QSO queue is already locked by another process (lock file: "@,
        path::lossy_text(lock@),
        "). Is another wavelog-relay daemon already running against the same queue path?"@,
    );
}

} // verus!
