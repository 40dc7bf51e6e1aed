//! What the values of the library say: all that they hold, and nothing else.
use crate::config::{ConfigError, ConfigErrorView};
use crate::opening;
use crate::opening::{OpenAction, OpenActionView, SpoolView};
use crate::path::FilePath;
use crate::qso_queue;
use crate::qso_queue::{
    Decoded, Entry, LockAttempt, LockAttemptView, QsoQueueError, QsoQueueErrorView, ReplayEntries,
    Spool,
};
use crate::rewriting::{RewriteAction, RewriteActionView};
use crate::rigctld::exchange;
use crate::rigctld::exchange::{
    RigError, RigErrorView, RigReply, RigReplyView, RigState, Step, StepView,
};
use crate::text;
use crate::wavelog::client::{WavelogError, WavelogErrorView};
use crate::wavelog::retry;
use crate::wavelog::station;
use crate::wavelog::station::Station;
use crate::ws::{Inbound, InboundView, WsAction, WsActionView};
use crate::wsjtx::listener::{ListenAction, ListenActionView, QueueItem};
use crate::wsjtx::protocol::WsjtxError;
use vstd::prelude::*;

verus! {

/// An entry of the queue says its number, its ADIF and its time, and a list of
/// entries says each of them in its place.
pub proof fn entries_say_all(entries: Seq<Entry>, i: int)
    requires
        0 <= i < entries.len(),
    ensures
        entries[i]@.seq == entries[i].seq,
        entries[i]@.adif == entries[i].adif@,
        entries[i]@.received_at == entries[i].received_at,
        qso_queue::entry_views(entries).len() == entries.len(),
        qso_queue::entry_views(entries)[i] == entries[i]@,
{
}

/// A replay says its pairs.
pub proof fn replays_say_all(replay: ReplayEntries, i: int)
    requires
        0 <= i < replay.0@.len(),
    ensures
        replay@.len() == replay.0@.len(),
        replay@[i] == (replay.0@[i].0, replay.0@[i].1@),
{
}

/// A decoded line says its entry, or that it is none; a spool says its lines.
pub proof fn spools_say_all(lines: Vec<Decoded>, i: int, why: String)
    requires
        0 <= i < lines@.len(),
    ensures
        qso_queue::decoded_views(lines@).len() == lines@.len(),
        lines@[i] matches Decoded::Entry(e) ==> qso_queue::decoded_views(lines@)[i] == Some(e@),
        lines@[i] is Malformed ==> qso_queue::decoded_views(lines@)[i] is None,
        opening::spool_view(Spool::Lines(lines)) == SpoolView::Lines(
            qso_queue::decoded_views(lines@),
        ),
        opening::spool_view(Spool::Missing) == SpoolView::Missing,
        opening::spool_view(Spool::Unreadable(why)) == SpoolView::Unreadable(why@),
{
}

/// Errors of the queue, and attempts to lock it, say their kind and their reason.
pub proof fn queue_errors_say_all(why: String, lock: FilePath)
    ensures
        QsoQueueError::Io(why)@ == QsoQueueErrorView::Io(why@),
        QsoQueueError::Serialize(why)@ == QsoQueueErrorView::Serialize(why@),
        QsoQueueError::AlreadyLocked(lock)@ == QsoQueueErrorView::AlreadyLocked(lock.bytes@),
        LockAttempt::Acquired@ == LockAttemptView::Acquired,
        LockAttempt::Held@ == LockAttemptView::Held,
        LockAttempt::Failed(why)@ == LockAttemptView::Failed(why@),
        lock@ == lock.bytes@,
{
}

/// The actions of opening and rewriting the spool say what to do.
pub proof fn spool_actions_say_all(
    lock: FilePath,
    extension: String,
    why: String,
    e: QsoQueueError,
)
    ensures
        OpenAction::Lock(lock)@ == OpenActionView::Lock(lock@),
        OpenAction::Read@ == OpenActionView::Read,
        OpenAction::Rewrite@ == OpenActionView::Rewrite,
        (OpenAction::SetAside { extension, why })@ == OpenActionView::SetAside(extension@),
        OpenAction::Ready@ == OpenActionView::Ready,
        OpenAction::Fail(e)@ == OpenActionView::Fail(e@),
        RewriteAction::CreateTemp@ == RewriteActionView::CreateTemp,
        RewriteAction::Write@ == RewriteActionView::Write,
        RewriteAction::SyncTemp@ == RewriteActionView::SyncTemp,
        RewriteAction::Rename@ == RewriteActionView::Rename,
        RewriteAction::SyncDir@ == RewriteActionView::SyncDir,
        RewriteAction::Done@ == RewriteActionView::Done,
        RewriteAction::Fail(e)@ == RewriteActionView::Fail(e@),
{
}

/// A snapshot of the rig says frequency, mode and power, and an answer of the rig
/// says what was asked for.
pub proof fn rig_answers_say_all(state: RigState, hz: u64, mode: String)
    ensures
        state@.freq == state.freq,
        state@.mode == state.mode@,
        state@.power == state.power,
        RigReply::Freq(hz)@ == RigReplyView::Freq(hz),
        RigReply::Mode(mode)@ == RigReplyView::Mode(mode@),
        state.power matches Some(p) ==> RigReply::Power(p)@ == RigReplyView::Power(p),
        RigReply::State(state)@ == RigReplyView::State(state@),
        RigReply::Done@ == RigReplyView::Done,
{
}

/// Errors of the rig say their kind, with the code or the line.
pub proof fn rig_errors_say_all(code: i32, line: String, reply: RigReply, e: RigError)
    ensures
        RigError::Disconnected@ == RigErrorView::Disconnected,
        RigError::Hamlib(code)@ == RigErrorView::Hamlib(code as int),
        RigError::BadResponse(line)@ == RigErrorView::BadResponse(line@),
        exchange::outcome_view(Ok(reply)) == Ok::<RigReplyView, RigErrorView>(reply@),
        exchange::outcome_view(Err(e)) == Err::<RigReplyView, RigErrorView>(e@),
        Step::Finish(Err(e))@ == StepView::Finish(Err(e@)),
        Step::Finish(Ok(reply))@ == StepView::Finish(Ok(reply@)),
{
}

/// A step of an exchange says the line that it sends.
pub proof fn rig_steps_say_all(next: exchange::Exchange, line: String)
    ensures
        Step::Send(next, line)@ == StepView::Send(next@, line@),
        Step::Read(next)@ == StepView::Read(next@),
{
}

/// Errors of Wavelog say their kind, with status, body and reason.
pub proof fn wavelog_errors_say_all(status: u16, s: String, e: WavelogError)
    ensures
        WavelogError::InvalidUrl(s)@ == WavelogErrorView::InvalidUrl(s@),
        WavelogError::Http(s)@ == WavelogErrorView::Http(s@),
        (WavelogError::Status { status, body: s })@ == (WavelogErrorView::Status {
            status,
            body: s@,
        }),
        (WavelogError::Rejected { reason: s })@ == (WavelogErrorView::Rejected { reason: s@ }),
        WavelogError::BadResponse(s)@ == WavelogErrorView::BadResponse(s@),
        WavelogError::NoActiveStation@ == WavelogErrorView::NoActiveStation,
        retry::result_view(Ok(())) == Ok::<(), WavelogErrorView>(()),
        retry::result_view(Err(e)) == Err::<(), WavelogErrorView>(e@),
{
}

/// A station says its fields, and a list of stations says each in its place.
pub proof fn stations_say_all(stations: Seq<Station>, i: int)
    requires
        0 <= i < stations.len(),
    ensures
        stations[i]@.id == stations[i].id@,
        stations[i]@.name == stations[i].name@,
        stations[i]@.callsign == stations[i].callsign@,
        stations[i]@.active == stations[i].active,
        station::station_views(stations).len() == stations.len(),
        station::station_views(stations)[i] == stations[i]@,
{
}

/// What a client sends, and what is done on its connection.
pub proof fn connections_say_all(s: String)
    ensures
        Inbound::Text(s)@ == InboundView::Text(s@),
        Inbound::Binary@ == InboundView::Binary,
        Inbound::PingOrPong@ == InboundView::PingOrPong,
        Inbound::Close@ == InboundView::Close,
        Inbound::Failed@ == InboundView::Failed,
        Inbound::End@ == InboundView::End,
        WsAction::Welcome@ == WsActionView::Welcome,
        WsAction::Forward@ == WsActionView::Forward,
        WsAction::Wait@ == WsActionView::Wait,
        WsAction::LogText(s)@ == WsActionView::LogText(s@),
        WsAction::CloseAndStop@ == WsActionView::CloseAndStop,
        WsAction::Stop@ == WsActionView::Stop,
{
}

/// An item for the worker says its number and its ADIF, and the listener's actions
/// say what they act on.
pub proof fn items_say_all(item: QueueItem, adif: String)
    ensures
        item@.seq == item.seq,
        item@.adif == item.adif@,
        ListenAction::Hand(item)@ == ListenActionView::Hand(item@),
        ListenAction::Receive@ == ListenActionView::Receive,
        ListenAction::Persist(adif)@ == ListenActionView::Persist(adif@),
        ListenAction::Offer(item)@ == ListenActionView::Offer(item@),
        ListenAction::Stop@ == ListenActionView::Stop,
        WsjtxError::Parse(adif)@ == adif@,
{
}

/// Errors of the configuration say their kind, with what is wrong.
pub proof fn config_errors_say_all(s: String, p: FilePath, watts: crate::binary32::Binary32)
    ensures
        ConfigError::MissingWavelogUrl@ == ConfigErrorView::MissingWavelogUrl,
        ConfigError::MissingRadio@ == ConfigErrorView::MissingRadio,
        ConfigError::MissingKey@ == ConfigErrorView::MissingKey,
        ConfigError::MissingStationId@ == ConfigErrorView::MissingStationId,
        ConfigError::InvalidWavelogUrl(s)@ == ConfigErrorView::InvalidWavelogUrl(s@),
        ConfigError::InvalidPowerMax(watts)@ == ConfigErrorView::InvalidPowerMax(watts),
        ConfigError::InvalidInterval@ == ConfigErrorView::InvalidInterval,
        ConfigError::InvalidRigTimeout@ == ConfigErrorView::InvalidRigTimeout,
        ConfigError::ConfigNotFound(p)@ == ConfigErrorView::ConfigNotFound(p@),
        ConfigError::ConfigInvalidUtf8(p)@ == ConfigErrorView::ConfigInvalidUtf8(p@),
        (ConfigError::ConfigRead { path: p, source: s })@ == (ConfigErrorView::ConfigRead {
            path: p@,
            source: s@,
        }),
        (ConfigError::ConfigParse { path: p, message: s })@ == (ConfigErrorView::ConfigParse {
            path: p@,
            message: s@,
        }),
        (ConfigError::KeyFileRead { path: p, source: s })@ == (ConfigErrorView::KeyFileRead {
            path: p@,
            source: s@,
        }),
        ConfigError::KeyFileInvalidUtf8(p)@ == ConfigErrorView::KeyFileInvalidUtf8(p@),
        ConfigError::EmptyKeyFile(p)@ == ConfigErrorView::EmptyKeyFile(p@),
{
}

/// Texts that may be missing, and lists of texts, say what they hold.
pub proof fn texts_say_all(s: String, list: Seq<String>, i: int)
    requires
        0 <= i < list.len(),
    ensures
        text::text_view(Some(s)) == Some(s@),
        text::text_view(None) is None,
        text::views(list).len() == list.len(),
        text::views(list)[i] == list[i]@,
{
}

} // verus!
