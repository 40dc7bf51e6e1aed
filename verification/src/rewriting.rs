//! Writing the spool anew, step by step.
//!
//! The new spool is written to a file of its own, which takes the old one's place
//! only when all of it is on disk. At every moment the spool is the old one or
//! the new one, in full.
use crate::qso_queue;
use crate::qso_queue::{EntryView, QsoQueueError, QsoQueueErrorView};
use crate::queue_laws;
use crate::text;
use vstd::prelude::*;

verus! {

/// What to do next when the spool is written anew.
#[derive(Debug)]
pub enum RewriteAction {
    /// Create the temporary file, or empty it.
    CreateTemp,
    /// Write the contents to it.
    Write,
    /// Have its data on disk.
    SyncTemp,
    /// Rename it to the spool.
    Rename,
    /// Have the directory on disk.
    SyncDir,
    /// The spool is written.
    Done,
    /// It cannot be written.
    Fail(QsoQueueError),
}

/// What an action says.
#[verifier::ext_equal]
pub enum RewriteActionView {
    CreateTemp,
    Write,
    SyncTemp,
    Rename,
    SyncDir,
    Done,
    Fail(QsoQueueErrorView),
}

impl View for RewriteAction {
    type V = RewriteActionView;

    open spec fn view(&self) -> RewriteActionView {
        match self {
            RewriteAction::CreateTemp => RewriteActionView::CreateTemp,
            RewriteAction::Write => RewriteActionView::Write,
            RewriteAction::SyncTemp => RewriteActionView::SyncTemp,
            RewriteAction::Rename => RewriteActionView::Rename,
            RewriteAction::SyncDir => RewriteActionView::SyncDir,
            RewriteAction::Done => RewriteActionView::Done,
            RewriteAction::Fail(e) => RewriteActionView::Fail(e@),
        }
    }
}

/// The step that is under way.
#[derive(Debug, Clone, Copy, PartialEq, Eq, Structural)]
pub enum RewriteStage {
    Creating,
    Writing,
    Syncing,
    Renaming,
    SyncingDir,
    /// All is written.
    Written,
    /// A step failed.
    Failed,
}

/// How far the spool has been written.
#[verifier::ext_equal]
pub struct RewritingView {
    pub contents: Seq<char>,
    /// The spool's path names a directory.
    pub has_dir: bool,
    pub stage: RewriteStage,
}

/// A step is under way.
pub open spec fn is_under_way(r: RewritingView) -> bool {
    !(r.stage is Written) && !(r.stage is Failed)
}

/// What is done when the step under way has ended, with this error if any.
pub open spec fn step_ended(r: RewritingView, error: Option<Seq<char>>) -> (
    RewritingView,
    RewriteActionView,
) {
    let (stage, action) = match error {
        Some(why) => (
            RewriteStage::Failed,
            RewriteActionView::Fail(QsoQueueErrorView::Io(why)),
        ),
        None => match r.stage {
            RewriteStage::Creating => (RewriteStage::Writing, RewriteActionView::Write),
            RewriteStage::Writing => (RewriteStage::Syncing, RewriteActionView::SyncTemp),
            RewriteStage::Syncing => (RewriteStage::Renaming, RewriteActionView::Rename),
            RewriteStage::Renaming => if r.has_dir {
                (RewriteStage::SyncingDir, RewriteActionView::SyncDir)
            } else {
                (RewriteStage::Written, RewriteActionView::Done)
            },
            _ => (RewriteStage::Written, RewriteActionView::Done),
        },
    };
    (RewritingView { stage, ..r }, action)
}

/// A spool that is being written anew.
pub struct Rewriting {
    contents: String,
    has_dir: bool,
    stage: RewriteStage,
}

impl View for Rewriting {
    type V = RewritingView;

    closed spec fn view(&self) -> RewritingView {
        RewritingView { contents: self.contents@, has_dir: self.has_dir, stage: self.stage }
    }
}

/// The beginning of a rewrite that leaves these lines.
pub open spec fn begun_view(lines: Seq<Seq<char>>, has_dir: bool) -> RewritingView {
    RewritingView {
        contents: qso_queue::spool_text(lines),
        has_dir,
        stage: RewriteStage::Creating,
    }
}

impl Rewriting {
    /// Begins to write a spool of these lines, one for each entry. Where an entry
    /// could not be written as a line, no file is touched.
    pub fn begin(lines: Result<Vec<String>, String>, has_dir: bool) -> (begun: (
        Rewriting,
        RewriteAction,
    ))
        ensures
            match lines {
                Ok(l) => begun.0@ == begun_view(text::views(l@), has_dir) && begun.1@
                    == RewriteActionView::CreateTemp,
                Err(why) => begun.0@ == (RewritingView {
                    contents: Seq::empty(),
                    has_dir,
                    stage: RewriteStage::Failed,
                }) && begun.1@ == RewriteActionView::Fail(QsoQueueErrorView::Serialize(why@)),
            },
    {
        match lines {
            Ok(l) => {
                let contents = qso_queue::write_spool(l.as_slice());
                (
                    Rewriting { contents, has_dir, stage: RewriteStage::Creating },
                    RewriteAction::CreateTemp,
                )
            },
            Err(why) => (
                Rewriting { contents: String::new(), has_dir, stage: RewriteStage::Failed },
                RewriteAction::Fail(QsoQueueError::Serialize(why)),
            ),
        }
    }

    /// What the spool is to hold.
    pub fn contents(&self) -> (contents: &str)
        ensures
            contents@ == self@.contents,
    {
        self.contents.as_str()
    }

    /// The step under way ended.
    pub fn on_step_ended(&mut self, result: Result<(), String>) -> (action: RewriteAction)
        requires
            is_under_way(old(self)@),
        ensures
            (final(self)@, action@) == step_ended(
                old(self)@,
                match result {
                    Ok(_) => None,
                    Err(why) => Some(why@),
                },
            ),
    {
        if let Err(why) = result {
            self.stage = RewriteStage::Failed;
            return RewriteAction::Fail(QsoQueueError::Io(why));
        }
        match self.stage {
            RewriteStage::Creating => {
                self.stage = RewriteStage::Writing;
                RewriteAction::Write
            },
            RewriteStage::Writing => {
                self.stage = RewriteStage::Syncing;
                RewriteAction::SyncTemp
            },
            RewriteStage::Syncing => {
                self.stage = RewriteStage::Renaming;
                RewriteAction::Rename
            },
            RewriteStage::Renaming => {
                if self.has_dir {
                    self.stage = RewriteStage::SyncingDir;
                    RewriteAction::SyncDir
                } else {
                    self.stage = RewriteStage::Written;
                    RewriteAction::Done
                }
            },
            _ => {
                self.stage = RewriteStage::Written;
                RewriteAction::Done
            },
        }
    }
}

/// A file: what it holds, and whether its data are on disk and outlast a loss of
/// power.
#[verifier::ext_equal]
pub struct FileView {
    pub contents: Seq<char>,
    pub synced: bool,
}

/// The spool and the temporary file, which is another file; `None` where there is
/// none.
#[verifier::ext_equal]
pub struct FilesView {
    pub spool: Option<FileView>,
    pub temp: Option<FileView>,
}

/// The files that may be found while a step is under way, or when it has failed.
pub open spec fn can_become(stage: RewriteStage, before: FilesView, after: FilesView) -> bool {
    match stage {
        RewriteStage::Creating | RewriteStage::Writing | RewriteStage::Syncing => after.spool
            == before.spool,
        RewriteStage::Renaming => after == before || after == (FilesView {
            spool: before.temp,
            temp: None,
        }),
        _ => after == before,
    }
}

/// The files when a step has ended well.
pub open spec fn files_after(stage: RewriteStage, contents: Seq<char>, before: FilesView) -> FilesView {
    match stage {
        RewriteStage::Creating => FilesView {
            temp: Some(FileView { contents: Seq::empty(), synced: false }),
            ..before
        },
        RewriteStage::Writing => FilesView {
            temp: Some(
                FileView { contents: before.temp->Some_0.contents + contents, synced: false },
            ),
            ..before
        },
        RewriteStage::Syncing => FilesView {
            temp: Some(FileView { contents: before.temp->Some_0.contents, synced: true }),
            ..before
        },
        RewriteStage::Renaming => FilesView { spool: before.temp, temp: None },
        _ => before,
    }
}

/// How a step ended: with this error if any, leaving these files.
pub struct StepEnd {
    pub error: Option<Seq<char>>,
    pub files: FilesView,
}

/// Where a rewrite and the files are, when steps have ended so.
pub open spec fn reached(r: RewritingView, files: FilesView, ends: Seq<StepEnd>) -> (
    RewritingView,
    FilesView,
)
    decreases ends.len(),
{
    if ends.len() == 0 {
        (r, files)
    } else {
        (
            step_ended(reached(r, files, ends.drop_last()).0, ends.last().error).0,
            ends.last().files,
        )
    }
}

/// Steps of a rewrite that can have ended so, one after the other.
pub open spec fn is_course(r: RewritingView, files: FilesView, ends: Seq<StepEnd>) -> bool
    decreases ends.len(),
{
    if ends.len() == 0 {
        true
    } else {
        let (at, before) = reached(r, files, ends.drop_last());
        &&& is_course(r, files, ends.drop_last())
        &&& is_under_way(at)
        &&& match ends.last().error {
            None => ends.last().files == files_after(at.stage, at.contents, before),
            Some(_) => can_become(at.stage, before, ends.last().files),
        }
    }
}

/// What holds of the files at each stage.
spec fn files_fit(r: RewritingView, files: FilesView, was: Option<FileView>) -> bool {
    let new = Some(FileView { contents: r.contents, synced: true });
    match r.stage {
        RewriteStage::Creating => files.spool == was,
        RewriteStage::Writing => files.spool == was && files.temp == Some(
            FileView { contents: Seq::empty(), synced: false },
        ),
        RewriteStage::Syncing => files.spool == was && files.temp == Some(
            FileView { contents: r.contents, synced: false },
        ),
        RewriteStage::Renaming => files.spool == was && files.temp == new,
        RewriteStage::SyncingDir | RewriteStage::Written => files.spool == new,
        RewriteStage::Failed => files.spool == was || files.spool == new,
    }
}

proof fn lemma_files_fit(r: RewritingView, files: FilesView, ends: Seq<StepEnd>)
    requires
        r.stage is Creating,
        is_course(r, files, ends),
    ensures
        files_fit(reached(r, files, ends).0, reached(r, files, ends).1, files.spool),
        reached(r, files, ends).0.contents == r.contents,
    decreases ends.len(),
{
    if ends.len() > 0 {
        lemma_files_fit(r, files, ends.drop_last());
        assert(Seq::<char>::empty() + r.contents =~= r.contents);
    }
}

/// At every moment of a rewrite, a failure or a loss of power among them, the
/// spool is what it was or the new text in full, with its data on disk. It is the
/// new text once the rewrite is done, and what it was as long as nothing was
/// renamed.
pub proof fn spool_is_swapped_whole(
    lines: Seq<Seq<char>>,
    has_dir: bool,
    files: FilesView,
    ends: Seq<StepEnd>,
    moment: FilesView,
)
    requires
        is_course(begun_view(lines, has_dir), files, ends),
        can_become(
            reached(begun_view(lines, has_dir), files, ends).0.stage,
            reached(begun_view(lines, has_dir), files, ends).1,
            moment,
        ),
    ensures
        ({
            let stage = reached(begun_view(lines, has_dir), files, ends).0.stage;
            let new = Some(FileView { contents: qso_queue::spool_text(lines), synced: true });
            &&& moment.spool == files.spool || moment.spool == new
            &&& stage is Written ==> moment.spool == new
            &&& (stage is Creating || stage is Writing || stage is Syncing) ==> moment.spool
                == files.spool
        }),
{
    lemma_files_fit(begun_view(lines, has_dir), files, ends);
}

/// A rewrite that is done leaves a spool that restores the entries it was made
/// from, all of them in order and with no repair, whatever characters they hold.
/// There is one line for each entry, ended by a line feed.
pub proof fn rewrite_restores_the_entries(
    entries: Seq<EntryView>,
    has_dir: bool,
    files: FilesView,
    ends: Seq<StepEnd>,
    encode: spec_fn(EntryView) -> Seq<char>,
    decode: spec_fn(Seq<char>) -> Option<EntryView>,
)
    requires
        queue_laws::is_codec(encode, decode),
        is_course(begun_view(qso_queue::encoded(entries, encode), has_dir), files, ends),
        reached(begun_view(qso_queue::encoded(entries, encode), has_dir), files, ends).0.stage
            is Written,
    ensures
        ({
            let spool = reached(
                begun_view(qso_queue::encoded(entries, encode), has_dir),
                files,
                ends,
            ).1.spool;
            &&& spool is Some
            &&& queue_laws::restores(spool->Some_0.contents, entries, decode)
            &&& text::lines(spool->Some_0.contents) == qso_queue::encoded(entries, encode)
            &&& spool->Some_0.contents.filter(|c: char| c == '\n').len() == entries.len()
        }),
{
    let lines = qso_queue::encoded(entries, encode);
    lemma_files_fit(begun_view(lines, has_dir), files, ends);
    queue_laws::rewritten_spool_restores(entries, encode, decode);
    assert(qso_queue::are_spool_lines(lines)) by {
        assert forall|i: int| 0 <= i < lines.len() implies qso_queue::is_spool_line(
            #[trigger] lines[i],
        ) by {
            assert(lines[i] == encode(entries[i]));
        }
    }
    lemma_lines_of_spool(lines);
}

/// A spool is split into the lines it was made from, and has a line feed for each.
proof fn lemma_lines_of_spool(lines: Seq<Seq<char>>)
    requires
        qso_queue::are_spool_lines(lines),
    ensures
        text::lines(qso_queue::spool_text(lines)) == lines,
        qso_queue::spool_text(lines).filter(|c: char| c == '\n').len() == lines.len(),
    decreases lines.len(),
{
    let feed = |c: char| c == '\n';
    reveal(Seq::filter);
    if lines.len() > 0 {
        let line = lines[0];
        let tail = lines.skip(1);
        assert(qso_queue::is_spool_line(line));
        assert(qso_queue::are_spool_lines(tail)) by {
            assert forall|i: int| 0 <= i < tail.len() implies qso_queue::is_spool_line(
                #[trigger] tail[i],
            ) by {
                assert(tail[i] == lines[i + 1]);
            }
        }
        lemma_lines_of_spool(tail);
        let rest = qso_queue::spool_text(tail);
        let all = line + seq!['\n'] + rest;
        text::first_index_unique(all, '\n', 0, line.len() as int);
        assert(all.take(line.len() as int) == line);
        assert(all.skip(line.len() as int + 1) == rest);
        assert(lines == seq![line] + tail);
        lemma_no_feeds(line);
        Seq::filter_distributes_over_add(line + seq!['\n'], rest, feed);
        Seq::filter_distributes_over_add(line, seq!['\n'], feed);
        reveal_with_fuel(Seq::filter, 2);
        assert(seq!['\n'].drop_last() == Seq::<char>::empty());
        assert(seq!['\n'].filter(feed) == seq!['\n']);
    }
}

proof fn lemma_no_feeds(line: Seq<char>)
    requires
        forall|i: int| 0 <= i < line.len() ==> line[i] != '\n',
    ensures
        line.filter(|c: char| c == '\n').len() == 0,
    decreases line.len(),
{
    reveal(Seq::filter);
    if line.len() > 0 {
        assert(line[line.len() - 1] != '\n');
        lemma_no_feeds(line.drop_last());
    }
}

/// A rewrite that nothing goes wrong with creates the temporary file, writes and syncs it,
/// renames it over the spool, and syncs the directory where there is one; nothing more is
/// done after that.
pub proof fn rewrite_goes_step_by_step(lines: Seq<Seq<char>>, has_dir: bool)
    ensures
        ({
            let begun = begun_view(lines, has_dir);
            let (a, wrote) = step_ended(begun, None);
            let (b, synced) = step_ended(a, None);
            let (c, renamed) = step_ended(b, None);
            let (d, dir) = step_ended(c, None);
            let (e, done) = step_ended(d, None);
            &&& begun.contents == qso_queue::spool_text(lines)
            &&& wrote is Write && synced is SyncTemp && renamed is Rename
            &&& a.contents == begun.contents && b.contents == begun.contents && c.contents
                == begun.contents
            &&& has_dir ==> dir is SyncDir && done is Done && is_under_way(d) && !is_under_way(e)
            &&& !has_dir ==> dir is Done && !is_under_way(d)
            &&& is_under_way(begun) && is_under_way(a) && is_under_way(b) && is_under_way(c)
        }),
{
}

/// A step that fails ends the rewrite with its reason.
pub proof fn failed_steps_end_the_rewrite(r: RewritingView, why: Seq<char>)
    ensures
        step_ended(r, Some(why)).1 == RewriteActionView::Fail(QsoQueueErrorView::Io(why)),
        !is_under_way(step_ended(r, Some(why)).0),
        step_ended(r, Some(why)).0.contents == r.contents,
{
}

} // verus!
