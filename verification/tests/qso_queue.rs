use wavelog_relay::opening::{OpenAction, Opening};
use wavelog_relay::path::FilePath;
use wavelog_relay::qso_queue::{
    acquire_lock, corrupt_extension, has_next_seq, lock_path, write_spool, Decoded, Entry,
    LockAttempt, QsoQueue, QsoQueueError, Repair, ReplayEntries, Spool, MAX_QUEUE_LEN,
};
use wavelog_relay::rewriting::{RewriteAction, Rewriting};
use wavelog_relay::text::split_non_blank_lines;

/// The spool's line format, by hand.
fn encode(e: &Entry) -> String {
    let mut object = serde_json::Map::new();
    object.insert("seq".to_owned(), serde_json::Value::from(e.seq));
    object.insert("adif".to_owned(), serde_json::Value::from(e.adif.as_str()));
    object.insert("received_at".to_owned(), serde_json::Value::from(e.received_at));
    serde_json::Value::Object(object).to_string()
}

fn decode(line: &str) -> Decoded {
    let value: serde_json::Value = match serde_json::from_str(line) {
        Ok(v) => v,
        Err(e) => return Decoded::Malformed(format!("{e}")),
    };
    match (
        value["seq"].as_u64(),
        value["adif"].as_str(),
        value["received_at"].as_u64(),
    ) {
        (Some(seq), Some(adif), Some(received_at)) => Decoded::Entry(Entry {
            seq,
            adif: adif.to_owned(),
            received_at,
        }),
        _ => Decoded::Malformed("not an entry".to_owned()),
    }
}

/// A queue with its spool file in memory.
struct Disk {
    spool: Option<String>,
    set_aside: Vec<String>,
    reads: u32,
}

impl Disk {
    fn new(spool: Option<&str>) -> Disk {
        Disk {
            spool: spool.map(|s| s.to_owned()),
            set_aside: Vec::new(),
            reads: 0,
        }
    }

    fn rewrite(&mut self, entries: &[Entry]) {
        let lines: Vec<String> = entries.iter().map(encode).collect();
        self.spool = Some(write_spool(&lines));
    }

    /// Reads the spool.
    fn read(&self) -> Spool {
        match &self.spool {
            None => Spool::Missing,
            Some(text) => {
                Spool::Lines(split_non_blank_lines(text).iter().map(|l| decode(l)).collect())
            }
        }
    }

    /// Opens the queue at `path`, while the locks in `held` are held.
    fn open_at(
        &mut self,
        path: &str,
        held: &mut Vec<FilePath>,
    ) -> Result<(QsoQueue, ReplayEntries), QsoQueueError> {
        let (mut opening, mut action) = Opening::begin(FilePath::from_bytes(path.as_bytes()));
        loop {
            let next = match action {
                OpenAction::Lock(lock) => {
                    let attempt = if held.contains(&lock) {
                        LockAttempt::Held
                    } else {
                        held.push(lock);
                        LockAttempt::Acquired
                    };
                    opening.on_locked(attempt)
                }
                OpenAction::Read => {
                    self.reads += 1;
                    let spool = self.read();
                    assert!(has_next_seq(&spool));
                    opening.on_read(spool, 1234)
                }
                OpenAction::Rewrite => {
                    self.rewrite(opening.pending_entries());
                    opening.on_repaired(Ok(()))
                }
                OpenAction::SetAside { extension, why } => {
                    assert!(!why.is_empty());
                    assert_eq!(extension, "corrupt-1234");
                    let old = self.spool.take().unwrap();
                    self.set_aside.push(old);
                    opening.on_repaired(Ok(()))
                }
                OpenAction::Ready => return Ok(opening.finish().unwrap()),
                OpenAction::Fail(e) => return Err(e),
            };
            opening = next.0;
            action = next.1;
        }
    }

    fn open(&mut self) -> (QsoQueue, ReplayEntries) {
        self.open_at("/tmp/queue.jsonl", &mut Vec::new()).unwrap()
    }

    fn append(&mut self, queue: &mut QsoQueue, adif: &str) -> u64 {
        let pending = queue.begin_append(adif.to_owned(), 17);
        if pending.evicted == 0 {
            let mut text = self.spool.take().unwrap_or_default();
            text.push_str(&encode(&pending.entry));
            text.push('\n');
            self.spool = Some(text);
        } else {
            let entries = queue.entries_after(&pending);
            self.rewrite(&entries);
        }
        queue.commit_append(pending)
    }

    fn remove(&mut self, queue: &mut QsoQueue, seq: u64) {
        if queue.remove(seq) {
            self.rewrite(queue.entries());
        }
    }
}

#[test]
fn open_creates_empty_queue_when_file_absent() {
    let (queue, replay) = Disk::new(None).open();
    assert!(replay.is_empty());
    assert_eq!(queue.len(), 0);
    assert!(queue.is_empty());
    assert_eq!(queue.next_seq(), 1);
}

#[test]
fn append_then_remove_round_trips_through_disk() {
    let mut disk = Disk::new(None);
    let (mut queue, _) = disk.open();

    let seq1 = disk.append(&mut queue, "<CALL:3>K1B <EOR>");
    let seq2 = disk.append(&mut queue, "<CALL:3>K2B <EOR>");
    assert_ne!(seq1, seq2);
    assert_eq!(queue.len(), 2);

    // Re-open to confirm both landed on disk.
    let (mut reloaded, replay) = disk.open();
    assert_eq!(replay.len(), 2);
    let entries = replay.into_vec();
    assert_eq!(entries.len(), 2);
    assert_eq!(entries[0].0, seq1);
    assert_eq!(&*entries[0].1, "<CALL:3>K1B <EOR>");
    assert_eq!(entries[1].0, seq2);

    // Remove one and re-open: only the other survives.
    disk.remove(&mut reloaded, seq1);
    let (_, replay) = disk.open();
    let entries = replay.into_vec();
    assert_eq!(entries.len(), 1);
    assert_eq!(entries[0].0, seq2);
}

#[test]
fn entries_with_line_breaks_survive_the_spool() {
    let mut disk = Disk::new(None);
    let (mut queue, _) = disk.open();
    disk.append(&mut queue, "a\r\nb\n\u{2028}\"c\"");
    let (_, replay) = disk.open();
    assert_eq!(replay.into_vec(), vec![(1, "a\r\nb\n\u{2028}\"c\"".to_owned())]);
}

#[test]
fn replay_seq_continues_past_max_existing() {
    let mut disk = Disk::new(None);
    let (mut queue, _) = disk.open();
    let seq1 = disk.append(&mut queue, "a");
    let seq2 = disk.append(&mut queue, "b");

    let (mut reloaded, _) = disk.open();
    let seq3 = disk.append(&mut reloaded, "c");
    assert!(
        seq3 > seq2 && seq3 > seq1,
        "seq must continue monotonically: {seq1} {seq2} {seq3}",
    );
}

#[test]
fn corrupt_file_is_renamed_aside_and_queue_starts_empty() {
    let mut disk = Disk::new(Some("not json\n{also: not json\n"));
    let (queue, replay) = disk.open();
    assert!(replay.is_empty());
    assert_eq!(queue.len(), 0);
    assert_eq!(disk.set_aside.len(), 1, "corrupt file should have been renamed aside");
    assert!(corrupt_extension(1234).starts_with("corrupt-"));
    assert_eq!(corrupt_extension(1234), "corrupt-1234");
}

#[test]
fn cap_enforcement_drops_oldest_and_rewrites_disk() {
    let mut disk = Disk::new(None);
    let (mut queue, _) = disk.open();

    // Push exactly MAX + 5 entries; expect 5 oldest to be dropped.
    for i in 0..(MAX_QUEUE_LEN + 5) {
        disk.append(&mut queue, &format!("entry-{i}"));
    }
    assert_eq!(queue.len(), MAX_QUEUE_LEN);

    // Re-open to confirm disk reflects the cap.
    let (_, replay) = disk.open();
    let entries = replay.into_vec();
    assert_eq!(entries.len(), MAX_QUEUE_LEN);
    // Oldest survivor should be entry-5 (entries 0..5 dropped).
    assert_eq!(&*entries[0].1, "entry-5");
}

#[test]
fn an_overlong_spool_is_cut_down_by_the_next_append() {
    let mut lines = Vec::new();
    for i in 0..1003u64 {
        lines.push(encode(&Entry { seq: i, adif: format!("e{i}"), received_at: 0 }));
    }
    let mut disk = Disk::new(Some(&write_spool(&lines)));
    let (mut queue, replay) = disk.open();
    assert_eq!(replay.len(), 1003);
    disk.append(&mut queue, "new");
    assert_eq!(queue.len(), 1000);
    assert_eq!(queue.entries()[0].adif, "e4");
    assert_eq!(queue.entries()[999].adif, "new");
}

#[test]
fn remove_unknown_seq_is_noop() {
    let mut disk = Disk::new(None);
    let (mut queue, _) = disk.open();
    disk.append(&mut queue, "present");
    assert_eq!(queue.len(), 1);
    assert!(!queue.remove(9999));
    assert_eq!(queue.len(), 1);
}

#[test]
fn remove_undoes_append() {
    let mut disk = Disk::new(None);
    let (mut queue, _) = disk.open();
    disk.append(&mut queue, "a");
    let before = disk.spool.clone();
    let seq = disk.append(&mut queue, "b");
    disk.remove(&mut queue, seq);
    assert_eq!(disk.spool, before);
    assert_eq!(queue.len(), 1);
    // The number is not used again.
    assert_eq!(queue.next_seq(), seq + 1);
}

#[test]
fn open_drops_truncated_trailing_line_and_keeps_rest() {
    let good_a = r#"{"seq":1,"adif":"<EOR>","received_at":1}"#;
    let good_b = r#"{"seq":2,"adif":"<EOR>","received_at":2}"#;
    let truncated = r#"{"seq":3,"adif":"<E"#;
    let mut disk = Disk::new(Some(&format!("{good_a}\n{good_b}\n{truncated}")));

    let (queue, replay) = disk.open();
    let entries = replay.into_vec();
    assert_eq!(entries.len(), 2, "expected 2 surviving entries");
    assert_eq!(entries[0].0, 1);
    assert_eq!(entries[1].0, 2);
    assert_eq!(queue.len(), 2);
    assert!(
        disk.set_aside.is_empty(),
        "trailing-line truncation must not produce a corrupt-rename",
    );

    // File on disk should have been rewritten to drop the bad line.
    let on_disk = disk.spool.unwrap();
    let line_count = on_disk.lines().filter(|l| !l.trim().is_empty()).count();
    assert_eq!(
        line_count, 2,
        "file should have been rewritten to 2 lines: {on_disk}",
    );
    assert!(
        !on_disk.contains("\"seq\":3"),
        "truncated entry must be gone: {on_disk}",
    );
}

#[test]
fn open_treats_mid_file_corruption_as_corrupt() {
    let contents = format!(
        "{}\n{}\n{}\n",
        r#"{"seq":1,"adif":"<EOR>","received_at":1}"#,
        "not json at all",
        r#"{"seq":2,"adif":"<EOR>","received_at":2}"#,
    );
    let mut disk = Disk::new(Some(&contents));
    let (queue, replay) = disk.open();
    assert!(
        replay.is_empty(),
        "mid-file corruption must drop all entries"
    );
    assert_eq!(queue.len(), 0);
    assert_eq!(
        disk.set_aside,
        vec![contents],
        "mid-file corruption must produce a corrupt-rename sibling",
    );
}

#[test]
fn blank_lines_do_not_count() {
    let good = r#"{"seq":7,"adif":"x","received_at":1}"#;
    let mut disk = Disk::new(Some(&format!("\n  \r\n{good}\r\n\t\n")));
    let (queue, replay) = disk.open();
    assert_eq!(replay.into_vec(), vec![(7, "x".to_owned())]);
    assert_eq!(queue.next_seq(), 8);
    assert!(disk.set_aside.is_empty());
}

#[test]
fn an_unreadable_spool_is_an_error() {
    let err = QsoQueue::open(Spool::Unreadable("denied".to_owned())).unwrap_err_text();
    assert_eq!(err, "queue I/O error: denied");
}

trait UnwrapErrText {
    fn unwrap_err_text(self) -> String;
}

impl UnwrapErrText for Result<(QsoQueue, ReplayEntries, Repair), QsoQueueError> {
    fn unwrap_err_text(self) -> String {
        match self {
            Ok(_) => panic!("expected an error"),
            Err(e) => e.message(),
        }
    }
}

#[test]
fn open_fails_with_already_locked_when_a_second_queue_is_open() {
    let mut disk = Disk::new(Some("not json\nat all\n"));
    let mut held = Vec::new();
    let (_first, _) = disk.open_at("/tmp/queue.jsonl", &mut held).unwrap();
    disk.spool = Some("not json\nat all\n".to_owned());
    let (reads, moved) = (disk.reads, disk.set_aside.len());
    let err = match disk.open_at("/tmp/queue.jsonl", &mut held) {
        Ok(_) => panic!("a second queue was opened"),
        Err(e) => e,
    };
    assert!(
        matches!(err, QsoQueueError::AlreadyLocked(_)),
        "second open must fail with AlreadyLocked, got {err:?}",
    );
    assert_eq!(
        err.message(),
        "QSO queue is already locked by another process (lock file: /tmp/queue.jsonl.lock). \
         Is another wavelog-relay daemon already running against the same queue path?",
    );
    // The spool was neither read nor changed.
    assert_eq!((disk.reads, disk.set_aside.len()), (reads, moved));
    assert_eq!(disk.spool.as_deref(), Some("not json\nat all\n"));
    // Another queue is not hindered.
    assert!(disk.open_at("/tmp/other.jsonl", &mut held).is_ok());
}

#[test]
fn lock_releases_when_queue_is_dropped() {
    let mut disk = Disk::new(None);
    let mut held = Vec::new();
    let (mut first, _) = disk.open_at("/tmp/queue.jsonl", &mut held).unwrap();
    disk.append(&mut first, "a");
    assert!(disk.open_at("/tmp/queue.jsonl", &mut held).is_err());
    drop(first);
    held.clear();
    let (_, replay) = disk.open_at("/tmp/queue.jsonl", &mut held).unwrap();
    assert_eq!(replay.into_vec(), vec![(1, "a".to_owned())]);
}

#[test]
fn lock_attempts_are_judged() {
    let queue = FilePath::from_bytes(b"q");
    assert!(acquire_lock(LockAttempt::Acquired, &queue).is_ok());
    let err = acquire_lock(LockAttempt::Held, &queue).unwrap_err();
    assert!(matches!(err, QsoQueueError::AlreadyLocked(lock) if lock.bytes == b"q.lock"));
    let err = acquire_lock(LockAttempt::Failed("denied".to_owned()), &queue).unwrap_err();
    assert_eq!(err.message(), "queue I/O error: denied");
}

#[test]
fn lock_files_stand_beside_their_queues() {
    let lock = |path: &[u8]| lock_path(&FilePath::from_bytes(path)).bytes;
    assert_eq!(lock(b"/var/lib/queue.jsonl"), b"/var/lib/queue.jsonl.lock");
    assert_eq!(lock(b"queue"), b"queue.lock");
    assert_ne!(lock(b"queue.a"), lock(b"queue.b"));
}

#[test]
fn lock_files_that_are_not_utf8_are_shown_with_replacements() {
    let err = QsoQueueError::AlreadyLocked(FilePath::from_bytes(b"q\xff.lock"));
    assert_eq!(
        err.message(),
        "QSO queue is already locked by another process (lock file: q\u{fffd}.lock). \
         Is another wavelog-relay daemon already running against the same queue path?",
    );
}

#[test]
fn opening_stops_where_a_step_fails() {
    let begin = || Opening::begin(FilePath::from_bytes(b"q")).0;
    let (opening, action) = begin().on_locked(LockAttempt::Failed("no".to_owned()));
    assert!(matches!(action, OpenAction::Fail(QsoQueueError::Io(why)) if why == "no"));
    assert!(opening.finish().is_none());

    let (opening, action) = begin().on_locked(LockAttempt::Acquired);
    assert!(matches!(action, OpenAction::Read));
    let (opening, action) = opening.on_read(Spool::Unreadable("denied".to_owned()), 1);
    assert!(matches!(action, OpenAction::Fail(QsoQueueError::Io(why)) if why == "denied"));
    assert!(opening.finish().is_none());

    let (opening, _) = begin().on_locked(LockAttempt::Acquired);
    let (opening, action) = opening.on_read(Spool::Lines(vec![decode("{")]), 1);
    assert!(matches!(action, OpenAction::Rewrite));
    assert!(opening.pending_entries().is_empty());
    let (opening, action) = opening.on_repaired(Err(QsoQueueError::Serialize("bad".to_owned())));
    assert!(matches!(action, OpenAction::Fail(QsoQueueError::Serialize(why)) if why == "bad"));
    assert!(opening.finish().is_none());
}

#[test]
fn used_up_sequence_numbers_are_noticed() {
    let line = |seq: u64| Decoded::Entry(Entry { seq, adif: String::new(), received_at: 0 });
    let bad = || Decoded::Malformed("bad".to_owned());
    assert!(has_next_seq(&Spool::Missing));
    assert!(has_next_seq(&Spool::Lines(vec![line(u64::MAX - 1), bad()])));
    assert!(!has_next_seq(&Spool::Lines(vec![line(u64::MAX), line(1)])));
    // A corrupt spool is moved aside, whatever its numbers.
    assert!(has_next_seq(&Spool::Lines(vec![line(u64::MAX), bad(), line(1)])));
}

#[test]
fn many_operations_survive_a_restart() {
    let foreign = "{ \"seq\": 4, \"adif\": \"d\", \"received_at\": 0 }\r\n\n";
    let mut disk = Disk::new(Some(foreign));
    let (mut queue, _) = disk.open();
    for adif in ["e", "f", "g"] {
        disk.append(&mut queue, adif);
    }
    disk.remove(&mut queue, 6);
    disk.remove(&mut queue, 99);
    disk.append(&mut queue, "h");
    let held: Vec<(u64, String)> =
        queue.entries().iter().map(|e| (e.seq, e.adif.clone())).collect();
    let before = disk.spool.clone();
    let (reopened, replay) = disk.open();
    assert_eq!(disk.spool, before);
    assert_eq!(replay.into_vec(), held);
    assert_eq!(held.iter().map(|(seq, _)| *seq).collect::<Vec<_>>(), vec![4, 5, 7, 8]);
    assert_eq!(reopened.next_seq(), 9);
}

#[test]
fn a_cut_append_costs_that_entry_alone() {
    let mut disk = Disk::new(None);
    let (mut queue, _) = disk.open();
    disk.append(&mut queue, "a");
    let whole = disk.spool.clone().unwrap();
    disk.append(&mut queue, "b");
    let full = disk.spool.clone().unwrap();
    // All cuts but the one that leaves out the line feed alone.
    for at in whole.len()..full.len() - 1 {
        disk.spool = Some(full[..at].to_owned());
        let (_, replay) = disk.open();
        assert_eq!(replay.into_vec(), vec![(1, "a".to_owned())]);
        assert_eq!(disk.spool.as_ref(), Some(&whole));
    }
}

#[test]
fn serialization_errors_have_a_message() {
    assert_eq!(
        QsoQueueError::Serialize("bad".to_owned()).message(),
        "queue serialization error: bad",
    );
}

#[test]
fn a_failed_write_leaves_the_queue_as_it_was() {
    let mut disk = Disk::new(None);
    let (mut queue, _) = disk.open();
    disk.append(&mut queue, "a");
    let pending = queue.begin_append("b".to_owned(), 2);
    assert_eq!(pending.entry.seq, 2);
    drop(pending);
    assert_eq!(queue.len(), 1);
    assert_eq!(disk.append(&mut queue, "c"), 3);
    assert_eq!(queue.len(), 2);
}

#[test]
fn default_replay_is_empty() {
    assert!(ReplayEntries::default().is_empty());
}

/// The spool and the temporary file while the spool is written anew, with a look
/// at them at every moment.
struct Files {
    spool: Option<String>,
    temp: Option<String>,
    seen: Vec<Option<String>>,
}

impl Files {
    /// Writes the lines, character by character; step number `fails_at` fails.
    fn rewrite(&mut self, lines: &[&str], fails_at: usize) -> Result<(), QsoQueueError> {
        let lines = lines.iter().map(|l| (*l).to_owned()).collect();
        let (mut rewriting, mut action) = Rewriting::begin(Ok(lines), true);
        let mut step = 0;
        loop {
            let failing = step == fails_at;
            match action {
                RewriteAction::CreateTemp => self.temp = Some(String::new()),
                RewriteAction::Write => {
                    let mut text = rewriting.contents().chars();
                    while let Some(c) = text.next() {
                        if failing && text.as_str().len() < 3 {
                            break;
                        }
                        self.temp.as_mut().unwrap().push(c);
                        self.seen.push(self.spool.clone());
                    }
                }
                RewriteAction::SyncTemp | RewriteAction::SyncDir => {}
                RewriteAction::Rename => {
                    if !failing {
                        self.spool = self.temp.take();
                    }
                }
                RewriteAction::Done => return Ok(()),
                RewriteAction::Fail(e) => return Err(e),
            }
            self.seen.push(self.spool.clone());
            action = rewriting.on_step_ended(if failing { Err("io".to_owned()) } else { Ok(()) });
            step += 1;
        }
    }
}

#[test]
fn a_rewrite_leaves_the_old_spool_or_the_new_one() {
    let old = Some("old\n".to_owned());
    let new = Some("a\nb\n".to_owned());
    for fails_at in 0..6 {
        let mut files = Files { spool: old.clone(), temp: Some("junk".to_owned()), seen: Vec::new() };
        let result = files.rewrite(&["a", "b"], fails_at);
        assert!(files.seen.iter().all(|s| *s == old || *s == new));
        if fails_at < 5 {
            assert_eq!(result.unwrap_err().message(), "queue I/O error: io");
        } else {
            assert!(result.is_ok());
        }
        // Creating, writing, syncing and renaming come before the swap.
        assert_eq!(files.spool, if fails_at < 4 { old.clone() } else { new.clone() });
    }
}

#[test]
fn a_rewrite_without_a_directory_ends_with_the_rename() {
    let (mut rewriting, action) = Rewriting::begin(Ok(Vec::new()), false);
    assert!(matches!(action, RewriteAction::CreateTemp));
    assert_eq!(rewriting.contents(), "");
    assert!(matches!(rewriting.on_step_ended(Ok(())), RewriteAction::Write));
    assert!(matches!(rewriting.on_step_ended(Ok(())), RewriteAction::SyncTemp));
    assert!(matches!(rewriting.on_step_ended(Ok(())), RewriteAction::Rename));
    assert!(matches!(rewriting.on_step_ended(Ok(())), RewriteAction::Done));
}

#[test]
fn a_rewrite_touches_no_file_where_an_entry_is_not_writable() {
    let (_, action) = Rewriting::begin(Err("bad".to_owned()), true);
    assert!(matches!(action, RewriteAction::Fail(QsoQueueError::Serialize(why)) if why == "bad"));
}

#[test]
fn rewritten_entries_read_back_with_quotes_and_line_breaks() {
    let entries: Vec<Entry> = ["a\nb", "\"q\"\r\n", "\\\u{2028}\t", ""]
        .iter()
        .enumerate()
        .map(|(i, adif)| Entry { seq: i as u64 + 1, adif: (*adif).to_owned(), received_at: 3 })
        .collect();
    let (rewriting, _) = Rewriting::begin(Ok(entries.iter().map(encode).collect()), true);
    let text = rewriting.contents().to_owned();
    assert_eq!(text.matches('\n').count(), entries.len());
    assert!(text.ends_with('\n'));
    let mut disk = Disk::new(Some(&text));
    let (_, replay) = disk.open();
    assert_eq!(disk.spool.as_ref(), Some(&text));
    let expected: Vec<(u64, String)> = entries.into_iter().map(|e| (e.seq, e.adif)).collect();
    assert_eq!(replay.into_vec(), expected);
}
