//! The cloud sync: one copy process at a time, its log, and what is
//! reported of it.

use crate::db::copy_text;
use crate::storage::{newer_count, FileItemView, Timestamp};
use crate::text::{copy_texts, decimal, decimal_text, lemma_texts_push, text_of, texts};
use vstd::prelude::*;

verus! {

/// The most log lines that are kept before the oldest is dropped for a new one.
pub const LOG_LIMIT: usize = 100;

/// Whether a cloud sync is under way.
#[derive(Clone, Copy, Debug, PartialEq, Eq, Structural)]
pub enum SyncStatus {
    /// No sync is running, and the last one, if any, went well.
    Idle,
    /// A sync is running.
    Running,
    /// No sync is running, and the last one failed.
    Error,
}

impl SyncStatus {
    /// The word under which the status is reported.
    pub open spec fn name(self) -> Seq<char> {
        match self {
            SyncStatus::Idle => "idle"@,
            SyncStatus::Running => "running"@,
            SyncStatus::Error => "error"@,
        }
    }

    /// The word under which the status is reported.
    pub fn as_str(&self) -> (word: &'static str)
        ensures
            word@ == self.name(),
    {
        match self {
            SyncStatus::Idle => "idle",
            SyncStatus::Running => "running",
            SyncStatus::Error => "error",
        }
    }
}

/// The state of the cloud sync as it is reported.
#[derive(Debug, PartialEq, Eq)]
pub struct SyncState {
    pub status: SyncStatus,
    pub last_run: Option<Timestamp>,
    pub logs: Vec<String>,
    pub error: Option<String>,
    pub unsynced_count: usize,
}

/// The state of the cloud sync, as plain values.
pub ghost struct SyncStateView {
    pub status: SyncStatus,
    pub last_run: Option<Timestamp>,
    pub logs: Seq<Seq<char>>,
    pub error: Option<Seq<char>>,
    pub unsynced_count: nat,
}

impl View for SyncState {
    type V = SyncStateView;

    open spec fn view(&self) -> SyncStateView {
        SyncStateView {
            status: self.status,
            last_run: self.last_run,
            logs: texts(self.logs@),
            error: text_of(self.error),
            unsynced_count: self.unsynced_count as nat,
        }
    }
}

/// How the process of a sync ended.
#[derive(Debug, PartialEq, Eq)]
pub enum SyncExit {
    /// The process reported success.
    Success,
    /// The process ended with this exit code, if it had one.
    Failure(Option<i32>),
    /// The process could not be started or awaited.
    Error(String),
}

/// What was found of the marker file, which is written after each successful sync.
#[derive(Clone, Copy, Debug, PartialEq, Eq, Structural)]
pub enum MarkerFile {
    /// There is no marker file: no sync has succeeded yet.
    Absent,
    /// There is a marker file, but its modification time cannot be read.
    Unreadable,
    /// The marker file was last modified at this time.
    Modified(Timestamp),
}

impl SyncStateView {
    /// The state before the first sync.
    pub open spec fn idle() -> SyncStateView {
        SyncStateView {
            status: SyncStatus::Idle,
            last_run: None,
            logs: Seq::<Seq<char>>::empty(),
            error: None,
            unsynced_count: 0,
        }
    }

    /// The state once a sync to `destination` has started.
    pub open spec fn started(self, destination: Seq<char>) -> SyncStateView {
        SyncStateView {
            status: SyncStatus::Running,
            logs: seq!["Starting sync to "@ + destination + "..."@],
            error: None,
            ..self
        }
    }

    /// The state once the sync process has written `line`: the line is the
    /// newest of the log, and the oldest line is dropped if the log was over
    /// its limit.
    pub open spec fn logged(self, line: Seq<char>) -> SyncStateView {
        let kept = if self.logs.len() > LOG_LIMIT {
            self.logs.drop_first()
        } else {
            self.logs
        };
        SyncStateView { logs: kept.push(line), ..self }
    }

    /// The state once the sync process has ended with success; `marker` is
    /// the modification time of the marker file as written anew, if it can
    /// be read.
    pub open spec fn succeeded(self, marker: Option<Timestamp>) -> SyncStateView {
        SyncStateView {
            status: SyncStatus::Idle,
            logs: self.logs.push("Sync completed successfully."@),
            unsynced_count: 0,
            last_run: match marker {
                Some(t) => Some(t),
                None => self.last_run,
            },
            ..self
        }
    }

    /// The state once the sync process has ended with the exit code `code`.
    pub open spec fn failed(self, code: int) -> SyncStateView {
        let message = "Sync failed with exit code "@ + decimal_text(code);
        SyncStateView {
            status: SyncStatus::Error,
            error: Some(message),
            logs: self.logs.push(message),
            ..self
        }
    }

    /// The state once the sync process could not be run, for the reason `reason`.
    pub open spec fn broken(self, reason: Seq<char>) -> SyncStateView {
        SyncStateView {
            status: SyncStatus::Error,
            error: Some(reason),
            logs: self.logs.push("Process error: "@ + reason),
            ..self
        }
    }

    /// The state once the sync process has ended as `exit` says.
    pub open spec fn finished(self, exit: SyncExit, marker: Option<Timestamp>) -> SyncStateView {
        match exit {
            SyncExit::Success => self.succeeded(marker),
            SyncExit::Failure(Some(code)) => self.failed(code as int),
            SyncExit::Failure(None) => self.failed(-1),
            SyncExit::Error(reason) => self.broken(reason@),
        }
    }

    /// The state as it is reported, given what was found of the marker file
    /// and the indexed files. The marker's modification time is the time of
    /// the last successful sync, whoever wrote the file; without a marker
    /// every indexed file counts as not yet synced.
    pub open spec fn reported(
        self,
        marker: MarkerFile,
        files: Seq<FileItemView>,
    ) -> SyncStateView {
        match marker {
            MarkerFile::Modified(t) => SyncStateView {
                unsynced_count: newer_count(files, t),
                last_run: Some(t),
                ..self
            },
            MarkerFile::Absent => SyncStateView {
                unsynced_count: newer_count(files, Timestamp { secs: 0, nanos: 0 }),
                ..self
            },
            MarkerFile::Unreadable => self,
        }
    }
}

/// The log of a running sync stays within its bounds: a log of at most one
/// line over the limit is no longer after one more line, and the line that
/// came last is its newest.
pub proof fn lemma_log_stays_bounded(state: SyncStateView, line: Seq<char>)
    requires
        state.logs.len() <= LOG_LIMIT + 1,
    ensures
        state.logged(line).logs.len() <= LOG_LIMIT + 1,
        state.logged(line).logs.last() == line,
        state.logs.len() <= LOG_LIMIT ==> state.logged(line).logs == state.logs.push(line),
{
}

/// A sync that starts while none is running has one line in its log; and a
/// sync that is running is running after any number of lines.
pub proof fn lemma_sync_runs_until_it_ends(
    state: SyncStateView,
    destination: Seq<char>,
    line: Seq<char>,
)
    ensures
        state.started(destination).status == SyncStatus::Running,
        state.started(destination).logs.len() == 1,
        state.logged(line).status == state.status,
        state.logged(line).last_run == state.last_run,
        state.logged(line).error == state.error,
{
}

impl Clone for SyncState {
    fn clone(&self) -> (copy: SyncState)
        ensures
            copy@ == self@,
    {
        SyncState {
            status: self.status,
            last_run: self.last_run,
            logs: copy_texts(&self.logs),
            error: copy_text(&self.error),
            unsynced_count: self.unsynced_count,
        }
    }
}

impl Default for SyncState {
    fn default() -> (state: SyncState)
        ensures
            state@ == SyncStateView::idle(),
    {
        let state = SyncState {
            status: SyncStatus::Idle,
            last_run: None,
            logs: Vec::new(),
            error: None,
            unsynced_count: 0,
        };
        proof {
            assert(texts(state.logs@) =~= Seq::<Seq<char>>::empty());
        }
        state
    }
}

impl SyncState {
    /// Takes in one line that the sync process wrote.
    pub fn push_log(&mut self, line: String)
        ensures
            final(self)@ == old(self)@.logged(line@),
    {
        if self.logs.len() > LOG_LIMIT {
            let ghost before = self.logs@;
            self.logs.remove(0);
            proof {
                assert(texts(self.logs@) =~= texts(before).drop_first());
            }
        }
        let ghost kept = self.logs@;
        self.logs.push(line);
        proof {
            lemma_texts_push(kept, line);
        }
    }

    /// Records how the sync process ended.
    pub fn finish(&mut self, exit: SyncExit, marker: Option<Timestamp>)
        ensures
            final(self)@ == old(self)@.finished(exit, marker),
    {
        let ghost before = self.logs@;
        match exit {
            SyncExit::Success => {
                self.status = SyncStatus::Idle;
                let line: String = "Sync completed successfully.".to_owned();
                self.logs.push(line);
                self.unsynced_count = 0;
                if let Some(t) = marker {
                    self.last_run = Some(t);
                }
                proof {
                    lemma_texts_push(before, line);
                }
            },
            SyncExit::Failure(code) => {
                let code: i32 = match code {
                    Some(c) => c,
                    None => -1,
                };
                self.status = SyncStatus::Error;
                let mut message: String = "Sync failed with exit code ".to_owned();
                let number = decimal(code as i64);
                message.append(number.as_str());
                self.error = Some(message.clone());
                self.logs.push(message);
                proof {
                    lemma_texts_push(before, message);
                }
            },
            SyncExit::Error(reason) => {
                self.status = SyncStatus::Error;
                let mut line: String = "Process error: ".to_owned();
                line.append(reason.as_str());
                self.error = Some(reason);
                self.logs.push(line);
                proof {
                    lemma_texts_push(before, line);
                }
            },
        }
    }
}

/// What the start of a sync comes to.
#[derive(Debug, PartialEq, Eq)]
pub struct SyncStart {
    /// What to tell the one who asked.
    pub message: String,
    /// The command line to run, with the program first; `None` where a sync
    /// is running already and nothing is to be started.
    pub command: Option<Vec<String>>,
}

/// The command line of a sync of `data_dir` to `destination`, with the
/// program first. The files of the job store and the marker file stay behind.
pub open spec fn sync_arguments(data_dir: Seq<char>, destination: Seq<char>) -> Seq<Seq<char>> {
    seq![
        "rclone"@,
        "copy"@,
        data_dir,
        destination,
        "--ignore-existing"@,
        "--transfers=4"@,
        "--exclude"@,
        "jobs.sqlite*"@,
        "--exclude"@,
        ".last_sync"@,
        "-v"@,
    ]
}

/// The command line of a sync of `data_dir` to `destination`, with the program first.
pub fn sync_command(data_dir: &str, destination: &str) -> (command: Vec<String>)
    ensures
        texts(command@) == sync_arguments(data_dir@, destination@),
{
    let mut command: Vec<String> = Vec::new();
    command.push("rclone".to_owned());
    command.push("copy".to_owned());
    command.push(data_dir.to_owned());
    command.push(destination.to_owned());
    command.push("--ignore-existing".to_owned());
    command.push("--transfers=4".to_owned());
    command.push("--exclude".to_owned());
    command.push("jobs.sqlite*".to_owned());
    command.push("--exclude".to_owned());
    command.push(".last_sync".to_owned());
    command.push("-v".to_owned());
    proof {
        assert(texts(command@) =~= sync_arguments(data_dir@, destination@));
    }
    command
}

} // verus!
