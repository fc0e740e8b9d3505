//! The download queue: the pending jobs in the order of their submission,
//! the registry of the running ones, and the ceiling on how many run at
//! once. The queue also keeps the state of the cloud sync and where it
//! copies to.

use crate::clock::now_millis;
use crate::db::{job_views, Job, JobStatus, JobView};
use crate::registry::{
    cancel_token, new_token, registered, registry_insert, registry_len, registry_new,
    registry_remove, registry_token, share_token,
};
use crate::runner::{outcome_view, RunFailure, RunFailureView};
use crate::storage::{get_today_folder, FileIndex, Timestamp, DATA_ROOT};
use crate::sync::{
    sync_arguments, sync_command, MarkerFile, SyncExit, SyncStart, SyncState, SyncStateView,
    SyncStatus,
};
use crate::text::{join_path, joined, lemma_texts_push, same_text, text_of, texts};
use dashmap::DashMap;
use std::collections::VecDeque;
use tokio_util::sync::CancellationToken;
use vstd::prelude::*;

verus! {

/// The number of jobs that run at once unless the ceiling is set otherwise.
pub const DEFAULT_MAX_CONCURRENT: usize = 2;

/// `ids` without every occurrence of `id`; the other entries keep their order.
pub open spec fn without_all(ids: Seq<Seq<char>>, id: Seq<char>) -> Seq<Seq<char>>
    decreases ids.len(),
{
    if ids.len() == 0 {
        Seq::<Seq<char>>::empty()
    } else if ids.last() == id {
        without_all(ids.drop_last(), id)
    } else {
        without_all(ids.drop_last(), id).push(ids.last())
    }
}

/// `pending` with each of `ids` that it does not hold yet behind it, in the order of `ids`.
pub open spec fn merged_unique(pending: Seq<Seq<char>>, ids: Seq<Seq<char>>) -> Seq<Seq<char>>
    decreases ids.len(),
{
    if ids.len() == 0 {
        pending
    } else {
        let before = merged_unique(pending, ids.drop_last());
        if before.contains(ids.last()) {
            before
        } else {
            before.push(ids.last())
        }
    }
}

/// The identifiers of the jobs of `jobs` that are queued, in the order of `jobs`.
pub open spec fn queued_ids(jobs: Seq<JobView>) -> Seq<Seq<char>>
    decreases jobs.len(),
{
    if jobs.len() == 0 {
        Seq::<Seq<char>>::empty()
    } else if jobs.last().status == JobStatus::Queued {
        queued_ids(jobs.drop_last()).push(jobs.last().id)
    } else {
        queued_ids(jobs.drop_last())
    }
}

/// How often `id` occurs in `ids`.
pub open spec fn occurrences(ids: Seq<Seq<char>>, id: Seq<char>) -> nat
    decreases ids.len(),
{
    if ids.len() == 0 {
        0
    } else if ids.last() == id {
        occurrences(ids.drop_last(), id) + 1
    } else {
        occurrences(ids.drop_last(), id)
    }
}

/// Whether the store's record allows the job `candidate` to start: there is
/// a record, it is the candidate's, and the job is still queued.
pub open spec fn runnable(record: Option<JobView>, candidate: Seq<char>) -> bool {
    record matches Some(job) && job.id == candidate && job.status == JobStatus::Queued
}

/// The scheduler's state: the pending jobs, oldest first; the running jobs;
/// and the ceiling on their number.
pub ghost struct Scheduler {
    pub pending: Seq<Seq<char>>,
    pub active: Set<Seq<char>>,
    pub ceiling: nat,
}

impl Scheduler {
    /// The state of a new queue.
    pub open spec fn initial() -> Scheduler {
        Scheduler {
            pending: Seq::<Seq<char>>::empty(),
            active: Set::<Seq<char>>::empty(),
            ceiling: DEFAULT_MAX_CONCURRENT as nat,
        }
    }

    /// The running jobs can be counted, and at least one job may run.
    pub open spec fn well_formed(self) -> bool {
        self.active.finite() && self.ceiling >= 1
    }

    /// No more jobs run than the ceiling allows.
    pub open spec fn within_ceiling(self) -> bool {
        self.active.len() <= self.ceiling
    }

    /// The state once `id` was put at the end of the queue.
    pub open spec fn enqueued(self, id: Seq<char>) -> Scheduler {
        Scheduler { pending: self.pending.push(id), ..self }
    }

    /// The state once cancellation of `id` was asked for: a running job stays
    /// registered until its run has ended; a job that is not running leaves
    /// the queue, wherever and however often it stood there.
    pub open spec fn cancelled(self, id: Seq<char>) -> Scheduler {
        if self.active.contains(id) {
            self
        } else {
            Scheduler { pending: without_all(self.pending, id), ..self }
        }
    }

    /// Whether a slot is free and a job is waiting for it.
    pub open spec fn ready(self) -> bool {
        self.active.len() < self.ceiling && self.pending.len() > 0
    }

    /// The state once the scheduler has dealt with `candidate`. Unless a slot
    /// is free and `candidate` is at the head of the queue, nothing changes.
    /// Otherwise the head leaves the queue; and it runs if `start` says so
    /// and it does not run already, so that no job has two runs at a time.
    pub open spec fn dispatched(self, candidate: Seq<char>, start: bool) -> Scheduler {
        if !(self.ready() && self.pending[0] == candidate) {
            self
        } else if start && !self.active.contains(candidate) {
            Scheduler {
                pending: self.pending.drop_first(),
                active: self.active.insert(candidate),
                ..self
            }
        } else {
            Scheduler { pending: self.pending.drop_first(), ..self }
        }
    }

    /// The state once the run of `id` has ended.
    pub open spec fn completed(self, id: Seq<char>) -> Scheduler {
        Scheduler { active: self.active.remove(id), ..self }
    }

    /// The state once the queued jobs `ids` of the store were taken in after a start.
    pub open spec fn restored(self, ids: Seq<Seq<char>>) -> Scheduler {
        Scheduler { pending: merged_unique(self.pending, ids), ..self }
    }

    /// The state once the ceiling `n` was asked for; 0 is not taken.
    pub open spec fn with_ceiling(self, n: nat) -> Scheduler {
        if n > 0 {
            Scheduler { ceiling: n, ..self }
        } else {
            self
        }
    }
}

/// A job that the scheduler has started: its record as it now stands, and
/// the handle through which its run learns of a cancellation.
#[derive(Debug)]
pub struct DownloadTask {
    pub job: Job,
    pub token: CancellationToken,
}

/// What the scheduler did with a candidate.
#[derive(Debug)]
pub enum Dispatch {
    /// Nothing: no slot is free, or no job is pending. The pass is over.
    Idle,
    /// Nothing: the candidate is not at the head of the queue. Ask for the head again.
    Stale,
    /// The candidate left the queue without starting, since the store no
    /// longer has it as queued, or since it runs already.
    Skipped,
    /// The candidate left the queue and runs.
    Started(DownloadTask),
}

/// What the end of a run means for the store and for the file index.
#[derive(Debug, PartialEq, Eq)]
pub struct Completion {
    /// The job's record as it is to be stored, if the store still has the job.
    pub update: Option<Job>,
    /// The path of the file that the run produced, for the file index.
    pub produced: Option<String>,
}

/// What the end of a run means for the store and for the file index, as plain values.
pub ghost struct CompletionView {
    pub update: Option<JobView>,
    pub produced: Option<Seq<char>>,
}

/// What an optional job holds, as plain values.
pub open spec fn job_of(job: Option<Job>) -> Option<JobView> {
    match job {
        Some(j) => Some(j@),
        None => None,
    }
}

impl View for Completion {
    type V = CompletionView;

    open spec fn view(&self) -> CompletionView {
        CompletionView { update: job_of(self.update), produced: text_of(self.produced) }
    }
}

/// What follows from a run that ended at time `now` with `outcome`, for the
/// job whose record is `record`, where `folder` is today's folder. On
/// success the job is done under the file's name, and the file in today's
/// folder goes to the index. After a cancellation the job has failed with
/// the reason "Cancelled"; after any other failure, with the failure's own
/// words. A job that has left the store gets no record.
pub open spec fn settled(
    outcome: Result<Seq<char>, RunFailureView>,
    record: Option<JobView>,
    now: int,
    folder: Seq<char>,
) -> CompletionView {
    match outcome {
        Ok(name) => CompletionView {
            update: match record {
                Some(job) => Some(job.done(name, now)),
                None => None,
            },
            produced: Some(joined(folder, name)),
        },
        Err(RunFailureView::Cancelled) => CompletionView {
            update: match record {
                Some(job) => Some(job.failed("Cancelled"@, now)),
                None => None,
            },
            produced: None,
        },
        Err(failure) => CompletionView {
            update: match record {
                Some(job) => Some(job.failed(failure.message(), now)),
                None => None,
            },
            produced: None,
        },
    }
}

/// Settles what follows from a run that ended at time `now` with `outcome`.
pub fn settle(
    outcome: Result<String, RunFailure>,
    record: Option<Job>,
    now: i64,
    folder: &str,
) -> (completion: Completion)
    ensures
        completion@ == settled(outcome_view(outcome), job_of(record), now as int, folder@),
{
    match outcome {
        Ok(name) => {
            let produced = join_path(folder, name.as_str());
            let update = match record {
                Some(mut job) => {
                    job.mark_done(name.as_str(), now);
                    Some(job)
                },
                None => None,
            };
            Completion { update, produced: Some(produced) }
        },
        Err(failure) => {
            let reason: String = match &failure {
                RunFailure::Cancelled => "Cancelled".to_owned(),
                _ => failure.message(),
            };
            let update = match record {
                Some(mut job) => {
                    job.mark_failed(reason.as_str(), now);
                    Some(job)
                },
                None => None,
            };
            Completion { update, produced: None }
        },
    }
}

/// The download queue.
pub struct DownloadQueue {
    queue: VecDeque<String>,
    active_jobs: DashMap<String, CancellationToken>,
    max_concurrent: usize,
    sync_destination: String,
    sync_state: SyncState,
}

/// What the download queue holds, as plain values.
pub ghost struct QueueView {
    pub scheduler: Scheduler,
    pub sync_destination: Seq<char>,
    pub sync: SyncStateView,
}

impl View for DownloadQueue {
    type V = QueueView;

    closed spec fn view(&self) -> QueueView {
        QueueView {
            scheduler: Scheduler {
                pending: texts(self.queue@),
                active: registered(self.active_jobs),
                ceiling: self.max_concurrent as nat,
            },
            sync_destination: self.sync_destination@,
            sync: self.sync_state@,
        }
    }
}

impl DownloadQueue {
    /// The running jobs can be counted, and at least one job may run.
    pub open spec fn well_formed(&self) -> bool {
        self@.scheduler.well_formed()
    }

    /// A queue without jobs, with the default ceiling, no sync destination
    /// and no sync run yet.
    pub fn new() -> (queue: DownloadQueue)
        ensures
            queue.well_formed(),
            queue@ == (QueueView {
                scheduler: Scheduler::initial(),
                sync_destination: Seq::<char>::empty(),
                sync: SyncStateView::idle(),
            }),
    {
        let queue = DownloadQueue {
            queue: VecDeque::new(),
            active_jobs: registry_new(),
            max_concurrent: DEFAULT_MAX_CONCURRENT,
            sync_destination: String::new(),
            sync_state: SyncState::default(),
        };
        proof {
            assert(texts(queue.queue@) =~= Seq::<Seq<char>>::empty());
        }
        queue
    }

    /// Whether `id` is in the queue.
    fn is_pending(&self, id: &String) -> (found: bool)
        ensures
            found == self@.scheduler.pending.contains(id@),
    {
        let n: usize = self.queue.len();
        let ghost pending = texts(self.queue@);
        let mut i: usize = 0;
        while i < n
            invariant
                i <= n,
                n == self.queue@.len(),
                pending == texts(self.queue@),
                forall|k: int| 0 <= k < i ==> pending[k] != id@,
            decreases n - i,
        {
            proof {
                assert(pending[i as int] == self.queue@[i as int]@);
            }
            if self.queue[i] == *id {
                return true;
            }
            i = i + 1;
        }
        false
    }

    /// Takes in the jobs that the store holds after a start: each job of
    /// `jobs` that is queued goes to the end of the queue, in the order of
    /// `jobs`, unless the queue holds it already. No job starts.
    pub fn load_initial_state(&mut self, jobs: &Vec<Job>)
        requires
            old(self).well_formed(),
        ensures
            final(self).well_formed(),
            final(self)@ == (QueueView {
                scheduler: old(self)@.scheduler.restored(queued_ids(job_views(jobs@))),
                ..old(self)@
            }),
    {
        let n: usize = jobs.len();
        let ghost all = job_views(jobs@);
        let mut i: usize = 0;
        proof {
            assert(all.take(0) =~= Seq::<JobView>::empty());
        }
        while i < n
            invariant
                i <= n,
                n == jobs.len(),
                all == job_views(jobs@),
                self@ == (QueueView {
                    scheduler: old(self)@.scheduler.restored(queued_ids(all.take(i as int))),
                    ..old(self)@
                }),
            decreases n - i,
        {
            let ghost seen = queued_ids(all.take(i as int));
            proof {
                assert(all.take(i + 1).drop_last() =~= all.take(i as int));
                assert(all.take(i + 1).last() == jobs@[i as int]@);
            }
            if jobs[i].status == JobStatus::Queued {
                proof {
                    assert(seen.push(jobs@[i as int]@.id).drop_last() =~= seen);
                }
                if !self.is_pending(&jobs[i].id) {
                    let ghost before = self.queue@;
                    let id = jobs[i].id.clone();
                    self.queue.push_back(id);
                    proof {
                        lemma_texts_push(before, id);
                    }
                }
            }
            i = i + 1;
        }
        proof {
            assert(all.take(n as int) =~= all);
        }
    }

    /// Puts a job that the store has taken in at the end of the queue.
    pub fn add_job(&mut self, job: &Job)
        requires
            old(self).well_formed(),
        ensures
            final(self).well_formed(),
            final(self)@ == (QueueView {
                scheduler: old(self)@.scheduler.enqueued(job@.id),
                ..old(self)@
            }),
    {
        let ghost before = self.queue@;
        let id = job.id.clone();
        self.queue.push_back(id);
        proof {
            lemma_texts_push(before, id);
        }
    }
}

/// A list without every occurrence of `id` holds what the list holds, but for `id`.
pub proof fn lemma_without_all_holds(ids: Seq<Seq<char>>, id: Seq<char>, other: Seq<char>)
    ensures
        without_all(ids, id).contains(other) <==> ids.contains(other) && other != id,
    decreases ids.len(),
{
    if ids.len() > 0 {
        let rest = ids.drop_last();
        let kept = without_all(rest, id);
        lemma_without_all_holds(rest, id, other);
        assert(ids[ids.len() - 1] == ids.last());
        if rest.contains(other) {
            let k = choose|k: int| 0 <= k < rest.len() && rest[k] == other;
            assert(ids[k] == other);
        }
        if ids.contains(other) && ids.last() != other {
            let k = choose|k: int| 0 <= k < ids.len() && ids[k] == other;
            assert(rest[k] == other);
        }
        if ids.last() != id {
            let all = kept.push(ids.last());
            assert(all[all.len() - 1] == ids.last());
            if kept.contains(other) {
                let k = choose|k: int| 0 <= k < kept.len() && kept[k] == other;
                assert(all[k] == other);
            }
            if all.contains(other) && ids.last() != other {
                let k = choose|k: int| 0 <= k < all.len() && all[k] == other;
                assert(kept[k] == other);
            }
        }
    }
}

impl DownloadQueue {
    /// Asks for the cancellation of the job `id`. If the job runs, its run
    /// is asked to stop, and the job stays registered until the run has
    /// ended. Otherwise the job leaves the queue, wherever and however often
    /// it stands there, so that it is pending no more; the other jobs keep
    /// their order.
    pub fn cancel_job(&mut self, id: &str)
        requires
            old(self).well_formed(),
        ensures
            final(self).well_formed(),
            final(self)@ == (QueueView {
                scheduler: old(self)@.scheduler.cancelled(id@),
                ..old(self)@
            }),
            old(self)@.scheduler.active.contains(id@) || !final(self)@.scheduler.pending.contains(
                id@,
            ),
    {
        if let Some(token) = registry_token(&self.active_jobs, id) {
            cancel_token(&token);
            return ;
        }
        let n: usize = self.queue.len();
        let ghost pending = texts(self.queue@);
        let mut kept: VecDeque<String> = VecDeque::new();
        let mut i: usize = 0;
        proof {
            assert(pending.take(0) =~= Seq::<Seq<char>>::empty());
            assert(texts(kept@) =~= Seq::<Seq<char>>::empty());
        }
        while i < n
            invariant
                i <= n,
                n == self.queue@.len(),
                pending == texts(self.queue@),
                texts(kept@) == without_all(pending.take(i as int), id@),
            decreases n - i,
        {
            proof {
                assert(pending.take(i + 1).drop_last() =~= pending.take(i as int));
                assert(pending.take(i + 1).last() == self.queue@[i as int]@);
            }
            if !same_text(self.queue[i].as_str(), id) {
                let ghost before = kept@;
                let other = self.queue[i].clone();
                kept.push_back(other);
                proof {
                    lemma_texts_push(before, other);
                }
            }
            i = i + 1;
        }
        proof {
            assert(pending.take(n as int) =~= pending);
            lemma_without_all_holds(pending, id@, id@);
        }
        self.queue = kept;
    }

    /// Puts a failed job back in the queue. `found` is the store's record of
    /// the job, if it has one. Returns the record as it is to be stored:
    /// queued again, with one more retry counted. Nothing happens, and
    /// `None` is returned, if the store has no such job or the counter is
    /// at its limit.
    pub fn retry_job(&mut self, found: Option<Job>) -> (updated: Option<Job>)
        requires
            old(self).well_formed(),
        ensures
            final(self).well_formed(),
            match found {
                Some(job) if job.retries < i64::MAX => {
                    &&& job_of(updated) == Some(job@.requeued())
                    &&& final(self)@ == (QueueView {
                        scheduler: old(self)@.scheduler.enqueued(job@.id),
                        ..old(self)@
                    })
                },
                _ => updated is None && final(self)@ == old(self)@,
            },
    {
        match found {
            Some(mut job) => {
                if job.retries < i64::MAX {
                    job.increment_retry();
                    self.add_job(&job);
                    Some(job)
                } else {
                    None
                }
            },
            None => None,
        }
    }

    /// Puts a job back in the queue to fetch its file again, whatever its
    /// status. `found` is the store's record of the job, if it has one.
    /// Returns the record as it is to be stored: queued again, with one more
    /// retry counted. Nothing happens, and `None` is returned, if the store
    /// has no such job or the counter is at its limit.
    pub fn redownload_job(&mut self, found: Option<Job>) -> (updated: Option<Job>)
        requires
            old(self).well_formed(),
        ensures
            final(self).well_formed(),
            match found {
                Some(job) if job.retries < i64::MAX => {
                    &&& job_of(updated) == Some(job@.requeued())
                    &&& final(self)@ == (QueueView {
                        scheduler: old(self)@.scheduler.enqueued(job@.id),
                        ..old(self)@
                    })
                },
                _ => updated is None && final(self)@ == old(self)@,
            },
    {
        match found {
            Some(mut job) => {
                if job.retries < i64::MAX {
                    job.redownload_job();
                    self.add_job(&job);
                    Some(job)
                } else {
                    None
                }
            },
            None => None,
        }
    }

    /// Sets the ceiling on the number of running jobs. It holds for the jobs
    /// that start from now on: no running job is stopped. A ceiling of 0 is
    /// not taken. Returns whether the ceiling was taken.
    pub fn set_max_concurrent(&mut self, limit: usize) -> (taken: bool)
        requires
            old(self).well_formed(),
        ensures
            final(self).well_formed(),
            taken == (limit > 0),
            final(self)@ == (QueueView {
                scheduler: old(self)@.scheduler.with_ceiling(limit as nat),
                ..old(self)@
            }),
    {
        if limit > 0 {
            self.max_concurrent = limit;
            true
        } else {
            false
        }
    }

    /// The ceiling on the number of running jobs.
    pub fn get_max_concurrent(&self) -> (limit: usize)
        ensures
            limit == self@.scheduler.ceiling,
    {
        self.max_concurrent
    }

    /// The number of running jobs.
    pub fn active_count(&self) -> (count: usize)
        ensures
            count == self@.scheduler.active.len(),
    {
        registry_len(&self.active_jobs)
    }

    /// The number of pending jobs.
    pub fn pending_count(&self) -> (count: usize)
        ensures
            count == self@.scheduler.pending.len(),
    {
        self.queue.len()
    }

    /// The pending jobs, oldest first.
    pub fn pending_jobs(&self) -> (ids: Vec<String>)
        ensures
            texts(ids@) == self@.scheduler.pending,
    {
        let mut ids: Vec<String> = Vec::new();
        let n: usize = self.queue.len();
        let ghost pending = texts(self.queue@);
        let mut i: usize = 0;
        while i < n
            invariant
                i <= n,
                n == self.queue@.len(),
                pending == texts(self.queue@),
                texts(ids@) == pending.take(i as int),
            decreases n - i,
        {
            let ghost before = ids@;
            let id = self.queue[i].clone();
            ids.push(id);
            proof {
                lemma_texts_push(before, id);
                assert(pending.take(i + 1) =~= pending.take(i as int).push(self.queue@[i as int]@));
            }
            i = i + 1;
        }
        proof {
            assert(pending.take(n as int) =~= pending);
        }
        ids
    }

    /// Whether the job `id` runs.
    pub fn is_active(&self, id: &str) -> (active: bool)
        ensures
            active == self@.scheduler.active.contains(id@),
    {
        registry_token(&self.active_jobs, id).is_some()
    }

    /// Sets where the cloud sync copies to.
    pub fn set_sync_destination(&mut self, destination: String)
        ensures
            final(self)@ == (QueueView { sync_destination: destination@, ..old(self)@ }),
    {
        self.sync_destination = destination;
    }

    /// Where the cloud sync copies to.
    pub fn get_sync_destination(&self) -> (destination: String)
        ensures
            destination@ == self@.sync_destination,
    {
        self.sync_destination.clone()
    }
}

impl DownloadQueue {
    /// The job that the scheduler deals with next: the head of the queue,
    /// if a slot is free. The caller reads the job's record from the store
    /// and hands both to `process_next`.
    pub fn next_candidate(&self) -> (candidate: Option<String>)
        requires
            self.well_formed(),
        ensures
            text_of(candidate) == if self@.scheduler.ready() {
                Some(self@.scheduler.pending[0])
            } else {
                None
            },
    {
        if registry_len(&self.active_jobs) >= self.max_concurrent {
            return None;
        }
        if self.queue.len() == 0 {
            return None;
        }
        proof {
            assert(texts(self.queue@)[0] == self.queue@[0]@);
        }
        Some(self.queue[0].clone())
    }

    /// Registers `job`, which does not run yet, as running and marks it as
    /// downloading from now on.
    fn start_download_task(&mut self, job: Job) -> (task: DownloadTask)
        requires
            old(self).well_formed(),
            !old(self)@.scheduler.active.contains(job@.id),
        ensures
            final(self).well_formed(),
            task.job@.started_at is Some,
            task.job@ == job@.downloading(task.job@.started_at->0),
            final(self)@ == (QueueView {
                scheduler: Scheduler {
                    active: old(self)@.scheduler.active.insert(job@.id),
                    ..old(self)@.scheduler
                },
                ..old(self)@
            }),
    {
        let token = new_token();
        let shared = share_token(&token);
        registry_insert(&mut self.active_jobs, job.id.clone(), token);
        let mut job = job;
        job.mark_downloading(now_millis());
        DownloadTask { job, token: shared }
    }

    /// Deals with `candidate`, of which `record` is what the store holds
    /// now. Nothing happens unless a slot is free and `candidate` is at the
    /// head of the queue. Otherwise it leaves the queue; and it starts if
    /// the store still has it as queued, since it may have been cancelled or
    /// deleted while it waited, and if it does not run already, since a job
    /// has one run and one handle at a time. A job that starts is registered
    /// as running, and its record, marked as downloading, is returned for
    /// the store, with the handle for its run.
    pub fn process_next(&mut self, candidate: &str, record: Option<Job>) -> (step: Dispatch)
        requires
            old(self).well_formed(),
        ensures
            final(self).well_formed(),
            final(self)@ == (QueueView {
                scheduler: old(self)@.scheduler.dispatched(
                    candidate@,
                    runnable(job_of(record), candidate@),
                ),
                ..old(self)@
            }),
            old(self)@.scheduler.within_ceiling() ==> final(self)@.scheduler.within_ceiling(),
            match step {
                Dispatch::Idle => !old(self)@.scheduler.ready(),
                Dispatch::Stale => old(self)@.scheduler.ready() && old(self)@.scheduler.pending[0]
                    != candidate@,
                Dispatch::Skipped => {
                    &&& old(self)@.scheduler.ready()
                    &&& old(self)@.scheduler.pending[0] == candidate@
                    &&& (old(self)@.scheduler.active.contains(candidate@) || !runnable(
                        job_of(record),
                        candidate@,
                    ))
                    &&& final(self)@.scheduler.active == old(self)@.scheduler.active
                },
                Dispatch::Started(task) => {
                    &&& old(self)@.scheduler.ready()
                    &&& old(self)@.scheduler.pending[0] == candidate@
                    &&& runnable(job_of(record), candidate@)
                    &&& !old(self)@.scheduler.active.contains(candidate@)
                    &&& final(self)@.scheduler.active.len() == old(self)@.scheduler.active.len()
                        + 1
                    &&& task.job@.started_at is Some
                    &&& task.job@ == record->0@.downloading(task.job@.started_at->0)
                },
            },
    {
        if registry_len(&self.active_jobs) >= self.max_concurrent || self.queue.len() == 0 {
            return Dispatch::Idle;
        }
        proof {
            assert(texts(self.queue@)[0] == self.queue@[0]@);
        }
        if !same_text(self.queue[0].as_str(), candidate) {
            return Dispatch::Stale;
        }
        let ghost before = texts(self.queue@);
        let _ = self.queue.pop_front();
        proof {
            assert(texts(self.queue@) =~= before.drop_first());
        }
        if self.is_active(candidate) {
            return Dispatch::Skipped;
        }
        match record {
            Some(job) => {
                if job.status == JobStatus::Queued && same_text(job.id.as_str(), candidate) {
                    let task = self.start_download_task(job);
                    Dispatch::Started(task)
                } else {
                    Dispatch::Skipped
                }
            },
            None => Dispatch::Skipped,
        }
    }

    /// Takes in the end of the run of job `id`, of which `record` is what
    /// the store holds now. The job is no longer registered as running,
    /// whatever the outcome, so that its slot is free. Returns what follows
    /// for the store and for the file index, as `settled` says for the time
    /// that it is and for today's folder.
    pub fn finish_download_task(
        &mut self,
        id: &str,
        outcome: Result<String, RunFailure>,
        record: Option<Job>,
    ) -> (completion: Completion)
        requires
            old(self).well_formed(),
        ensures
            final(self).well_formed(),
            final(self)@ == (QueueView {
                scheduler: old(self)@.scheduler.completed(id@),
                ..old(self)@
            }),
            exists|now: int, day: Seq<char>| #[trigger]
                settled(outcome_view(outcome), job_of(record), now, joined(DATA_ROOT@, day))
                    == completion@,
    {
        let now: i64 = now_millis();
        let folder = get_today_folder();
        let completion = settle(outcome, record, now, folder.as_str());
        registry_remove(&mut self.active_jobs, id);
        completion
    }

    /// Starts a cloud sync of the data root below `work_dir`, unless one is
    /// running: then nothing changes, and the caller is told so. Otherwise
    /// the sync counts as running, the log starts anew, and the command line
    /// to run is returned.
    pub fn run_sync(&mut self, work_dir: &str) -> (start: SyncStart)
        ensures
            old(self)@.sync.status == SyncStatus::Running ==> {
                &&& final(self)@ == old(self)@
                &&& start.message@ == "Sync is already running"@
                &&& start.command is None
            },
            old(self)@.sync.status != SyncStatus::Running ==> {
                &&& final(self)@ == (QueueView {
                    sync: old(self)@.sync.started(old(self)@.sync_destination),
                    ..old(self)@
                })
                &&& start.message@ == "Sync started to "@ + old(self)@.sync_destination
                &&& start.command matches Some(command) && texts(command@) == sync_arguments(
                    joined(work_dir@, DATA_ROOT@),
                    old(self)@.sync_destination,
                )
            },
    {
        if self.sync_state.status == SyncStatus::Running {
            return SyncStart { message: "Sync is already running".to_owned(), command: None };
        }
        let data_dir = join_path(work_dir, DATA_ROOT);
        let mut line: String = "Starting sync to ".to_owned();
        line.append(self.sync_destination.as_str());
        line.append("...");
        let mut logs: Vec<String> = Vec::new();
        logs.push(line);
        self.sync_state.status = SyncStatus::Running;
        self.sync_state.logs = logs;
        self.sync_state.error = None;
        let mut message: String = "Sync started to ".to_owned();
        message.append(self.sync_destination.as_str());
        let command = sync_command(data_dir.as_str(), self.sync_destination.as_str());
        proof {
            assert(texts(self.sync_state.logs@) =~= seq![
                "Starting sync to "@ + old(self)@.sync_destination + "..."@,
            ]);
        }
        SyncStart { message, command: Some(command) }
    }

    /// Takes in one line that the sync process wrote, on either of its outputs.
    pub fn sync_log(&mut self, line: String)
        ensures
            final(self)@ == (QueueView { sync: old(self)@.sync.logged(line@), ..old(self)@ }),
    {
        self.sync_state.push_log(line);
    }

    /// Records how the sync process ended. After a success the caller has
    /// written the marker file anew, and `marker` is its modification time,
    /// if that can be read.
    pub fn finish_sync(&mut self, exit: SyncExit, marker: Option<Timestamp>)
        ensures
            final(self)@ == (QueueView {
                sync: old(self)@.sync.finished(exit, marker),
                ..old(self)@
            }),
    {
        self.sync_state.finish(exit, marker);
    }

    /// The state of the cloud sync as it is reported, given what was found
    /// of the marker file and what `index` holds.
    pub fn get_sync_state(&self, index: &FileIndex, marker: MarkerFile) -> (state: SyncState)
        ensures
            state@ == self@.sync.reported(marker, index.files()),
    {
        let mut state = self.sync_state.clone();
        match marker {
            MarkerFile::Modified(t) => {
                state.unsynced_count = index.count_files_after(t);
                state.last_run = Some(t);
            },
            MarkerFile::Absent => {
                state.unsynced_count = index.count_files_after(Timestamp::epoch());
            },
            MarkerFile::Unreadable => {},
        }
        state
    }
}

} // verus!
