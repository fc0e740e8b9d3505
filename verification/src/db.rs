//! A download job and the steps of its life.

use crate::clock::now_millis;
use crate::text::{int_of, same_text, text_of};
use vstd::prelude::*;

verus! {

/// Where a job stands in its life.
#[derive(Clone, Copy, Debug, PartialEq, Eq, Structural)]
pub enum JobStatus {
    /// Waiting for a free slot.
    Queued,
    /// Handed to a runner.
    Downloading,
    /// Finished; the file is on disk.
    Done,
    /// Ended without a file.
    Failed,
    /// Was done, but the file has gone.
    Missing,
    /// Taken over from an export of another store.
    Imported,
}

impl JobStatus {
    /// The word under which the status is stored.
    pub open spec fn name(self) -> Seq<char> {
        match self {
            JobStatus::Queued => "queued"@,
            JobStatus::Downloading => "downloading"@,
            JobStatus::Done => "done"@,
            JobStatus::Failed => "failed"@,
            JobStatus::Missing => "missing"@,
            JobStatus::Imported => "imported"@,
        }
    }

    /// The status that a stored word stands for, if any.
    pub open spec fn named(word: Seq<char>) -> Option<JobStatus> {
        if word == "queued"@ {
            Some(JobStatus::Queued)
        } else if word == "downloading"@ {
            Some(JobStatus::Downloading)
        } else if word == "done"@ {
            Some(JobStatus::Done)
        } else if word == "failed"@ {
            Some(JobStatus::Failed)
        } else if word == "missing"@ {
            Some(JobStatus::Missing)
        } else if word == "imported"@ {
            Some(JobStatus::Imported)
        } else {
            None
        }
    }

    /// The word under which the status is stored.
    pub fn as_str(&self) -> (word: &'static str)
        ensures
            word@ == self.name(),
    {
        match self {
            JobStatus::Queued => "queued",
            JobStatus::Downloading => "downloading",
            JobStatus::Done => "done",
            JobStatus::Failed => "failed",
            JobStatus::Missing => "missing",
            JobStatus::Imported => "imported",
        }
    }

    /// Reads a stored word back.
    pub fn parse(word: &str) -> (status: Option<JobStatus>)
        ensures
            status == JobStatus::named(word@),
    {
        if same_text(word, "queued") {
            Some(JobStatus::Queued)
        } else if same_text(word, "downloading") {
            Some(JobStatus::Downloading)
        } else if same_text(word, "done") {
            Some(JobStatus::Done)
        } else if same_text(word, "failed") {
            Some(JobStatus::Failed)
        } else if same_text(word, "missing") {
            Some(JobStatus::Missing)
        } else if same_text(word, "imported") {
            Some(JobStatus::Imported)
        } else {
            None
        }
    }
}

/// One requested download.
#[derive(Debug, PartialEq, Eq)]
pub struct Job {
    pub id: String,
    pub url: String,
    pub status: JobStatus,
    pub progress: i64,
    pub eta: Option<i64>,
    pub filename: Option<String>,
    pub created_at: i64,
    pub started_at: Option<i64>,
    pub completed_at: Option<i64>,
    pub retries: i64,
    pub error: Option<String>,
}

/// What a job holds, as plain values.
pub ghost struct JobView {
    pub id: Seq<char>,
    pub url: Seq<char>,
    pub status: JobStatus,
    pub progress: int,
    pub eta: Option<int>,
    pub filename: Option<Seq<char>>,
    pub created_at: int,
    pub started_at: Option<int>,
    pub completed_at: Option<int>,
    pub retries: int,
    pub error: Option<Seq<char>>,
}

impl View for Job {
    type V = JobView;

    open spec fn view(&self) -> JobView {
        JobView {
            id: self.id@,
            url: self.url@,
            status: self.status,
            progress: self.progress as int,
            eta: int_of(self.eta),
            filename: text_of(self.filename),
            created_at: self.created_at as int,
            started_at: int_of(self.started_at),
            completed_at: int_of(self.completed_at),
            retries: self.retries as int,
            error: text_of(self.error),
        }
    }
}

/// A copy of an optional string.
pub fn copy_text(s: &Option<String>) -> (r: Option<String>)
    ensures
        text_of(r) == text_of(*s),
{
    match s {
        Some(t) => Some(t.clone()),
        None => None,
    }
}

impl JobView {
    /// A job as it enters the store: queued, with nothing reached yet.
    pub open spec fn queued(id: Seq<char>, url: Seq<char>, created_at: int) -> JobView {
        JobView {
            id,
            url,
            status: JobStatus::Queued,
            progress: 0,
            eta: None,
            filename: None,
            created_at,
            started_at: None,
            completed_at: None,
            retries: 0,
            error: None,
        }
    }

    /// The job with a new progress report.
    pub open spec fn with_progress(self, progress: int, eta: Option<int>) -> JobView {
        JobView { progress, eta, ..self }
    }

    /// The job once a runner has claimed it at time `now`. It names no file
    /// until it is done.
    pub open spec fn downloading(self, now: int) -> JobView {
        JobView { status: JobStatus::Downloading, started_at: Some(now), filename: None, ..self }
    }

    /// The job once its file `filename` is on disk at time `now`.
    pub open spec fn done(self, filename: Seq<char>, now: int) -> JobView {
        JobView {
            status: JobStatus::Done,
            progress: 100,
            eta: None,
            filename: Some(filename),
            completed_at: Some(now),
            ..self
        }
    }

    /// The job once it has ended at time `now` for the reason `error`,
    /// without a file.
    pub open spec fn failed(self, error: Seq<char>, now: int) -> JobView {
        JobView {
            status: JobStatus::Failed,
            error: Some(error),
            completed_at: Some(now),
            filename: None,
            ..self
        }
    }

    /// The job put back in the queue: one more retry counted, and progress,
    /// remaining time, file name, error and both timestamps as on a new job.
    pub open spec fn requeued(self) -> JobView {
        JobView {
            status: JobStatus::Queued,
            retries: self.retries + 1,
            error: None,
            progress: 0,
            eta: None,
            filename: None,
            started_at: None,
            completed_at: None,
            ..self
        }
    }

    /// The job as found after a restart: a download that was under way is
    /// lost and counts as failed; any other job is as it was.
    pub open spec fn after_crash(self) -> JobView {
        if self.status == JobStatus::Downloading {
            JobView { status: JobStatus::Failed, error: Some("crashed"@), filename: None, ..self }
        } else {
            self
        }
    }

    /// The job once its file was found to be gone.
    pub open spec fn missing(self) -> JobView {
        JobView { status: JobStatus::Missing, ..self }
    }

    /// The job as it is taken over from an export.
    pub open spec fn imported(self) -> JobView {
        JobView { status: JobStatus::Imported, retries: 0, ..self }
    }

    /// Whether the job failed and was created before `cutoff`.
    pub open spec fn expired(self, cutoff: int) -> bool {
        self.status == JobStatus::Failed && self.created_at < cutoff
    }
}

/// Calls `uuid::Uuid::new_v4` and renders the identifier as text. Nothing is
/// claimed of the text: it is drawn at random.
#[verifier::external_body]
fn fresh_id() -> (id: String) {
    uuid::Uuid::new_v4().to_string()
}

impl Clone for Job {
    fn clone(&self) -> (copy: Job)
        ensures
            copy@ == self@,
    {
        Job {
            id: self.id.clone(),
            url: self.url.clone(),
            status: self.status,
            progress: self.progress,
            eta: self.eta,
            filename: copy_text(&self.filename),
            created_at: self.created_at,
            started_at: self.started_at,
            completed_at: self.completed_at,
            retries: self.retries,
            error: copy_text(&self.error),
        }
    }
}

impl Job {
    /// A job as it enters the store.
    pub fn queued(id: String, url: String, created_at: i64) -> (job: Job)
        ensures
            job@ == JobView::queued(id@, url@, created_at as int),
    {
        Job {
            id,
            url,
            status: JobStatus::Queued,
            progress: 0,
            eta: None,
            filename: None,
            created_at,
            started_at: None,
            completed_at: None,
            retries: 0,
            error: None,
        }
    }

    /// A new job for `url`, under an identifier drawn at random and created now.
    pub fn create(url: String) -> (job: Job)
        ensures
            job@ == JobView::queued(job.id@, url@, job.created_at as int),
    {
        Job::queued(fresh_id(), url, now_millis())
    }

    /// Records a progress report.
    pub fn update_progress(&mut self, progress: i64, eta: Option<i64>)
        ensures
            final(self)@ == old(self)@.with_progress(progress as int, int_of(eta)),
    {
        self.progress = progress;
        self.eta = eta;
    }

    /// Records that a runner claimed the job at time `now`.
    pub fn mark_downloading(&mut self, now: i64)
        ensures
            final(self)@ == old(self)@.downloading(now as int),
    {
        self.status = JobStatus::Downloading;
        self.started_at = Some(now);
        self.filename = None;
    }

    /// Records that the file `filename` was produced at time `now`.
    pub fn mark_done(&mut self, filename: &str, now: i64)
        ensures
            final(self)@ == old(self)@.done(filename@, now as int),
    {
        self.status = JobStatus::Done;
        self.progress = 100;
        self.eta = None;
        self.filename = Some(filename.to_owned());
        self.completed_at = Some(now);
    }

    /// Records that the job ended at time `now` for the reason `error`.
    pub fn mark_failed(&mut self, error: &str, now: i64)
        ensures
            final(self)@ == old(self)@.failed(error@, now as int),
    {
        self.status = JobStatus::Failed;
        self.error = Some(error.to_owned());
        self.completed_at = Some(now);
        self.filename = None;
    }

    /// Puts the job back in the queue after a failure, counting one more retry.
    pub fn increment_retry(&mut self)
        requires
            old(self).retries < i64::MAX,
        ensures
            final(self)@ == old(self)@.requeued(),
    {
        self.retries = self.retries + 1;
        self.status = JobStatus::Queued;
        self.error = None;
        self.progress = 0;
        self.eta = None;
        self.filename = None;
        self.started_at = None;
        self.completed_at = None;
    }

    /// Puts the job back in the queue to fetch its file again, whatever its
    /// status was, counting one more retry. The job names no file until it
    /// is done again.
    pub fn redownload_job(&mut self)
        requires
            old(self).retries < i64::MAX,
        ensures
            final(self)@ == old(self)@.requeued(),
    {
        self.status = JobStatus::Queued;
        self.progress = 0;
        self.eta = None;
        self.filename = None;
        self.error = None;
        self.retries = self.retries + 1;
        self.started_at = None;
        self.completed_at = None;
    }

    /// Records that the job's file was found to be gone.
    pub fn mark_missing(&mut self)
        ensures
            final(self)@ == old(self)@.missing(),
    {
        self.status = JobStatus::Missing;
    }

    /// Prepares a job read from an export for this store.
    pub fn import_job(&mut self)
        ensures
            final(self)@ == old(self)@.imported(),
    {
        self.status = JobStatus::Imported;
        self.retries = 0;
    }

    /// Whether the job failed and was created before `cutoff`, so that the
    /// periodic cleanup removes it.
    pub fn is_expired(&self, cutoff: i64) -> (r: bool)
        ensures
            r == self@.expired(cutoff as int),
    {
        self.status == JobStatus::Failed && self.created_at < cutoff
    }
}

/// The jobs of `jobs` that were downloading, each as it counts after a
/// restart: failed, with the reason "crashed".
pub open spec fn crashed_jobs(jobs: Seq<JobView>) -> Seq<JobView>
    decreases jobs.len(),
{
    if jobs.len() == 0 {
        Seq::<JobView>::empty()
    } else if jobs.last().status == JobStatus::Downloading {
        crashed_jobs(jobs.drop_last()).push(jobs.last().after_crash())
    } else {
        crashed_jobs(jobs.drop_last())
    }
}

/// What a list of jobs holds, as plain values.
pub open spec fn job_views(jobs: Seq<Job>) -> Seq<JobView> {
    Seq::new(jobs.len(), |i: int| jobs[i]@)
}

/// Finds the downloads that a restart has interrupted. Returns each job of
/// `jobs` that was downloading, now failed with the reason "crashed", for the
/// store to take over; the other jobs need no change.
pub fn reset_crashed_jobs(jobs: &Vec<Job>) -> (lost: Vec<Job>)
    ensures
        job_views(lost@) == crashed_jobs(job_views(jobs@)),
{
    let mut lost: Vec<Job> = Vec::new();
    let n: usize = jobs.len();
    let mut i: usize = 0;
    proof {
        assert(job_views(jobs@).take(0) =~= Seq::<JobView>::empty());
        assert(job_views(lost@) =~= Seq::<JobView>::empty());
    }
    while i < n
        invariant
            i <= n,
            n == jobs.len(),
            job_views(lost@) == crashed_jobs(job_views(jobs@).take(i as int)),
        decreases n - i,
    {
        let ghost seen = job_views(jobs@).take(i + 1);
        proof {
            assert(seen.drop_last() =~= job_views(jobs@).take(i as int));
            assert(seen.last() == jobs@[i as int]@);
        }
        if jobs[i].status == JobStatus::Downloading {
            let mut job = jobs[i].clone();
            job.status = JobStatus::Failed;
            job.error = Some("crashed".to_owned());
            job.filename = None;
            let ghost before = lost@;
            lost.push(job);
            proof {
                assert(job_views(lost@) =~= job_views(before).push(job@));
            }
        }
        i = i + 1;
    }
    proof {
        assert(job_views(jobs@).take(n as int) =~= job_views(jobs@));
    }
    lost
}

} // verus!
