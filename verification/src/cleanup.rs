//! The periodic maintenance: failed jobs that have grown old leave the
//! store, and jobs whose file has gone are marked so.

use crate::clock::{now_millis, utc_day, utc_day_of, utc_today};
use crate::db::{job_views, Job, JobStatus, JobView};
use crate::storage::DATA_ROOT;
use crate::text::{join_path, joined, lemma_texts_push, text_of, texts};
use vstd::prelude::*;

verus! {

/// How long a failed job is kept, in milliseconds: seven days.
pub const RETENTION_MILLIS: i64 = 604_800_000;

/// The instant before which a failed job must have been created to be removed at `now`.
pub open spec fn cutoff_at(now: int) -> int {
    if now - RETENTION_MILLIS < i64::MIN {
        i64::MIN as int
    } else {
        now - RETENTION_MILLIS
    }
}

/// The instant before which a failed job must have been created to be
/// removed at `now`: seven days earlier.
pub fn cutoff_before(now: i64) -> (cutoff: i64)
    ensures
        cutoff == cutoff_at(now as int),
{
    if now < i64::MIN + RETENTION_MILLIS {
        i64::MIN
    } else {
        now - RETENTION_MILLIS
    }
}

/// The identifiers of the jobs of `jobs` that have failed and were created
/// before `cutoff`, in the order of `jobs`.
pub open spec fn expired_ids(jobs: Seq<JobView>, cutoff: int) -> Seq<Seq<char>>
    decreases jobs.len(),
{
    if jobs.len() == 0 {
        Seq::<Seq<char>>::empty()
    } else if jobs.last().expired(cutoff) {
        expired_ids(jobs.drop_last(), cutoff).push(jobs.last().id)
    } else {
        expired_ids(jobs.drop_last(), cutoff)
    }
}

/// The jobs of `jobs` that the cleanup removes for the cutoff `cutoff`:
/// those that have failed and were created before it.
pub fn expired_jobs(jobs: &Vec<Job>, cutoff: i64) -> (ids: Vec<String>)
    ensures
        texts(ids@) == expired_ids(job_views(jobs@), cutoff as int),
{
    let mut ids: Vec<String> = Vec::new();
    let n: usize = jobs.len();
    let ghost all = job_views(jobs@);
    let mut i: usize = 0;
    proof {
        assert(all.take(0) =~= Seq::<JobView>::empty());
        assert(texts(ids@) =~= Seq::<Seq<char>>::empty());
    }
    while i < n
        invariant
            i <= n,
            n == jobs.len(),
            all == job_views(jobs@),
            texts(ids@) == expired_ids(all.take(i as int), cutoff as int),
        decreases n - i,
    {
        proof {
            assert(all.take(i + 1).drop_last() =~= all.take(i as int));
            assert(all.take(i + 1).last() == jobs@[i as int]@);
        }
        if jobs[i].is_expired(cutoff) {
            let ghost before = ids@;
            let id = jobs[i].id.clone();
            ids.push(id);
            proof {
                lemma_texts_push(before, id);
            }
        }
        i = i + 1;
    }
    proof {
        assert(all.take(n as int) =~= all);
    }
    ids
}

/// The jobs of `jobs` that the cleanup removes now: those that have failed
/// and were created more than seven days ago.
pub fn run_cleanup(jobs: &Vec<Job>) -> (ids: Vec<String>)
    ensures
        exists|now: int| texts(ids@) == #[trigger] expired_ids(job_views(jobs@), cutoff_at(now)),
{
    let now: i64 = now_millis();
    let ids = expired_jobs(jobs, cutoff_before(now));
    proof {
        assert(texts(ids@) == expired_ids(job_views(jobs@), cutoff_at(now as int)));
    }
    ids
}

/// Whether the job's file is looked for by the periodic scan: the job is
/// done or imported, and names a file.
pub open spec fn has_file_to_check(job: JobView) -> bool {
    (job.status == JobStatus::Done || job.status == JobStatus::Imported) && job.filename is Some
}

/// The instant that decides the job's date folder: when it finished, or
/// when it was created if it never did.
pub open spec fn filed_at(job: JobView) -> int {
    match job.completed_at {
        Some(t) => t,
        None => job.created_at,
    }
}

/// The path at which the job's file is looked for, where `day` is the name
/// of its date folder.
pub open spec fn path_in(day: Seq<char>, job: JobView) -> Seq<char> {
    joined(joined(DATA_ROOT@, day), job.filename->0)
}

/// The path at which the job's file is looked for, where `day` is the name
/// of its date folder; `None` for a job whose file is not looked for.
pub fn file_path_in(day: &str, job: &Job) -> (path: Option<String>)
    ensures
        text_of(path) == if has_file_to_check(job@) {
            Some(path_in(day@, job@))
        } else {
            None
        },
{
    if job.status != JobStatus::Done && job.status != JobStatus::Imported {
        return None;
    }
    match &job.filename {
        Some(name) => {
            let folder = join_path(DATA_ROOT, day);
            Some(join_path(folder.as_str(), name.as_str()))
        },
        None => None,
    }
}

/// The path at which the job's file is looked for: below the data root, in
/// the folder of the day in UTC on which the job finished, or was created if
/// it never finished. Where that instant lies outside the calendar, the
/// folder is today's. `None` for a job whose file is not looked for.
pub fn expected_path(job: &Job) -> (path: Option<String>)
    ensures
        path is Some <==> has_file_to_check(job@),
        has_file_to_check(job@) ==> match utc_day_of(filed_at(job@)) {
            Some(day) => text_of(path) == Some(path_in(day, job@)),
            None => exists|day: Seq<char>| text_of(path) == Some(#[trigger] path_in(day, job@)),
        },
{
    let at: i64 = match job.completed_at {
        Some(t) => t,
        None => job.created_at,
    };
    let day: String = match utc_day(at) {
        Some(day) => day,
        None => utc_today(),
    };
    let path = file_path_in(day.as_str(), job);
    proof {
        if has_file_to_check(job@) {
            assert(text_of(path) == Some(path_in(day@, job@)));
        }
    }
    path
}

/// What the scan makes of a job: where its file is looked for and is not
/// there, the job's record is returned as it is to be stored, marked as
/// missing. `None` where the file is there, or is not looked for.
pub fn scan_for_missing_files(job: &Job, file_exists: bool) -> (update: Option<Job>)
    ensures
        match update {
            Some(marked) => has_file_to_check(job@) && !file_exists && marked@ == job@.missing(),
            None => !has_file_to_check(job@) || file_exists,
        },
{
    if file_exists {
        return None;
    }
    if job.status != JobStatus::Done && job.status != JobStatus::Imported {
        return None;
    }
    if job.filename.is_none() {
        return None;
    }
    let mut marked = job.clone();
    marked.mark_missing();
    Some(marked)
}

} // verus!
