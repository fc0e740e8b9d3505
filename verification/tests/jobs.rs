use tiak_core::db::{reset_crashed_jobs, Job, JobStatus};

fn sample() -> Job {
    Job::queued("id-1".to_string(), "https://example.com/v".to_string(), 1_700_000_000_000)
}

#[test]
fn status_words_are_read_back() {
    let all = [
        (JobStatus::Queued, "queued"),
        (JobStatus::Downloading, "downloading"),
        (JobStatus::Done, "done"),
        (JobStatus::Failed, "failed"),
        (JobStatus::Missing, "missing"),
        (JobStatus::Imported, "imported"),
    ];
    for (status, word) in all {
        assert_eq!(status.as_str(), word);
        assert_eq!(JobStatus::parse(word), Some(status));
    }
    assert_eq!(JobStatus::parse("Queued"), None);
    assert_eq!(JobStatus::parse(""), None);
    assert_eq!(JobStatus::parse("cancelled"), None);
}

#[test]
fn a_queued_job_has_reached_nothing() {
    let job = sample();
    assert_eq!(job.id, "id-1");
    assert_eq!(job.url, "https://example.com/v");
    assert_eq!(job.status, JobStatus::Queued);
    assert_eq!(job.progress, 0);
    assert_eq!(job.eta, None);
    assert_eq!(job.filename, None);
    assert_eq!(job.created_at, 1_700_000_000_000);
    assert_eq!(job.started_at, None);
    assert_eq!(job.completed_at, None);
    assert_eq!(job.retries, 0);
    assert_eq!(job.error, None);
}

#[test]
fn created_jobs_get_an_identifier_and_the_time() {
    let before = std::time::SystemTime::now()
        .duration_since(std::time::UNIX_EPOCH)
        .unwrap()
        .as_millis() as i64;
    let a = Job::create("https://example.com/a".to_string());
    let b = Job::create("https://example.com/b".to_string());
    let after = std::time::SystemTime::now()
        .duration_since(std::time::UNIX_EPOCH)
        .unwrap()
        .as_millis() as i64;
    assert_eq!(a.url, "https://example.com/a");
    assert_eq!(a.status, JobStatus::Queued);
    assert_eq!(a.retries, 0);
    assert_ne!(a.id, b.id);
    assert_eq!(a.id.len(), 36);
    let chars: Vec<char> = a.id.chars().collect();
    for (i, c) in chars.iter().enumerate() {
        if i == 8 || i == 13 || i == 18 || i == 23 {
            assert_eq!(*c, '-');
        } else {
            assert!(c.is_ascii_hexdigit());
        }
    }
    assert_eq!(chars[14], '4');
    assert!(before <= a.created_at && a.created_at <= after);
    assert!(a.created_at <= b.created_at);
}

#[test]
fn a_job_runs_through_its_life() {
    let mut job = sample();
    job.mark_downloading(10);
    assert_eq!(job.status, JobStatus::Downloading);
    assert_eq!(job.started_at, Some(10));
    assert_eq!(job.completed_at, None);

    job.update_progress(42, Some(65));
    assert_eq!(job.progress, 42);
    assert_eq!(job.eta, Some(65));
    assert_eq!(job.status, JobStatus::Downloading);

    job.mark_done("v.mp4", 20);
    assert_eq!(job.status, JobStatus::Done);
    assert_eq!(job.progress, 100);
    assert_eq!(job.eta, None);
    assert_eq!(job.filename, Some("v.mp4".to_string()));
    assert_eq!(job.started_at, Some(10));
    assert_eq!(job.completed_at, Some(20));
    assert_eq!(job.error, None);

    job.mark_missing();
    assert_eq!(job.status, JobStatus::Missing);
    assert_eq!(job.filename, Some("v.mp4".to_string()));
}

#[test]
fn a_failure_keeps_the_progress_and_names_the_reason() {
    let mut job = sample();
    job.mark_downloading(10);
    job.update_progress(30, None);
    job.mark_failed("Process exited with code 1", 15);
    assert_eq!(job.status, JobStatus::Failed);
    assert_eq!(job.error, Some("Process exited with code 1".to_string()));
    assert_eq!(job.completed_at, Some(15));
    assert_eq!(job.progress, 30);
    assert_eq!(job.filename, None);
}

#[test]
fn retry_resets_a_failed_job() {
    let mut job = sample();
    job.mark_downloading(10);
    job.update_progress(30, Some(5));
    job.mark_failed("boom", 15);
    job.increment_retry();
    let mut fresh = sample();
    fresh.retries = 1;
    assert_eq!(job, fresh);
}

#[test]
fn redownload_resets_a_done_job_and_counts_a_retry() {
    let mut job = sample();
    job.mark_downloading(10);
    job.mark_done("v.mp4", 20);
    job.redownload_job();
    assert_eq!(job.status, JobStatus::Queued);
    assert_eq!(job.retries, 1);
    assert_eq!(job.progress, 0);
    assert_eq!(job.eta, None);
    assert_eq!(job.error, None);
    assert_eq!(job.started_at, None);
    assert_eq!(job.completed_at, None);
    assert_eq!(job.filename, None);
    assert_eq!(job.created_at, 1_700_000_000_000);
    job.redownload_job();
    assert_eq!(job.retries, 2);
    let mut fresh = sample();
    fresh.retries = 2;
    assert_eq!(job, fresh);
}

#[test]
fn retry_forgets_the_file_name_of_a_missing_job() {
    let mut job = sample();
    job.mark_downloading(10);
    job.mark_done("v.mp4", 20);
    job.mark_missing();
    assert_eq!(job.filename, Some("v.mp4".to_string()));
    job.increment_retry();
    assert_eq!(job.status, JobStatus::Queued);
    assert_eq!(job.filename, None);
    assert_eq!(job.retries, 1);
}

#[test]
fn import_marks_the_job_and_forgets_its_retries() {
    let mut job = sample();
    job.retries = 5;
    job.mark_downloading(10);
    job.mark_done("v.mp4", 20);
    job.import_job();
    assert_eq!(job.status, JobStatus::Imported);
    assert_eq!(job.retries, 0);
    assert_eq!(job.filename, Some("v.mp4".to_string()));
    assert_eq!(job.completed_at, Some(20));
}

#[test]
fn only_old_failures_expire() {
    let mut job = sample();
    assert!(!job.is_expired(i64::MAX));
    job.mark_failed("boom", 1);
    assert!(job.is_expired(1_700_000_000_001));
    assert!(!job.is_expired(1_700_000_000_000));
    assert!(!job.is_expired(0));
}

#[test]
fn a_restart_fails_the_downloads_that_were_under_way() {
    let queued = sample();
    let mut running = Job::queued("id-2".to_string(), "u2".to_string(), 2);
    running.mark_downloading(5);
    running.update_progress(50, Some(9));
    let mut done = Job::queued("id-3".to_string(), "u3".to_string(), 3);
    done.mark_done("f.mp4", 6);
    let mut other = Job::queued("id-4".to_string(), "u4".to_string(), 4);
    other.mark_downloading(7);

    let lost = reset_crashed_jobs(&vec![queued, running.clone(), done, other.clone()]);
    assert_eq!(lost.len(), 2);
    assert_eq!(lost[0].id, "id-2");
    assert_eq!(lost[0].status, JobStatus::Failed);
    assert_eq!(lost[0].error, Some("crashed".to_string()));
    assert_eq!(lost[0].progress, 50);
    assert_eq!(lost[0].started_at, Some(5));
    assert_eq!(lost[0].completed_at, None);
    assert_eq!(lost[1].id, "id-4");
    assert_eq!(lost[1].status, JobStatus::Failed);
    assert_eq!(lost[1].error, Some("crashed".to_string()));
    assert_eq!(reset_crashed_jobs(&vec![]), vec![]);
}

#[test]
fn a_copy_of_a_job_is_equal_to_it() {
    let mut job = sample();
    job.mark_downloading(10);
    job.mark_failed("why", 11);
    assert_eq!(job.clone(), job);
}

#[test]
fn only_a_done_job_names_a_file() {
    let iff = |job: &Job| job.filename.is_some() == (job.status == JobStatus::Done);
    let mut job = sample();
    assert!(iff(&job));
    job.mark_downloading(1);
    assert!(iff(&job));
    job.update_progress(50, None);
    assert!(iff(&job));
    job.mark_done("v.mp4", 2);
    assert!(iff(&job));
    job.redownload_job();
    assert!(iff(&job));
    job.mark_downloading(3);
    job.mark_done("w.mp4", 4);
    assert_eq!(job.filename, Some("w.mp4".to_string()));
    job.mark_failed("late failure", 5);
    assert!(iff(&job));
    assert_eq!(job.filename, None);
    job.increment_retry();
    assert!(iff(&job));
    job.mark_done("x.mp4", 6);
    job.mark_downloading(7);
    assert!(iff(&job));
    assert_eq!(job.filename, None);
    let lost = reset_crashed_jobs(&vec![job]);
    assert!(iff(&lost[0]));
}
