use tiak_core::cleanup::{
    cutoff_before, expected_path, expired_jobs, file_path_in, run_cleanup,
    scan_for_missing_files, RETENTION_MILLIS,
};
use tiak_core::db::{Job, JobStatus};

fn done(name: &str, created: i64, completed: Option<i64>) -> Job {
    let mut job = Job::queued("id".to_string(), "u".to_string(), created);
    job.status = JobStatus::Done;
    job.filename = Some(name.to_string());
    job.completed_at = completed;
    job
}

fn failed(id: &str, created: i64) -> Job {
    let mut job = Job::queued(id.to_string(), "u".to_string(), created);
    job.mark_failed("boom", created + 1);
    job
}

#[test]
fn the_cutoff_lies_seven_days_back() {
    assert_eq!(RETENTION_MILLIS, 7 * 24 * 60 * 60 * 1000);
    assert_eq!(cutoff_before(1_700_000_000_000), 1_699_395_200_000);
    assert_eq!(cutoff_before(0), -604_800_000);
    assert_eq!(cutoff_before(i64::MIN), i64::MIN);
    assert_eq!(cutoff_before(i64::MIN + 604_800_000), i64::MIN);
    assert_eq!(cutoff_before(i64::MAX), i64::MAX - 604_800_000);
}

#[test]
fn failed_jobs_from_before_the_cutoff_expire() {
    let mut running = Job::queued("run".to_string(), "u".to_string(), 1);
    running.mark_downloading(2);
    let jobs = vec![
        failed("old", 100),
        failed("edge", 1000),
        failed("new", 1001),
        Job::queued("queued".to_string(), "u".to_string(), 1),
        running,
        done("d.mp4", 1, Some(2)),
        failed("older", 5),
    ];
    assert_eq!(expired_jobs(&jobs, 1000), vec!["old", "older"]);
    assert_eq!(expired_jobs(&jobs, 1001), vec!["old", "edge", "older"]);
    assert_eq!(expired_jobs(&jobs, 0), Vec::<String>::new());
    assert_eq!(expired_jobs(&vec![], 1000), Vec::<String>::new());
}

#[test]
fn the_cleanup_goes_by_the_clock() {
    let now = std::time::SystemTime::now()
        .duration_since(std::time::UNIX_EPOCH)
        .unwrap()
        .as_millis() as i64;
    let jobs = vec![
        failed("ancient", 1_000_000),
        failed("eight-days", now - 8 * 24 * 3600 * 1000),
        failed("six-days", now - 6 * 24 * 3600 * 1000),
        failed("now", now),
    ];
    assert_eq!(run_cleanup(&jobs), vec!["ancient", "eight-days"]);
}

#[test]
fn the_file_is_looked_for_in_the_folder_of_its_day() {
    let job = done("v.mp4", 0, Some(1_700_000_000_000));
    assert_eq!(expected_path(&job), Some("data/2023-11-14/v.mp4".to_string()));
    let job = done("v.mp4", 0, None);
    assert_eq!(expected_path(&job), Some("data/1970-01-01/v.mp4".to_string()));
    let job = done("My Video.mp4", 5, Some(951_782_400_000));
    assert_eq!(expected_path(&job), Some("data/2000-02-29/My Video.mp4".to_string()));
    let job = done("v.mp4", 5, Some(-1));
    assert_eq!(expected_path(&job), Some("data/1969-12-31/v.mp4".to_string()));
}

#[test]
fn a_time_outside_the_calendar_stands_for_today() {
    let job = done("v.mp4", 0, Some(i64::MAX));
    let path = expected_path(&job).unwrap();
    assert!(path.starts_with("data/"));
    assert!(path.ends_with("/v.mp4"));
    assert_eq!(path.len(), "data/0000-00-00/v.mp4".len());
    assert_ne!(path, "data/1970-01-01/v.mp4");
}

#[test]
fn only_done_and_imported_jobs_with_a_name_have_a_file() {
    let mut job = done("v.mp4", 0, Some(0));
    job.status = JobStatus::Imported;
    assert_eq!(expected_path(&job), Some("data/1970-01-01/v.mp4".to_string()));
    for status in [JobStatus::Queued, JobStatus::Downloading, JobStatus::Failed, JobStatus::Missing] {
        job.status = status;
        assert_eq!(expected_path(&job), None);
        assert_eq!(file_path_in("2024-05-01", &job), None);
    }
    let mut nameless = done("v.mp4", 0, Some(0));
    nameless.filename = None;
    assert_eq!(expected_path(&nameless), None);
    assert_eq!(
        file_path_in("2024-05-01", &done("v.mp4", 0, None)),
        Some("data/2024-05-01/v.mp4".to_string())
    );
}

#[test]
fn a_job_whose_file_has_gone_is_marked_missing() {
    let job = done("v.mp4", 0, Some(10));
    assert_eq!(scan_for_missing_files(&job, true), None);
    let marked = scan_for_missing_files(&job, false).unwrap();
    assert_eq!(marked.status, JobStatus::Missing);
    assert_eq!(marked.filename, Some("v.mp4".to_string()));
    assert_eq!(marked.completed_at, Some(10));
    assert_eq!(marked.id, "id");

    let mut queued = job.clone();
    queued.status = JobStatus::Queued;
    assert_eq!(scan_for_missing_files(&queued, false), None);
    let mut nameless = job.clone();
    nameless.filename = None;
    assert_eq!(scan_for_missing_files(&nameless, false), None);
}
