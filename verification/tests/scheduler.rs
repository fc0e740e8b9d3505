use tiak_core::db::{Job, JobStatus};
use tiak_core::queue::{settle, Dispatch, DownloadQueue};
use tiak_core::runner::RunFailure;

fn job(id: &str) -> Job {
    Job::queued(id.to_string(), format!("https://example.com/{}", id), 1_700_000_000_000)
}

#[test]
fn ceiling_two_three_submissions_two_start() {
    let mut q = DownloadQueue::new();
    let (a, b, c) = (job("a"), job("b"), job("c"));
    q.add_job(&a);
    q.add_job(&b);
    q.add_job(&c);
    assert_eq!(q.get_max_concurrent(), 2);

    assert_eq!(q.next_candidate(), Some("a".to_string()));
    let first = q.process_next("a", Some(a.clone()));
    assert!(matches!(&first, Dispatch::Started(t) if t.job.id == "a" && t.job.status == JobStatus::Downloading));

    assert_eq!(q.next_candidate(), Some("b".to_string()));
    let second = q.process_next("b", Some(b.clone()));
    assert!(matches!(&second, Dispatch::Started(t) if t.job.id == "b" && t.job.status == JobStatus::Downloading));

    assert_eq!(q.next_candidate(), None);
    let third = q.process_next("c", Some(c.clone()));
    assert!(matches!(third, Dispatch::Idle));

    assert!(q.is_active("a"));
    assert!(q.is_active("b"));
    assert!(!q.is_active("c"));
    assert_eq!(q.active_count(), 2);
    assert_eq!(q.pending_jobs(), vec!["c".to_string()]);
    assert_eq!(c.status, JobStatus::Queued);
}

fn started(step: Dispatch) -> tiak_core::queue::DownloadTask {
    match step {
        Dispatch::Started(task) => task,
        _ => panic!("the job did not start"),
    }
}

fn ids(list: &[&str]) -> Vec<String> {
    list.iter().map(|s| s.to_string()).collect()
}

#[test]
fn a_new_queue_is_empty_with_the_default_ceiling() {
    let q = DownloadQueue::new();
    assert_eq!(q.get_max_concurrent(), 2);
    assert_eq!(q.active_count(), 0);
    assert_eq!(q.pending_count(), 0);
    assert_eq!(q.pending_jobs(), Vec::<String>::new());
    assert_eq!(q.next_candidate(), None);
    assert_eq!(q.get_sync_destination(), "");
}

#[test]
fn jobs_start_in_the_order_of_submission() {
    let mut q = DownloadQueue::new();
    assert!(q.set_max_concurrent(10));
    let names = ["j1", "j2", "j3", "j4", "j5"];
    for name in names {
        q.add_job(&job(name));
    }
    assert_eq!(q.pending_jobs(), ids(&names));
    let mut order = Vec::new();
    while let Some(candidate) = q.next_candidate() {
        let task = started(q.process_next(&candidate, Some(job(&candidate))));
        order.push(task.job.id);
    }
    assert_eq!(order, ids(&names));
    assert_eq!(q.pending_count(), 0);
    assert_eq!(q.active_count(), 5);
}

#[test]
fn a_submission_during_a_pass_goes_behind_the_waiting_jobs() {
    let mut q = DownloadQueue::new();
    q.set_max_concurrent(5);
    q.add_job(&job("a"));
    q.add_job(&job("b"));
    started(q.process_next("a", Some(job("a"))));
    q.add_job(&job("c"));
    assert_eq!(q.next_candidate(), Some("b".to_string()));
    started(q.process_next("b", Some(job("b"))));
    assert_eq!(q.next_candidate(), Some("c".to_string()));
}

#[test]
fn the_started_job_is_marked_downloading_from_now() {
    let mut q = DownloadQueue::new();
    let a = job("a");
    q.add_job(&a);
    let before = std::time::SystemTime::now()
        .duration_since(std::time::UNIX_EPOCH)
        .unwrap()
        .as_millis() as i64;
    let task = started(q.process_next("a", Some(a.clone())));
    let mut expected = a.clone();
    expected.mark_downloading(task.job.started_at.unwrap());
    assert_eq!(task.job, expected);
    assert!(task.job.started_at.unwrap() >= before);
    assert!(!task.token.is_cancelled());
}

#[test]
fn a_candidate_that_is_not_the_head_is_stale() {
    let mut q = DownloadQueue::new();
    q.add_job(&job("a"));
    q.add_job(&job("b"));
    assert!(matches!(q.process_next("b", Some(job("b"))), Dispatch::Stale));
    assert!(matches!(q.process_next("zzz", None), Dispatch::Stale));
    assert_eq!(q.pending_jobs(), ids(&["a", "b"]));
    assert_eq!(q.active_count(), 0);
}

#[test]
fn an_empty_queue_is_idle() {
    let mut q = DownloadQueue::new();
    assert!(matches!(q.process_next("a", Some(job("a"))), Dispatch::Idle));
    assert_eq!(q.active_count(), 0);
}

#[test]
fn a_job_that_is_no_longer_queued_is_skipped() {
    let mut q = DownloadQueue::new();
    q.add_job(&job("gone"));
    q.add_job(&job("failed"));
    q.add_job(&job("other"));
    q.add_job(&job("ok"));

    assert!(matches!(q.process_next("gone", None), Dispatch::Skipped));
    let mut failed = job("failed");
    failed.mark_failed("boom", 1);
    assert!(matches!(q.process_next("failed", Some(failed)), Dispatch::Skipped));
    assert!(matches!(q.process_next("other", Some(job("not-other"))), Dispatch::Skipped));
    assert_eq!(q.active_count(), 0);
    assert_eq!(q.pending_jobs(), ids(&["ok"]));
    started(q.process_next("ok", Some(job("ok"))));
    assert_eq!(q.active_count(), 1);
}

#[test]
fn every_status_but_queued_is_skipped() {
    for status in [
        JobStatus::Downloading,
        JobStatus::Done,
        JobStatus::Failed,
        JobStatus::Missing,
        JobStatus::Imported,
    ] {
        let mut q = DownloadQueue::new();
        q.add_job(&job("a"));
        let mut record = job("a");
        record.status = status;
        assert!(matches!(q.process_next("a", Some(record)), Dispatch::Skipped));
        assert!(!q.is_active("a"));
        assert_eq!(q.pending_count(), 0);
    }
}

#[test]
fn never_more_running_than_the_ceiling() {
    for ceiling in 1..=4usize {
        let mut q = DownloadQueue::new();
        q.set_max_concurrent(ceiling);
        for i in 0..10 {
            q.add_job(&job(&format!("j{}", i)));
        }
        let mut running: Vec<String> = Vec::new();
        let mut done = 0;
        while done < 10 {
            while let Some(candidate) = q.next_candidate() {
                let task = started(q.process_next(&candidate, Some(job(&candidate))));
                running.push(task.job.id);
                assert!(q.active_count() <= ceiling);
            }
            assert_eq!(q.active_count(), running.len());
            assert_eq!(running.len(), ceiling.min(10 - done));
            let finished = running.remove(0);
            q.finish_download_task(&finished, Ok("f.mp4".to_string()), Some(job(&finished)));
            done += 1;
            assert_eq!(q.active_count(), running.len());
        }
        assert_eq!(q.pending_count(), 0);
        assert_eq!(q.active_count(), 0);
    }
}

#[test]
fn a_ceiling_of_zero_is_not_taken() {
    let mut q = DownloadQueue::new();
    assert!(q.set_max_concurrent(5));
    assert_eq!(q.get_max_concurrent(), 5);
    assert!(!q.set_max_concurrent(0));
    assert_eq!(q.get_max_concurrent(), 5);
    assert!(q.set_max_concurrent(1));
    assert_eq!(q.get_max_concurrent(), 1);
}

#[test]
fn a_lower_ceiling_stops_no_running_job() {
    let mut q = DownloadQueue::new();
    q.set_max_concurrent(3);
    for name in ["a", "b", "c", "d"] {
        q.add_job(&job(name));
    }
    for name in ["a", "b", "c"] {
        started(q.process_next(name, Some(job(name))));
    }
    q.set_max_concurrent(1);
    assert_eq!(q.active_count(), 3);
    assert_eq!(q.next_candidate(), None);
    q.finish_download_task("a", Ok("a.mp4".to_string()), Some(job("a")));
    q.finish_download_task("b", Ok("b.mp4".to_string()), Some(job("b")));
    assert_eq!(q.next_candidate(), None);
    q.finish_download_task("c", Ok("c.mp4".to_string()), Some(job("c")));
    assert_eq!(q.next_candidate(), Some("d".to_string()));
}

#[test]
fn cancelling_a_queued_job_takes_it_out_for_good() {
    let mut q = DownloadQueue::new();
    q.set_max_concurrent(1);
    for name in ["a", "b", "c"] {
        q.add_job(&job(name));
    }
    q.cancel_job("b");
    assert_eq!(q.pending_jobs(), ids(&["a", "c"]));
    let mut order = Vec::new();
    while let Some(candidate) = q.next_candidate() {
        started(q.process_next(&candidate, Some(job(&candidate))));
        order.push(candidate.clone());
        q.finish_download_task(&candidate, Ok("f.mp4".to_string()), Some(job(&candidate)));
    }
    assert_eq!(order, ids(&["a", "c"]));
    assert!(!q.is_active("b"));
}

#[test]
fn cancelling_takes_out_every_occurrence() {
    let mut q = DownloadQueue::new();
    q.add_job(&job("a"));
    q.add_job(&job("b"));
    q.add_job(&job("a"));
    q.add_job(&job("c"));
    q.add_job(&job("a"));
    q.cancel_job("a");
    assert_eq!(q.pending_jobs(), ids(&["b", "c"]));
}

#[test]
fn a_job_retried_while_queued_and_then_cancelled_never_starts() {
    let mut q = DownloadQueue::new();
    q.set_max_concurrent(5);
    q.add_job(&job("a"));
    q.add_job(&job("b"));
    let retried = q.retry_job(Some(job("a"))).unwrap();
    assert_eq!(q.pending_jobs(), ids(&["a", "b", "a"]));
    q.cancel_job("a");
    assert_eq!(q.pending_jobs(), ids(&["b"]));
    assert!(matches!(q.process_next("a", Some(retried.clone())), Dispatch::Stale));
    started(q.process_next("b", Some(job("b"))));
    assert!(matches!(q.process_next("a", Some(retried)), Dispatch::Idle));
    assert!(!q.is_active("a"));
    assert_eq!(q.active_count(), 1);
}

#[test]
fn a_job_that_runs_is_not_started_a_second_time() {
    let mut q = DownloadQueue::new();
    q.set_max_concurrent(5);
    q.add_job(&job("a"));
    let first = started(q.process_next("a", Some(job("a"))));
    let retried = q.retry_job(Some(first.job.clone())).unwrap();
    assert_eq!(retried.status, JobStatus::Queued);
    assert_eq!(q.pending_jobs(), ids(&["a"]));
    assert_eq!(q.next_candidate(), Some("a".to_string()));

    assert!(matches!(q.process_next("a", Some(retried.clone())), Dispatch::Skipped));
    assert_eq!(q.active_count(), 1);
    assert_eq!(q.pending_count(), 0);

    q.cancel_job("a");
    assert!(first.token.is_cancelled());

    q.finish_download_task("a", Err(RunFailure::Cancelled), Some(retried.clone()));
    assert!(!q.is_active("a"));
    let again = q.redownload_job(Some(retried)).unwrap();
    let second = started(q.process_next("a", Some(again)));
    assert!(!second.token.is_cancelled());
    assert_eq!(q.active_count(), 1);
}

#[test]
fn cancelling_an_unknown_job_changes_nothing() {
    let mut q = DownloadQueue::new();
    q.add_job(&job("a"));
    started(q.process_next("a", Some(job("a"))));
    q.add_job(&job("b"));
    q.cancel_job("nobody");
    assert_eq!(q.pending_jobs(), ids(&["b"]));
    assert!(q.is_active("a"));
}

#[test]
fn cancelling_a_running_job_asks_its_run_to_stop_and_then_frees_the_slot() {
    let mut q = DownloadQueue::new();
    q.set_max_concurrent(1);
    q.add_job(&job("a"));
    q.add_job(&job("b"));
    let task = started(q.process_next("a", Some(job("a"))));
    assert!(!task.token.is_cancelled());

    q.cancel_job("a");
    assert!(task.token.is_cancelled());
    assert!(q.is_active("a"));
    assert_eq!(q.active_count(), 1);
    assert_eq!(q.pending_jobs(), ids(&["b"]));
    assert_eq!(q.next_candidate(), None);

    let completion =
        q.finish_download_task("a", Err(RunFailure::Cancelled), Some(task.job.clone()));
    let update = completion.update.unwrap();
    assert_eq!(update.status, JobStatus::Failed);
    assert_eq!(update.error, Some("Cancelled".to_string()));
    assert!(update.completed_at.is_some());
    assert_eq!(completion.produced, None);
    assert!(!q.is_active("a"));
    assert_eq!(q.active_count(), 0);
    assert_eq!(q.next_candidate(), Some("b".to_string()));
}

#[test]
fn cancelling_one_run_leaves_the_others_alone() {
    let mut q = DownloadQueue::new();
    q.add_job(&job("a"));
    q.add_job(&job("b"));
    let a = started(q.process_next("a", Some(job("a"))));
    let b = started(q.process_next("b", Some(job("b"))));
    q.cancel_job("b");
    assert!(!a.token.is_cancelled());
    assert!(b.token.is_cancelled());
}

#[test]
fn a_cancelled_job_that_left_the_store_gets_no_record() {
    let mut q = DownloadQueue::new();
    q.add_job(&job("a"));
    started(q.process_next("a", Some(job("a"))));
    q.cancel_job("a");
    let completion = q.finish_download_task("a", Err(RunFailure::Cancelled), None);
    assert_eq!(completion.update, None);
    assert_eq!(completion.produced, None);
    assert_eq!(q.active_count(), 0);
}

#[test]
fn a_finished_run_is_done_and_its_file_goes_to_the_index() {
    let mut q = DownloadQueue::new();
    q.add_job(&job("a"));
    let task = started(q.process_next("a", Some(job("a"))));
    let completion =
        q.finish_download_task("a", Ok("My Video.mp4".to_string()), Some(task.job.clone()));
    let update = completion.update.unwrap();
    let mut expected = task.job.clone();
    expected.mark_done("My Video.mp4", update.completed_at.unwrap());
    assert_eq!(update, expected);
    assert_eq!(update.status, JobStatus::Done);
    assert_eq!(update.progress, 100);
    assert_eq!(update.filename, Some("My Video.mp4".to_string()));
    let today = tiak_core::storage::get_today_folder();
    assert_eq!(completion.produced, Some(format!("{}/My Video.mp4", today)));
    assert!(!q.is_active("a"));
}

#[test]
fn a_failed_run_is_failed_in_the_runs_own_words() {
    let mut q = DownloadQueue::new();
    q.add_job(&job("a"));
    let task = started(q.process_next("a", Some(job("a"))));
    let completion =
        q.finish_download_task("a", Err(RunFailure::Exited(2)), Some(task.job.clone()));
    let update = completion.update.unwrap();
    assert_eq!(update.status, JobStatus::Failed);
    assert_eq!(update.error, Some("Process exited with code 2".to_string()));
    assert_eq!(update.filename, None);
    assert_eq!(completion.produced, None);
    assert_eq!(q.active_count(), 0);
}

#[test]
fn settle_is_exact_for_a_given_time_and_folder() {
    let mut record = job("a");
    record.mark_downloading(5);
    let done = settle(Ok("v.mp4".to_string()), Some(record.clone()), 9, "data/2024-05-01");
    let mut expected = record.clone();
    expected.mark_done("v.mp4", 9);
    assert_eq!(done.update, Some(expected));
    assert_eq!(done.produced, Some("data/2024-05-01/v.mp4".to_string()));

    let failed = settle(
        Err(RunFailure::Process("spawn failed".to_string())),
        Some(record.clone()),
        9,
        "data/2024-05-01",
    );
    let mut expected = record.clone();
    expected.mark_failed("spawn failed", 9);
    assert_eq!(failed.update, Some(expected));
    assert_eq!(failed.produced, None);

    let cancelled = settle(Err(RunFailure::Cancelled), Some(record.clone()), 9, "data/x");
    let mut expected = record.clone();
    expected.mark_failed("Cancelled", 9);
    assert_eq!(cancelled.update, Some(expected));

    let orphan = settle(Ok("v.mp4".to_string()), None, 9, "data/2024-05-01");
    assert_eq!(orphan.update, None);
    assert_eq!(orphan.produced, Some("data/2024-05-01/v.mp4".to_string()));
}

#[test]
fn retry_resets_the_job_and_puts_it_at_the_tail() {
    let mut q = DownloadQueue::new();
    q.add_job(&job("x"));
    let mut failed = job("a");
    failed.mark_downloading(1);
    failed.update_progress(40, Some(3));
    failed.mark_failed("boom", 2);
    let updated = q.retry_job(Some(failed)).unwrap();
    let mut expected = job("a");
    expected.retries = 1;
    assert_eq!(updated, expected);
    assert_eq!(q.pending_jobs(), ids(&["x", "a"]));
}

#[test]
fn redownload_counts_a_retry_even_from_done() {
    let mut q = DownloadQueue::new();
    let mut done = job("a");
    done.retries = 3;
    done.mark_downloading(1);
    done.mark_done("v.mp4", 2);
    let updated = q.redownload_job(Some(done)).unwrap();
    assert_eq!(updated.status, JobStatus::Queued);
    assert_eq!(updated.retries, 4);
    assert_eq!(updated.progress, 0);
    assert_eq!(updated.eta, None);
    assert_eq!(updated.error, None);
    assert_eq!(updated.started_at, None);
    assert_eq!(updated.completed_at, None);
    assert_eq!(updated.filename, None);
    assert_eq!(q.pending_jobs(), ids(&["a"]));
}

#[test]
fn retry_of_a_job_that_the_store_lacks_does_nothing() {
    let mut q = DownloadQueue::new();
    assert_eq!(q.retry_job(None), None);
    assert_eq!(q.redownload_job(None), None);
    assert_eq!(q.pending_count(), 0);
    let mut worn = job("a");
    worn.retries = i64::MAX;
    assert_eq!(q.retry_job(Some(worn.clone())), None);
    assert_eq!(q.redownload_job(Some(worn)), None);
    assert_eq!(q.pending_count(), 0);
}

#[test]
fn a_restart_requeues_each_queued_job_once() {
    let mut q = DownloadQueue::new();
    q.add_job(&job("b"));
    let mut running = job("r");
    running.mark_downloading(1);
    let mut done = job("d");
    done.mark_done("d.mp4", 2);
    let stored = vec![job("a"), running.clone(), job("b"), done, job("c"), job("a")];

    let lost = tiak_core::db::reset_crashed_jobs(&stored);
    assert_eq!(lost.len(), 1);
    assert_eq!(lost[0].id, "r");
    assert_eq!(lost[0].status, JobStatus::Failed);
    assert_eq!(lost[0].error, Some("crashed".to_string()));

    q.load_initial_state(&stored);
    assert_eq!(q.pending_jobs(), ids(&["b", "a", "c"]));
    assert_eq!(q.active_count(), 0);

    q.load_initial_state(&stored);
    assert_eq!(q.pending_jobs(), ids(&["b", "a", "c"]));
}

#[test]
fn a_crashed_job_does_not_start_after_the_restart() {
    let mut q = DownloadQueue::new();
    let mut running = job("r");
    running.mark_downloading(1);
    let stored = vec![running, job("a")];
    let lost = tiak_core::db::reset_crashed_jobs(&stored);
    q.load_initial_state(&stored);
    assert_eq!(q.pending_jobs(), ids(&["a"]));
    q.add_job(&lost[0]);
    assert!(matches!(q.process_next("a", Some(job("a"))), Dispatch::Started(_)));
    assert!(matches!(q.process_next("r", Some(lost[0].clone())), Dispatch::Skipped));
    assert!(!q.is_active("r"));
}

#[test]
fn the_sync_destination_is_kept() {
    let mut q = DownloadQueue::new();
    q.set_sync_destination("remote:bucket/videos".to_string());
    assert_eq!(q.get_sync_destination(), "remote:bucket/videos");
    q.set_sync_destination(String::new());
    assert_eq!(q.get_sync_destination(), "");
}
