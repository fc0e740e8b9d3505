use tiak_core::runner::{
    download_command, parse_eta, scan_line, whole_percent, LineMatches, OutputScanner,
    ProcessExit, ProgressUpdate, RunFailure, FALLBACK_NAME, REPORT_INTERVAL,
};

const SECOND: u64 = 1_000_000_000;

fn nothing() -> LineMatches {
    LineMatches { percent: None, eta: None, destination: None, merged: None, already: None }
}

#[test]
fn eta_formula_values() {
    assert_eq!(parse_eta("42"), Some(42));
    assert_eq!(parse_eta("02:05"), Some(125));
    assert_eq!(parse_eta("01:02:03"), Some(3723));
    assert_eq!(parse_eta("00:00"), Some(0));
    assert_eq!(parse_eta("99:59:59"), Some(359_999));
}

#[test]
fn eta_fields_that_are_no_number_count_as_zero() {
    assert_eq!(parse_eta(""), Some(0));
    assert_eq!(parse_eta("abc"), Some(0));
    assert_eq!(parse_eta("xx:30"), Some(30));
    assert_eq!(parse_eta("02:yy"), Some(120));
    assert_eq!(parse_eta("1:2:3:4"), Some(1));
    assert_eq!(parse_eta(":"), Some(0));
    assert_eq!(parse_eta("-01:30"), Some(-30));
    assert_eq!(parse_eta("99999999999999999999:00"), Some(0));
}

#[test]
fn eta_that_does_not_fit_is_no_eta() {
    assert_eq!(parse_eta("9223372036854775807"), Some(i64::MAX));
    assert_eq!(parse_eta("9223372036854775807:00"), None);
    assert_eq!(parse_eta("9223372036854775807:00:00"), None);
    assert_eq!(parse_eta("-9223372036854775808:00"), None);
    assert_eq!(parse_eta("153722867280912930:07"), Some(i64::MAX));
    assert_eq!(parse_eta("153722867280912930:08"), None);
}

#[test]
fn percent_is_the_number_before_the_point() {
    assert_eq!(whole_percent("42.7"), Some(42));
    assert_eq!(whole_percent("100"), Some(100));
    assert_eq!(whole_percent("100.0"), Some(100));
    assert_eq!(whole_percent("0.9"), Some(0));
    assert_eq!(whole_percent("7."), Some(7));
    assert_eq!(whole_percent("007.25"), Some(7));
    assert_eq!(whole_percent("99999999999999999999"), Some(i64::MAX));
    assert_eq!(whole_percent("9223372036854775807.5"), Some(i64::MAX));
}

#[test]
fn percent_wants_digits() {
    assert_eq!(whole_percent(""), None);
    assert_eq!(whole_percent(".5"), None);
    assert_eq!(whole_percent("+5"), None);
    assert_eq!(whole_percent("-5"), None);
    assert_eq!(whole_percent("5.5.5"), None);
    assert_eq!(whole_percent("5.x"), None);
    assert_eq!(whole_percent("5%"), None);
    assert_eq!(whole_percent(" 5"), None);
}

#[test]
fn the_patterns_read_a_line_independently() {
    let found = scan_line("[download]  42.7% of 10.00MiB at 1.00MiB/s ETA 01:05");
    assert_eq!(found.percent, Some("42.7".to_string()));
    assert_eq!(found.eta, Some("01:05".to_string()));
    assert_eq!(found.destination, None);
    assert_eq!(found.merged, None);
    assert_eq!(found.already, None);

    let found = scan_line("[download] Destination: data/2024-05-01/My Video.f137.mp4  ");
    assert_eq!(found.percent, None);
    assert_eq!(found.eta, None);
    assert_eq!(found.destination, Some("data/2024-05-01/My Video.f137.mp4  ".to_string()));
    assert_eq!(found.merged, None);
    assert_eq!(found.already, None);

    let found = scan_line("[Merger] Merging formats into \"data/2024-05-01/My Video.mp4\"");
    assert_eq!(found.merged, Some("data/2024-05-01/My Video.mp4".to_string()));
    assert_eq!(found.destination, None);

    let found = scan_line("[download] data/2024-05-01/v.mp4 has already been downloaded");
    assert_eq!(found.already, Some("data/2024-05-01/v.mp4".to_string()));

    let found = scan_line("[download] 100% of 10.00MiB in 00:03");
    assert_eq!(found.percent, Some("100".to_string()));
    assert_eq!(found.eta, None);
    assert_eq!(found.already, None);

    assert_eq!(scan_line("download 50%").percent, None);
    assert_eq!(scan_line("d 50%").percent, None);
    assert_eq!(scan_line("[download] Destination: a 50% b").percent, None);
    assert_eq!(scan_line(""), nothing());
    assert_eq!(scan_line("[youtube] Extracting URL: https://example.com"), nothing());
}

#[test]
fn the_eta_pattern_takes_hours_too() {
    assert_eq!(scan_line("ETA 01:02:03").eta, Some("01:02:03".to_string()));
    assert_eq!(scan_line("ETA   59:59 left").eta, Some("59:59".to_string()));
    assert_eq!(scan_line("ETA 5:00").eta, None);
    assert_eq!(scan_line("ETA Unknown").eta, None);
}

#[test]
fn progress_is_reported_once_a_second_at_most() {
    let line = "[download] 10% ETA 00:30";
    let mut scanner = OutputScanner::new(0);
    assert_eq!(scanner.feed(line, SECOND / 2), vec![]);
    assert_eq!(scanner.feed(line, SECOND - 1), vec![]);
    assert_eq!(
        scanner.feed(line, SECOND),
        vec![ProgressUpdate { progress: 10, eta: Some(30) }]
    );
    assert_eq!(scanner.feed("[download] 20%", SECOND + 1), vec![]);
    assert_eq!(scanner.feed("[download] 30%", 2 * SECOND - 1), vec![]);
    assert_eq!(
        scanner.feed("[download] 40.9%", 2 * SECOND),
        vec![ProgressUpdate { progress: 40, eta: None }]
    );
    assert_eq!(REPORT_INTERVAL, SECOND);
}

#[test]
fn a_clock_that_runs_backwards_reports_nothing() {
    let mut scanner = OutputScanner::new(5 * SECOND);
    assert_eq!(scanner.feed("[download] 10%", 0), vec![]);
    assert_eq!(scanner.feed("[download] 10%", 5 * SECOND), vec![]);
    assert_eq!(
        scanner.feed("[download] 10%", 6 * SECOND),
        vec![ProgressUpdate { progress: 10, eta: None }]
    );
}

#[test]
fn a_line_without_a_percentage_does_not_restart_the_interval() {
    let mut scanner = OutputScanner::new(0);
    assert_eq!(scanner.feed("[download] Destination: a.mp4", 2 * SECOND), vec![]);
    assert_eq!(
        scanner.feed("[download] 5%", 2 * SECOND + 1),
        vec![ProgressUpdate { progress: 5, eta: None }]
    );
}

#[test]
fn already_downloaded_reports_completion_whatever_the_interval() {
    let mut scanner = OutputScanner::new(0);
    let reports = scanner.feed("[download] data/d/v.mp4 has already been downloaded", 1);
    assert_eq!(reports, vec![ProgressUpdate { progress: 100, eta: Some(0) }]);
    assert_eq!(scanner.finish(ProcessExit::Success), Ok("v.mp4".to_string()));
    assert_eq!(
        scanner.feed("[download] 50%", SECOND),
        vec![ProgressUpdate { progress: 50, eta: None }]
    );
}

#[test]
fn a_line_may_make_two_reports() {
    let mut scanner = OutputScanner::new(0);
    let found = LineMatches {
        percent: Some("80".to_string()),
        eta: Some("00:07".to_string()),
        destination: None,
        merged: None,
        already: Some(" x.mp4 ".to_string()),
    };
    assert_eq!(
        scanner.observe(&found, 3 * SECOND),
        vec![
            ProgressUpdate { progress: 80, eta: Some(7) },
            ProgressUpdate { progress: 100, eta: Some(0) },
        ]
    );
    assert_eq!(scanner.finish(ProcessExit::Success), Ok("x.mp4".to_string()));
}

#[test]
fn merged_after_destination_wins() {
    let mut scanner = OutputScanner::new(0);
    scanner.feed("[download] Destination: data/d/Title.f137.mp4", 1);
    scanner.feed("[download] Destination: data/d/Title.f140.m4a", 2);
    scanner.feed("[Merger] Merging formats into \"data/d/Title.mp4\"", 3);
    assert_eq!(scanner.finish(ProcessExit::Success), Ok("Title.mp4".to_string()));
}

#[test]
fn destination_after_merged_wins() {
    let mut scanner = OutputScanner::new(0);
    scanner.feed("[Merger] Merging formats into \"data/d/Title.mp4\"", 1);
    scanner.feed("[download] Destination: data/d/Other.mp4", 2);
    assert_eq!(scanner.finish(ProcessExit::Success), Ok("Other.mp4".to_string()));
}

#[test]
fn within_one_line_the_later_kind_wins() {
    let mut scanner = OutputScanner::new(0);
    let found = LineMatches {
        percent: None,
        eta: None,
        destination: Some(" dest.mp4 ".to_string()),
        merged: Some(" \"merged.mp4\" ".to_string()),
        already: None,
    };
    scanner.observe(&found, 0);
    assert_eq!(scanner.finish(ProcessExit::Success), Ok("merged.mp4".to_string()));
    let found = LineMatches {
        percent: None,
        eta: None,
        destination: Some("dest.mp4".to_string()),
        merged: Some("merged.mp4".to_string()),
        already: Some("already.mp4".to_string()),
    };
    scanner.observe(&found, 0);
    assert_eq!(scanner.finish(ProcessExit::Success), Ok("already.mp4".to_string()));
}

#[test]
fn a_name_is_kept_over_lines_that_name_none() {
    let mut scanner = OutputScanner::new(0);
    scanner.feed("[download] Destination: data/d/keep.mp4", 1);
    scanner.feed("[download] 50%", 2);
    scanner.feed("[youtube] something", 3);
    assert_eq!(scanner.finish(ProcessExit::Success), Ok("keep.mp4".to_string()));
}

#[test]
fn success_without_a_name_takes_the_fallback_name() {
    let scanner = OutputScanner::new(0);
    assert_eq!(FALLBACK_NAME, "unknown.mp4");
    assert_eq!(scanner.finish(ProcessExit::Success), Ok("unknown.mp4".to_string()));
    for path in ["/", "..", "data/d/..", ".", "./", "   "] {
        let mut scanner = OutputScanner::new(0);
        scanner.feed(&format!("[download] Destination: {}", path), 1);
        assert_eq!(scanner.finish(ProcessExit::Success), Ok("unknown.mp4".to_string()));
    }
}

#[test]
fn the_name_is_the_final_component_of_the_path() {
    for (path, name) in [
        ("data/d/v.mp4", "v.mp4"),
        ("v.mp4", "v.mp4"),
        ("data/d/", "d"),
        ("data/d/.", "d"),
        ("data/d//", "d"),
        ("/abs/My Video.mp4", "My Video.mp4"),
        ("data/d/...", "..."),
    ] {
        let mut scanner = OutputScanner::new(0);
        scanner.feed(&format!("[download] Destination: {}", path), 1);
        assert_eq!(scanner.finish(ProcessExit::Success), Ok(name.to_string()), "{}", path);
    }
}

#[test]
fn a_run_that_does_not_succeed_yields_no_name() {
    let mut scanner = OutputScanner::new(0);
    scanner.feed("[download] Destination: data/d/part.mp4", 1);
    assert_eq!(scanner.finish(ProcessExit::Cancelled), Err(RunFailure::Cancelled));
    assert_eq!(scanner.finish(ProcessExit::Failure(Some(1))), Err(RunFailure::Exited(1)));
    assert_eq!(scanner.finish(ProcessExit::Failure(None)), Err(RunFailure::Exited(-1)));
    assert_eq!(
        scanner.finish(ProcessExit::Error("No such file or directory".to_string())),
        Err(RunFailure::Process("No such file or directory".to_string()))
    );
}

#[test]
fn failures_are_put_in_words() {
    assert_eq!(RunFailure::Cancelled.message(), "Job cancelled");
    assert_eq!(RunFailure::Exited(1).message(), "Process exited with code 1");
    assert_eq!(RunFailure::Exited(-1).message(), "Process exited with code -1");
    assert_eq!(RunFailure::Exited(i32::MIN).message(), "Process exited with code -2147483648");
    assert_eq!(RunFailure::Process("spawn failed".to_string()).message(), "spawn failed");
}

#[test]
fn the_command_line_is_fixed_but_for_folder_and_url() {
    let command = download_command("/srv/app", "data/2024-05-01", "https://example.com/v");
    assert_eq!(
        command,
        vec![
            "nice",
            "-n",
            "10",
            "/srv/app/venv_python/bin/python",
            "/srv/app/bin/yt-dlp",
            "--newline",
            "--impersonate",
            "chrome",
            "--no-check-certificates",
            "--add-header",
            "Referer:https://www.tiktok.com/",
            "-f",
            "bv*+ba/best",
            "--merge-output-format",
            "mp4",
            "--remux-video",
            "mp4",
            "--postprocessor-args",
            "ffmpeg:-movflags +faststart",
            "-o",
            "data/2024-05-01/%(title)s.%(ext)s",
            "https://example.com/v",
        ]
    );
}

#[test]
fn progress_of_a_running_job_does_not_fall() {
    let mut job = tiak_core::db::Job::queued("a".to_string(), "u".to_string(), 0);
    job.mark_downloading(1);
    let mut scanner = OutputScanner::new(0);
    let mut seen = vec![job.progress];
    let lines = ["[download] 0.0%", "[download] 12.5% ETA 00:40", "[download] 12.9%", "[download] 55%", "[download] 99.9% ETA 00:01", "[download] 100%"];
    for (i, line) in lines.iter().enumerate() {
        for report in scanner.feed(line, (i as u64 + 1) * SECOND) {
            job.update_progress(report.progress, report.eta);
            seen.push(job.progress);
        }
    }
    assert_eq!(seen, vec![0, 0, 12, 12, 55, 99, 100]);
    assert!(seen.windows(2).all(|w| w[0] <= w[1]));
    assert_eq!(job.status, tiak_core::db::JobStatus::Downloading);
    job.mark_done("v.mp4", 9);
    assert_eq!(job.progress, 100);
}
