//! What a download run says on its standard output, and what follows from
//! it: progress reports for the store, the name of the file, and how the run
//! ended.

use crate::storage::{file_name, file_name_of};
use crate::text::{
    all_digits, decimal, decimal_text, decimal_value, exactly, int_of, is_all_digits, is_digit,
    join_path, joined, lemma_split_nonempty, parse_signed, parse_unsigned, signed_of, split,
    split_text, stripped, text_of, texts, to_chars, trim, trim_char, trimmed,
};
use vstd::prelude::*;

verus! {

/// A line that reports progress: the mark `[download]`, white space, and a
/// decimal number with a percent sign. Group 1 is the number.
pub const PROGRESS_PATTERN: &'static str = r"\[download\]\s+(\d+\.?\d*)%";

/// The estimated time that is left: `ETA`, white space, and two or three
/// fields of two digits between colons. Group 1 is the time.
pub const ETA_PATTERN: &'static str = r"ETA\s+(\d{2}:\d{2}(?:\:\d{2})?)";

/// The file that is being written: the word `Destination:` and the rest of
/// the line. Group 1 is the path.
pub const DESTINATION_PATTERN: &'static str = r"\b[dD]estination:\s+(.*)";

/// The file that the parts were merged into: the word `Merger`, then `into`
/// and a path, in double quotes or not. Group 1 is the path.
pub const MERGER_PATTERN: &'static str = r#"\b[mM]erger\b.*into\s+"?([^"]*)"?"#;

/// A line that says the file was there already: the mark `[download]`, a
/// path, and `has already been downloaded`. Group 1 is the path.
pub const ALREADY_PATTERN: &'static str =
    r"\[download\]\s+(.*)\s+has already been downloaded";

/// The name given to a download whose output never named a file.
pub const FALLBACK_NAME: &'static str = "unknown.mp4";

/// The least time between two progress reports of one run, in nanoseconds.
pub const REPORT_INTERVAL: u64 = 1_000_000_000;

/// What capture group 1 of the regular expression `pattern` holds at the
/// leftmost match in `line`: `None` if `pattern` is no regular expression, if
/// it matches nowhere in `line`, or if the group took no part in the match.
pub uninterp spec fn first_capture(pattern: Seq<char>, line: Seq<char>) -> Option<Seq<char>>;

/// Compiles `pattern` with `regex::Regex::new`, searches `line` with
/// `Regex::captures` and reads group 1 with `Captures::get` and
/// `Match::as_str`. The result is taken as what `first_capture` names; it
/// depends on the two texts alone.
#[verifier::external_body]
fn capture(pattern: &str, line: &str) -> (found: Option<String>)
    ensures
        text_of(found) == first_capture(pattern@, line@),
{
    match regex::Regex::new(pattern) {
        Ok(re) => re.captures(line).and_then(|c| c.get(1)).map(|m| m.as_str().to_string()),
        Err(_) => None,
    }
}

/// What the five patterns found in one line.
#[derive(Debug, PartialEq, Eq)]
pub struct LineMatches {
    pub percent: Option<String>,
    pub eta: Option<String>,
    pub destination: Option<String>,
    pub merged: Option<String>,
    pub already: Option<String>,
}

/// What the five patterns found in one line, as plain values.
pub ghost struct LineMatchesView {
    pub percent: Option<Seq<char>>,
    pub eta: Option<Seq<char>>,
    pub destination: Option<Seq<char>>,
    pub merged: Option<Seq<char>>,
    pub already: Option<Seq<char>>,
}

impl View for LineMatches {
    type V = LineMatchesView;

    open spec fn view(&self) -> LineMatchesView {
        LineMatchesView {
            percent: text_of(self.percent),
            eta: text_of(self.eta),
            destination: text_of(self.destination),
            merged: text_of(self.merged),
            already: text_of(self.already),
        }
    }
}

/// What the five patterns find in `line`.
pub open spec fn matches_of(line: Seq<char>) -> LineMatchesView {
    LineMatchesView {
        percent: first_capture(PROGRESS_PATTERN@, line),
        eta: first_capture(ETA_PATTERN@, line),
        destination: first_capture(DESTINATION_PATTERN@, line),
        merged: first_capture(MERGER_PATTERN@, line),
        already: first_capture(ALREADY_PATTERN@, line),
    }
}

/// Applies each of the five patterns to `line`, independently of the others.
pub fn scan_line(line: &str) -> (found: LineMatches)
    ensures
        found@ == matches_of(line@),
{
    LineMatches {
        percent: capture(PROGRESS_PATTERN, line),
        eta: capture(ETA_PATTERN, line),
        destination: capture(DESTINATION_PATTERN, line),
        merged: capture(MERGER_PATTERN, line),
        already: capture(ALREADY_PATTERN, line),
    }
}

/// The whole percent that a decimal number stands for: the digits before the
/// point, or `i64::MAX` if they stand for more. `None` unless the text is one
/// or more digits, alone or followed by a point and any number of digits.
pub open spec fn percent_of(number: Seq<char>) -> Option<int> {
    let parts = split_text(number, '.');
    if (parts.len() == 1 || (parts.len() == 2 && all_digits(parts[1]))) && parts[0].len() > 0
        && all_digits(parts[0]) {
        if decimal_value(parts[0]) > i64::MAX {
            Some(i64::MAX as int)
        } else {
            Some(decimal_value(parts[0]) as int)
        }
    } else {
        None
    }
}

/// The whole percent that a decimal number stands for.
pub fn whole_percent(number: &str) -> (percent: Option<i64>)
    ensures
        int_of(percent) == percent_of(number@),
{
    let parts = split(number, '.');
    proof {
        lemma_split_nonempty(number@, '.');
        assert(texts(parts@)[0] == parts@[0]@);
        if parts.len() >= 2 {
            assert(texts(parts@)[1] == parts@[1]@);
        }
    }
    if parts.len() > 2 {
        return None;
    }
    if parts.len() == 2 && !is_all_digits(parts[1].as_str()) {
        return None;
    }
    let whole: &str = parts[0].as_str();
    let first = to_chars(whole);
    if first.len() == 0 || !is_all_digits(whole) {
        return None;
    }
    proof {
        assert(whole@[0] != '+') by {
            assert(is_digit(whole@[0]));
        }
    }
    match parse_unsigned(whole, 0x7fff_ffff_ffff_ffffu64) {
        Some(v) => Some(v as i64),
        None => Some(i64::MAX),
    }
}

/// The number that one field of a time stands for: what the field reads as
/// when it is a signed decimal number that fits in 64 bits, and 0 otherwise.
pub open spec fn field_value(field: Seq<char>) -> int {
    match signed_of(field) {
        Some(v) => if i64::MIN <= v <= i64::MAX {
            v
        } else {
            0
        },
        None => 0,
    }
}

/// The seconds that a time of day stands for: hours, minutes and seconds
/// where it has three fields between colons, minutes and seconds where it
/// has two, and its first field alone otherwise.
pub open spec fn seconds_of(eta: Seq<char>) -> int {
    let parts = split_text(eta, ':');
    if parts.len() == 3 {
        field_value(parts[0]) * 3600 + field_value(parts[1]) * 60 + field_value(parts[2])
    } else if parts.len() == 2 {
        field_value(parts[0]) * 60 + field_value(parts[1])
    } else {
        field_value(parts[0])
    }
}

/// The number that one field of a time stands for.
fn field(text: &str) -> (v: i64)
    ensures
        v == field_value(text@),
{
    match parse_signed(text) {
        Some(v) => v,
        None => 0,
    }
}

/// Reads an estimated time of the form `SS`, `MM:SS` or `HH:MM:SS` as a
/// number of seconds. `None` only where the number does not fit in 64 bits.
pub fn parse_eta(eta: &str) -> (seconds: Option<i64>)
    ensures
        int_of(seconds) == if i64::MIN <= seconds_of(eta@) <= i64::MAX {
            Some(seconds_of(eta@))
        } else {
            None
        },
{
    let parts = split(eta, ':');
    proof {
        lemma_split_nonempty(eta@, ':');
        assert(texts(parts@)[0] == parts@[0]@);
        if parts.len() >= 2 {
            assert(texts(parts@)[1] == parts@[1]@);
        }
        if parts.len() >= 3 {
            assert(texts(parts@)[2] == parts@[2]@);
        }
    }
    let total: i128 = if parts.len() == 3 {
        field(parts[0].as_str()) as i128 * 3600 + field(parts[1].as_str()) as i128 * 60 + field(
            parts[2].as_str(),
        ) as i128
    } else if parts.len() == 2 {
        field(parts[0].as_str()) as i128 * 60 + field(parts[1].as_str()) as i128
    } else {
        field(parts[0].as_str()) as i128
    };
    if total < i64::MIN as i128 || total > i64::MAX as i128 {
        None
    } else {
        Some(total as i64)
    }
}

/// A progress report for the store: the percentage, and the seconds that are
/// left if the line told.
#[derive(Clone, Copy, Debug, PartialEq, Eq, Structural)]
pub struct ProgressUpdate {
    pub progress: i64,
    pub eta: Option<i64>,
}

/// The seconds that an estimated time stands for, if one was found and the
/// number fits in 64 bits.
pub open spec fn eta_seconds(eta: Option<Seq<char>>) -> Option<i64> {
    match eta {
        Some(t) => if i64::MIN <= seconds_of(t) <= i64::MAX {
            Some(seconds_of(t) as i64)
        } else {
            None
        },
        None => None,
    }
}

/// Whether a line with the matches `m` makes a progress report when `waited`
/// nanoseconds have passed since the last one: it holds a percentage, and
/// the interval between reports is over.
pub open spec fn reports_progress(m: LineMatchesView, waited: int) -> bool {
    m.percent matches Some(number) && percent_of(number) is Some && waited >= REPORT_INTERVAL
}

/// The reports that a line with the matches `m` makes for the store, in
/// order: the percentage it holds, if the interval is over, and then a
/// report of 100 percent with no time left if it says that the file was
/// there already.
pub open spec fn reports_of(m: LineMatchesView, waited: int) -> Seq<ProgressUpdate> {
    let first = if reports_progress(m, waited) {
        seq![
            ProgressUpdate {
                progress: percent_of(m.percent->0)->0 as i64,
                eta: eta_seconds(m.eta),
            },
        ]
    } else {
        Seq::<ProgressUpdate>::empty()
    };
    if m.already is Some {
        first.push(ProgressUpdate { progress: 100, eta: Some(0i64) })
    } else {
        first
    }
}

/// The file that the output has named once a line with the matches `m` is
/// read, where `found` was named before. Of the three kinds of line that
/// name a file, the one read last counts; within one line, "already
/// downloaded" goes before "merged into", and that before "destination".
pub open spec fn named_after(found: Seq<char>, m: LineMatchesView) -> Seq<char> {
    match m.already {
        Some(path) => trimmed(path),
        None => match m.merged {
            Some(path) => stripped(trimmed(path), exactly('"')),
            None => match m.destination {
                Some(path) => trimmed(path),
                None => found,
            },
        },
    }
}

/// Reads the output of one download run line by line.
pub struct OutputScanner {
    found_filename: String,
    last_report: u64,
}

impl OutputScanner {
    /// The file that the output has named so far; empty if it has named none.
    pub closed spec fn found(&self) -> Seq<char> {
        self.found_filename@
    }

    /// The time of the last progress report on the caller's clock, in
    /// nanoseconds; the time of the start before the first report.
    pub closed spec fn last_report(&self) -> int {
        self.last_report as int
    }

    /// A scanner for a run that starts at `now` on the caller's clock.
    pub fn new(now: u64) -> (scanner: OutputScanner)
        ensures
            scanner.found() == Seq::<char>::empty(),
            scanner.last_report() == now,
    {
        OutputScanner { found_filename: String::new(), last_report: now }
    }

    /// The time that has passed since the last progress report, at `now` on
    /// a clock that does not run backwards.
    pub open spec fn waited(&self, now: u64) -> int {
        if now >= self.last_report() {
            now - self.last_report()
        } else {
            0
        }
    }

    /// Takes in what the patterns found in one line, read at `now` on the
    /// caller's clock. Returns the reports that the line makes for the store.
    pub fn observe(&mut self, found: &LineMatches, now: u64) -> (reports: Vec<ProgressUpdate>)
        ensures
            reports@ == reports_of(found@, old(self).waited(now)),
            final(self).found() == named_after(old(self).found(), found@),
            final(self).last_report() == if reports_progress(found@, old(self).waited(now)) {
                now as int
            } else {
                old(self).last_report()
            },
    {
        let mut reports: Vec<ProgressUpdate> = Vec::new();
        let waited: u64 = if now >= self.last_report {
            now - self.last_report
        } else {
            0
        };
        if let Some(number) = &found.percent {
            if let Some(percent) = whole_percent(number.as_str()) {
                if waited >= REPORT_INTERVAL {
                    let eta: Option<i64> = match &found.eta {
                        Some(t) => parse_eta(t.as_str()),
                        None => None,
                    };
                    reports.push(ProgressUpdate { progress: percent, eta });
                    self.last_report = now;
                }
            }
        }
        if let Some(path) = &found.destination {
            self.found_filename = trim(path.as_str());
        }
        if let Some(path) = &found.merged {
            let inner = trim(path.as_str());
            self.found_filename = trim_char(inner.as_str(), '"');
        }
        if let Some(path) = &found.already {
            self.found_filename = trim(path.as_str());
            reports.push(ProgressUpdate { progress: 100, eta: Some(0) });
        }
        proof {
            assert(reports@ =~= reports_of(found@, old(self).waited(now)));
        }
        reports
    }

    /// Reads one line of the run's standard output at `now` on the caller's
    /// clock. Returns the reports that the line makes for the store.
    pub fn feed(&mut self, line: &str, now: u64) -> (reports: Vec<ProgressUpdate>)
        ensures
            reports@ == reports_of(matches_of(line@), old(self).waited(now)),
            final(self).found() == named_after(old(self).found(), matches_of(line@)),
            final(self).last_report() == if reports_progress(
                matches_of(line@),
                old(self).waited(now),
            ) {
                now as int
            } else {
                old(self).last_report()
            },
    {
        let found = scan_line(line);
        self.observe(&found, now)
    }
}

/// How the process of a run ended.
#[derive(Debug, PartialEq, Eq)]
pub enum ProcessExit {
    /// Cancellation was asked for before the process ended, and it was killed.
    Cancelled,
    /// The process ended by itself and reported success.
    Success,
    /// The process ended by itself with this exit code, if it had one.
    Failure(Option<i32>),
    /// The process could not be started, awaited or killed.
    Error(String),
}

/// Why a run produced no file.
#[derive(Debug, PartialEq, Eq)]
pub enum RunFailure {
    /// The run was cancelled.
    Cancelled,
    /// The process ended with this exit code, -1 standing for none.
    Exited(i32),
    /// The process could not be started, awaited or killed.
    Process(String),
}

/// Why a run produced no file, as plain values.
pub ghost enum RunFailureView {
    Cancelled,
    Exited(int),
    Process(Seq<char>),
}

impl View for RunFailure {
    type V = RunFailureView;

    open spec fn view(&self) -> RunFailureView {
        match self {
            RunFailure::Cancelled => RunFailureView::Cancelled,
            RunFailure::Exited(code) => RunFailureView::Exited(*code as int),
            RunFailure::Process(text) => RunFailureView::Process(text@),
        }
    }
}

impl RunFailureView {
    /// The failure in words.
    pub open spec fn message(self) -> Seq<char> {
        match self {
            RunFailureView::Cancelled => "Job cancelled"@,
            RunFailureView::Exited(code) => "Process exited with code "@ + decimal_text(code),
            RunFailureView::Process(text) => text,
        }
    }
}

impl RunFailure {
    /// The failure in words.
    pub fn message(&self) -> (text: String)
        ensures
            text@ == self@.message(),
    {
        match self {
            RunFailure::Cancelled => "Job cancelled".to_owned(),
            RunFailure::Exited(code) => {
                let mut text: String = "Process exited with code ".to_owned();
                let number = decimal(*code as i64);
                text.append(number.as_str());
                text
            },
            RunFailure::Process(text) => text.clone(),
        }
    }
}

/// The name under which a finished download is recorded: the final
/// component of the path that the output named, and the fallback name where
/// the output named no path, or one without a final component.
pub open spec fn resolved_name(found: Seq<char>) -> Seq<char> {
    match file_name_of(found) {
        Some(name) => name,
        None => FALLBACK_NAME@,
    }
}

/// What a run comes to: the name of its file, or why there is none.
pub open spec fn outcome_of(exit: ProcessExit, found: Seq<char>) -> Result<
    Seq<char>,
    RunFailureView,
> {
    match exit {
        ProcessExit::Cancelled => Err(RunFailureView::Cancelled),
        ProcessExit::Success => Ok(resolved_name(found)),
        ProcessExit::Failure(Some(code)) => Err(RunFailureView::Exited(code as int)),
        ProcessExit::Failure(None) => Err(RunFailureView::Exited(-1)),
        ProcessExit::Error(text) => Err(RunFailureView::Process(text@)),
    }
}

/// The outcome of a run, with its texts as plain values.
pub open spec fn outcome_view(outcome: Result<String, RunFailure>) -> Result<
    Seq<char>,
    RunFailureView,
> {
    match outcome {
        Ok(name) => Ok(name@),
        Err(failure) => Err(failure@),
    }
}

impl OutputScanner {
    /// Settles what the run comes to once its process has ended as `exit`
    /// says and all its output is read.
    pub fn finish(&self, exit: ProcessExit) -> (outcome: Result<String, RunFailure>)
        ensures
            outcome_view(outcome) == outcome_of(exit, self.found()),
    {
        match exit {
            ProcessExit::Cancelled => Err(RunFailure::Cancelled),
            ProcessExit::Success => {
                match file_name(self.found_filename.as_str()) {
                    Some(name) => Ok(name),
                    None => Ok(FALLBACK_NAME.to_owned()),
                }
            },
            ProcessExit::Failure(Some(code)) => Err(RunFailure::Exited(code)),
            ProcessExit::Failure(None) => Err(RunFailure::Exited(-1)),
            ProcessExit::Error(text) => Err(RunFailure::Process(text)),
        }
    }
}

/// The command line of a download run for `url`, with the program first.
/// `work_dir` is the directory that holds the tool and its interpreter, and
/// `output_folder` the folder that takes the file. Nothing else varies.
pub open spec fn download_arguments(
    work_dir: Seq<char>,
    output_folder: Seq<char>,
    url: Seq<char>,
) -> Seq<Seq<char>> {
    seq![
        "nice"@,
        "-n"@,
        "10"@,
        joined(work_dir, "venv_python/bin/python"@),
        joined(work_dir, "bin/yt-dlp"@),
        "--newline"@,
        "--impersonate"@,
        "chrome"@,
        "--no-check-certificates"@,
        "--add-header"@,
        "Referer:https://www.tiktok.com/"@,
        "-f"@,
        "bv*+ba/best"@,
        "--merge-output-format"@,
        "mp4"@,
        "--remux-video"@,
        "mp4"@,
        "--postprocessor-args"@,
        "ffmpeg:-movflags +faststart"@,
        "-o"@,
        joined(output_folder, "%(title)s.%(ext)s"@),
        url,
    ]
}

/// The command line of a download run for `url`, with the program first.
pub fn download_command(work_dir: &str, output_folder: &str, url: &str) -> (command: Vec<String>)
    ensures
        texts(command@) == download_arguments(work_dir@, output_folder@, url@),
{
    let mut command: Vec<String> = Vec::new();
    command.push("nice".to_owned());
    command.push("-n".to_owned());
    command.push("10".to_owned());
    command.push(join_path(work_dir, "venv_python/bin/python"));
    command.push(join_path(work_dir, "bin/yt-dlp"));
    command.push("--newline".to_owned());
    command.push("--impersonate".to_owned());
    command.push("chrome".to_owned());
    command.push("--no-check-certificates".to_owned());
    command.push("--add-header".to_owned());
    command.push("Referer:https://www.tiktok.com/".to_owned());
    command.push("-f".to_owned());
    command.push("bv*+ba/best".to_owned());
    command.push("--merge-output-format".to_owned());
    command.push("mp4".to_owned());
    command.push("--remux-video".to_owned());
    command.push("mp4".to_owned());
    command.push("--postprocessor-args".to_owned());
    command.push("ffmpeg:-movflags +faststart".to_owned());
    command.push("-o".to_owned());
    command.push(join_path(output_folder, "%(title)s.%(ext)s"));
    command.push(url.to_owned());
    proof {
        assert(texts(command@) =~= download_arguments(work_dir@, output_folder@, url@));
    }
    command
}

} // verus!
