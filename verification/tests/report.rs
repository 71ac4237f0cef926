use harness::diff::{DiffLine, DiffTag};
use harness::loader::TestCase;
use harness::report::{
    format_duration, has_newline, render_change, render_changes, render_diff, render_failure,
    render_stderr, strip_end, write_counts, TestReport,
};
use harness::runner::CmdOutput;
use harness::tester::TestResult;

fn bold(text: &str) -> String {
    format!("\u{1b}[1m{}\u{1b}[0m", text)
}

fn colour(code: u8, text: &str) -> String {
    format!("\u{1b}[{}m{}\u{1b}[39m", code, text)
}

fn style(code: u8, text: &str) -> String {
    format!("\u{1b}[{}m{}\u{1b}[0m", code, text)
}

fn result(id: usize, name: &str, expected: &str, status: Option<i32>, stdout: &[u8], stderr: &[u8], ms: u64) -> TestResult {
    TestResult::from_output(
        id,
        TestCase { name: name.to_string(), input: None, output: Some(expected.as_bytes().to_vec()) },
        CmdOutput::from_output(status, stdout.to_vec(), stderr.to_vec(), ms),
    )
}

#[test]
fn durations_in_seconds() {
    assert_eq!(format_duration(0), "0.00s");
    assert_eq!(format_duration(5), "0.05s");
    assert_eq!(format_duration(10), "0.10s");
    assert_eq!(format_duration(99), "0.99s");
    assert_eq!(format_duration(123), "0.123s");
    assert_eq!(format_duration(1000), "1.00s");
    assert_eq!(format_duration(61_007), "61.07s");
    assert_eq!(format_duration(u64::MAX), "18446744073709551.615s");
}

#[test]
fn counts_when_all_passed() {
    let expected = format!(
        "{}\n{} 3/4\n{} {}\n{} {}\n{} 1/4\n",
        bold("== TEST SUMMARY =="),
        bold(" finished:"),
        bold("   passed:"),
        colour(92, "3/3"),
        bold("   failed:"),
        colour(92, "0/3"),
        bold("timed out:"),
    );
    assert_eq!(write_counts(3, 0, 1, 0), expected);
}

#[test]
fn counts_when_some_failed() {
    let expected = format!(
        "{}\n{} 5/9\n{} {}/5\n{} {}/5\n{} 1/9\n",
        bold("== TEST SUMMARY =="),
        bold(" finished:"),
        bold("   passed:"),
        colour(93, "3"),
        bold("   failed:"),
        colour(91, "2"),
        bold("timed out:"),
    );
    assert_eq!(write_counts(3, 2, 1, 3), expected);
}

#[test]
fn trailing_newlines_are_taken_off() {
    assert_eq!(strip_end("abc\n\n"), vec!['a', 'b', 'c']);
    assert_eq!(strip_end("a\nb\n"), vec!['a', '\n', 'b']);
    assert_eq!(strip_end("\n\n"), Vec::<char>::new());
    assert_eq!(strip_end(""), Vec::<char>::new());
    assert_eq!(strip_end("abc \n"), vec!['a', 'b', 'c', ' ']);
    assert!(has_newline(&vec!['a', '\n', 'b']));
    assert!(!has_newline(&vec!['a', 'b']));
    assert!(!has_newline(&Vec::new()));
}

#[test]
fn a_change_in_its_colours() {
    let delete = DiffLine { tag: DiffTag::Delete, text: "old\n".to_string() };
    let insert = DiffLine { tag: DiffTag::Insert, text: "new\n".to_string() };
    let equal = DiffLine { tag: DiffTag::Equal, text: "same\n".to_string() };
    let deleted = format!("{} {}", bold(&colour(31, "-")), style(9, &style(2, "old\n")));
    let inserted = format!("{} {}", bold(&colour(34, "+")), colour(34, "new\n"));
    let kept = format!("  {}", colour(32, "same\n"));
    assert_eq!(render_change(&delete), deleted);
    assert_eq!(render_change(&insert), inserted);
    assert_eq!(render_change(&equal), kept);
    assert_eq!(render_changes(&vec![equal, delete, insert]), format!("{}{}{}", kept, deleted, inserted));
    assert_eq!(render_changes(&Vec::new()), "");
}

#[test]
fn one_line_each_is_shown_side_by_side() {
    let expected = format!("{} 24\n{} 25\n", bold("      got:"), bold(" expected:"));
    assert_eq!(render_diff("24\n", "25\n"), expected);
    assert_eq!(render_diff("24", "25\n\n"), expected);
}

#[test]
fn many_lines_are_compared_line_by_line() {
    let expected = format!(
        "{}\n  {}{} {}{} {}  {}",
        bold("output diff:"),
        colour(32, "a\n"),
        bold(&colour(31, "-")),
        style(9, &style(2, "b\n")),
        bold(&colour(34, "+")),
        colour(34, "B\n"),
        colour(32, "c\n"),
    );
    assert_eq!(render_diff("a\nb\nc\n", "a\nB\nc\n"), expected);
}

#[test]
fn an_empty_output_is_compared_too() {
    let expected = format!("{}\n{} {}", bold("output diff:"), bold(&colour(34, "+")), colour(34, "25\n"));
    assert_eq!(render_diff("", "25\n"), expected);
}

#[test]
fn stderr_on_one_line_or_below() {
    assert_eq!(render_stderr(&Vec::new()), "");
    assert_eq!(render_stderr(&b"boom\n".to_vec()), format!("{} boom\n", bold("   stderr:")));
    assert_eq!(render_stderr(&b"a\nb\n\n".to_vec()), format!("{}\na\nb\n", bold("stderr:")));
    assert_eq!(render_stderr(&vec![b'a', 0xff, b'b']), format!("{} a\u{fffd}b\n", bold("   stderr:")));
}

#[test]
fn a_failure_with_its_exit_status() {
    let head = format!("{} crash (0.07s) ", bold(&colour(91, "FAILED")));
    let failed = result(0, "crash", "1\n", Some(139), b"", b"segfault\n", 7);
    assert_eq!(
        render_failure(&failed),
        format!("{}runtime error, exit status: {}\n{} segfault\n", head, bold("139"), bold("   stderr:"))
    );
    let killed = result(0, "crash", "1\n", None, b"", b"", 7);
    assert_eq!(render_failure(&killed), format!("{}runtime error, exit status: {}\n", head, bold("unknown")));
    let negative = result(0, "crash", "1\n", Some(-9), b"", b"", 7);
    assert_eq!(render_failure(&negative), format!("{}runtime error, exit status: {}\n", head, bold("-9")));
}

#[test]
fn a_failure_with_its_output() {
    let wrong = result(3, "sum", "4\n", Some(0), b"5\n", b"", 1500);
    assert_eq!(
        render_failure(&wrong),
        format!(
            "{} sum (1.500s) wrong output\n{} 5\n{} 4\n",
            bold(&colour(91, "FAILED")),
            bold("      got:"),
            bold(" expected:")
        )
    );
    let passed = result(3, "sum", "4\n", Some(0), b"4\n", b"noise", 1500);
    assert_eq!(render_failure(&passed), "");
}

#[test]
fn the_whole_report() {
    let results = vec![
        result(0, "good", "1\n", Some(0), b"1\n", b"", 3),
        result(1, "bad", "2\n", Some(0), b"3\n", b"", 20),
        result(2, "ugly", "2\n", Some(1), b"", b"oops", 300),
    ];
    let report = TestReport::from_results(Vec::new(), results, 1);
    let expected = format!(
        "{}\n{} 3/4\n{} {}/3\n{} {}/3\n{} 0/4\n{} bad (0.20s) wrong output\n{} 3\n{} 2\n{} ugly (0.300s) runtime error, exit status: {}\n{} oops\n",
        bold("== TEST SUMMARY =="),
        bold(" finished:"),
        bold("   passed:"),
        colour(93, "1"),
        bold("   failed:"),
        colour(91, "2"),
        bold("timed out:"),
        bold(&colour(91, "FAILED")),
        bold("      got:"),
        bold(" expected:"),
        bold(&colour(91, "FAILED")),
        bold("1"),
        bold("   stderr:"),
    );
    assert_eq!(report.render(), expected);
}
