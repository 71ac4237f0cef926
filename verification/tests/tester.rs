use harness::loader::TestCase;
use harness::report::TestReport;
use harness::runner::{CmdOutput, ExecResult};
use harness::tester::{judge, outputs_agree, ResultType, TestResult, Tester};

fn case(name: &str, input: &str, output: &str) -> TestCase {
    TestCase {
        name: name.to_string(),
        input: Some(input.as_bytes().to_vec()),
        output: Some(output.as_bytes().to_vec()),
    }
}

fn ended(status: Option<i32>, stdout: &str, stderr: &str) -> CmdOutput {
    CmdOutput::from_output(status, stdout.as_bytes().to_vec(), stderr.as_bytes().to_vec(), 12)
}

fn squares(count: usize) -> Vec<TestCase> {
    (0..count).map(|n| case(&format!("case {}", n), &format!("{}\n", n), &format!("{}\n", n * n))).collect()
}

#[test]
fn squared_input_passes() {
    let result = TestResult::from_output(0, case("square", "5\n", "25\n"), ended(Some(0), "25\n", ""));
    assert_eq!(result.result_type, ResultType::Pass);
    assert_eq!(result.test_id, 0);
    assert_eq!(result.status, Some(0));
    assert_eq!(result.stdout, b"25\n".to_vec());
    assert_eq!(result.duration, 12);
}

#[test]
fn one_trailing_newline_is_left_aside() {
    assert!(outputs_agree(&b"25".to_vec(), &b"25\n".to_vec()));
    assert!(outputs_agree(&b"25\n".to_vec(), &b"25".to_vec()));
    assert!(outputs_agree(&b"".to_vec(), &b"\n".to_vec()));
    assert!(!outputs_agree(&b"25\n\n".to_vec(), &b"25".to_vec()));
    assert!(!outputs_agree(&b"25 \n".to_vec(), &b"25\n".to_vec()));
    assert!(!outputs_agree(&b"24\n".to_vec(), &b"25\n".to_vec()));
}

#[test]
fn judgement_by_status_then_output() {
    let expected = Some(b"ok\n".to_vec());
    assert_eq!(judge(Some(0), &b"ok\n".to_vec(), &expected), ResultType::Pass);
    assert_eq!(judge(Some(0), &b"no\n".to_vec(), &expected), ResultType::WrongOutput);
    assert_eq!(judge(Some(1), &b"ok\n".to_vec(), &expected), ResultType::Signaled);
    assert_eq!(judge(Some(-1), &b"ok\n".to_vec(), &expected), ResultType::Signaled);
    assert_eq!(judge(None, &b"ok\n".to_vec(), &expected), ResultType::Signaled);
    assert_eq!(judge(Some(0), &b"anything".to_vec(), &None), ResultType::Pass);
    assert_eq!(judge(Some(0), &b"x".to_vec(), &Some(Vec::new())), ResultType::WrongOutput);
}

#[test]
fn summary_counts_in_colour() {
    let mut tester = Tester::new(
        vec![case("a", "1\n", "1\n"), case("b", "2\n", "4\n")],
        vec!["prog".to_string()],
        None,
    );
    tester.report(ExecResult::from_output(0, ended(Some(0), "1\n", "")));
    tester.report(ExecResult::from_output(1, ended(Some(0), "5\n", "")));
    assert_eq!(
        tester.summary(),
        "\u{1b}[32m1 passed\u{1b}[39m / \u{1b}[31m1 failed\u{1b}[39m / 2 finished"
    );
}

#[test]
fn execs_name_every_case_once() {
    let tester = Tester::new(squares(4), vec!["prog".to_string(), "-x".to_string()], Some(250));
    let execs = tester.execs();
    assert_eq!(execs.len(), 4);
    for (place, exec) in execs.iter().enumerate() {
        assert_eq!(exec.test_id, place);
        assert_eq!(exec.cmd_args, vec!["prog".to_string(), "-x".to_string()]);
        assert_eq!(exec.input, format!("{}\n", place).into_bytes());
        assert_eq!(exec.timeout, Some(250));
    }
}

#[test]
fn a_case_without_input_feeds_nothing() {
    let tester = Tester::new(
        vec![TestCase { name: "bare".to_string(), input: None, output: None }],
        vec!["prog".to_string()],
        None,
    );
    let execs = tester.execs();
    assert_eq!(execs.len(), 1);
    assert_eq!(execs[0].input, Vec::<u8>::new());
    assert_eq!(execs[0].timeout, None);
}

#[test]
fn ten_cases_give_ten_outcomes() {
    let mut tester = Tester::new(squares(10), vec!["square".to_string()], None);
    assert_eq!(tester.total_count(), 10);
    let order = [7usize, 2, 9, 0, 5, 1, 8, 3, 6, 4];
    for id in order {
        assert!(tester.is_pending(id));
        let stdout = if id == 3 { "wrong\n".to_string() } else { format!("{}\n", id * id) };
        let status = if id == 6 { Some(2) } else { Some(0) };
        tester.report(ExecResult::from_output(id, ended(status, &stdout, "")));
        assert!(!tester.is_pending(id));
    }
    assert_eq!(tester.total_count(), 10);
    let report = tester.into_report();
    assert_eq!(report.passed().len(), 8);
    assert_eq!(report.failed().len(), 2);
    assert_eq!(report.timed_out().len(), 0);
    assert_eq!(report.unfinished(), 0);
    assert_eq!(report.terminated_count(), 10);
    assert_eq!(report.total_count(), 10);
    let mut seen: Vec<usize> = report.passed().iter().chain(report.failed().iter()).map(|r| r.test_id).collect();
    seen.sort();
    assert_eq!(seen, (0..10).collect::<Vec<usize>>());
    assert_eq!(report.failed()[0].test_id, 3);
    assert_eq!(report.failed()[0].result_type, ResultType::WrongOutput);
    assert_eq!(report.failed()[1].test_id, 6);
    assert_eq!(report.failed()[1].result_type, ResultType::Signaled);
}

#[test]
fn a_timeout_is_in_no_other_bucket() {
    let mut tester = Tester::new(squares(3), vec!["sleep".to_string()], Some(50));
    tester.report(ExecResult::Timeout { test_id: 1 });
    assert!(!tester.is_pending(1));
    tester.report(ExecResult::from_output(0, ended(Some(0), "0\n", "")));
    tester.report(ExecResult::from_output(2, ended(Some(0), "4\n", "")));
    let report = tester.into_report();
    assert_eq!(report.timed_out().len(), 1);
    assert_eq!(report.timed_out()[0].name, "case 1");
    assert!(report.passed().iter().all(|r| r.test_id != 1));
    assert!(report.failed().iter().all(|r| r.test_id != 1));
    assert_eq!(report.passed().len(), 2);
    assert_eq!(report.unfinished(), 0);
    assert_eq!(report.total_count(), 3);
}

#[test]
fn what_was_never_run_is_unfinished() {
    let mut tester = Tester::new(squares(5), vec!["square".to_string()], None);
    tester.report(ExecResult::from_output(4, ended(Some(0), "16\n", "")));
    tester.report(ExecResult::Timeout { test_id: 0 });
    assert!(tester.is_pending(1));
    assert!(tester.is_pending(2));
    assert!(tester.is_pending(3));
    assert!(!tester.is_pending(17));
    let report = tester.into_report();
    assert_eq!(report.passed().len(), 1);
    assert_eq!(report.failed().len(), 0);
    assert_eq!(report.timed_out().len(), 1);
    assert_eq!(report.unfinished(), 3);
    assert_eq!(report.terminated_count(), 1);
    assert_eq!(report.total_count(), 5);
}

#[test]
fn an_empty_run_has_an_empty_report() {
    let tester = Tester::new(Vec::new(), vec!["prog".to_string()], None);
    assert_eq!(tester.total_count(), 0);
    assert_eq!(tester.execs().len(), 0);
    assert_eq!(tester.summary(), "\u{1b}[32m0 passed\u{1b}[39m / \u{1b}[31m0 failed\u{1b}[39m / 0 finished");
    let report = tester.into_report();
    assert_eq!(report.total_count(), 0);
}

#[test]
fn results_are_sorted_in_their_order() {
    let results = vec![
        TestResult::from_output(0, case("a", "", "x"), ended(Some(0), "x", "")),
        TestResult::from_output(1, case("b", "", "x"), ended(Some(1), "x", "")),
        TestResult::from_output(2, case("c", "", "x"), ended(Some(0), "y", "")),
        TestResult::from_output(3, case("d", "", "x"), ended(Some(0), "x\n", "")),
    ];
    let report = TestReport::from_results(vec![case("late", "", "")], results, 2);
    let passed: Vec<usize> = report.passed().iter().map(|r| r.test_id).collect();
    let failed: Vec<usize> = report.failed().iter().map(|r| r.test_id).collect();
    assert_eq!(passed, vec![0, 3]);
    assert_eq!(failed, vec![1, 2]);
    assert_eq!(report.timed_out().len(), 1);
    assert_eq!(report.unfinished(), 2);
    assert_eq!(report.terminated_count(), 4);
    assert_eq!(report.total_count(), 7);
}
