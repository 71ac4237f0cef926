use harness::error::Error;
use harness::loader::TestCase;
use harness::process::{replay_cases, summarize_results, ProcessResult};
use harness::testfile::{parse_tests, serialize_tests};

fn run(status: Option<i32>, stdin: Option<&str>, stdout: &str, stderr: &str) -> ProcessResult {
    ProcessResult::from_output(
        status,
        &stdout.as_bytes().to_vec(),
        &stderr.as_bytes().to_vec(),
        stdin.map(|s| s.to_string()),
        5,
    )
}

#[test]
fn a_run_from_what_it_left_behind() {
    let result = ProcessResult::from_output(Some(1), &vec![b'o', 0xff], &b"e\n".to_vec(), Some("in".to_string()), 9);
    assert_eq!(
        result,
        ProcessResult {
            status: Some(1),
            duration: 9,
            stdin: Some("in".to_string()),
            stdout: "o\u{fffd}".to_string(),
            stderr: "e\n".to_string(),
        }
    );
}

#[test]
fn the_first_three_errors_in_full() {
    let results = vec![
        run(Some(0), Some("1\n"), "ok\n", ""),
        run(Some(1), Some("2\n"), "out\n", "err\n"),
        run(None, None, "", "killed\n"),
        run(Some(0), Some("3\n"), "ok\n", ""),
        run(Some(-2), Some("tab\t\"q\""), "", ""),
        run(Some(3), Some("never shown"), "", ""),
    ];
    let expected = "2 success, 4 errors \n\
        1\nSome(\"2\\n\")stdout:\nout\nstderr:\nerr\n\n\
        (none)\nNonestdout:\nstderr:\nkilled\n\n\
        -2\nSome(\"tab\\t\\\"q\\\"\")stdout:\nstderr:\n\n";
    assert_eq!(summarize_results(&results), expected);
    assert_eq!(results[1].error_text(), "1\nSome(\"2\\n\")stdout:\nout\nstderr:\nerr\n\n");
}

#[test]
fn no_runs_no_errors() {
    assert_eq!(summarize_results(&Vec::new()), "0 success, 0 errors \n");
    assert_eq!(summarize_results(&vec![run(Some(0), None, "", "")]), "1 success, 0 errors \n");
}

#[test]
fn runs_become_test_cases() {
    let results = vec![run(Some(0), Some("5\n"), "25\n", ""), run(Some(1), None, "ü\n", "ignored")];
    let cases = replay_cases(&results);
    assert_eq!(
        cases,
        vec![
            TestCase { name: "fuzz 0".to_string(), input: Some(b"5\n".to_vec()), output: Some(b"25\n".to_vec()) },
            TestCase { name: "fuzz 1".to_string(), input: None, output: Some("ü\n".as_bytes().to_vec()) },
        ]
    );
    assert_eq!(results[0].to_test_case("again".to_string()).name, "again");
    assert_eq!(serialize_tests(&cases), "|fuzz 0\n< 5\n> 25\n|fuzz 1\n> ü\n".as_bytes().to_vec());
    assert_eq!(parse_tests(&serialize_tests(&cases)), Ok::<Vec<TestCase>, Error>(cases));
}

#[test]
fn errors_in_words() {
    assert_eq!(Error::Brackets { fragment: "[a".to_string() }.message(), "Parse: brackets do not pair up in: [a");
    assert_eq!(Error::Hyphens { fragment: "1-2-3".to_string() }.message(), "Parse: a range holds exactly one '-': 1-2-3");
    assert_eq!(Error::Bound { fragment: " x".to_string() }.message(), "Parse: not an integer:  x");
    assert_eq!(Error::Stray { line: 12 }.message(), "Parse: text outside of any field in line 12");
    assert_eq!(Error::Name { line: 0 }.message(), "Parse: the name is not UTF-8 in line 0");
}
