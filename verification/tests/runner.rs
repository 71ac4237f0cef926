use harness::fuzz::{FuzzInput, InputTemplate};
use harness::fuzzer::Fuzzer;
use harness::loader::TestCase;
use harness::runner::{
    dispatch, over_budget, poll, progress_line, shell_command, Action, CmdOutput, Coordinator, Event,
    ExecResult, Poll, TaskSource,
};
use harness::test::Tester;

fn cases(count: usize) -> Vec<TestCase> {
    (0..count)
        .map(|n| TestCase {
            name: format!("case {}", n),
            input: Some(format!("{}\n", n).into_bytes()),
            output: Some(format!("{}\n", n * n).into_bytes()),
        })
        .collect()
}

#[test]
fn an_outcome_knows_its_test() {
    let output = CmdOutput::from_output(Some(3), b"out".to_vec(), b"err".to_vec(), 40);
    assert_eq!(output.status, Some(3));
    assert_eq!(output.stdout, b"out".to_vec());
    assert_eq!(output.stderr, b"err".to_vec());
    assert_eq!(output.duration, 40);
    let ended = ExecResult::from_output(7, output.clone());
    assert_eq!(ended, ExecResult::Terminated { test_id: 7, output });
    assert_eq!(ended.test_id(), 7);
    assert_eq!(ExecResult::Timeout { test_id: 9 }.test_id(), 9);
}

#[test]
fn a_child_is_collected_killed_or_waited_for() {
    assert_eq!(poll(Some(100), 0, false), Poll::Wait);
    assert_eq!(poll(Some(100), 100, false), Poll::Wait);
    assert_eq!(poll(Some(100), 101, false), Poll::Kill);
    assert_eq!(poll(Some(0), 1, false), Poll::Kill);
    assert_eq!(poll(Some(100), 101, true), Poll::Collect);
    assert_eq!(poll(Some(100), 5, true), Poll::Collect);
    assert_eq!(poll(None, u64::MAX, false), Poll::Wait);
    assert_eq!(poll(None, 0, true), Poll::Collect);
}

#[test]
fn a_run_past_its_budget() {
    assert!(!over_budget(None, u64::MAX));
    assert!(!over_budget(Some(1000), 1000));
    assert!(over_budget(Some(1000), 1001));
    assert!(over_budget(Some(0), 1));
    assert!(!over_budget(Some(0), 0));
}

#[test]
fn the_shell_runs_the_command() {
    assert_eq!(shell_command("./prog --fast"), vec!["sh".to_string(), "-c".to_string(), "./prog --fast".to_string()]);
    assert_eq!(shell_command(""), vec!["sh".to_string(), "-c".to_string(), "".to_string()]);
}

#[test]
fn the_catalog_hands_out_every_test_once() {
    let mut source = Tester::new(cases(10), "./square".to_string(), Some(250));
    assert_eq!(source.remaining(), 10);
    let mut seen = Vec::new();
    while let Some(exec) = source.get() {
        assert_eq!(exec.cmd_args, shell_command("./square"));
        assert_eq!(exec.input, format!("{}\n", exec.test_id).into_bytes());
        assert_eq!(exec.timeout, Some(250));
        seen.push(exec.test_id);
        assert_eq!(source.remaining(), 10 - seen.len());
    }
    assert_eq!(seen.len(), 10);
    seen.sort();
    assert_eq!(seen, (0..10).collect::<Vec<usize>>());
    assert!(source.get().is_none());
    assert!(source.get().is_none());
    assert_eq!(source.remaining(), 0);
}

#[test]
fn the_catalog_takes_by_place() {
    let mut source = Tester::new(cases(4), "prog".to_string(), None);
    let taken = source.take(2);
    assert_eq!(taken.test_id, 2);
    assert_eq!(taken.timeout, None);
    assert_eq!(taken.input, b"2\n".to_vec());
    assert_eq!(source.take(2).test_id, 3);
    source = Tester::new(cases(4), "prog".to_string(), Some(0));
    assert_eq!(source.take(2).timeout, Some(0));
    assert_eq!(source.take(2).test_id, 3);
    assert_eq!(source.take(0).test_id, 0);
    assert_eq!(source.take(0).test_id, 1);
    assert_eq!(source.remaining(), 0);
}

#[test]
fn the_order_is_left_to_chance() {
    let mut orders = Vec::new();
    for _ in 0..20 {
        let mut source = Tester::new(cases(8), "prog".to_string(), None);
        let mut order = Vec::new();
        while let Some(exec) = source.get() {
            order.push(exec.test_id);
        }
        orders.push(order);
    }
    assert!(orders.iter().any(|order| *order != orders[0]));
}

#[test]
fn an_empty_catalog_is_dry_at_once() {
    let mut source = Tester::new(Vec::new(), "prog".to_string(), None);
    assert!(source.get().is_none());
}

#[test]
fn the_fuzzer_never_runs_dry() {
    let template = InputTemplate::parse("[n ,(1-3),\n]").unwrap();
    assert!(template.is_valid());
    let mut fuzzer = Fuzzer::new(template, "./prog".to_string(), Some(75));
    assert_eq!(fuzzer.config().command, "./prog");
    assert_eq!(fuzzer.config().time_limit, Some(75));
    for id in 0..200 {
        let exec = fuzzer.get().unwrap();
        assert_eq!(exec.test_id, id);
        assert_eq!(exec.cmd_args, shell_command("./prog"));
        assert_eq!(exec.timeout, Some(75));
        let input = String::from_utf8(exec.input).unwrap();
        assert!(input == "n 1\n" || input == "n 2\n" || input == "n 3\n", "{:?}", input);
    }
}

#[test]
fn the_fuzzer_numbers_its_commands() {
    let mut fuzzer = Fuzzer::new(InputTemplate::Const("ü".to_string()), "prog".to_string(), None);
    let first = fuzzer.command_for("a");
    let second = fuzzer.command_for("ü");
    assert_eq!(first.test_id, 0);
    assert_eq!(first.input, b"a".to_vec());
    assert_eq!(second.test_id, 1);
    assert_eq!(second.input, vec![0xc3, 0xbc]);
    assert_eq!(second.timeout, None);
    let third = fuzzer.get().unwrap();
    assert_eq!(third.test_id, 2);
    assert_eq!(third.input, vec![0xc3, 0xbc]);
}

#[test]
fn the_dispatcher_stops_when_cancelled() {
    let mut source = TaskSource::Catalog(Tester::new(cases(3), "prog".to_string(), None));
    assert!(dispatch(false, &mut source).is_some());
    assert!(dispatch(true, &mut source).is_none());
    assert!(dispatch(true, &mut source).is_none());
    match &source {
        TaskSource::Catalog(catalog) => assert_eq!(catalog.remaining(), 2),
        _ => panic!("not a catalog"),
    }
    assert!(dispatch(false, &mut source).is_some());
    assert!(dispatch(false, &mut source).is_some());
    assert!(dispatch(false, &mut source).is_none());
    let range = InputTemplate::RandInt(FuzzInput { min: 0, max: 9 });
    let mut endless = TaskSource::Generative(Fuzzer::new(range, "prog".to_string(), None));
    assert_eq!(endless.next().unwrap().test_id, 0);
    assert!(dispatch(true, &mut endless).is_none());
    assert_eq!(dispatch(false, &mut endless).unwrap().test_id, 1);
}

#[test]
fn the_coordinator_cancels_once() {
    let mut run = Coordinator::new(Some(1000), None);
    assert_eq!(run, Coordinator { budget: Some(1000), awaited: None, cancelled: false, outcomes: 0 });
    assert_eq!(run.step(Event::Tick { elapsed: 1000 }), Action::Continue);
    assert!(!run.cancelled);
    assert_eq!(run.step(Event::Outcome), Action::Continue);
    assert_eq!(run.outcomes, 1);
    assert_eq!(run.step(Event::Tick { elapsed: 1001 }), Action::Cancel);
    assert!(run.cancelled);
    assert_eq!(run.step(Event::Tick { elapsed: 2000 }), Action::Continue);
    assert_eq!(run.step(Event::Interrupt), Action::Continue);
    assert_eq!(run.step(Event::Tick { elapsed: 0 }), Action::Continue);
    assert!(run.cancelled);
    assert_eq!(run.step(Event::Outcome), Action::Continue);
    assert_eq!(run.outcomes, 2);
    assert_eq!(run.step(Event::Drained), Action::Finish);
    assert!(run.cancelled);
}

#[test]
fn the_coordinator_finishes_when_all_is_in() {
    let mut run = Coordinator::new(None, Some(2));
    assert_eq!(run.step(Event::Tick { elapsed: u64::MAX }), Action::Continue);
    assert_eq!(run.step(Event::Outcome), Action::Continue);
    assert_eq!(run.step(Event::Interrupt), Action::Cancel);
    assert_eq!(run.step(Event::Outcome), Action::Finish);
    let mut none = Coordinator::new(None, Some(0));
    assert_eq!(none.step(Event::Drained), Action::Finish);
    let mut full = Coordinator { budget: None, awaited: None, cancelled: false, outcomes: usize::MAX };
    assert_eq!(full.step(Event::Outcome), Action::Continue);
    assert_eq!(full.outcomes, usize::MAX);
}

#[test]
fn the_progress_line() {
    assert_eq!(
        progress_line(3, 10, 4, "score"),
        "\r\u{1b}[1m\u{1b}[95mRunning 3/10 tests (4x)..\u{1b}[39m\u{1b}[0m \u{1b}[34mscore\u{1b}[39m"
    );
}
