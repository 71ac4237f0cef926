//! The bookkeeper of a test run: it holds the test cases, hands out their
//! commands, files every outcome in one bucket, and ends in a report.

use crate::loader::{bytes_view, TestCase};
use crate::paint::{green, in_green, in_red, red};
use crate::report::{failed_of, passed_of, passing, Buckets, TestReport};
use crate::runner::{CmdOutput, ExecResult};
use std::collections::HashMap;
use crate::text::{decimal_nat, numeral};
use vstd::prelude::*;
use vstd::string::*;

verus! {

/// One command, ready to run: which test it is, the program and its
/// arguments, the bytes for its standard input, and its time limit in
/// milliseconds, if it has one.
#[derive(Debug, Clone, PartialEq, Eq)]
pub struct TestExec {
    pub test_id: usize,
    pub cmd_args: Vec<String>,
    pub input: Vec<u8>,
    pub timeout: Option<u64>,
}

/// How a command that ended is judged.
#[derive(Debug, Clone, Copy, PartialEq, Eq, Structural)]
pub enum ResultType {
    /// It exited with zero, and its output is as expected or nothing was
    /// expected.
    Pass,
    /// It did not exit with zero.
    Signaled,
    /// It exited with zero and its output is not as expected.
    WrongOutput,
}

/// A command that ended, judged, with all that is needed to report on it.
#[derive(Debug, Clone, PartialEq, Eq)]
pub struct TestResult {
    pub result_type: ResultType,
    pub test_id: usize,
    pub testcase: TestCase,
    pub stdout: Vec<u8>,
    pub stderr: Vec<u8>,
    pub status: Option<i32>,
    pub duration: u64,
}

/// `s` without its last byte, if that is a line feed.
pub open spec fn without_newline(s: Seq<u8>) -> Seq<u8> {
    if s.len() > 0 && s.last() == 10u8 {
        s.drop_last()
    } else {
        s
    }
}

/// Whether two outputs agree byte for byte, one line feed at the end of
/// either left aside.
pub open spec fn same_output(actual: Seq<u8>, expected: Seq<u8>) -> bool {
    without_newline(actual) == without_newline(expected)
}

/// The judgement on a command that ended with `status` and wrote `stdout`,
/// where `expected` was to be written.
pub open spec fn verdict(status: Option<i32>, stdout: Seq<u8>, expected: Option<Seq<u8>>) -> ResultType {
    if status != Some(0i32) {
        ResultType::Signaled
    } else {
        match expected {
            None => ResultType::Pass,
            Some(bytes) => if same_output(stdout, bytes) {
                ResultType::Pass
            } else {
                ResultType::WrongOutput
            },
        }
    }
}

/// The length of `s` without a line feed at its end.
fn trimmed_len(s: &Vec<u8>) -> (n: usize)
    ensures
        n == without_newline(s@).len(),
        without_newline(s@) == s@.take(n as int),
{
    let n = s.len();
    if n > 0 && s[n - 1] == 10u8 {
        assert(s@.drop_last() == s@.take(n - 1));
        n - 1
    } else {
        assert(s@ == s@.take(n as int));
        n
    }
}

/// Whether two outputs agree byte for byte, one line feed at the end of
/// either left aside.
pub fn outputs_agree(actual: &Vec<u8>, expected: &Vec<u8>) -> (same: bool)
    ensures
        same == same_output(actual@, expected@),
{
    let n = trimmed_len(actual);
    let m = trimmed_len(expected);
    if n != m {
        return false;
    }
    let mut i: usize = 0;
    while i < n
        invariant
            i <= n,
            n == m,
            n <= actual.len(),
            m <= expected.len(),
            without_newline(actual@) == actual@.take(n as int),
            without_newline(expected@) == expected@.take(m as int),
            actual@.take(i as int) == expected@.take(i as int),
        decreases n - i,
    {
        if actual[i] != expected[i] {
            assert(actual@.take(n as int)[i as int] != expected@.take(m as int)[i as int]);
            return false;
        }
        assert(actual@.take(i + 1) == actual@.take(i as int).push(actual[i as int]));
        assert(expected@.take(i + 1) == expected@.take(i as int).push(expected[i as int]));
        i += 1;
    }
    true
}

/// The judgement on a command that ended with `status` and wrote `stdout`,
/// where `expected` was to be written.
pub fn judge(status: Option<i32>, stdout: &Vec<u8>, expected: &Option<Vec<u8>>) -> (r: ResultType)
    ensures
        r == verdict(status, stdout@, bytes_view(*expected)),
{
    match status {
        Some(code) => {
            if code != 0 {
                return ResultType::Signaled;
            }
        },
        None => {
            return ResultType::Signaled;
        },
    }
    match expected {
        None => ResultType::Pass,
        Some(bytes) => if outputs_agree(stdout, bytes) {
            ResultType::Pass
        } else {
            ResultType::WrongOutput
        },
    }
}

impl TestResult {
    /// Whether the judgement of this result is the one that its status, its
    /// output and its test case call for.
    pub open spec fn graded(&self) -> bool {
        self.result_type == verdict(self.status, self.stdout@, bytes_view(self.testcase.output))
    }

    /// The result of test `test_id`, which is `testcase`, ended with
    /// `cmd_output`.
    pub open spec fn of(test_id: usize, testcase: TestCase, cmd_output: CmdOutput) -> TestResult {
        TestResult {
            result_type: verdict(
                cmd_output.status,
                cmd_output.stdout@,
                bytes_view(testcase.output),
            ),
            test_id,
            testcase,
            stdout: cmd_output.stdout,
            stderr: cmd_output.stderr,
            status: cmd_output.status,
            duration: cmd_output.duration,
        }
    }

    /// Judges the output of one test: not exited with zero, it is
    /// `Signaled`; else without an expected output, or with the expected
    /// output, it is `Pass`; else `WrongOutput`.
    pub fn from_output(test_id: usize, testcase: TestCase, cmd_output: CmdOutput) -> (out: TestResult)
        ensures
            out == TestResult::of(test_id, testcase, cmd_output),
            out.graded(),
    {
        let result_type = judge(cmd_output.status, &cmd_output.stdout, &testcase.output);
        TestResult {
            result_type,
            test_id,
            testcase,
            stdout: cmd_output.stdout,
            stderr: cmd_output.stderr,
            status: cmd_output.status,
            duration: cmd_output.duration,
        }
    }
}

/// The books of a test run. Test cases are numbered from zero in the order
/// they were given; a test leaves `testcases` when its command ends and is
/// judged, and stays there while it waits, runs, or has timed out.
pub struct Tester {
    testcases: HashMap<usize, TestCase>,
    cmd_args: Vec<String>,
    timeout: Option<u64>,
    results: Vec<TestResult>,
    timed_out: Vec<usize>,
    failed: usize,
    passed: usize,
    total: usize,
}

/// What a [`Tester`] holds.
pub struct Ledger {
    /// The test cases whose commands have not ended, by number.
    pub cases: Map<usize, TestCase>,
    pub cmd_args: Seq<String>,
    pub timeout: Option<u64>,
    /// The judged results, in the order they came in.
    pub results: Seq<TestResult>,
    /// The numbers of the tests that ran out of time, in the order they
    /// came in.
    pub timed_out: Seq<usize>,
    pub failed: nat,
    pub passed: nat,
    /// How many test cases there were at the start.
    pub total: nat,
}

/// How many of `results` passed.
pub open spec fn passes(results: Seq<TestResult>) -> nat
    decreases results.len(),
{
    if results.len() == 0 {
        0
    } else {
        passes(results.drop_last()) + if results.last().result_type == ResultType::Pass {
            1nat
        } else {
            0nat
        }
    }
}

impl Ledger {
    /// Whether `id` has a judged result.
    pub open spec fn resolved(self, id: usize) -> bool {
        exists|i: int| 0 <= i < self.results.len() && (#[trigger] self.results[i]).test_id == id
    }

    /// Whether `id` is still owed an outcome: it is a test of this run that
    /// has neither ended nor timed out.
    pub open spec fn pending(self, id: usize) -> bool {
        self.cases.contains_key(id) && !self.timed_out.contains(id)
    }

    /// What holds of the books at every moment: every test of the run is
    /// either still held or has exactly one judged result; a test that timed
    /// out is still held and is listed once; and the counts are those of the
    /// results.
    pub open spec fn wf(self) -> bool {
        &&& self.cases.dom().finite()
        &&& forall|id: usize| #[trigger] self.cases.contains_key(id) ==> id < self.total
        &&& forall|id: usize|
            id < self.total ==> #[trigger] self.cases.contains_key(id) || self.resolved(id)
        &&& self.timed_out.no_duplicates()
        &&& forall|i: int|
            0 <= i < self.timed_out.len() ==> self.cases.contains_key(#[trigger] self.timed_out[i])
        &&& forall|i: int|
            0 <= i < self.results.len() ==> (#[trigger] self.results[i]).test_id < self.total
                && !self.cases.contains_key(self.results[i].test_id) && self.results[i].graded()
        &&& forall|i: int, j: int|
            0 <= i < j < self.results.len() ==> (#[trigger] self.results[i]).test_id != (
            #[trigger] self.results[j]).test_id
        &&& self.passed == passes(self.results)
        &&& self.passed + self.failed == self.results.len()
        &&& self.cases.dom().len() + self.results.len() == self.total
        &&& self.total <= usize::MAX
    }

    /// The test cases of the tests that timed out, in the order they came in.
    pub open spec fn timed_out_cases(self) -> Seq<TestCase> {
        Seq::new(self.timed_out.len(), |i: int| self.cases[self.timed_out[i]])
    }

    /// The test cases that have neither ended nor timed out.
    pub open spec fn waiting(self) -> Map<usize, TestCase> {
        self.cases.remove_keys(self.timed_out.to_set())
    }

    /// How many tests have neither ended nor timed out.
    pub open spec fn unfinished(self) -> nat {
        self.waiting().dom().len()
    }

    /// The report that these books end in.
    pub open spec fn close(self) -> Buckets {
        Buckets {
            timed_out: self.timed_out_cases(),
            failed: failed_of(self.results),
            passed: passed_of(self.results),
            unfinished: self.unfinished(),
        }
    }

    /// The books after `result` has been filed: a timeout adds its test to
    /// the timed out and changes nothing else; an end takes the test case
    /// out, judges it, and adds the result and its count.
    pub open spec fn report(self, result: ExecResult) -> Ledger {
        match result {
            ExecResult::Timeout { test_id } => Ledger {
                timed_out: self.timed_out.push(test_id),
                ..self
            },
            ExecResult::Terminated { test_id, output } => {
                let filed = TestResult::of(test_id, self.cases[test_id], output);
                Ledger {
                    cases: self.cases.remove(test_id),
                    results: self.results.push(filed),
                    passed: if filed.result_type == ResultType::Pass {
                        self.passed + 1
                    } else {
                        self.passed
                    },
                    failed: if filed.result_type == ResultType::Pass {
                        self.failed
                    } else {
                        self.failed + 1
                    },
                    ..self
                }
            },
        }
    }
}

impl View for Tester {
    type V = Ledger;

    closed spec fn view(&self) -> Ledger {
        Ledger {
            cases: self.testcases@,
            cmd_args: self.cmd_args@,
            timeout: self.timeout,
            results: self.results@,
            timed_out: self.timed_out@,
            failed: self.failed as nat,
            passed: self.passed as nat,
            total: self.total as nat,
        }
    }
}

impl Tester {
    /// The books of a run over `testcases`, numbered from zero in their
    /// order, each to be run as `cmd_args` within `timeout` milliseconds.
    pub fn new(testcases: Vec<TestCase>, cmd_args: Vec<String>, timeout: Option<u64>) -> (out: Tester)
        ensures
            out@.wf(),
            out@.total == testcases@.len(),
            out@.cases.dom() =~= Set::new(|id: usize| id < testcases@.len()),
            forall|id: usize| id < testcases@.len() ==> out@.cases[id] == testcases@[id as int],
            out@.cmd_args == cmd_args@,
            out@.timeout == timeout,
            out@.results.len() == 0,
            out@.timed_out.len() == 0,
            out@.passed == 0,
            out@.failed == 0,
    {
        broadcast use vstd::std_specs::hash::group_hash_axioms;

        let total = testcases.len();
        let mut map: HashMap<usize, TestCase> = HashMap::new();
        let mut rest = testcases;
        while rest.len() > 0
            invariant
                rest@.len() <= total,
                total == testcases@.len(),
                rest@ == testcases@.take(rest@.len() as int),
                map@.dom().finite(),
                map@.dom().len() + rest@.len() == total,
                forall|id: usize| #[trigger] map@.contains_key(id) <==> rest@.len() <= id < total,
                forall|id: usize|
                    rest@.len() <= id < total ==> #[trigger] map@[id] == testcases@[id as int],
            decreases rest@.len(),
        {
            let id = rest.len() - 1;
            let testcase = rest.pop().unwrap();
            assert(rest@ == testcases@.take(rest@.len() as int));
            map.insert(id, testcase);
        }
        Tester {
            testcases: map,
            cmd_args,
            timeout,
            results: Vec::new(),
            timed_out: Vec::new(),
            failed: 0,
            passed: 0,
            total,
        }
    }

    /// How many test cases the run has, whatever became of them.
    pub fn total_count(&self) -> (n: usize)
        ensures
            n == self@.total,
    {
        self.total
    }

    /// Whether `id` is still owed an outcome.
    pub fn is_pending(&self, id: usize) -> (b: bool)
        ensures
            b == self@.pending(id),
    {
        broadcast use vstd::std_specs::hash::group_hash_axioms;

        if !self.testcases.contains_key(&id) {
            return false;
        }
        let mut i: usize = 0;
        while i < self.timed_out.len()
            invariant
                i <= self.timed_out.len(),
                forall|j: int| 0 <= j < i ==> self.timed_out@[j] != id,
            decreases self.timed_out.len() - i,
        {
            if self.timed_out[i] == id {
                return false;
            }
            i += 1;
        }
        true
    }

    /// Files one outcome: a timeout among the timed out, an end judged
    /// among the results.
    pub fn report(&mut self, result: ExecResult)
        requires
            old(self)@.wf(),
            old(self)@.pending(result.id()),
        ensures
            final(self)@ == old(self)@.report(result),
            final(self)@.wf(),
    {
        broadcast use vstd::std_specs::hash::group_hash_axioms;

        let ghost before = self@;
        match result {
            ExecResult::Timeout { test_id } => {
                self.timed_out.push(test_id);
            },
            ExecResult::Terminated { test_id, output } => {
                let testcase = self.testcases.remove(&test_id).unwrap();
                let filed = TestResult::from_output(test_id, testcase, output);
                let pass = match filed.result_type {
                    ResultType::Pass => true,
                    _ => false,
                };
                self.results.push(filed);
                assert(self.results@.len() <= usize::MAX);
                if pass {
                    self.passed = self.passed + 1;
                } else {
                    self.failed = self.failed + 1;
                }
                proof {
                    let after = self@;
                    assert(after.results.drop_last() == before.results);
                    assert(after == before.report(result));
                    assert forall|id: usize| id < after.total implies #[trigger] after.cases.contains_key(
                        id,
                    ) || after.resolved(id) by {
                        if id == test_id {
                            assert(after.results[after.results.len() - 1].test_id == id);
                        } else if before.resolved(id) {
                            let i = choose|i: int|
                                0 <= i < before.results.len() && (
                                #[trigger] before.results[i]).test_id == id;
                            assert(after.results[i].test_id == id);
                        }
                    }
                    assert forall|i: int| 0 <= i < after.timed_out.len() implies after.cases.contains_key(
                     #[trigger] after.timed_out[i]) by {
                        assert(before.timed_out.contains(after.timed_out[i]));
                    }
                }
            },
        }
    }
}

/// The bytes that a test case feeds its command: its input, or nothing.
pub open spec fn input_bytes(testcase: TestCase) -> Seq<u8> {
    match testcase.input {
        Some(bytes) => bytes@,
        None => Seq::empty(),
    }
}

/// A copy of a command line.
pub fn copy_args(args: &Vec<String>) -> (out: Vec<String>)
    ensures
        out@ == args@,
{
    let mut out: Vec<String> = Vec::new();
    let mut i: usize = 0;
    while i < args.len()
        invariant
            i <= args.len(),
            out@ == args@.take(i as int),
        decreases args.len() - i,
    {
        out.push(args[i].clone());
        i += 1;
    }
    assert(args@.take(args.len() as int) == args@);
    out
}

impl Tester {
    /// The commands of the tests that have not ended, one each, by rising
    /// number.
    pub fn execs(&self) -> (out: Vec<TestExec>)
        requires
            self@.wf(),
        ensures
            forall|i: int|
                0 <= i < out@.len() ==> {
                    let exec = #[trigger] out@[i];
                    &&& self@.cases.contains_key(exec.test_id)
                    &&& exec.cmd_args@ == self@.cmd_args
                    &&& exec.input@ == input_bytes(self@.cases[exec.test_id])
                    &&& exec.timeout == self@.timeout
                },
            forall|i: int, j: int|
                0 <= i < j < out@.len() ==> (#[trigger] out@[i]).test_id < (#[trigger] out@[j]).test_id,
            forall|id: usize|
                self@.cases.contains_key(id) ==> exists|i: int|
                    0 <= i < out@.len() && (#[trigger] out@[i]).test_id == id,
    {
        broadcast use vstd::std_specs::hash::group_hash_axioms;

        let mut out: Vec<TestExec> = Vec::new();
        let mut id: usize = 0;
        while id < self.total
            invariant
                id <= self.total,
                self@.wf(),
                forall|i: int|
                    0 <= i < out@.len() ==> {
                        let exec = #[trigger] out@[i];
                        &&& self@.cases.contains_key(exec.test_id)
                        &&& exec.test_id < id
                        &&& exec.cmd_args@ == self@.cmd_args
                        &&& exec.input@ == input_bytes(self@.cases[exec.test_id])
                        &&& exec.timeout == self@.timeout
                    },
                forall|i: int, j: int|
                    0 <= i < j < out@.len() ==> (#[trigger] out@[i]).test_id < (
                    #[trigger] out@[j]).test_id,
                forall|k: usize|
                    k < id && self@.cases.contains_key(k) ==> exists|i: int|
                        0 <= i < out@.len() && (#[trigger] out@[i]).test_id == k,
            decreases self.total - id,
        {
            let ghost before = out@;
            match self.testcases.get(&id) {
                Some(testcase) => {
                    let input = match &testcase.input {
                        Some(bytes) => crate::loader::copy_bytes(bytes),
                        None => Vec::new(),
                    };
                    out.push(
                        TestExec {
                            test_id: id,
                            cmd_args: copy_args(&self.cmd_args),
                            input,
                            timeout: self.timeout,
                        },
                    );
                    proof {
                        assert forall|k: usize|
                            k < id + 1 && self@.cases.contains_key(k) implies exists|i: int|
                            0 <= i < out@.len() && (#[trigger] out@[i]).test_id == k by {
                            if k == id {
                                assert(out@[out@.len() - 1].test_id == k);
                            } else {
                                let i = choose|i: int|
                                    0 <= i < before.len() && (#[trigger] before[i]).test_id == k;
                                assert(out@[i].test_id == k);
                            }
                        }
                    }
                },
                None => {},
            }
            id += 1;
        }
        out
    }

    /// Ends the run: the report holds the results that passed and those that
    /// failed, the test cases of the tests that timed out, and the count of
    /// the tests that never got an outcome.
    pub fn into_report(self) -> (out: TestReport)
        requires
            self@.wf(),
        ensures
            out@ == self@.close(),
    {
        broadcast use vstd::std_specs::hash::group_hash_axioms;

        let ghost books = self@;
        let Tester { testcases, results, timed_out, .. } = self;
        let mut testcases = testcases;
        let mut cases: Vec<TestCase> = Vec::new();
        let mut i: usize = 0;
        while i < timed_out.len()
            invariant
                i <= timed_out.len(),
                books.wf(),
                timed_out@ == books.timed_out,
                testcases@ == books.cases.remove_keys(books.timed_out.take(i as int).to_set()),
                cases@.len() == i,
                forall|j: int| 0 <= j < i ==> cases@[j] == books.cases[books.timed_out[j]],
            decreases timed_out.len() - i,
        {
            let id = timed_out[i];
            proof {
                let gone = books.timed_out.take(i as int);
                if gone.contains(id) {
                    let j = choose|j: int| 0 <= j < gone.len() && gone[j] == id;
                    assert(books.timed_out[j] == books.timed_out[i as int]);
                }
                assert(testcases@.contains_key(id));
            }
            let testcase = testcases.remove(&id).unwrap();
            cases.push(testcase);
            proof {
                let gone = books.timed_out.take(i as int);
                let more = books.timed_out.take(i + 1);
                assert(more == gone.push(id));
                assert(more.to_set() =~= gone.to_set().insert(id)) by {
                    assert forall|x: usize| more.to_set().contains(x) <==> gone.to_set().insert(
                        id,
                    ).contains(x) by {
                        if x == id {
                            assert(more[more.len() - 1] == x);
                        }
                        if gone.contains(x) {
                            let j = choose|j: int| 0 <= j < gone.len() && gone[j] == x;
                            assert(more[j] == x);
                        }
                        if more.contains(x) {
                            let j = choose|j: int| 0 <= j < more.len() && more[j] == x;
                            if j < gone.len() {
                                assert(gone[j] == x);
                            }
                        }
                    }
                }
                assert(testcases@ =~= books.cases.remove_keys(more.to_set()));
            }
            i += 1;
        }
        proof {
            assert(books.timed_out.take(i as int) == books.timed_out);
            assert(cases@ =~= books.timed_out_cases());
        }
        let unfinished = testcases.len();
        TestReport::from_results(cases, results, unfinished)
    }
}

/// Taking the first `k` of the tests that timed out away from the held
/// test cases leaves `k` fewer.
proof fn lemma_waiting_count(books: Ledger, k: int)
    requires
        books.wf(),
        0 <= k <= books.timed_out.len(),
    ensures
        books.cases.remove_keys(books.timed_out.take(k).to_set()).dom().finite(),
        books.cases.remove_keys(books.timed_out.take(k).to_set()).dom().len() + k
            == books.cases.dom().len(),
    decreases k,
{
    if k == 0 {
        assert(books.timed_out.take(0).to_set() =~= Set::<usize>::empty());
        assert(books.cases.remove_keys(Set::<usize>::empty()) =~= books.cases);
    } else {
        lemma_waiting_count(books, k - 1);
        let gone = books.timed_out.take(k - 1);
        let more = books.timed_out.take(k);
        let id = books.timed_out[k - 1];
        assert(!gone.contains(id)) by {
            if gone.contains(id) {
                let j = choose|j: int| 0 <= j < gone.len() && gone[j] == id;
                assert(books.timed_out[j] == books.timed_out[k - 1]);
            }
        }
        assert(books.cases.remove_keys(more.to_set()).dom() =~= books.cases.remove_keys(
            gone.to_set(),
        ).dom().remove(id)) by {
            assert forall|x: usize|
                books.cases.remove_keys(more.to_set()).dom().contains(x)
                    <==> books.cases.remove_keys(gone.to_set()).dom().remove(id).contains(x) by {
                if x == id {
                    assert(more[k - 1] == x);
                }
                if gone.contains(x) {
                    let j = choose|j: int| 0 <= j < gone.len() && gone[j] == x;
                    assert(more[j] == x);
                }
                if more.contains(x) {
                    let j = choose|j: int| 0 <= j < more.len() && more[j] == x;
                    if j < gone.len() {
                        assert(gone[j] == x);
                    }
                }
            }
        }
        assert(books.cases.remove_keys(gone.to_set()).dom().contains(id));
    }
}

/// Every test of a run is in exactly one place: it has a judged result, or
/// it timed out, or it is still owed an outcome.
pub proof fn law_one_bucket(books: Ledger, id: usize)
    requires
        books.wf(),
        id < books.total,
    ensures
        books.resolved(id) || books.timed_out.contains(id) || books.pending(id),
        !(books.resolved(id) && books.timed_out.contains(id)),
        !(books.resolved(id) && books.pending(id)),
        !(books.timed_out.contains(id) && books.pending(id)),
{
    if books.resolved(id) {
        let i = choose|i: int| 0 <= i < books.results.len() && (#[trigger] books.results[i]).test_id == id;
        assert(!books.cases.contains_key(books.results[i].test_id));
        if books.timed_out.contains(id) {
            let j = choose|j: int| 0 <= j < books.timed_out.len() && books.timed_out[j] == id;
            assert(books.cases.contains_key(books.timed_out[j]));
        }
    }
}

/// No test is judged twice, and none times out twice.
pub proof fn law_no_outcome_twice(books: Ledger, i: int, j: int)
    requires
        books.wf(),
        0 <= i < j,
    ensures
        j < books.results.len() ==> books.results[i].test_id != books.results[j].test_id,
        j < books.timed_out.len() ==> books.timed_out[i] != books.timed_out[j],
{
}

/// The outcomes add up: the results that passed, the results that failed,
/// the tests that timed out and the tests without an outcome are together
/// as many as the tests of the run. So a run that leaves no test without an
/// outcome has one outcome for each.
pub proof fn law_counts_add_up(books: Ledger)
    requires
        books.wf(),
    ensures
        books.close().passed.len() + books.close().failed.len() == books.results.len(),
        books.close().passed.len() == books.passed,
        books.close().failed.len() == books.failed,
        books.results.len() + books.timed_out.len() + books.unfinished() == books.total,
{
    lemma_waiting_count(books, books.timed_out.len() as int);
    assert(books.timed_out.take(books.timed_out.len() as int) == books.timed_out);
    lemma_split_counts(books.results);
}

/// The passed and the failed of some results are together all of them, and
/// the passed are as many as `passes` counts.
proof fn lemma_split_counts(results: Seq<TestResult>)
    ensures
        passed_of(results).len() + failed_of(results).len() == results.len(),
        passed_of(results).len() == passes(results),
    decreases results.len(),
{
    reveal(Seq::filter);
    if results.len() > 0 {
        lemma_split_counts(results.drop_last());
    }
}

/// Every result among the chosen of `results` is one of `results`, and is
/// chosen rightly.
proof fn lemma_filter_from(results: Seq<TestResult>, pred: spec_fn(TestResult) -> bool, i: int)
    requires
        0 <= i < results.filter(pred).len(),
    ensures
        pred(results.filter(pred)[i]),
        exists|j: int| 0 <= j < results.len() && #[trigger] results[j] == results.filter(pred)[i],
    decreases results.len(),
{
    reveal(Seq::filter);
    if results.len() > 0 {
        let front = results.drop_last();
        if i < front.filter(pred).len() {
            lemma_filter_from(front, pred, i);
            let j = choose|j: int| 0 <= j < front.len() && #[trigger] front[j] == front.filter(pred)[i];
            assert(results[j] == results.filter(pred)[i]);
        } else {
            assert(results[results.len() - 1] == results.filter(pred)[i]);
        }
    }
}

/// The report holds outcomes only. A result that stands among the passed
/// or the failed was filed, and stands on the right side; so a test that is
/// still owed an outcome stands in no bucket.
pub proof fn law_report_holds_outcomes(books: Ledger, id: usize, i: int)
    requires
        books.wf(),
    ensures
        0 <= i < books.close().passed.len() ==> passing(books.close().passed[i]) && books.resolved(
            books.close().passed[i].test_id,
        ),
        0 <= i < books.close().failed.len() ==> !passing(books.close().failed[i])
            && books.resolved(books.close().failed[i].test_id),
        books.pending(id) && 0 <= i < books.close().passed.len() ==> books.close().passed[i].test_id
            != id,
        books.pending(id) && 0 <= i < books.close().failed.len() ==> books.close().failed[i].test_id
            != id,
        books.pending(id) && 0 <= i < books.timed_out.len() ==> books.timed_out[i] != id,
        books.close().timed_out.len() == books.timed_out.len(),
{
    if 0 <= i < books.close().passed.len() {
        let pred = |r: TestResult| passing(r);
        lemma_filter_from(books.results, pred, i);
        let j = choose|j: int|
            0 <= j < books.results.len() && #[trigger] books.results[j] == books.results.filter(pred)[i];
        assert(books.results[j].test_id == books.close().passed[i].test_id);
    }
    if 0 <= i < books.close().failed.len() {
        let pred = |r: TestResult| !passing(r);
        lemma_filter_from(books.results, pred, i);
        let j = choose|j: int|
            0 <= j < books.results.len() && #[trigger] books.results[j] == books.results.filter(pred)[i];
        assert(books.results[j].test_id == books.close().failed[i].test_id);
    }
    if books.pending(id) {
        lemma_held_is_unjudged(books, id);
    }
}

/// A test that is still held has no judged result.
proof fn lemma_held_is_unjudged(books: Ledger, id: usize)
    requires
        books.wf(),
        books.cases.contains_key(id),
    ensures
        !books.resolved(id),
{
    if books.resolved(id) {
        let i = choose|i: int| 0 <= i < books.results.len() && (#[trigger] books.results[i]).test_id == id;
        assert(!books.cases.contains_key(books.results[i].test_id));
    }
}

/// Once no test is owed an outcome, none is unfinished, and the judged and
/// the timed out are together as many as the tests of the run: one outcome
/// for each, none missing.
pub proof fn law_all_filed(books: Ledger)
    requires
        books.wf(),
        forall|id: usize| id < books.total ==> !books.pending(id),
    ensures
        books.unfinished() == 0,
        books.results.len() + books.timed_out.len() == books.total,
{
    assert(books.waiting().dom() =~= Set::<usize>::empty()) by {
        assert forall|id: usize| !books.waiting().dom().contains(id) by {
            if books.cases.contains_key(id) {
                assert(id < books.total);
                assert(!books.pending(id));
            }
        }
    }
    law_counts_add_up(books);
}

/// Filing an outcome changes nothing for any other test: what was judged
/// stays judged, what timed out stays timed out, and a test other than the
/// one filed that was owed an outcome is still owed it.
pub proof fn law_report_keeps_others(books: Ledger, result: ExecResult, id: usize)
    requires
        books.wf(),
        books.pending(result.id()),
        id != result.id(),
    ensures
        books.report(result).resolved(id) == books.resolved(id),
        books.report(result).timed_out.contains(id) == books.timed_out.contains(id),
        books.report(result).pending(id) == books.pending(id),
{
    let after = books.report(result);
    if books.resolved(id) {
        let i = choose|i: int| 0 <= i < books.results.len() && (#[trigger] books.results[i]).test_id == id;
        assert(after.results[i].test_id == id);
    }
    if after.resolved(id) {
        let i = choose|i: int| 0 <= i < after.results.len() && (#[trigger] after.results[i]).test_id == id;
        if i < books.results.len() {
            assert(books.results[i].test_id == id);
        }
    }
    if books.timed_out.contains(id) {
        let j = choose|j: int| 0 <= j < books.timed_out.len() && books.timed_out[j] == id;
        assert(after.timed_out[j] == id);
    }
    if after.timed_out.contains(id) {
        let j = choose|j: int| 0 <= j < after.timed_out.len() && after.timed_out[j] == id;
        if j < books.timed_out.len() {
            assert(books.timed_out[j] == id);
        }
    }
}

/// Filing an outcome puts its test in its bucket for good: a timeout among
/// the timed out, an end among the judged, and in either case the test is
/// owed nothing more.
pub proof fn law_report_files(books: Ledger, result: ExecResult)
    requires
        books.wf(),
        books.pending(result.id()),
    ensures
        !books.report(result).pending(result.id()),
        result is Timeout ==> books.report(result).timed_out.contains(result.id())
            && !books.report(result).resolved(result.id()),
        result is Terminated ==> books.report(result).resolved(result.id())
            && !books.report(result).timed_out.contains(result.id()),
{
    let after = books.report(result);
    let id = result.id();
    match result {
        ExecResult::Timeout { test_id } => {
            assert(after.timed_out[after.timed_out.len() - 1] == id);
            if after.resolved(id) {
                let i = choose|i: int|
                    0 <= i < after.results.len() && (#[trigger] after.results[i]).test_id == id;
                assert(!books.cases.contains_key(books.results[i].test_id));
            }
        },
        ExecResult::Terminated { test_id, output } => {
            assert(after.results[after.results.len() - 1].test_id == id);
        },
    }
}

/// The running score in one line: how many passed, in green, how many
/// failed, in red, and how many ended.
pub open spec fn summary_text(passed: nat, failed: nat) -> Seq<char> {
    in_green(decimal_nat(passed) + " passed"@) + " / "@ + in_red(decimal_nat(failed) + " failed"@)
        + " / "@ + decimal_nat(passed + failed) + " finished"@
}

impl Tester {
    /// The running score in one line.
    pub fn summary(&self) -> (out: String)
        ensures
            out@ == summary_text(self@.passed, self@.failed),
    {
        let mut passed = numeral(self.passed as u128);
        passed.append(" passed");
        let mut failed = numeral(self.failed as u128);
        failed.append(" failed");
        let mut out = green(passed.as_str());
        out.append(" / ");
        out.append(red(failed.as_str()).as_str());
        out.append(" / ");
        out.append(numeral(self.passed as u128 + self.failed as u128).as_str());
        out.append(" finished");
        out
    }
}

} // verus!
