//! The record of one fuzz run, what is said of many of them, and how they
//! become test cases that can be run again.

use crate::loader::{Case, TestCase};
use crate::text::{
    debug_option, debug_text, decimal_int, decimal_nat, lossy, lossy_text, numeral, option_text,
    signed_numeral,
};
use vstd::prelude::*;
use vstd::string::*;
use vstd::utf8::encode_utf8;

verus! {

/// One run of the program under test: how it ended, how long it ran in
/// milliseconds, what it was fed, and what it wrote, as text.
#[derive(Debug, Clone, PartialEq, Eq)]
pub struct ProcessResult {
    pub status: Option<i32>,
    pub duration: u64,
    pub stdin: Option<String>,
    pub stdout: String,
    pub stderr: String,
}

/// A [`ProcessResult`] with its texts as sequences of characters.
pub struct Run {
    pub status: Option<i32>,
    pub duration: u64,
    pub stdin: Option<Seq<char>>,
    pub stdout: Seq<char>,
    pub stderr: Seq<char>,
}

impl View for ProcessResult {
    type V = Run;

    open spec fn view(&self) -> Run {
        Run {
            status: self.status,
            duration: self.duration,
            stdin: option_text(self.stdin),
            stdout: self.stdout@,
            stderr: self.stderr@,
        }
    }
}

/// The views of some runs, in their order.
pub open spec fn runs_of(results: Seq<ProcessResult>) -> Seq<Run> {
    Seq::new(results.len(), |i: int| results[i]@)
}

impl Run {
    /// Whether the run did not exit with zero.
    pub open spec fn failed(self) -> bool {
        self.status != Some(0i32)
    }

    /// What is said of a run that failed: its exit status, or `(none)`
    /// without one; then what it was fed, what it wrote to its standard
    /// output, and what it wrote to its standard error.
    pub open spec fn error_text(self) -> Seq<char> {
        match self.status {
            Some(code) => decimal_int(code as int) + "\n"@ + debug_text(self.stdin) + "stdout:\n"@
                + self.stdout + "stderr:\n"@ + self.stderr + "\n"@,
            None => "(none)"@ + "\n"@ + debug_text(self.stdin) + "stdout:\n"@ + self.stdout
                + "stderr:\n"@ + self.stderr + "\n"@,
        }
    }

    /// The test case that runs this run again: what it was fed is the
    /// input, and what it wrote is the expected output.
    pub open spec fn replay(self, name: Seq<char>) -> Case {
        Case {
            name,
            input: match self.stdin {
                Some(text) => Some(encode_utf8(text)),
                None => None,
            },
            output: Some(encode_utf8(self.stdout)),
        }
    }
}

/// How many of `runs` failed.
pub open spec fn errors_in(runs: Seq<Run>) -> nat
    decreases runs.len(),
{
    if runs.len() == 0 {
        0
    } else {
        errors_in(runs.drop_last()) + if runs.last().failed() {
            1nat
        } else {
            0nat
        }
    }
}

/// What is said of the first three of `runs` that failed, in their order.
pub open spec fn errors_text(runs: Seq<Run>) -> Seq<char>
    decreases runs.len(),
{
    if runs.len() == 0 {
        Seq::empty()
    } else if runs.last().failed() && errors_in(runs.drop_last()) < 3 {
        errors_text(runs.drop_last()) + runs.last().error_text()
    } else {
        errors_text(runs.drop_last())
    }
}

/// What is said of many runs: how many succeeded and how many failed, and
/// the first three that failed in full.
pub open spec fn summary_text(runs: Seq<Run>) -> Seq<char> {
    decimal_nat((runs.len() - errors_in(runs)) as nat) + " success, "@ + decimal_nat(errors_in(runs))
        + " errors \n"@ + errors_text(runs)
}

impl ProcessResult {
    /// The record of a run from what it left behind: its exit status, the
    /// bytes it wrote, read as text, what it was fed, and how long it ran.
    pub fn from_output(
        status: Option<i32>,
        stdout: &Vec<u8>,
        stderr: &Vec<u8>,
        stdin: Option<String>,
        duration: u64,
    ) -> (out: ProcessResult)
        ensures
            out@ == (Run {
                status,
                duration,
                stdin: option_text(stdin),
                stdout: lossy_text(stdout@),
                stderr: lossy_text(stderr@),
            }),
    {
        ProcessResult { status, duration, stdin, stdout: lossy(stdout), stderr: lossy(stderr) }
    }

    /// What is said of this run where it failed.
    pub fn error_text(&self) -> (out: String)
        ensures
            out@ == self@.error_text(),
    {
        let mut out = match self.status {
            Some(code) => signed_numeral(code as i64),
            None => "(none)".to_owned(),
        };
        out.append("\n");
        out.append(debug_option(&self.stdin).as_str());
        out.append("stdout:\n");
        out.append(self.stdout.as_str());
        out.append("stderr:\n");
        out.append(self.stderr.as_str());
        out.append("\n");
        out
    }

    /// The test case named `name` that runs this run again.
    pub fn to_test_case(&self, name: String) -> (out: TestCase)
        ensures
            out@ == self@.replay(name@),
    {
        TestCase {
            name,
            input: match &self.stdin {
                Some(text) => Some(text.as_str().as_bytes_vec()),
                None => None,
            },
            output: Some(self.stdout.as_str().as_bytes_vec()),
        }
    }
}

/// What is said of many runs.
pub fn summarize_results(results: &Vec<ProcessResult>) -> (out: String)
    ensures
        out@ == summary_text(runs_of(results@)),
{
    let ghost runs = runs_of(results@);
    let mut errors: usize = 0;
    let mut details = String::new();
    let mut i: usize = 0;
    assert(runs.take(0) == Seq::<Run>::empty());
    while i < results.len()
        invariant
            i <= results.len(),
            runs == runs_of(results@),
            errors == errors_in(runs.take(i as int)),
            errors <= i,
            details@ == errors_text(runs.take(i as int)),
        decreases results.len() - i,
    {
        proof {
            assert(runs.take(i + 1).drop_last() == runs.take(i as int));
            assert(runs.take(i + 1).last() == results@[i as int]@);
        }
        let failed = match results[i].status {
            Some(code) => code != 0,
            None => true,
        };
        if failed {
            if errors < 3 {
                details.append(results[i].error_text().as_str());
            }
            errors += 1;
        }
        i += 1;
    }
    assert(runs.take(results.len() as int) == runs);
    let mut out = numeral((results.len() - errors) as u128);
    out.append(" success, ");
    out.append(numeral(errors as u128).as_str());
    out.append(" errors \n");
    out.append(details.as_str());
    out
}

/// The name of the test case that runs fuzz run `index` again.
pub open spec fn replay_name(index: nat) -> Seq<char> {
    "fuzz "@ + decimal_nat(index)
}

/// The test cases that run `runs` again, one for each in their order,
/// named by their place.
pub open spec fn replays_of(runs: Seq<Run>) -> Seq<Case> {
    Seq::new(runs.len(), |i: int| runs[i].replay(replay_name(i as nat)))
}

/// The test cases that run `results` again, ready to be written as a test
/// document.
pub fn replay_cases(results: &Vec<ProcessResult>) -> (out: Vec<TestCase>)
    ensures
        crate::testfile::cases_of(out@) == replays_of(runs_of(results@)),
{
    let mut out: Vec<TestCase> = Vec::new();
    let mut i: usize = 0;
    while i < results.len()
        invariant
            i <= results.len(),
            out@.len() == i,
            forall|j: int|
                0 <= j < i ==> (#[trigger] out@[j])@ == results@[j]@.replay(replay_name(j as nat)),
        decreases results.len() - i,
    {
        let mut name = "fuzz ".to_owned();
        name.append(numeral(i as u128).as_str());
        out.push(results[i].to_test_case(name));
        i += 1;
    }
    assert(crate::testfile::cases_of(out@) =~= replays_of(runs_of(results@)));
    out
}

} // verus!
