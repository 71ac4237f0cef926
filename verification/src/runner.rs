//! What a run of a command gives back, and the decisions around a run: when
//! to stop waiting for a child, when to stop handing out work, when the
//! whole run is over.

use crate::fuzzer::Fuzzer;
use crate::paint::{blue, bold, bright_magenta, in_blue, in_bold, in_bright_magenta};
use crate::tester::TestExec;
use crate::text::{decimal_nat, numeral};
use vstd::prelude::*;
use vstd::string::*;

verus! {

/// What a command that ended left behind. `status` is absent where the
/// platform reports an end without an exit code; `duration` is in
/// milliseconds.
#[derive(Debug, Clone, PartialEq, Eq)]
pub struct CmdOutput {
    pub status: Option<i32>,
    pub duration: u64,
    pub stdout: Vec<u8>,
    pub stderr: Vec<u8>,
}

/// The one outcome of one command.
#[derive(Debug, Clone, PartialEq, Eq)]
pub enum ExecResult {
    /// The command ran longer than its limit and was killed; nothing of its
    /// output is kept.
    Timeout { test_id: usize },
    /// The command ended by itself.
    Terminated { test_id: usize, output: CmdOutput },
}

impl CmdOutput {
    /// The output of a command that ended, from its parts.
    pub fn from_output(status: Option<i32>, stdout: Vec<u8>, stderr: Vec<u8>, duration: u64) -> (out:
        CmdOutput)
        ensures
            out == (CmdOutput { status, duration, stdout, stderr }),
    {
        CmdOutput { status, duration, stdout, stderr }
    }
}

impl ExecResult {
    /// The outcome of the command `test_id` that ended with `output`.
    pub fn from_output(test_id: usize, output: CmdOutput) -> (out: ExecResult)
        ensures
            out == (ExecResult::Terminated { test_id, output }),
    {
        ExecResult::Terminated { test_id, output }
    }

    /// The command that this is the outcome of.
    pub open spec fn id(&self) -> usize {
        match self {
            ExecResult::Timeout { test_id } => *test_id,
            ExecResult::Terminated { test_id, .. } => *test_id,
        }
    }

    /// The command that this is the outcome of.
    pub fn test_id(&self) -> (id: usize)
        ensures
            id == self.id(),
    {
        match self {
            ExecResult::Timeout { test_id } => *test_id,
            ExecResult::Terminated { test_id, .. } => *test_id,
        }
    }
}

/// The texts of a command line.
pub open spec fn args_text(args: Seq<String>) -> Seq<Seq<char>> {
    Seq::new(args.len(), |i: int| args[i]@)
}

/// The command line that hands `command` to the shell.
pub open spec fn shell_line(command: Seq<char>) -> Seq<Seq<char>> {
    seq!["sh"@, "-c"@, command]
}

/// The command line that hands `command` to the shell.
pub fn shell_command(command: &str) -> (out: Vec<String>)
    ensures
        args_text(out@) == shell_line(command@),
{
    let mut out: Vec<String> = Vec::new();
    out.push("sh".to_owned());
    out.push("-c".to_owned());
    out.push(command.to_owned());
    assert(args_text(out@) =~= shell_line(command@));
    out
}

/// What to do about a child that was started.
#[derive(Debug, Clone, Copy, PartialEq, Eq, Structural)]
pub enum Poll {
    /// It has ended: collect what it left behind.
    Collect,
    /// It has run longer than its limit: kill it.
    Kill,
    /// Neither: look again later.
    Wait,
}

/// What to do about a child with time limit `timeout` that has run for
/// `elapsed`, both in milliseconds, and has ended or not: one that has
/// ended is collected, whatever the time; one that has run longer than
/// its limit is killed; any other is waited for.
pub open spec fn poll_of(timeout: Option<u64>, elapsed: u64, exited: bool) -> Poll {
    if exited {
        Poll::Collect
    } else if timeout is Some && elapsed > timeout->0 {
        Poll::Kill
    } else {
        Poll::Wait
    }
}

/// What to do about a child.
pub fn poll(timeout: Option<u64>, elapsed: u64, exited: bool) -> (out: Poll)
    ensures
        out == poll_of(timeout, elapsed, exited),
{
    if exited {
        return Poll::Collect;
    }
    match timeout {
        Some(limit) => if elapsed > limit {
            Poll::Kill
        } else {
            Poll::Wait
        },
        None => Poll::Wait,
    }
}

/// Whether a run that may last `run_time` has lasted too long after
/// `elapsed`, both in milliseconds. A run without a limit never has.
pub fn over_budget(run_time: Option<u64>, elapsed: u64) -> (over: bool)
    ensures
        over == (run_time is Some && elapsed > run_time->0),
{
    match run_time {
        Some(limit) => elapsed > limit,
        None => false,
    }
}

/// Where the commands of a run come from.
pub enum TaskSource {
    /// A fixed set of test cases, each handed out once.
    Catalog(crate::test::Tester),
    /// A template, from which inputs are drawn without end.
    Generative(Fuzzer),
}

impl TaskSource {
    /// What holds of a source at every moment.
    pub open spec fn wf(self) -> bool {
        match self {
            TaskSource::Catalog(catalog) => catalog@.wf(),
            TaskSource::Generative(fuzzer) => fuzzer@.input.wf(),
        }
    }

    /// Whether asking the source `before` for work can give `out` and
    /// leave the source `after`. A catalog gives one of the tests it has
    /// left and has it no longer, and gives nothing once none is left; a
    /// fuzzer gives the command with its next number and an input that its
    /// template can give.
    pub open spec fn yields(before: TaskSource, after: TaskSource, out: Option<TestExec>) -> bool {
        match before {
            TaskSource::Catalog(catalog) => {
                &&& after matches TaskSource::Catalog(later)
                &&& out is None <==> catalog@.left.len() == 0
                &&& out is None ==> later@ == catalog@
                &&& out matches Some(exec) ==> exists|position: int|
                    0 <= position < catalog@.left.len() && later@ == #[trigger] catalog@.without(
                        position,
                    ) && catalog@.describes(exec, catalog@.left[position])
            },
            TaskSource::Generative(fuzzer) => {
                &&& after matches TaskSource::Generative(later)
                &&& out is Some <==> fuzzer@.next_id < usize::MAX
                &&& out is None ==> later@ == fuzzer@
                &&& out matches Some(exec) ==> {
                    &&& later@ == (crate::fuzzer::Plan {
                        next_id: (fuzzer@.next_id + 1) as usize,
                        ..fuzzer@
                    })
                    &&& exists|text: Seq<char>| #[trigger]
                        fuzzer@.input.can_generate(text) && fuzzer@.describes(
                            exec,
                            fuzzer@.next_id,
                            text,
                        )
                }
            },
        }
    }

    /// The next command to run, or `None` when the source has run dry.
    pub fn next(&mut self) -> (out: Option<TestExec>)
        requires
            old(self).wf(),
        ensures
            final(self).wf(),
            TaskSource::yields(*old(self), *final(self), out),
    {
        match self {
            TaskSource::Catalog(catalog) => catalog.get(),
            TaskSource::Generative(fuzzer) => fuzzer.get(),
        }
    }
}

/// One turn of the dispatcher: once the run is cancelled it asks for no
/// more work and leaves the source as it is; until then it hands on what
/// the source gives.
pub fn dispatch(cancelled: bool, source: &mut TaskSource) -> (out: Option<TestExec>)
    requires
        old(source).wf(),
    ensures
        final(source).wf(),
        cancelled ==> out is None && *final(source) == *old(source),
        !cancelled ==> TaskSource::yields(*old(source), *final(source), out),
{
    if cancelled {
        None
    } else {
        source.next()
    }
}

/// What can happen to a run.
#[derive(Debug, Clone, Copy, PartialEq, Eq, Structural)]
pub enum Event {
    /// Time has passed: the run has lasted `elapsed` milliseconds.
    Tick { elapsed: u64 },
    /// The user has asked the run to stop.
    Interrupt,
    /// An outcome has come in.
    Outcome,
    /// All workers have ended.
    Drained,
}

/// What the coordinator does about an event.
#[derive(Debug, Clone, Copy, PartialEq, Eq, Structural)]
pub enum Action {
    /// Nothing: go on.
    Continue,
    /// Set the cancellation token: no new work is started from now on.
    Cancel,
    /// Stop collecting: the run is over.
    Finish,
}

/// The state of a run: whether it is cancelled, how many outcomes are in,
/// how many are awaited where that is known, and how long the run may last
/// in milliseconds where it is limited.
#[derive(Debug, Clone, Copy, PartialEq, Eq, Structural)]
pub struct Coordinator {
    pub budget: Option<u64>,
    pub awaited: Option<usize>,
    pub cancelled: bool,
    pub outcomes: usize,
}

impl Coordinator {
    /// The state after `event`. An interrupt and a tick past the budget
    /// cancel the run, once; cancelling stops nothing that runs. An
    /// outcome is counted. The run is over when the workers have drained,
    /// or when as many outcomes are in as were awaited.
    pub open spec fn after(self, event: Event) -> Coordinator {
        match event {
            Event::Tick { elapsed } => Coordinator {
                cancelled: self.cancelled || (self.budget is Some && elapsed > self.budget->0),
                ..self
            },
            Event::Interrupt => Coordinator { cancelled: true, ..self },
            Event::Outcome => Coordinator {
                outcomes: if self.outcomes < usize::MAX {
                    (self.outcomes + 1) as usize
                } else {
                    self.outcomes
                },
                ..self
            },
            Event::Drained => self,
        }
    }

    /// What is to be done about `event` in this state.
    pub open spec fn action(self, event: Event) -> Action {
        match event {
            Event::Tick { elapsed } => if !self.cancelled && self.after(event).cancelled {
                Action::Cancel
            } else {
                Action::Continue
            },
            Event::Interrupt => if self.cancelled {
                Action::Continue
            } else {
                Action::Cancel
            },
            Event::Outcome => if self.awaited is Some && self.after(event).outcomes
                >= self.awaited->0 {
                Action::Finish
            } else {
                Action::Continue
            },
            Event::Drained => Action::Finish,
        }
    }

    /// The state of a run that has not begun.
    pub fn new(budget: Option<u64>, awaited: Option<usize>) -> (out: Coordinator)
        ensures
            out == (Coordinator { budget, awaited, cancelled: false, outcomes: 0 }),
    {
        Coordinator { budget, awaited, cancelled: false, outcomes: 0 }
    }

    /// Takes note of `event` and says what is to be done.
    pub fn step(&mut self, event: Event) -> (out: Action)
        ensures
            *final(self) == old(self).after(event),
            out == old(self).action(event),
    {
        match event {
            Event::Tick { elapsed } => {
                if !self.cancelled && over_budget(self.budget, elapsed) {
                    self.cancelled = true;
                    Action::Cancel
                } else {
                    Action::Continue
                }
            },
            Event::Interrupt => {
                if self.cancelled {
                    Action::Continue
                } else {
                    self.cancelled = true;
                    Action::Cancel
                }
            },
            Event::Outcome => {
                if self.outcomes < usize::MAX {
                    self.outcomes = self.outcomes + 1;
                }
                match self.awaited {
                    Some(count) => if self.outcomes >= count {
                        Action::Finish
                    } else {
                        Action::Continue
                    },
                    None => Action::Continue,
                }
            },
            Event::Drained => Action::Finish,
        }
    }
}

/// A run that is cancelled stays cancelled, whatever happens.
pub proof fn law_cancelled_stays(state: Coordinator, event: Event)
    requires
        state.cancelled,
    ensures
        state.after(event).cancelled,
        state.action(event) != Action::Cancel,
{
}

/// The line that shows how far a test run is.
pub open spec fn progress_text(results: nat, tests: nat, threads: nat, summary: Seq<char>) -> Seq<char> {
    "\r"@ + in_bold(
        in_bright_magenta(
            "Running "@ + decimal_nat(results) + "/"@ + decimal_nat(tests) + " tests ("@
                + decimal_nat(threads) + "x).."@,
        ),
    ) + " "@ + in_blue(summary)
}

/// The line that shows how far a test run is: how many outcomes of how
/// many tests are in, on how many threads, and the running score.
pub fn progress_line(results: usize, tests: usize, threads: u64, summary: &str) -> (out: String)
    ensures
        out@ == progress_text(results as nat, tests as nat, threads as nat, summary@),
{
    let mut head = "Running ".to_owned();
    head.append(numeral(results as u128).as_str());
    head.append("/");
    head.append(numeral(tests as u128).as_str());
    head.append(" tests (");
    head.append(numeral(threads as u128).as_str());
    head.append("x)..");
    let mut out = "\r".to_owned();
    out.append(bold(bright_magenta(head.as_str()).as_str()).as_str());
    out.append(" ");
    out.append(blue(summary).as_str());
    out
}

} // verus!
