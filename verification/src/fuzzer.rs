//! The fuzzer: a source of commands that never runs dry, each with an
//! input drawn afresh from a template.

use crate::fuzz::{FuzzConfig, InputTemplate, Template};
use crate::runner::{args_text, shell_command, shell_line};
use crate::tester::TestExec;
use vstd::prelude::*;
use vstd::string::*;
use vstd::utf8::encode_utf8;

verus! {

/// A source of commands whose inputs are drawn from a template. Commands
/// are numbered from zero in the order they are handed out.
pub struct Fuzzer {
    config: FuzzConfig,
    next_id: usize,
}

/// What a fuzzer holds.
pub struct Plan {
    pub input: Template,
    pub command: Seq<char>,
    pub time_limit: Option<u64>,
    /// The number of the next command.
    pub next_id: usize,
}

impl Plan {
    /// Whether `exec` is command `id` of this plan with `text` for its
    /// input: the shell runs the command, and the input is the text in
    /// UTF-8.
    pub open spec fn describes(self, exec: TestExec, id: usize, text: Seq<char>) -> bool {
        &&& exec.test_id == id
        &&& args_text(exec.cmd_args@) == shell_line(self.command)
        &&& exec.input@ == encode_utf8(text)
        &&& exec.timeout == self.time_limit
    }
}

impl View for Fuzzer {
    type V = Plan;

    closed spec fn view(&self) -> Plan {
        Plan {
            input: self.config.input@,
            command: self.config.command@,
            time_limit: self.config.time_limit,
            next_id: self.next_id,
        }
    }
}

impl Fuzzer {
    /// A fuzzer that runs `cmd` through the shell, within `time_limit`
    /// milliseconds where there is a limit, on inputs drawn from `input`.
    pub fn new(input: InputTemplate, cmd: String, time_limit: Option<u64>) -> (out: Fuzzer)
        ensures
            out@ == (Plan { input: input@, command: cmd@, time_limit, next_id: 0 }),
    {
        Fuzzer { config: FuzzConfig { command: cmd, time_limit, input }, next_id: 0 }
    }

    /// What this fuzzer is made of.
    pub fn config(&self) -> (out: &FuzzConfig)
        ensures
            out.input@ == self@.input,
            out.command@ == self@.command,
            out.time_limit == self@.time_limit,
    {
        &self.config
    }

    /// The command with the next number, with `text` for its input.
    pub fn command_for(&mut self, text: &str) -> (exec: TestExec)
        requires
            old(self)@.next_id < usize::MAX,
        ensures
            old(self)@.describes(exec, old(self)@.next_id, text@),
            final(self)@ == (Plan { next_id: (old(self)@.next_id + 1) as usize, ..old(self)@ }),
    {
        let exec = TestExec {
            test_id: self.next_id,
            cmd_args: shell_command(self.config.command.as_str()),
            input: text.as_bytes_vec(),
            timeout: self.config.time_limit,
        };
        self.next_id = self.next_id + 1;
        exec
    }

    /// The next command, with an input drawn afresh from the template. The
    /// fuzzer runs dry only when the numbers do.
    pub fn get(&mut self) -> (out: Option<TestExec>)
        requires
            old(self)@.input.wf(),
        ensures
            out is Some <==> old(self)@.next_id < usize::MAX,
            out is None ==> final(self)@ == old(self)@,
            out matches Some(exec) ==> {
                &&& final(self)@ == (Plan {
                    next_id: (old(self)@.next_id + 1) as usize,
                    ..old(self)@
                })
                &&& exists|text: Seq<char>| #[trigger]
                    old(self)@.input.can_generate(text) && old(self)@.describes(
                        exec,
                        old(self)@.next_id,
                        text,
                    )
            },
    {
        if self.next_id == usize::MAX {
            return None;
        }
        let text = self.config.input.generate();
        let exec = self.command_for(text.as_str());
        Some(exec)
    }
}

} // verus!
