//! The report of a test run: its buckets, its counts, and its text.

use crate::diff::{changes_of, diff_lines, line_diff, Change, DiffLine, DiffTag};
use crate::loader::TestCase;
use crate::paint::{
    blue, bold, bright_green, bright_red, bright_yellow, dimmed, green, in_blue, in_bold,
    in_bright_green, in_bright_red, in_bright_yellow, in_dimmed, in_green, in_red,
    in_strikethrough, red, strikethrough,
};
use crate::tester::{ResultType, TestResult};
use crate::text::{
    chars_of, decimal_int, decimal_nat, lossy, lossy_text, numeral, pad_left, padded,
    signed_numeral, slice, string_of,
};
use vstd::prelude::*;
use vstd::string::*;

verus! {

/// The end of a test run: the results that passed, those that failed, the
/// test cases that ran out of time, and how many never ran.
#[derive(Debug, Clone, PartialEq, Eq)]
pub struct TestReport {
    timed_out: Vec<TestCase>,
    failed: Vec<TestResult>,
    passed: Vec<TestResult>,
    unfinished: usize,
}

/// What a [`TestReport`] holds.
pub struct Buckets {
    pub timed_out: Seq<TestCase>,
    pub failed: Seq<TestResult>,
    pub passed: Seq<TestResult>,
    pub unfinished: nat,
}

/// Whether a result counts as passed.
pub open spec fn passing(r: TestResult) -> bool {
    r.result_type == ResultType::Pass
}

/// The results of `results` that passed, in their order.
pub open spec fn passed_of(results: Seq<TestResult>) -> Seq<TestResult> {
    results.filter(|r: TestResult| passing(r))
}

/// The results of `results` that failed, in their order.
pub open spec fn failed_of(results: Seq<TestResult>) -> Seq<TestResult> {
    results.filter(|r: TestResult| !passing(r))
}

impl View for TestReport {
    type V = Buckets;

    closed spec fn view(&self) -> Buckets {
        Buckets {
            timed_out: self.timed_out@,
            failed: self.failed@,
            passed: self.passed@,
            unfinished: self.unfinished as nat,
        }
    }
}

impl TestReport {
    /// Sorts results into the passed and the failed, each in the order they
    /// came in, and keeps the timed out and the count of the unfinished
    /// beside them.
    pub fn from_results(timed_out: Vec<TestCase>, results: Vec<TestResult>, unfinished: usize) -> (out:
        TestReport)
        ensures
            out@ == (Buckets {
                timed_out: timed_out@,
                failed: failed_of(results@),
                passed: passed_of(results@),
                unfinished: unfinished as nat,
            }),
    {
        let mut failed: Vec<TestResult> = Vec::new();
        let mut passed: Vec<TestResult> = Vec::new();
        for result in it: results
            invariant
                it.seq() == results@,
                passed@ == passed_of(results@.take(it.index() as int)),
                failed@ == failed_of(results@.take(it.index() as int)),
        {
            proof {
                reveal(Seq::filter);
                let more = results@.take(it.index() + 1);
                assert(more.drop_last() == results@.take(it.index() as int));
                assert(more.last() == result);
            }
            match result.result_type {
                ResultType::Pass => {
                    passed.push(result);
                },
                ResultType::Signaled | ResultType::WrongOutput => {
                    failed.push(result);
                },
            }
        }
        proof {
            assert(results@.take(results@.len() as int) == results@);
        }
        TestReport { timed_out, failed, passed, unfinished }
    }
}

/// A span of `ms` milliseconds as text: the whole seconds, a point, the
/// milliseconds beyond them in two digits or three, and an `s`.
pub open spec fn duration_text(ms: u64) -> Seq<char> {
    if ms % 1000 < 10 {
        decimal_nat((ms / 1000) as nat) + "."@ + "0"@ + decimal_nat((ms % 1000) as nat) + "s"@
    } else {
        decimal_nat((ms / 1000) as nat) + "."@ + decimal_nat((ms % 1000) as nat) + "s"@
    }
}

/// A span of `duration` milliseconds as text.
pub fn format_duration(duration: u64) -> (out: String)
    ensures
        out@ == duration_text(duration),
{
    let mut out = numeral((duration / 1000) as u128);
    out.append(".");
    let millis = duration % 1000;
    if millis < 10 {
        out.append("0");
    }
    out.append(numeral(millis as u128).as_str());
    out.append("s");
    out
}

/// A label of the report: bold, and set to the right of ten columns.
pub open spec fn label(text: Seq<char>) -> Seq<char> {
    in_bold(padded(text, 10))
}

/// A label of the report.
fn write_label(text: &str) -> (out: String)
    ensures
        out@ == label(text@),
{
    bold(pad_left(text, 10).as_str())
}

/// `a` of `b`, as the report writes it.
pub open spec fn ratio(a: nat, b: nat) -> Seq<char> {
    decimal_nat(a) + "/"@ + decimal_nat(b)
}

/// `a` of `b`, as the report writes it.
fn write_ratio(a: u128, b: u128) -> (out: String)
    ensures
        out@ == ratio(a as nat, b as nat),
{
    let mut out = numeral(a);
    out.append("/");
    out.append(numeral(b).as_str());
    out
}

/// How many passed of those that ended: green where all did, else the
/// count in yellow.
pub open spec fn passed_text(passed: nat, ended: nat) -> Seq<char> {
    if passed == ended {
        in_bright_green(ratio(passed, passed))
    } else {
        in_bright_yellow(decimal_nat(passed)) + "/"@ + decimal_nat(ended)
    }
}

/// How many failed of those that ended: green where none did, else the
/// count in red.
pub open spec fn failed_text(failed: nat, ended: nat) -> Seq<char> {
    if failed == 0 {
        in_bright_green(ratio(failed, ended))
    } else {
        in_bright_red(decimal_nat(failed)) + "/"@ + decimal_nat(ended)
    }
}

/// The counts at the head of the report.
pub open spec fn counts_text(passed: nat, failed: nat, timed_out: nat, unfinished: nat) -> Seq<char> {
    let ended = passed + failed;
    let total = ended + timed_out + unfinished;
    in_bold("== TEST SUMMARY =="@) + "\n"@ + label("finished:"@) + " "@ + ratio(ended, total) + "\n"@
        + label("passed:"@) + " "@ + passed_text(passed, ended) + "\n"@ + label("failed:"@) + " "@
        + failed_text(failed, ended) + "\n"@ + label("timed out:"@) + " "@ + ratio(timed_out, total)
        + "\n"@
}

/// The counts at the head of the report.
pub fn write_counts(passed: usize, failed: usize, timed_out: usize, unfinished: usize) -> (out: String)
    ensures
        out@ == counts_text(passed as nat, failed as nat, timed_out as nat, unfinished as nat),
{
    let ended: u128 = passed as u128 + failed as u128;
    let total: u128 = ended + timed_out as u128 + unfinished as u128;
    let mut out = bold("== TEST SUMMARY ==");
    out.append("\n");
    out.append(write_label("finished:").as_str());
    out.append(" ");
    out.append(write_ratio(ended, total).as_str());
    out.append("\n");
    out.append(write_label("passed:").as_str());
    out.append(" ");
    if passed as u128 == ended {
        out.append(bright_green(write_ratio(passed as u128, passed as u128).as_str()).as_str());
    } else {
        let mut part = bright_yellow(numeral(passed as u128).as_str());
        part.append("/");
        part.append(numeral(ended).as_str());
        out.append(part.as_str());
    }
    out.append("\n");
    out.append(write_label("failed:").as_str());
    out.append(" ");
    if failed == 0 {
        out.append(bright_green(write_ratio(failed as u128, ended).as_str()).as_str());
    } else {
        let mut part = bright_red(numeral(failed as u128).as_str());
        part.append("/");
        part.append(numeral(ended).as_str());
        out.append(part.as_str());
    }
    out.append("\n");
    out.append(write_label("timed out:").as_str());
    out.append(" ");
    out.append(write_ratio(timed_out as u128, total).as_str());
    out.append("\n");
    out
}

/// `s` without the line feeds at its end.
pub open spec fn strip_newlines(s: Seq<char>) -> Seq<char>
    decreases s.len(),
{
    if s.len() > 0 && s.last() == '\n' {
        strip_newlines(s.drop_last())
    } else {
        s
    }
}

/// Whether `s` is exactly one line: not empty, and without a line feed.
pub open spec fn one_line(s: Seq<char>) -> bool {
    s.len() > 0 && !s.contains('\n')
}

/// `s` without the line feeds at its end.
pub fn strip_end(s: &str) -> (out: Vec<char>)
    ensures
        out@ == strip_newlines(s@),
{
    let chars = chars_of(s);
    let mut end: usize = chars.len();
    assert(chars@.take(end as int) == chars@);
    while end > 0 && chars[end - 1] == '\n'
        invariant
            end <= chars.len(),
            chars@ == s@,
            strip_newlines(s@) == strip_newlines(chars@.take(end as int)),
        decreases end,
    {
        assert(chars@.take(end as int).drop_last() == chars@.take(end - 1));
        end -= 1;
    }
    assert(chars@.take(end as int) == chars@.subrange(0, end as int));
    slice(&chars, 0, end)
}

/// Whether `s` holds a line feed.
pub fn has_newline(s: &Vec<char>) -> (b: bool)
    ensures
        b == s@.contains('\n'),
{
    let mut i: usize = 0;
    while i < s.len()
        invariant
            i <= s.len(),
            forall|j: int| 0 <= j < i ==> s@[j] != '\n',
        decreases s.len() - i,
    {
        if s[i] == '\n' {
            return true;
        }
        i += 1;
    }
    false
}

/// One line of a comparison as the report writes it: a line of the output
/// only with a red minus, dimmed and struck through; a line of the expected
/// only with a blue plus, in blue; a line of both in green.
pub open spec fn change_text(change: Change) -> Seq<char> {
    match change.tag {
        DiffTag::Delete => in_bold(in_red("-"@)) + " "@ + in_strikethrough(in_dimmed(change.text)),
        DiffTag::Insert => in_bold(in_blue("+"@)) + " "@ + in_blue(change.text),
        DiffTag::Equal => " "@ + " "@ + in_green(change.text),
    }
}

/// The lines of a comparison as the report writes them, one after another.
pub open spec fn changes_text(changes: Seq<Change>) -> Seq<char>
    decreases changes.len(),
{
    if changes.len() == 0 {
        Seq::empty()
    } else {
        changes_text(changes.drop_last()) + change_text(changes.last())
    }
}

/// One line of a comparison as the report writes it.
pub fn render_change(change: &DiffLine) -> (out: String)
    ensures
        out@ == change_text(change@),
{
    match change.tag {
        DiffTag::Delete => {
            let mut out = bold(red("-").as_str());
            out.append(" ");
            out.append(strikethrough(dimmed(change.text.as_str()).as_str()).as_str());
            out
        },
        DiffTag::Insert => {
            let mut out = bold(blue("+").as_str());
            out.append(" ");
            out.append(blue(change.text.as_str()).as_str());
            out
        },
        DiffTag::Equal => {
            let mut out = " ".to_owned();
            out.append(" ");
            out.append(green(change.text.as_str()).as_str());
            out
        },
    }
}

/// The lines of a comparison as the report writes them.
pub fn render_changes(changes: &Vec<DiffLine>) -> (out: String)
    ensures
        out@ == changes_text(changes_of(changes@)),
{
    let mut out = String::new();
    let mut i: usize = 0;
    let ghost all = changes_of(changes@);
    assert(all.take(0) == Seq::<Change>::empty());
    while i < changes.len()
        invariant
            i <= changes.len(),
            all == changes_of(changes@),
            out@ == changes_text(all.take(i as int)),
        decreases changes.len() - i,
    {
        proof {
            let more = all.take(i + 1);
            assert(more.drop_last() == all.take(i as int));
            assert(more.last() == changes@[i as int]@);
        }
        out.append(render_change(&changes[i]).as_str());
        i += 1;
    }
    assert(all.take(changes.len() as int) == all);
    out
}

/// An output beside the expected one, both without line feeds at their
/// ends, with `changes` for their comparison: two lines, got and expected,
/// where each is one line; else the comparison line by line.
pub open spec fn compared_text(output: Seq<char>, expected: Seq<char>, changes: Seq<Change>) -> Seq<char> {
    if one_line(output) && one_line(expected) {
        label("got:"@) + " "@ + output + "\n"@ + label("expected:"@) + " "@ + expected + "\n"@
    } else {
        in_bold("output diff:"@) + "\n"@ + changes_text(changes)
    }
}

/// An output beside the expected one: the line feeds at their ends are
/// taken off, and the two are compared line by line where either is more
/// than one line, or none.
pub open spec fn diff_text(output: Seq<char>, expected: Seq<char>) -> Seq<char> {
    let o = strip_newlines(output);
    let e = strip_newlines(expected);
    compared_text(o, e, line_diff(o, e))
}

/// An output beside the expected one, as the report writes them.
pub fn render_diff(output: &str, expected: &str) -> (out: String)
    ensures
        out@ == diff_text(output@, expected@),
{
    let o = strip_end(output);
    let e = strip_end(expected);
    let o_text = string_of(&o);
    let e_text = string_of(&e);
    if o.len() > 0 && !has_newline(&o) && e.len() > 0 && !has_newline(&e) {
        let mut out = write_label("got:");
        out.append(" ");
        out.append(o_text.as_str());
        out.append("\n");
        out.append(write_label("expected:").as_str());
        out.append(" ");
        out.append(e_text.as_str());
        out.append("\n");
        out
    } else {
        let changes = diff_lines(o_text.as_str(), e_text.as_str());
        let mut out = bold("output diff:");
        out.append("\n");
        out.append(render_changes(&changes).as_str());
        out
    }
}

/// What a command wrote to its standard error, as the report writes it:
/// nothing where it wrote nothing; else its text without the line feeds at
/// its end, on the line of its label where that is one line, and below the
/// label where it is more.
pub open spec fn stderr_text(stderr: Seq<u8>) -> Seq<char> {
    if stderr.len() == 0 {
        Seq::empty()
    } else if strip_newlines(lossy_text(stderr)).contains('\n') {
        in_bold("stderr:"@) + "\n"@ + strip_newlines(lossy_text(stderr)) + "\n"@
    } else {
        label("stderr:"@) + " "@ + strip_newlines(lossy_text(stderr)) + "\n"@
    }
}

/// What a command wrote to its standard error, as the report writes it.
pub fn render_stderr(stderr: &Vec<u8>) -> (out: String)
    ensures
        out@ == stderr_text(stderr@),
{
    if stderr.len() == 0 {
        return String::new();
    }
    let text = strip_end(lossy(stderr).as_str());
    if has_newline(&text) {
        let mut out = bold("stderr:");
        out.append("\n");
        out.append(string_of(&text).as_str());
        out.append("\n");
        out
    } else {
        let mut out = write_label("stderr:");
        out.append(" ");
        out.append(string_of(&text).as_str());
        out.append("\n");
        out
    }
}

/// The exit status of a command, as the report writes it.
pub open spec fn status_text(status: Option<i32>) -> Seq<char> {
    match status {
        Some(code) => decimal_int(code as int),
        None => "unknown"@,
    }
}

/// The start of what the report says of a failed test: that it failed, its
/// name, and how long it ran.
pub open spec fn failed_head(result: TestResult) -> Seq<char> {
    in_bold(in_bright_red("FAILED"@)) + " "@ + result.testcase.name@ + " ("@ + duration_text(
        result.duration,
    ) + ") "@
}

/// The bytes that a test case expects: its expected output, or nothing.
pub open spec fn expected_bytes(testcase: TestCase) -> Seq<u8> {
    match testcase.output {
        Some(bytes) => bytes@,
        None => Seq::empty(),
    }
}

/// What the report says of one result: nothing of one that passed; of one
/// that did not exit with zero its exit status; of one with the wrong
/// output that output beside the expected one; and of either what it wrote
/// to its standard error.
pub open spec fn failure_text(result: TestResult) -> Seq<char> {
    match result.result_type {
        ResultType::Pass => Seq::empty(),
        ResultType::Signaled => failed_head(result) + "runtime error, exit status: "@ + in_bold(
            status_text(result.status),
        ) + "\n"@ + stderr_text(result.stderr@),
        ResultType::WrongOutput => failed_head(result) + "wrong output\n"@ + diff_text(
            lossy_text(result.stdout@),
            lossy_text(expected_bytes(result.testcase)),
        ) + stderr_text(result.stderr@),
    }
}

/// The start of what the report says of a failed test.
fn render_failed_head(result: &TestResult) -> (out: String)
    ensures
        out@ == failed_head(*result),
{
    let mut out = bold(bright_red("FAILED").as_str());
    out.append(" ");
    out.append(result.testcase.name.as_str());
    out.append(" (");
    out.append(format_duration(result.duration).as_str());
    out.append(") ");
    out
}

/// What the report says of one result.
pub fn render_failure(result: &TestResult) -> (out: String)
    ensures
        out@ == failure_text(*result),
{
    match result.result_type {
        ResultType::Pass => String::new(),
        ResultType::Signaled => {
            let mut out = render_failed_head(result);
            out.append("runtime error, exit status: ");
            let status = match result.status {
                Some(code) => signed_numeral(code as i64),
                None => "unknown".to_owned(),
            };
            out.append(bold(status.as_str()).as_str());
            out.append("\n");
            out.append(render_stderr(&result.stderr).as_str());
            out
        },
        ResultType::WrongOutput => {
            let mut out = render_failed_head(result);
            out.append("wrong output\n");
            let output = lossy(&result.stdout);
            let expected = match &result.testcase.output {
                Some(bytes) => lossy(bytes),
                None => lossy(&Vec::new()),
            };
            out.append(render_diff(output.as_str(), expected.as_str()).as_str());
            out.append(render_stderr(&result.stderr).as_str());
            out
        },
    }
}

/// What the report says of some results, one after another.
pub open spec fn failures_text(results: Seq<TestResult>) -> Seq<char>
    decreases results.len(),
{
    if results.len() == 0 {
        Seq::empty()
    } else {
        failures_text(results.drop_last()) + failure_text(results.last())
    }
}

/// The whole text of a report: its counts, then what there is to say of
/// every failed result.
pub open spec fn report_text(buckets: Buckets) -> Seq<char> {
    counts_text(
        buckets.passed.len(),
        buckets.failed.len(),
        buckets.timed_out.len(),
        buckets.unfinished,
    ) + failures_text(buckets.failed)
}

impl TestReport {
    /// How many tests ended by themselves: those that passed and those that
    /// failed.
    pub fn terminated_count(&self) -> (n: u128)
        ensures
            n == self@.passed.len() + self@.failed.len(),
    {
        self.passed.len() as u128 + self.failed.len() as u128
    }

    /// How many tests the run had: those that ended, those that timed out,
    /// and those that never got an outcome.
    pub fn total_count(&self) -> (n: u128)
        ensures
            n == self@.passed.len() + self@.failed.len() + self@.timed_out.len() + self@.unfinished,
    {
        self.passed.len() as u128 + self.failed.len() as u128 + self.timed_out.len() as u128
            + self.unfinished as u128
    }

    /// The results that passed, in the order they came in.
    pub fn passed(&self) -> (out: &Vec<TestResult>)
        ensures
            out@ == self@.passed,
    {
        &self.passed
    }

    /// The results that failed, in the order they came in.
    pub fn failed(&self) -> (out: &Vec<TestResult>)
        ensures
            out@ == self@.failed,
    {
        &self.failed
    }

    /// The test cases that ran out of time, in the order they did.
    pub fn timed_out(&self) -> (out: &Vec<TestCase>)
        ensures
            out@ == self@.timed_out,
    {
        &self.timed_out
    }

    /// How many tests never got an outcome.
    pub fn unfinished(&self) -> (n: usize)
        ensures
            n == self@.unfinished,
    {
        self.unfinished
    }

    /// The text of the report, ready to print.
    pub fn render(&self) -> (out: String)
        ensures
            out@ == report_text(self@),
    {
        let mut out = write_counts(
            self.passed.len(),
            self.failed.len(),
            self.timed_out.len(),
            self.unfinished,
        );
        let ghost head = out@;
        let mut i: usize = 0;
        assert(self.failed@.take(0) == Seq::<TestResult>::empty());
        assert(head + Seq::<char>::empty() == head);
        while i < self.failed.len()
            invariant
                i <= self.failed.len(),
                out@ == head + failures_text(self.failed@.take(i as int)),
            decreases self.failed.len() - i,
        {
            let piece = render_failure(&self.failed[i]);
            proof {
                let more = self.failed@.take(i + 1);
                let seen = self.failed@.take(i as int);
                assert(more.drop_last() == seen);
                assert(more.last() == self.failed@[i as int]);
                assert((head + failures_text(seen)) + piece@ == head + (failures_text(seen) + piece@));
            }
            out.append(piece.as_str());
            i += 1;
        }
        assert(self.failed@.take(self.failed.len() as int) == self.failed@);
        out
    }
}

} // verus!
