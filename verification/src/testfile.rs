//! Test documents: many test cases in one flat text. A line that begins
//! with `|` opens a record and names it; `<` gives an input of one line and
//! `<<` opens an input of many; `>` and `>>` do the same for the expected
//! output.

use crate::error::{Error, Fault};
use crate::loader::{bytes_view, Case, TestCase};
use crate::text::utf8_text;
use vstd::prelude::*;
use vstd::string::*;
use vstd::utf8::{decode_utf8, encode_utf8, valid_utf8};

verus! {

/// The line feed.
pub const LF: u8 = 10;

/// The lines of `doc`, where `current` is the line in hand. A line ends at
/// a line feed, which is no part of it; what follows the last line feed is
/// a line of its own unless it is empty.
pub open spec fn cut(doc: Seq<u8>, current: Seq<u8>) -> Seq<Seq<u8>>
    decreases doc.len(),
{
    if doc.len() == 0 {
        if current.len() == 0 {
            Seq::empty()
        } else {
            seq![current]
        }
    } else if doc[0] == LF {
        seq![current] + cut(doc.drop_first(), Seq::empty())
    } else {
        cut(doc.drop_first(), current.push(doc[0]))
    }
}

/// The lines of `doc`.
pub open spec fn lines_of(doc: Seq<u8>) -> Seq<Seq<u8>> {
    cut(doc, Seq::empty())
}

/// Some lines as one text: each line, then a line feed.
pub open spec fn unlines(lines: Seq<Seq<u8>>) -> Seq<u8>
    decreases lines.len(),
{
    if lines.len() == 0 {
        Seq::empty()
    } else {
        unlines(lines.drop_last()) + lines.last() + seq![LF]
    }
}

/// Whether `line` holds no line feed.
pub open spec fn plain(line: Seq<u8>) -> bool {
    forall|i: int| 0 <= i < line.len() ==> #[trigger] line[i] != LF
}

/// Whether every one of `lines` holds no line feed.
pub open spec fn all_plain(lines: Seq<Seq<u8>>) -> bool {
    forall|i: int| 0 <= i < lines.len() ==> plain(#[trigger] lines[i])
}

/// The byte vectors of `lines` as sequences, in their order.
pub open spec fn lines_view(lines: Seq<Vec<u8>>) -> Seq<Seq<u8>> {
    Seq::new(lines.len(), |i: int| lines[i]@)
}

/// The lines of `doc`.
pub fn split_lines(doc: &Vec<u8>) -> (out: Vec<Vec<u8>>)
    ensures
        lines_view(out@) == lines_of(doc@),
{
    let mut out: Vec<Vec<u8>> = Vec::new();
    let mut current: Vec<u8> = Vec::new();
    let mut i: usize = 0;
    assert(doc@.skip(0) == doc@);
    assert(lines_view(out@) + cut(doc@, Seq::empty()) == lines_of(doc@));
    while i < doc.len()
        invariant
            i <= doc.len(),
            lines_of(doc@) == lines_view(out@) + cut(doc@.skip(i as int), current@),
        decreases doc.len() - i,
    {
        let b = doc[i];
        let ghost rest = doc@.skip(i as int);
        assert(rest.drop_first() == doc@.skip(i + 1));
        assert(rest[0] == b);
        if b == LF {
            let ghost before = lines_view(out@);
            let ghost line = current@;
            out.push(current);
            current = Vec::new();
            proof {
                assert(lines_view(out@) =~= before + seq![line]);
                assert(before + (seq![line] + cut(rest.drop_first(), Seq::empty())) =~= (before
                    + seq![line]) + cut(rest.drop_first(), Seq::empty()));
            }
        } else {
            current.push(b);
        }
        i += 1;
    }
    if current.len() > 0 {
        let ghost before = lines_view(out@);
        let ghost line = current@;
        out.push(current);
        assert(lines_view(out@) =~= before + seq![line]);
    } else {
        assert(lines_view(out@) + Seq::<Seq<u8>>::empty() == lines_view(out@));
    }
    out
}

/// Cutting a plain line, a line feed and more gives the line, added to
/// what is in hand, and then the lines of what follows.
proof fn lemma_cut_line(line: Seq<u8>, tail: Seq<u8>, current: Seq<u8>)
    requires
        plain(line),
    ensures
        cut(line + seq![LF] + tail, current) == seq![current + line] + cut(tail, Seq::empty()),
    decreases line.len(),
{
    let doc = line + seq![LF] + tail;
    if line.len() == 0 {
        assert(doc[0] == LF);
        assert(doc.drop_first() =~= tail);
        assert(current + line =~= current);
    } else {
        assert(doc[0] == line[0]);
        assert(line[0] != LF);
        assert(plain(line.drop_first())) by {
            assert forall|i: int| 0 <= i < line.drop_first().len() implies #[trigger] line.drop_first()[i]
                != LF by {
                assert(line.drop_first()[i] == line[i + 1]);
            }
        }
        assert(doc.drop_first() =~= line.drop_first() + seq![LF] + tail);
        lemma_cut_line(line.drop_first(), tail, current.push(line[0]));
        assert(current.push(line[0]) + line.drop_first() =~= current + line);
    }
}

/// Some lines as one text begin with the first line and a line feed.
proof fn lemma_unlines_first(lines: Seq<Seq<u8>>)
    requires
        lines.len() > 0,
    ensures
        unlines(lines) == lines[0] + seq![LF] + unlines(lines.drop_first()),
    decreases lines.len(),
{
    if lines.len() == 1 {
        assert(lines.drop_last() =~= Seq::<Seq<u8>>::empty());
        assert(lines.drop_first() =~= Seq::<Seq<u8>>::empty());
        assert(unlines(lines) =~= lines[0] + seq![LF] + unlines(lines.drop_first()));
    } else {
        lemma_unlines_first(lines.drop_last());
        assert(lines.drop_last().drop_first() =~= lines.drop_first().drop_last());
        assert(lines.drop_first().last() == lines.last());
        assert(lines.drop_last()[0] == lines[0]);
        assert(unlines(lines) =~= lines[0] + seq![LF] + unlines(lines.drop_first()));
    }
}

/// Plain lines written as one text and cut into lines again are the same
/// lines.
pub proof fn lemma_lines_of_unlines(lines: Seq<Seq<u8>>)
    requires
        all_plain(lines),
    ensures
        lines_of(unlines(lines)) == lines,
    decreases lines.len(),
{
    if lines.len() == 0 {
    } else {
        lemma_unlines_first(lines);
        let rest = lines.drop_first();
        assert(all_plain(rest)) by {
            assert forall|i: int| 0 <= i < rest.len() implies plain(#[trigger] rest[i]) by {
                assert(rest[i] == lines[i + 1]);
            }
        }
        lemma_lines_of_unlines(rest);
        assert(plain(lines[0]));
        lemma_cut_line(lines[0], unlines(rest), Seq::empty());
        assert(Seq::<u8>::empty() + lines[0] =~= lines[0]);
        assert(seq![lines[0]] + rest =~= lines);
    }
}

/// The bar that opens a record.
pub const BAR: u8 = 124;

/// The sign of an input.
pub const LESS: u8 = 60;

/// The sign of an expected output.
pub const MORE: u8 = 62;

/// The blank that the writer puts behind a single sign.
pub const BLANK: u8 = 32;

/// Whether `b` is white space within a line: a blank, a tab, a form feed or
/// a carriage return.
pub open spec fn is_blank(b: u8) -> bool {
    b == 32 || b == 9 || b == 12 || b == 13
}

/// `line` without the white space at its start.
pub open spec fn trim_left(line: Seq<u8>) -> Seq<u8>
    decreases line.len(),
{
    if line.len() > 0 && is_blank(line[0]) {
        trim_left(line.drop_first())
    } else {
        line
    }
}

/// Which field takes the lines that bear no sign.
#[derive(Debug, Clone, Copy, PartialEq, Eq, Structural)]
pub enum Mode {
    /// None: a line without a sign must be empty.
    Idle,
    /// The input of the record in hand.
    Input,
    /// The expected output of the record in hand.
    Output,
}

/// How far a document has been read: the records so far, of which the last
/// is the one in hand, and the field that is open.
pub struct Reading {
    pub records: Seq<Case>,
    pub mode: Mode,
}

/// Whether `line` opens a record.
pub open spec fn is_header(line: Seq<u8>) -> bool {
    line.len() > 0 && line[0] == BAR
}

/// Whether `line` bears `sign` twice at its start.
pub open spec fn is_double(line: Seq<u8>, sign: u8) -> bool {
    line.len() > 1 && line[0] == sign && line[1] == sign
}

/// Whether `line` bears a sign: the bar of a record, or the sign of an
/// input or of an expected output.
pub open spec fn is_marked(line: Seq<u8>) -> bool {
    line.len() > 0 && (line[0] == BAR || line[0] == LESS || line[0] == MORE)
}

/// A field with `more` added to it; an absent field counts as empty.
pub open spec fn grown(field: Option<Seq<u8>>, more: Seq<u8>) -> Option<Seq<u8>> {
    match field {
        Some(bytes) => Some(bytes + more),
        None => Some(more),
    }
}

/// `records` with `more` added to the input of the last.
pub open spec fn with_input(records: Seq<Case>, more: Seq<u8>) -> Seq<Case> {
    records.update(
        records.len() - 1,
        Case { input: grown(records.last().input, more), ..records.last() },
    )
}

/// `records` with `more` added to the expected output of the last.
pub open spec fn with_output(records: Seq<Case>, more: Seq<u8>) -> Seq<Case> {
    records.update(
        records.len() - 1,
        Case { output: grown(records.last().output, more), ..records.last() },
    )
}

/// The reading after one more line, which is line `index` of the document.
/// A bar opens a record named by the rest of the line. A double sign opens
/// its field for the lines to come; a single sign adds the rest of its line,
/// without the white space in front, as one line. A line without a sign is
/// added whole to the open field, and must be empty where none is open. A
/// name that is not UTF-8 is a fault, and so is a sign or a text that
/// belongs to no record or to no field.
pub open spec fn feed(state: Reading, line: Seq<u8>, index: nat) -> Result<Reading, Fault> {
    if is_header(line) {
        if valid_utf8(line.drop_first()) {
            Ok(
                Reading {
                    records: state.records.push(
                        Case { name: decode_utf8(line.drop_first()), input: None, output: None },
                    ),
                    mode: Mode::Idle,
                },
            )
        } else {
            Err(Fault::Name { line: index })
        }
    } else if is_marked(line) {
        if state.records.len() == 0 {
            Err(Fault::Stray { line: index })
        } else if is_double(line, LESS) {
            Ok(Reading { records: with_input(state.records, Seq::empty()), mode: Mode::Input })
        } else if is_double(line, MORE) {
            Ok(Reading { records: with_output(state.records, Seq::empty()), mode: Mode::Output })
        } else if line[0] == LESS {
            Ok(
                Reading {
                    records: with_input(state.records, trim_left(line.drop_first()) + seq![LF]),
                    mode: Mode::Idle,
                },
            )
        } else {
            Ok(
                Reading {
                    records: with_output(state.records, trim_left(line.drop_first()) + seq![LF]),
                    mode: Mode::Idle,
                },
            )
        }
    } else {
        match state.mode {
            Mode::Input => Ok(
                Reading { records: with_input(state.records, line + seq![LF]), mode: Mode::Input },
            ),
            Mode::Output => Ok(
                Reading { records: with_output(state.records, line + seq![LF]), mode: Mode::Output },
            ),
            Mode::Idle => if line.len() == 0 {
                Ok(state)
            } else {
                Err(Fault::Stray { line: index })
            },
        }
    }
}

/// The reading after the lines `lines`, of which the first is line `from`
/// of the document; the first fault ends it.
pub open spec fn run(state: Reading, lines: Seq<Seq<u8>>, from: nat) -> Result<Reading, Fault>
    decreases lines.len(),
{
    if lines.len() == 0 {
        Ok(state)
    } else {
        match run(state, lines.drop_last(), from) {
            Err(fault) => Err(fault),
            Ok(so_far) => feed(so_far, lines.last(), (from + lines.len() - 1) as nat),
        }
    }
}

/// The reading before the first line.
pub open spec fn start() -> Reading {
    Reading { records: Seq::empty(), mode: Mode::Idle }
}

/// What a document reads as: its records in their order, or its first
/// fault.
pub open spec fn parse_doc(doc: Seq<u8>) -> Result<Seq<Case>, Fault> {
    match run(start(), lines_of(doc), 0) {
        Ok(state) => Ok(state.records),
        Err(fault) => Err(fault),
    }
}

/// The test cases of `records` as plain sequences, in their order.
pub open spec fn cases_of(records: Seq<TestCase>) -> Seq<Case> {
    Seq::new(records.len(), |i: int| records[i]@)
}

/// A result of reading a document, as plain sequences.
pub open spec fn doc_result(r: Result<Vec<TestCase>, Error>) -> Result<Seq<Case>, Fault> {
    match r {
        Ok(records) => Ok(cases_of(records@)),
        Err(e) => Err(e@),
    }
}

/// A fault among the first lines is the fault of all of them.
pub proof fn lemma_run_stops(state: Reading, lines: Seq<Seq<u8>>, from: nat, k: int)
    requires
        0 <= k <= lines.len(),
        run(state, lines.take(k), from) is Err,
    ensures
        run(state, lines, from) == run(state, lines.take(k), from),
    decreases lines.len() - k,
{
    if k < lines.len() {
        assert(lines.take(k + 1).drop_last() == lines.take(k));
        lemma_run_stops(state, lines, from, k + 1);
    } else {
        assert(lines.take(k) == lines);
    }
}

/// The bytes of `line` from `from` on, with a line feed behind them where
/// `ended` says so.
fn rest_of(line: &Vec<u8>, from: usize, ended: bool) -> (out: Vec<u8>)
    requires
        from <= line.len(),
    ensures
        out@ == if ended {
            line@.skip(from as int) + seq![LF]
        } else {
            line@.skip(from as int)
        },
{
    let mut out: Vec<u8> = Vec::new();
    let mut i: usize = from;
    while i < line.len()
        invariant
            from <= i <= line.len(),
            out@ == line@.subrange(from as int, i as int),
        decreases line.len() - i,
    {
        out.push(line[i]);
        i += 1;
    }
    assert(line@.subrange(from as int, line.len() as int) == line@.skip(from as int));
    if ended {
        out.push(LF);
    }
    out
}

/// Where the white space at the start of `line` ends, seen from `from`.
fn skip_blanks(line: &Vec<u8>, from: usize) -> (at: usize)
    requires
        from <= line.len(),
    ensures
        from <= at <= line.len(),
        trim_left(line@.skip(from as int)) == line@.skip(at as int),
{
    let mut at: usize = from;
    while at < line.len() && (line[at] == 32 || line[at] == 9 || line[at] == 12 || line[at] == 13)
        invariant
            from <= at <= line.len(),
            trim_left(line@.skip(from as int)) == trim_left(line@.skip(at as int)),
        decreases line.len() - at,
    {
        assert(line@.skip(at as int).drop_first() == line@.skip(at + 1));
        at += 1;
    }
    at
}

/// A field with `more` added to it.
fn grow(field: Option<Vec<u8>>, more: Vec<u8>) -> (out: Option<Vec<u8>>)
    ensures
        bytes_view(out) == grown(bytes_view(field), more@),
{
    let mut more = more;
    match field {
        Some(bytes) => {
            let mut bytes = bytes;
            bytes.append(&mut more);
            Some(bytes)
        },
        None => Some(more),
    }
}

/// Adds `more` to the input of the last of `records`, or to its expected
/// output where `to_output` says so.
fn add_to_last(records: &mut Vec<TestCase>, more: Vec<u8>, to_output: bool)
    requires
        old(records)@.len() > 0,
    ensures
        final(records)@.len() == old(records)@.len(),
        cases_of(final(records)@) == if to_output {
            with_output(cases_of(old(records)@), more@)
        } else {
            with_input(cases_of(old(records)@), more@)
        },
{
    let ghost before = cases_of(records@);
    let last = records.pop().unwrap();
    let TestCase { name, input, output } = last;
    let changed = if to_output {
        TestCase { name, input, output: grow(output, more) }
    } else {
        TestCase { name, input: grow(input, more), output }
    };
    records.push(changed);
    assert(cases_of(records@) =~= if to_output {
        with_output(before, more@)
    } else {
        with_input(before, more@)
    });
}

/// Reads a test document.
pub fn parse_tests(doc: &Vec<u8>) -> (r: Result<Vec<TestCase>, Error>)
    ensures
        doc_result(r) == parse_doc(doc@),
{
    let lines = split_lines(doc);
    let ghost all = lines_of(doc@);
    let mut records: Vec<TestCase> = Vec::new();
    let mut mode = Mode::Idle;
    let mut i: usize = 0;
    assert(all.take(0) == Seq::<Seq<u8>>::empty());
    assert(cases_of(records@) =~= Seq::<Case>::empty());
    while i < lines.len()
        invariant
            i <= lines.len(),
            all == lines_view(lines@),
            all == lines_of(doc@),
            run(start(), all.take(i as int), 0) == Ok::<Reading, Fault>(
                Reading { records: cases_of(records@), mode },
            ),
            mode != Mode::Idle ==> records@.len() > 0,
        decreases lines.len() - i,
    {
        let line = &lines[i];
        let ghost state = Reading { records: cases_of(records@), mode };
        proof {
            assert(all.take(i + 1).drop_last() == all.take(i as int));
            assert(all.take(i + 1).last() == line@);
            assert(run(start(), all.take(i + 1), 0) == feed(state, line@, i as nat));
            if feed(state, line@, i as nat) is Err {
                lemma_run_stops(start(), all, 0, i + 1);
            }
        }
        let n = line.len();
        if n > 0 && line[0] == BAR {
            let ghost before = cases_of(records@);
            assert(line@.drop_first() == line@.skip(1));
            match utf8_text(rest_of(line, 1, false)) {
                Some(name) => {
                    records.push(TestCase { name, input: None, output: None });
                    mode = Mode::Idle;
                    assert(cases_of(records@) =~= before.push(
                        Case { name: decode_utf8(line@.drop_first()), input: None, output: None },
                    ));
                },
                None => {
                    return Err(Error::Name { line: i });
                },
            }
        } else if n > 0 && (line[0] == LESS || line[0] == MORE) {
            if records.len() == 0 {
                return Err(Error::Stray { line: i });
            }
            let sign = line[0];
            assert(line@.drop_first() == line@.skip(1));
            if n > 1 && line[1] == sign {
                add_to_last(&mut records, Vec::new(), sign == MORE);
                mode = if sign == MORE {
                    Mode::Output
                } else {
                    Mode::Input
                };
            } else {
                let at = skip_blanks(line, 1);
                add_to_last(&mut records, rest_of(line, at, true), sign == MORE);
                mode = Mode::Idle;
            }
        } else {
            assert(line@.skip(0) == line@);
            match mode {
                Mode::Input => {
                    add_to_last(&mut records, rest_of(line, 0, true), false);
                },
                Mode::Output => {
                    add_to_last(&mut records, rest_of(line, 0, true), true);
                },
                Mode::Idle => {
                    if n > 0 {
                        return Err(Error::Stray { line: i });
                    }
                },
            }
        }
        i += 1;
    }
    assert(all.take(lines.len() as int) == all);
    Ok(records)
}

/// The lines that write a field under `sign`: none for an absent field; a
/// field of exactly one line on the line of its single sign, behind a
/// blank; any other field below its double sign, line by line.
pub open spec fn field_lines(sign: u8, field: Option<Seq<u8>>) -> Seq<Seq<u8>> {
    match field {
        None => Seq::empty(),
        Some(bytes) => if lines_of(bytes).len() == 1 {
            seq![seq![sign, BLANK] + lines_of(bytes)[0]]
        } else {
            seq![seq![sign, sign]] + lines_of(bytes)
        },
    }
}

/// The lines that write a record: its name behind a bar, its input, its
/// expected output.
pub open spec fn record_lines(record: Case) -> Seq<Seq<u8>> {
    seq![seq![BAR] + encode_utf8(record.name)] + field_lines(LESS, record.input) + field_lines(
        MORE,
        record.output,
    )
}

/// The lines that write some records, one record after another.
pub open spec fn doc_lines(records: Seq<Case>) -> Seq<Seq<u8>>
    decreases records.len(),
{
    if records.len() == 0 {
        Seq::empty()
    } else {
        doc_lines(records.drop_last()) + record_lines(records.last())
    }
}

/// The document that writes `records`.
pub open spec fn serialize(records: Seq<Case>) -> Seq<u8> {
    unlines(doc_lines(records))
}

/// Lines after lines, as one text, are the one text after the other.
pub proof fn lemma_unlines_concat(a: Seq<Seq<u8>>, b: Seq<Seq<u8>>)
    ensures
        unlines(a + b) == unlines(a) + unlines(b),
    decreases b.len(),
{
    if b.len() == 0 {
        assert(a + b =~= a);
        assert(unlines(a) + unlines(b) =~= unlines(a));
    } else {
        assert((a + b).drop_last() =~= a + b.drop_last());
        assert((a + b).last() == b.last());
        lemma_unlines_concat(a, b.drop_last());
        assert(unlines(a + b) =~= unlines(a) + unlines(b));
    }
}

/// Appends `lines` to `out`, each with a line feed behind it.
fn write_lines(out: &mut Vec<u8>, lines: &Vec<Vec<u8>>)
    ensures
        final(out)@ == old(out)@ + unlines(lines_view(lines@)),
{
    let ghost all = lines_view(lines@);
    let ghost before = out@;
    let mut i: usize = 0;
    assert(all.take(0) == Seq::<Seq<u8>>::empty());
    assert(before + Seq::<u8>::empty() == before);
    while i < lines.len()
        invariant
            i <= lines.len(),
            all == lines_view(lines@),
            out@ == before + unlines(all.take(i as int)),
        decreases lines.len() - i,
    {
        let line = &lines[i];
        proof {
            assert(all.take(i + 1).drop_last() == all.take(i as int));
            assert(all.take(i + 1).last() == line@);
        }
        let ghost so_far = out@;
        let mut j: usize = 0;
        while j < line.len()
            invariant
                j <= line.len(),
                out@ == so_far + line@.take(j as int),
            decreases line.len() - j,
        {
            out.push(line[j]);
            assert(line@.take(j + 1) == line@.take(j as int).push(line@[j as int]));
            j += 1;
        }
        assert(line@.take(line.len() as int) == line@);
        out.push(LF);
        assert(out@ =~= before + unlines(all.take(i + 1)));
        i += 1;
    }
    assert(all.take(lines.len() as int) == all);
}

/// Adds the lines that write `field` under `sign` to `lines`.
fn push_field(lines: &mut Vec<Vec<u8>>, sign: u8, field: &Option<Vec<u8>>)
    ensures
        lines_view(final(lines)@) == lines_view(old(lines)@) + field_lines(sign, bytes_view(*field)),
{
    let ghost before = lines_view(lines@);
    match field {
        None => {
            assert(before + Seq::<Seq<u8>>::empty() == before);
        },
        Some(bytes) => {
            let mut content = split_lines(bytes);
            let ghost content_lines = lines_view(content@);
            if content.len() == 1 {
                let mut line: Vec<u8> = Vec::new();
                line.push(sign);
                line.push(BLANK);
                let mut only = content.pop().unwrap();
                assert(only@ == content_lines[0]);
                line.append(&mut only);
                assert(line@ =~= seq![sign, BLANK] + content_lines[0]);
                lines.push(line);
                assert(lines_view(lines@) =~= before + seq![seq![sign, BLANK] + content_lines[0]]);
            } else {
                let mut line: Vec<u8> = Vec::new();
                line.push(sign);
                line.push(sign);
                assert(line@ =~= seq![sign, sign]);
                lines.push(line);
                let ghost with_sign = lines_view(lines@);
                assert(with_sign =~= before + seq![seq![sign, sign]]);
                lines.append(&mut content);
                assert(lines_view(lines@) =~= before + (seq![seq![sign, sign]] + content_lines));
            }
        },
    }
}

/// Writes test cases as a document.
pub fn serialize_tests(records: &Vec<TestCase>) -> (out: Vec<u8>)
    ensures
        out@ == serialize(cases_of(records@)),
{
    let ghost all = cases_of(records@);
    let mut out: Vec<u8> = Vec::new();
    let mut i: usize = 0;
    assert(all.take(0) == Seq::<Case>::empty());
    while i < records.len()
        invariant
            i <= records.len(),
            all == cases_of(records@),
            out@ == unlines(doc_lines(all.take(i as int))),
        decreases records.len() - i,
    {
        let record = &records[i];
        let mut lines: Vec<Vec<u8>> = Vec::new();
        let mut header: Vec<u8> = Vec::new();
        header.push(BAR);
        let mut name = record.name.as_str().as_bytes_vec();
        header.append(&mut name);
        assert(header@ =~= seq![BAR] + encode_utf8(record@.name));
        lines.push(header);
        assert(lines_view(lines@) =~= seq![seq![BAR] + encode_utf8(record@.name)]);
        push_field(&mut lines, LESS, &record.input);
        push_field(&mut lines, MORE, &record.output);
        assert(lines_view(lines@) == record_lines(record@));
        proof {
            assert(all.take(i + 1).drop_last() == all.take(i as int));
            assert(all.take(i + 1).last() == record@);
            lemma_unlines_concat(doc_lines(all.take(i as int)), record_lines(record@));
        }
        write_lines(&mut out, &lines);
        i += 1;
    }
    assert(all.take(records.len() as int) == all);
    out
}

/// Whether a field is written and read back as it is: absent; or empty;
/// or a text that ends in a line feed and is either one line that does not
/// begin with white space, or several lines none of which bears a sign.
pub open spec fn field_portable(field: Option<Seq<u8>>) -> bool {
    match field {
        None => true,
        Some(bytes) => {
            &&& bytes.len() > 0 ==> bytes.last() == LF
            &&& if lines_of(bytes).len() == 1 {
                trim_left(lines_of(bytes)[0]) == lines_of(bytes)[0]
            } else {
                forall|i: int|
                    0 <= i < lines_of(bytes).len() ==> !is_marked(#[trigger] lines_of(bytes)[i])
            }
        },
    }
}

/// Whether a record is written and read back as it is: its name holds no
/// line feed, and its fields are portable.
pub open spec fn portable(record: Case) -> bool {
    &&& plain(encode_utf8(record.name))
    &&& field_portable(record.input)
    &&& field_portable(record.output)
}

/// Whether every one of `records` is portable.
pub open spec fn all_portable(records: Seq<Case>) -> bool {
    forall|i: int| 0 <= i < records.len() ==> portable(#[trigger] records[i])
}

/// The lines of a text are plain, and where the text ends in a line feed
/// they make up the text again.
proof fn lemma_cut_props(doc: Seq<u8>, current: Seq<u8>)
    requires
        plain(current),
    ensures
        all_plain(cut(doc, current)),
        doc.len() > 0 && doc.last() == LF ==> unlines(cut(doc, current)) == current + doc,
    decreases doc.len(),
{
    if doc.len() == 0 {
    } else if doc[0] == LF {
        let rest = doc.drop_first();
        lemma_cut_props(rest, Seq::empty());
        let lines = cut(doc, current);
        assert(lines =~= seq![current] + cut(rest, Seq::empty()));
        assert forall|i: int| 0 <= i < lines.len() implies plain(#[trigger] lines[i]) by {
            if i > 0 {
                assert(lines[i] == cut(rest, Seq::empty())[i - 1]);
            }
        }
        if doc.last() == LF {
            lemma_unlines_first(lines);
            assert(lines.drop_first() =~= cut(rest, Seq::empty()));
            if rest.len() > 0 {
                assert(rest.last() == doc.last());
                assert(Seq::<u8>::empty() + rest =~= rest);
            }
            assert(current + seq![LF] + rest =~= current + doc);
        }
    } else {
        let rest = doc.drop_first();
        let more = current.push(doc[0]);
        assert(plain(more)) by {
            assert forall|i: int| 0 <= i < more.len() implies #[trigger] more[i] != LF by {
                if i < current.len() {
                    assert(more[i] == current[i]);
                }
            }
        }
        lemma_cut_props(rest, more);
        if doc.last() == LF {
            assert(rest.len() > 0);
            assert(rest.last() == doc.last());
            assert(more + rest =~= current + doc);
        }
    }
}

/// Reading lines after lines is reading the first, then the others from
/// where the first left off.
pub proof fn lemma_run_concat(state: Reading, a: Seq<Seq<u8>>, b: Seq<Seq<u8>>, from: nat)
    ensures
        run(state, a + b, from) == match run(state, a, from) {
            Ok(mid) => run(mid, b, from + a.len()),
            Err(fault) => Err(fault),
        },
    decreases b.len(),
{
    if b.len() == 0 {
        assert(a + b =~= a);
    } else {
        assert((a + b).drop_last() =~= a + b.drop_last());
        assert((a + b).last() == b.last());
        lemma_run_concat(state, a, b.drop_last(), from);
    }
}

/// `records` with `more` added to the field of the last that `to_output`
/// names.
pub open spec fn with_field(records: Seq<Case>, more: Seq<u8>, to_output: bool) -> Seq<Case> {
    if to_output {
        with_output(records, more)
    } else {
        with_input(records, more)
    }
}

/// The mode in which the field that `to_output` names is open.
pub open spec fn open_mode(to_output: bool) -> Mode {
    if to_output {
        Mode::Output
    } else {
        Mode::Input
    }
}

/// The field of `record` that `to_output` names.
pub open spec fn field_of(record: Case, to_output: bool) -> Option<Seq<u8>> {
    if to_output {
        record.output
    } else {
        record.input
    }
}

/// The sign of the field that `to_output` names.
pub open spec fn sign_of(to_output: bool) -> u8 {
    if to_output {
        MORE
    } else {
        LESS
    }
}

/// Lines without a sign, read while a field is open, are added to that
/// field, each with its line feed.
proof fn lemma_run_content(records: Seq<Case>, lines: Seq<Seq<u8>>, to_output: bool, from: nat)
    requires
        records.len() > 0,
        field_of(records.last(), to_output) is Some,
        forall|i: int| 0 <= i < lines.len() ==> !is_marked(#[trigger] lines[i]),
    ensures
        run(Reading { records, mode: open_mode(to_output) }, lines, from) == Ok::<Reading, Fault>(
            Reading {
                records: with_field(records, unlines(lines), to_output),
                mode: open_mode(to_output),
            },
        ),
    decreases lines.len(),
{
    let state = Reading { records, mode: open_mode(to_output) };
    if lines.len() == 0 {
        let field = field_of(records.last(), to_output)->0;
        assert(field + Seq::<u8>::empty() =~= field);
        assert(with_field(records, Seq::empty(), to_output) =~= records);
    } else {
        let front = lines.drop_last();
        assert forall|i: int| 0 <= i < front.len() implies !is_marked(#[trigger] front[i]) by {
            assert(front[i] == lines[i]);
        }
        lemma_run_content(records, front, to_output, from);
        let mid = with_field(records, unlines(front), to_output);
        let line = lines.last();
        assert(!is_marked(line));
        let field = field_of(records.last(), to_output)->0;
        assert((field + unlines(front)) + (line + seq![LF]) =~= field + unlines(lines));
        assert(with_field(mid, line + seq![LF], to_output) =~= with_field(
            records,
            unlines(lines),
            to_output,
        ));
    }
}

/// Reading one line is feeding it.
proof fn lemma_run_one(state: Reading, line: Seq<u8>, from: nat)
    ensures
        run(state, seq![line], from) == feed(state, line, from),
{
    reveal_with_fuel(run, 2);
    assert(seq![line].drop_last() =~= Seq::<Seq<u8>>::empty());
}

/// One line as a text is the line and a line feed.
proof fn lemma_unlines_one(line: Seq<u8>)
    ensures
        unlines(seq![line]) == line + seq![LF],
{
    reveal_with_fuel(unlines, 2);
    assert(seq![line].drop_last() =~= Seq::<Seq<u8>>::empty());
    assert(unlines(seq![line]) =~= line + seq![LF]);
}

/// The mode that the lines of a field leave behind.
pub open spec fn mode_after(field: Seq<u8>, to_output: bool) -> Mode {
    if lines_of(field).len() == 1 {
        Mode::Idle
    } else {
        open_mode(to_output)
    }
}

/// The lines that write a portable field read back as that field, added
/// to a record that had none.
proof fn lemma_run_field(records: Seq<Case>, field: Seq<u8>, to_output: bool, mode: Mode, from: nat)
    requires
        records.len() > 0,
        field_of(records.last(), to_output) is None,
        field_portable(Some(field)),
    ensures
        run(Reading { records, mode }, field_lines(sign_of(to_output), Some(field)), from) == Ok::<
            Reading,
            Fault,
        >(
            Reading {
                records: with_field(records, field, to_output),
                mode: mode_after(field, to_output),
            },
        ),
{
    let sign = sign_of(to_output);
    let state = Reading { records, mode };
    let content = lines_of(field);
    lemma_cut_props(field, Seq::empty());
    if field.len() > 0 {
        assert(Seq::<u8>::empty() + field =~= field);
        assert(unlines(content) == field);
    } else {
        assert(unlines(content) == field);
    }
    if content.len() == 1 {
        let line = seq![sign, BLANK] + content[0];
        let lines = seq![line];
        lemma_run_one(state, line, from);
        assert(line[0] == sign && line[1] == BLANK);
        assert(line.drop_first() =~= seq![BLANK] + content[0]);
        assert(line.drop_first().drop_first() =~= content[0]);
        assert(trim_left(line.drop_first()) == content[0]);
        assert(content =~= seq![content[0]]);
        lemma_unlines_one(content[0]);
    } else {
        let first = seq![sign, sign];
        let lines = seq![first] + content;
        lemma_run_concat(state, seq![first], content, from);
        lemma_run_one(state, first, from);
        let opened = with_field(records, Seq::empty(), to_output);
        assert(feed(state, first, from) == Ok::<Reading, Fault>(
            Reading { records: opened, mode: open_mode(to_output) },
        ));
        lemma_run_content(opened, content, to_output, from + 1);
        assert(Seq::<u8>::empty() + field =~= field);
        assert(with_field(opened, field, to_output) =~= with_field(records, field, to_output));
    }
}

/// The lines that write an optional portable field read back as that
/// field, in a record that had none.
proof fn lemma_run_optional(
    records: Seq<Case>,
    field: Option<Seq<u8>>,
    to_output: bool,
    mode: Mode,
    from: nat,
) -> (after: Mode)
    requires
        records.len() > 0,
        field_of(records.last(), to_output) is None,
        field_portable(field),
    ensures
        run(Reading { records, mode }, field_lines(sign_of(to_output), field), from) == Ok::<
            Reading,
            Fault,
        >(
            Reading {
                records: if to_output {
                    records.update(records.len() - 1, Case { output: field, ..records.last() })
                } else {
                    records.update(records.len() - 1, Case { input: field, ..records.last() })
                },
                mode: after,
            },
        ),
{
    match field {
        None => {
            assert(records.update(records.len() - 1, records.last()) =~= records);
            mode
        },
        Some(bytes) => {
            lemma_run_field(records, bytes, to_output, mode, from);
            mode_after(bytes, to_output)
        },
    }
}

/// The lines that write a portable record read back as that record, after
/// whatever was read before.
proof fn lemma_run_record(records: Seq<Case>, record: Case, mode: Mode, from: nat) -> (after: Mode)
    requires
        portable(record),
    ensures
        run(Reading { records, mode }, record_lines(record), from) == Ok::<Reading, Fault>(
            Reading { records: records.push(record), mode: after },
        ),
{
    broadcast use vstd::utf8::encode_utf8_valid_utf8, vstd::utf8::encode_utf8_decode_utf8;

    let state = Reading { records, mode };
    let header = seq![BAR] + encode_utf8(record.name);
    let inputs = field_lines(LESS, record.input);
    let outputs = field_lines(MORE, record.output);
    lemma_run_one(state, header, from);
    assert(header.drop_first() =~= encode_utf8(record.name));
    let named = records.push(Case { name: record.name, input: None, output: None });
    assert(feed(state, header, from) == Ok::<Reading, Fault>(
        Reading { records: named, mode: Mode::Idle },
    ));
    let mid = lemma_run_optional(named, record.input, false, Mode::Idle, from + 1);
    let with_in = named.update(named.len() - 1, Case { input: record.input, ..named.last() });
    let after = lemma_run_optional(with_in, record.output, true, mid, from + 1 + inputs.len());
    assert(with_in.update(with_in.len() - 1, Case { output: record.output, ..with_in.last() })
        =~= records.push(record));
    lemma_run_concat(state, seq![header], inputs, from);
    lemma_run_concat(state, seq![header] + inputs, outputs, from);
    after
}

/// The lines that write portable records read back as those records.
proof fn lemma_run_doc(records: Seq<Case>) -> (after: Mode)
    requires
        all_portable(records),
    ensures
        run(start(), doc_lines(records), 0) == Ok::<Reading, Fault>(
            Reading { records, mode: after },
        ),
    decreases records.len(),
{
    if records.len() == 0 {
        assert(records =~= Seq::<Case>::empty());
        Mode::Idle
    } else {
        let front = records.drop_last();
        assert(all_portable(front)) by {
            assert forall|i: int| 0 <= i < front.len() implies portable(#[trigger] front[i]) by {
                assert(front[i] == records[i]);
            }
        }
        let mid = lemma_run_doc(front);
        assert(portable(records.last()));
        let after = lemma_run_record(front, records.last(), mid, doc_lines(front).len());
        lemma_run_concat(start(), doc_lines(front), record_lines(records.last()), 0);
        assert(front.push(records.last()) =~= records);
        after
    }
}

/// The lines that write portable records are plain.
proof fn lemma_doc_lines_plain(records: Seq<Case>)
    requires
        all_portable(records),
    ensures
        all_plain(doc_lines(records)),
    decreases records.len(),
{
    if records.len() > 0 {
        let front = records.drop_last();
        assert(all_portable(front)) by {
            assert forall|i: int| 0 <= i < front.len() implies portable(#[trigger] front[i]) by {
                assert(front[i] == records[i]);
            }
        }
        lemma_doc_lines_plain(front);
        let record = records.last();
        assert(portable(record));
        lemma_field_lines_plain(LESS, record.input);
        lemma_field_lines_plain(MORE, record.output);
        let header = seq![BAR] + encode_utf8(record.name);
        assert(plain(header)) by {
            assert forall|i: int| 0 <= i < header.len() implies #[trigger] header[i] != LF by {
                if i > 0 {
                    assert(header[i] == encode_utf8(record.name)[i - 1]);
                }
            }
        }
        let lines = doc_lines(records);
        let a = doc_lines(front);
        let b = field_lines(LESS, record.input);
        let c = field_lines(MORE, record.output);
        assert(lines =~= a + seq![header] + b + c);
        assert forall|i: int| 0 <= i < lines.len() implies plain(#[trigger] lines[i]) by {
            if i < a.len() {
                assert(lines[i] == a[i]);
            } else if i == a.len() {
                assert(lines[i] == header);
            } else if i < a.len() + 1 + b.len() {
                assert(lines[i] == b[i - a.len() - 1]);
            } else {
                assert(lines[i] == c[i - a.len() - 1 - b.len()]);
            }
        }
    }
}

/// The lines that write a field are plain.
proof fn lemma_field_lines_plain(sign: u8, field: Option<Seq<u8>>)
    requires
        sign != LF,
    ensures
        all_plain(field_lines(sign, field)),
{
    match field {
        None => {},
        Some(bytes) => {
            lemma_cut_props(bytes, Seq::empty());
            let content = lines_of(bytes);
            let lines = field_lines(sign, field);
            if content.len() == 1 {
                let line = seq![sign, BLANK] + content[0];
                assert(plain(content[0]));
                assert(plain(line)) by {
                    assert forall|i: int| 0 <= i < line.len() implies #[trigger] line[i] != LF by {
                        if i >= 2 {
                            assert(line[i] == content[0][i - 2]);
                        }
                    }
                }
            } else {
                assert forall|i: int| 0 <= i < lines.len() implies plain(#[trigger] lines[i]) by {
                    if i > 0 {
                        assert(lines[i] == content[i - 1]);
                    }
                }
            }
        },
    }
}

/// Round trip: a document written from portable records reads back as
/// those records, each with its name, its input and its expected output as
/// they were, absent fields absent and empty fields empty.
pub proof fn law_round_trip(records: Seq<Case>)
    requires
        all_portable(records),
    ensures
        parse_doc(serialize(records)) == Ok::<Seq<Case>, Fault>(records),
{
    lemma_doc_lines_plain(records);
    lemma_lines_of_unlines(doc_lines(records));
    let after = lemma_run_doc(records);
}

} // verus!
