//! Input templates: a small grammar of texts that stand for many inputs,
//! how a template is read, and how an input is drawn from one.

use crate::chance::{choose_position, random_between};
use crate::error::{Error, Fault};
use crate::text::{
    chars_of, decimal, decimal_int, i64_of, integer_of, lemma_decimal_round_trip, parse_i64, slice,
    string_of, trim, trimmed,
};
use vstd::prelude::*;

verus! {

/// A range of integers, both ends included.
#[derive(Debug, Clone, Copy, PartialEq, Eq, Structural)]
pub struct FuzzInput {
    pub min: i64,
    pub max: i64,
}

/// A template of inputs. It is not changed once it is read; every input is
/// drawn from it afresh.
#[derive(Debug, PartialEq, Eq)]
pub enum InputTemplate {
    /// A text that stands for itself.
    Const(String),
    /// Parts that follow one another, with nothing between them.
    List(Vec<InputTemplate>),
    /// Alternatives, of which one is taken.
    Choice(Vec<InputTemplate>),
    /// An integer of a range, written in decimal.
    RandInt(FuzzInput),
}

/// What a fuzz run is made of: the command to run through the shell, the
/// time limit of every run in milliseconds, if there is one, and the
/// template of the inputs.
#[derive(Debug, PartialEq, Eq)]
pub struct FuzzConfig {
    pub command: String,
    pub time_limit: Option<u64>,
    pub input: InputTemplate,
}

/// An [`InputTemplate`] with its texts as sequences of characters.
pub enum Template {
    Const(Seq<char>),
    List(Seq<Template>),
    Choice(Seq<Template>),
    RandInt(FuzzInput),
}

/// The template that `t` holds.
pub open spec fn template_of(t: InputTemplate) -> Template
    decreases t,
{
    match t {
        InputTemplate::Const(text) => Template::Const(text@),
        InputTemplate::List(parts) => Template::List(
            Seq::new(
                parts@.len(),
                |i: int|
                    if 0 <= i < parts@.len() {
                        template_of(parts@[i])
                    } else {
                        Template::Const(Seq::empty())
                    },
            ),
        ),
        InputTemplate::Choice(parts) => Template::Choice(
            Seq::new(
                parts@.len(),
                |i: int|
                    if 0 <= i < parts@.len() {
                        template_of(parts@[i])
                    } else {
                        Template::Const(Seq::empty())
                    },
            ),
        ),
        InputTemplate::RandInt(range) => Template::RandInt(range),
    }
}

impl View for InputTemplate {
    type V = Template;

    open spec fn view(&self) -> Template {
        template_of(*self)
    }
}

/// The templates that `parts` hold, in their order.
pub open spec fn templates_of(parts: Seq<InputTemplate>) -> Seq<Template> {
    Seq::new(parts.len(), |i: int| template_of(parts[i]))
}

/// The view of a list holds the views of its parts, and so does the view
/// of a set of alternatives.
pub proof fn lemma_view_of_parts(parts: Vec<InputTemplate>)
    ensures
        InputTemplate::List(parts)@ == Template::List(templates_of(parts@)),
        InputTemplate::Choice(parts)@ == Template::Choice(templates_of(parts@)),
{
    let views = templates_of(parts@);
    assert(InputTemplate::List(parts)@->List_0 =~= views);
    assert(InputTemplate::Choice(parts)@->Choice_0 =~= views);
}

impl Template {
    /// Whether an input can be drawn from this template: every range in it
    /// holds an integer, and every set an alternative. A list may have no
    /// parts; a set of alternatives needs one.
    pub open spec fn wf(self) -> bool
        decreases self,
    {
        match self {
            Template::Const(_) => { true },
            Template::List(parts) => {
                parts.len() >= 0 && forall|i: int| 0 <= i < parts.len() ==> (#[trigger] parts[i]).wf()
            },
            Template::Choice(parts) => {
                parts.len() >= 1 && forall|i: int| 0 <= i < parts.len() ==> (#[trigger] parts[i]).wf()
            },
            Template::RandInt(range) => { range.min <= range.max },
        }
    }
}

/// A list can give an input where all its parts can; a set of alternatives
/// where it has one and all of them can.
proof fn lemma_wf_of_parts(parts: Vec<InputTemplate>)
    ensures
        InputTemplate::List(parts)@.wf() == (forall|i: int|
            0 <= i < parts@.len() ==> (#[trigger] parts@[i])@.wf()),
        InputTemplate::Choice(parts)@.wf() == (parts@.len() > 0 && forall|i: int|
            0 <= i < parts@.len() ==> (#[trigger] parts@[i])@.wf()),
{
    lemma_view_of_parts(parts);
    let views = templates_of(parts@);
    if forall|i: int| 0 <= i < parts@.len() ==> (#[trigger] parts@[i])@.wf() {
        assert forall|i: int| 0 <= i < views.len() implies (#[trigger] views[i]).wf() by {
            assert(parts@[i]@.wf());
        }
    }
    if forall|i: int| 0 <= i < views.len() ==> (#[trigger] views[i]).wf() {
        assert forall|i: int| 0 <= i < parts@.len() implies (#[trigger] parts@[i])@.wf() by {
            assert(views[i].wf());
        }
    }
}

/// Whether an input can be drawn from every one of `parts`.
fn all_valid(parts: &Vec<InputTemplate>) -> (b: bool)
    ensures
        b == forall|i: int| 0 <= i < parts@.len() ==> (#[trigger] parts@[i])@.wf(),
    decreases parts,
{
    let mut i: usize = 0;
    while i < parts.len()
        invariant
            i <= parts.len(),
            forall|j: int| 0 <= j < i ==> (#[trigger] parts@[j])@.wf(),
        decreases parts.len() - i,
    {
        if !parts[i].is_valid() {
            return false;
        }
        i += 1;
    }
    true
}

impl InputTemplate {
    /// Whether an input can be drawn from this template.
    pub fn is_valid(&self) -> (b: bool)
        ensures
            b == self@.wf(),
        decreases self,
    {
        match self {
            InputTemplate::Const(_) => true,
            InputTemplate::List(parts) => {
                proof {
                    lemma_wf_of_parts(*parts);
                }
                all_valid(parts)
            },
            InputTemplate::Choice(parts) => {
                proof {
                    lemma_wf_of_parts(*parts);
                }
                parts.len() > 0 && all_valid(parts)
            },
            InputTemplate::RandInt(range) => range.min <= range.max,
        }
    }
}

/// How many times `c` stands in `s`.
pub open spec fn count_of(s: Seq<char>, c: char) -> nat
    decreases s.len(),
{
    if s.len() == 0 {
        0
    } else {
        count_of(s.drop_last(), c) + if s.last() == c {
            1nat
        } else {
            0nat
        }
    }
}

/// Where `c` first stands in `s`; the length of `s` where it does not.
pub open spec fn first_of(s: Seq<char>, c: char) -> int
    decreases s.len(),
{
    if s.len() == 0 {
        0
    } else if first_of(s.drop_last(), c) < s.len() - 1 {
        first_of(s.drop_last(), c)
    } else if s.last() == c {
        s.len() - 1
    } else {
        s.len() as int
    }
}

/// What a range reads as: the text must hold exactly one hyphen, and what
/// stands before it and after it, white space at the ends left aside, must
/// each be an integer of 64 bits. The first fault found is the one reported:
/// the hyphens, then the lower bound, then the upper.
pub open spec fn parse_range(s: Seq<char>) -> Result<FuzzInput, Fault> {
    if count_of(s, '-') != 1 {
        Err(Fault::Hyphens { fragment: s })
    } else {
        let at = first_of(s, '-');
        match i64_of(trim(s.take(at))) {
            None => Err(Fault::Bound { fragment: s.take(at) }),
            Some(min) => match i64_of(trim(s.skip(at + 1))) {
                None => Err(Fault::Bound { fragment: s.skip(at + 1) }),
                Some(max) => Ok(FuzzInput { min, max }),
            },
        }
    }
}

/// A result of reading a range, with the texts of its error as sequences.
pub open spec fn range_result(r: Result<FuzzInput, Error>) -> Result<FuzzInput, Fault> {
    match r {
        Ok(range) => Ok(range),
        Err(e) => Err(e@),
    }
}

/// Reads a range from its characters.
pub fn read_range(s: &Vec<char>) -> (r: Result<FuzzInput, Error>)
    ensures
        range_result(r) == parse_range(s@),
{
    let n = s.len();
    let mut hyphens: usize = 0;
    let mut first: usize = 0;
    let mut i: usize = 0;
    assert(s@.take(0) == Seq::<char>::empty());
    while i < n
        invariant
            i <= n,
            n == s.len(),
            hyphens == count_of(s@.take(i as int), '-'),
            hyphens <= i,
            first == first_of(s@.take(i as int), '-'),
            first <= i,
        decreases n - i,
    {
        assert(s@.take(i + 1).drop_last() == s@.take(i as int));
        if s[i] == '-' {
            hyphens += 1;
        } else if first == i {
            first = i + 1;
        }
        i += 1;
    }
    assert(s@.take(n as int) == s@);
    if hyphens != 1 {
        return Err(Error::Hyphens { fragment: string_of(s) });
    }
    proof {
        lemma_first_of_found(s@, '-');
    }
    let lo = slice(s, 0, first);
    let hi = slice(s, first + 1, n);
    assert(lo@ == s@.take(first as int));
    assert(hi@ == s@.skip(first + 1));
    match parse_i64(&trimmed(&lo)) {
        None => Err(Error::Bound { fragment: string_of(&lo) }),
        Some(min) => match parse_i64(&trimmed(&hi)) {
            None => Err(Error::Bound { fragment: string_of(&hi) }),
            Some(max) => Ok(FuzzInput { min, max }),
        },
    }
}

/// Where `c` stands in `s` at all, it first stands within `s`.
pub proof fn lemma_first_of_found(s: Seq<char>, c: char)
    ensures
        0 <= first_of(s, c) <= s.len(),
        count_of(s, c) > 0 ==> first_of(s, c) < s.len() && s[first_of(s, c)] == c,
        count_of(s, c) == 0 ==> first_of(s, c) == s.len(),
    decreases s.len(),
{
    if s.len() > 0 {
        lemma_first_of_found(s.drop_last(), c);
    }
}

impl FuzzInput {
    /// Reads a range written as its lower bound, a hyphen and its upper
    /// bound: `3-7` is the range from 3 to 7.
    pub fn parse(string: &str) -> (r: Result<FuzzInput, Error>)
        ensures
            range_result(r) == parse_range(string@),
    {
        read_range(&chars_of(string))
    }
}

/// Whether `c` opens a bracket.
pub open spec fn is_open(c: char) -> bool {
    c == '[' || c == '{' || c == '('
}

/// Whether `c` closes a bracket.
pub open spec fn is_close(c: char) -> bool {
    c == ']' || c == '}' || c == ')'
}

/// The character that closes the bracket which `c` opens.
pub open spec fn closer(c: char) -> char {
    if c == '[' {
        ']'
    } else if c == '{' {
        '}'
    } else {
        ')'
    }
}

/// By how much `c` changes the depth of brackets.
pub open spec fn slope(c: char) -> int {
    if is_open(c) {
        1
    } else if is_close(c) {
        -1
    } else {
        0
    }
}

/// The depth of brackets at the end of `s`: how many it opens, less how
/// many it closes, of whatever kind.
pub open spec fn nesting(s: Seq<char>) -> int
    decreases s.len(),
{
    if s.len() == 0 {
        0
    } else {
        nesting(s.drop_last()) + slope(s.last())
    }
}

/// Whether `s` is one bracket and what it holds: it opens with a bracket,
/// the depth stays above zero until its last character, and that character
/// closes the bracket it opened with.
pub open spec fn enclosed(s: Seq<char>) -> bool {
    &&& s.len() >= 2
    &&& is_open(s[0])
    &&& s.last() == closer(s[0])
    &&& forall|k: int| 0 < k < s.len() ==> nesting(#[trigger] s.take(k)) > 0
    &&& nesting(s) == 0
}

/// Whether `c` opens a bracket.
pub fn opens(c: char) -> (b: bool)
    ensures
        b == is_open(c),
{
    c == '[' || c == '{' || c == '('
}

/// Whether `c` closes a bracket.
pub fn closes(c: char) -> (b: bool)
    ensures
        b == is_close(c),
{
    c == ']' || c == '}' || c == ')'
}

/// Whether `s` is one bracket and what it holds.
pub fn is_enclosed(s: &Vec<char>) -> (b: bool)
    ensures
        b == enclosed(s@),
{
    let n = s.len();
    if n < 2 || !opens(s[0]) {
        return false;
    }
    let last = if s[0] == '[' {
        ']'
    } else if s[0] == '{' {
        '}'
    } else {
        ')'
    };
    if s[n - 1] != last {
        return false;
    }
    let mut depth: usize = 1;
    let mut i: usize = 1;
    assert(nesting(s@.take(1)) == 1) by {
        assert(s@.take(1).drop_last() == Seq::<char>::empty());
        assert(nesting(s@.take(1).drop_last()) == 0);
    }
    while i < n - 1
        invariant
            1 <= i <= n - 1,
            n == s.len(),
            depth == nesting(s@.take(i as int)),
            1 <= depth <= i,
            forall|k: int| 0 < k <= i ==> nesting(#[trigger] s@.take(k)) > 0,
        decreases n - i,
    {
        assert(s@.take(i + 1).drop_last() == s@.take(i as int));
        if opens(s[i]) {
            depth += 1;
        } else if closes(s[i]) {
            depth -= 1;
        }
        i += 1;
        if depth == 0 {
            return false;
        }
    }
    assert(s@.drop_last() == s@.take(n - 1));
    assert(s@.take(n as int) == s@);
    depth == 1
}

/// The pieces of `s` between its commas at depth zero, where the piece in
/// hand is `current` and the depth of brackets is `depth`. A comma inside a
/// bracket is part of its piece.
pub open spec fn pieces(s: Seq<char>, depth: int, current: Seq<char>) -> Seq<Seq<char>>
    decreases s.len(),
{
    if s.len() == 0 {
        seq![current]
    } else if s[0] == ',' && depth == 0 {
        seq![current] + pieces(s.drop_first(), 0, Seq::empty())
    } else {
        pieces(s.drop_first(), depth + slope(s[0]), current.push(s[0]))
    }
}

/// The pieces of `s` between its commas at depth zero: one more than there
/// are such commas.
pub open spec fn split_top(s: Seq<char>) -> Seq<Seq<char>> {
    pieces(s, 0, Seq::empty())
}

/// The texts of some vectors of characters, in their order.
pub open spec fn texts_of(parts: Seq<Vec<char>>) -> Seq<Seq<char>> {
    Seq::new(parts.len(), |i: int| parts[i]@)
}

/// No piece is longer than what it was cut from.
pub proof fn lemma_pieces_are_short(s: Seq<char>, depth: int, current: Seq<char>, i: int)
    requires
        0 <= i < pieces(s, depth, current).len(),
    ensures
        pieces(s, depth, current)[i].len() <= current.len() + s.len(),
    decreases s.len(),
{
    if s.len() == 0 {
    } else if s[0] == ',' && depth == 0 {
        if i > 0 {
            lemma_pieces_are_short(s.drop_first(), 0, Seq::empty(), i - 1);
        }
    } else {
        lemma_pieces_are_short(s.drop_first(), depth + slope(s[0]), current.push(s[0]), i);
    }
}

/// The pieces of `s` between its commas at depth zero.
pub fn split(s: &Vec<char>) -> (out: Vec<Vec<char>>)
    ensures
        texts_of(out@) == split_top(s@),
{
    let mut out: Vec<Vec<char>> = Vec::new();
    let mut current: Vec<char> = Vec::new();
    let mut depth: i128 = 0;
    let mut i: usize = 0;
    assert(s@.skip(0) == s@);
    assert(texts_of(out@) + pieces(s@, 0, Seq::empty()) == split_top(s@));
    while i < s.len()
        invariant
            i <= s.len(),
            -(i as int) <= depth <= i,
            split_top(s@) == texts_of(out@) + pieces(s@.skip(i as int), depth as int, current@),
        decreases s.len() - i,
    {
        let c = s[i];
        let ghost rest = s@.skip(i as int);
        assert(rest.drop_first() == s@.skip(i + 1));
        assert(rest[0] == c);
        if c == ',' && depth == 0 {
            let ghost before = texts_of(out@);
            let ghost piece = current@;
            out.push(current);
            current = Vec::new();
            proof {
                assert(texts_of(out@) =~= before + seq![piece]);
                assert(before + (seq![piece] + pieces(rest.drop_first(), 0, Seq::empty())) =~= (before
                    + seq![piece]) + pieces(rest.drop_first(), 0, Seq::empty()));
            }
        } else {
            current.push(c);
            if opens(c) {
                depth += 1;
            } else if closes(c) {
                depth -= 1;
            }
        }
        i += 1;
    }
    let ghost before = texts_of(out@);
    let ghost piece = current@;
    out.push(current);
    assert(texts_of(out@) =~= before + seq![piece]);
    out
}

/// What a template reads as. A text that opens with a bracket must be
/// that one bracket and what it holds: between `[` and `]` the pieces are
/// the parts of a list, between `{` and `}` they are alternatives, and
/// between `(` and `)` stands a range. Any other text stands for itself.
pub open spec fn parse_template(text: Seq<char>) -> Result<Template, Fault>
    decreases text.len(), 1nat, 0nat,
{
    if text.len() > 0 && is_open(text[0]) {
        if !enclosed(text) {
            Err(Fault::Brackets { fragment: text })
        } else if text[0] == '(' {
            match parse_range(text.subrange(1, text.len() - 1)) {
                Ok(range) => Ok(Template::RandInt(range)),
                Err(fault) => Err(fault),
            }
        } else {
            match parse_all(split_top(text.subrange(1, text.len() - 1)), text.len()) {
                Ok(parts) => if text[0] == '[' {
                    Ok(Template::List(parts))
                } else {
                    Ok(Template::Choice(parts))
                },
                Err(fault) => Err(fault),
            }
        }
    } else {
        Ok(Template::Const(text))
    }
}

/// What the pieces `parts` read as, each a template shorter than `bound`,
/// from the first to the last; the first fault found is the one reported.
pub open spec fn parse_all(parts: Seq<Seq<char>>, bound: nat) -> Result<Seq<Template>, Fault>
    decreases bound, 0nat, parts.len(),
{
    if parts.len() == 0 {
        Ok(Seq::empty())
    } else {
        match parse_all(parts.drop_last(), bound) {
            Err(fault) => Err(fault),
            Ok(before) => if parts.last().len() < bound {
                match parse_template(parts.last()) {
                    Ok(part) => Ok(before.push(part)),
                    Err(fault) => Err(fault),
                }
            } else {
                Err(Fault::Brackets { fragment: parts.last() })
            },
        }
    }
}

/// A result of reading a template, with its texts as sequences.
pub open spec fn template_result(r: Result<InputTemplate, Error>) -> Result<Template, Fault> {
    match r {
        Ok(template) => Ok(template@),
        Err(e) => Err(e@),
    }
}

/// A result of reading the parts of a template, with their texts as
/// sequences.
pub open spec fn parts_result(r: Result<Vec<InputTemplate>, Error>) -> Result<Seq<Template>, Fault> {
    match r {
        Ok(parts) => Ok(templates_of(parts@)),
        Err(e) => Err(e@),
    }
}

/// Reads the pieces `parts`, each shorter than `bound`, as templates.
fn read_all(parts: &Vec<Vec<char>>, bound: usize) -> (r: Result<Vec<InputTemplate>, Error>)
    requires
        forall|i: int| 0 <= i < parts@.len() ==> (#[trigger] parts@[i])@.len() < bound,
    ensures
        parts_result(r) == parse_all(texts_of(parts@), bound as nat),
    decreases bound, 0nat, parts@.len(),
{
    let mut out: Vec<InputTemplate> = Vec::new();
    let mut i: usize = 0;
    let ghost texts = texts_of(parts@);
    assert(texts.take(0) == Seq::<Seq<char>>::empty());
    assert(templates_of(out@) =~= Seq::<Template>::empty());
    while i < parts.len()
        invariant
            i <= parts.len(),
            texts == texts_of(parts@),
            forall|j: int| 0 <= j < parts@.len() ==> (#[trigger] parts@[j])@.len() < bound,
            parse_all(texts.take(i as int), bound as nat) == Ok::<Seq<Template>, Fault>(
                templates_of(out@),
            ),
        decreases parts.len() - i,
    {
        proof {
            assert(texts.take(i + 1).drop_last() == texts.take(i as int));
            assert(texts.take(i + 1).last() == parts@[i as int]@);
        }
        match read(&parts[i]) {
            Err(e) => {
                proof {
                    lemma_parse_all_stops(texts, bound as nat, i + 1);
                }
                return Err(e);
            },
            Ok(part) => {
                let ghost before = templates_of(out@);
                out.push(part);
                assert(templates_of(out@) =~= before.push(part@));
            },
        }
        i += 1;
    }
    assert(texts.take(parts.len() as int) == texts);
    Ok(out)
}

/// A fault among the first pieces is the fault of all of them.
pub proof fn lemma_parse_all_stops(parts: Seq<Seq<char>>, bound: nat, k: int)
    requires
        0 <= k <= parts.len(),
        parse_all(parts.take(k), bound) is Err,
    ensures
        parse_all(parts, bound) == parse_all(parts.take(k), bound),
    decreases parts.len() - k,
{
    if k < parts.len() {
        assert(parts.take(k + 1).drop_last() == parts.take(k));
        lemma_parse_all_stops(parts, bound, k + 1);
    } else {
        assert(parts.take(k) == parts);
    }
}

/// Reads a template from its characters.
pub fn read(text: &Vec<char>) -> (r: Result<InputTemplate, Error>)
    ensures
        template_result(r) == parse_template(text@),
    decreases text@.len(), 1nat, 0nat,
{
    let n = text.len();
    if n == 0 || !opens(text[0]) {
        return Ok(InputTemplate::Const(string_of(text)));
    }
    if !is_enclosed(text) {
        return Err(Error::Brackets { fragment: string_of(text) });
    }
    let inner = slice(text, 1, n - 1);
    if text[0] == '(' {
        return match read_range(&inner) {
            Ok(range) => Ok(InputTemplate::RandInt(range)),
            Err(e) => Err(e),
        };
    }
    let parts = split(&inner);
    proof {
        assert forall|i: int| 0 <= i < parts@.len() implies (#[trigger] parts@[i])@.len() < n by {
            assert(texts_of(parts@)[i] == parts@[i]@);
            lemma_pieces_are_short(inner@, 0, Seq::empty(), i);
        }
    }
    match read_all(&parts, n) {
        Err(e) => Err(e),
        Ok(read_parts) => {
            proof {
                lemma_view_of_parts(read_parts);
            }
            if text[0] == '[' {
                Ok(InputTemplate::List(read_parts))
            } else {
                Ok(InputTemplate::Choice(read_parts))
            }
        },
    }
}

impl InputTemplate {
    /// Reads a template: `[a,b]` is a list, `{a,b}` a set of alternatives,
    /// `(3-7)` a range, and any other text stands for itself.
    pub fn parse(text: &str) -> (r: Result<InputTemplate, Error>)
        ensures
            template_result(r) == parse_template(text@),
    {
        read(&chars_of(text))
    }
}

/// Some texts one after another, with nothing between them.
pub open spec fn joined(parts: Seq<Seq<char>>) -> Seq<char>
    decreases parts.len(),
{
    if parts.len() == 0 {
        Seq::empty()
    } else {
        joined(parts.drop_last()) + parts.last()
    }
}

impl Template {
    /// Whether `s` is an input that can be drawn from this template: a
    /// constant gives its text; a list gives what its parts give, one after
    /// another; a set of alternatives gives what one of them gives; a range
    /// gives the decimal numeral of one of its integers.
    pub open spec fn can_generate(self, s: Seq<char>) -> bool
        decreases self,
    {
        match self {
            Template::Const(text) => { s == text },
            Template::List(parts) => {
                exists|drawn: Seq<Seq<char>>|
                    {
                        &&& drawn.len() == parts.len()
                        &&& forall|i: int|
                            0 <= i < parts.len() ==> (#[trigger] parts[i]).can_generate(drawn[i])
                        &&& s == #[trigger] joined(drawn)
                    }
            },
            Template::Choice(parts) => {
                parts.len() >= 1 && exists|i: int|
                    0 <= i < parts.len() && (#[trigger] parts[i]).can_generate(s)
            },
            Template::RandInt(range) => {
                exists|n: int| range.min <= n <= range.max && s == #[trigger] decimal_int(n)
            },
        }
    }
}

impl InputTemplate {
    /// Draws an input from this template, as characters.
    pub fn draw(&self) -> (out: Vec<char>)
        requires
            self@.wf(),
        ensures
            self@.can_generate(out@),
        decreases self,
    {
        match self {
            InputTemplate::Const(text) => chars_of(text.as_str()),
            InputTemplate::List(parts) => {
                proof {
                    lemma_view_of_parts(*parts);
                }
                let ghost templates = templates_of(parts@);
                let mut out: Vec<char> = Vec::new();
                let ghost mut drawn: Seq<Seq<char>> = Seq::empty();
                let mut i: usize = 0;
                while i < parts.len()
                    invariant
                        i <= parts.len(),
                        self is List,
                        self->List_0 == *parts,
                        templates == templates_of(parts@),
                        Template::List(templates).wf(),
                        drawn.len() == i,
                        forall|j: int| 0 <= j < i ==> (#[trigger] templates[j]).can_generate(drawn[j]),
                        out@ == joined(drawn),
                    decreases parts.len() - i,
                {
                    assert(templates[i as int].wf());
                    let mut piece = parts[i].draw();
                    proof {
                        let before = drawn;
                        drawn = drawn.push(piece@);
                        assert(drawn.drop_last() == before);
                    }
                    out.append(&mut piece);
                    i += 1;
                }
                proof {
                    assert(fits(templates, drawn));
                    lemma_list_unfolds(templates, out@);
                }
                out
            },
            InputTemplate::Choice(parts) => {
                proof {
                    lemma_view_of_parts(*parts);
                }
                let ghost templates = templates_of(parts@);
                match choose_position(parts.len()) {
                    Some(position) => {
                        assert(templates[position as int].wf());
                        let out = parts[position].draw();
                        proof {
                            lemma_choice_unfolds(templates, out@);
                        }
                        out
                    },
                    None => Vec::new(),
                }
            },
            InputTemplate::RandInt(range) => {
                let n = random_between(range.min, range.max);
                let out = decimal(n);
                assert(out@ == decimal_int(n as int));
                out
            },
        }
    }

    /// Draws an input from this template.
    pub fn generate(&self) -> (out: String)
        requires
            self@.wf(),
        ensures
            self@.can_generate(out@),
    {
        string_of(&self.draw())
    }
}

/// What a list gives, spelled out.
proof fn lemma_list_unfolds(parts: Seq<Template>, s: Seq<char>)
    ensures
        Template::List(parts).can_generate(s) == (exists|drawn: Seq<Seq<char>>|
            fits(parts, drawn) && s == #[trigger] joined(drawn)),
{
    assert(Template::List(parts).can_generate(s) == (exists|drawn: Seq<Seq<char>>|
        {
            &&& drawn.len() == parts.len()
            &&& forall|i: int| 0 <= i < parts.len() ==> (#[trigger] parts[i]).can_generate(drawn[i])
            &&& s == #[trigger] joined(drawn)
        }));
    if Template::List(parts).can_generate(s) {
        let drawn = choose|drawn: Seq<Seq<char>>|
            {
                &&& drawn.len() == parts.len()
                &&& forall|i: int|
                    0 <= i < parts.len() ==> (#[trigger] parts[i]).can_generate(drawn[i])
                &&& s == #[trigger] joined(drawn)
            };
        assert(fits(parts, drawn) && s == joined(drawn));
    }
    if exists|drawn: Seq<Seq<char>>| fits(parts, drawn) && s == #[trigger] joined(drawn) {
        let drawn = choose|drawn: Seq<Seq<char>>| fits(parts, drawn) && s == #[trigger] joined(drawn);
        assert(drawn.len() == parts.len() && s == joined(drawn));
    }
}

/// Whether every text of `drawn` can be drawn from the part of `parts` at
/// its place.
pub open spec fn fits(parts: Seq<Template>, drawn: Seq<Seq<char>>) -> bool {
    &&& drawn.len() == parts.len()
    &&& forall|i: int| 0 <= i < parts.len() ==> (#[trigger] parts[i]).can_generate(drawn[i])
}

/// What a set of alternatives gives, spelled out.
proof fn lemma_choice_unfolds(parts: Seq<Template>, s: Seq<char>)
    ensures
        Template::Choice(parts).can_generate(s) == (exists|i: int|
            0 <= i < parts.len() && (#[trigger] parts[i]).can_generate(s)),
{
    assert(Template::Choice(parts).can_generate(s) == (parts.len() >= 1 && exists|i: int|
        0 <= i < parts.len() && (#[trigger] parts[i]).can_generate(s)));
}

/// A constant always gives its own text, and nothing else.
pub proof fn law_const_gives_itself(text: Seq<char>, s: Seq<char>)
    ensures
        Template::Const(text).can_generate(s) <==> s == text,
{
}

/// A list of two parts gives what the first part gives, followed by what
/// the second gives, each drawn for itself; and it gives nothing else.
pub proof fn law_list_joins(a: Template, b: Template, s: Seq<char>)
    ensures
        Template::List(seq![a, b]).can_generate(s) <==> exists|first: Seq<char>, second: Seq<char>|
            a.can_generate(first) && b.can_generate(second) && s == first + second,
{
    lemma_list_unfolds(seq![a, b], s);
    let parts = seq![a, b];
    let list = Template::List(parts);
    if list.can_generate(s) {
        let drawn = choose|drawn: Seq<Seq<char>>|
            fits(parts, drawn) && s == #[trigger] joined(drawn);
        assert(parts[0].can_generate(drawn[0]));
        assert(parts[1].can_generate(drawn[1]));
        lemma_joined_pair(drawn);
        assert(a.can_generate(drawn[0]) && b.can_generate(drawn[1]) && s == drawn[0] + drawn[1]);
    }
    if exists|first: Seq<char>, second: Seq<char>|
        a.can_generate(first) && b.can_generate(second) && s == first + second {
        let (first, second) = choose|first: Seq<char>, second: Seq<char>|
            a.can_generate(first) && b.can_generate(second) && s == first + second;
        let drawn = seq![first, second];
        lemma_joined_pair(drawn);
        assert forall|i: int| 0 <= i < parts.len() implies (#[trigger] parts[i]).can_generate(
            drawn[i],
        ) by {}
        assert(fits(parts, drawn));
        assert(list.can_generate(s));
    }
}

/// Two texts joined are the first followed by the second.
proof fn lemma_joined_pair(drawn: Seq<Seq<char>>)
    requires
        drawn.len() == 2,
    ensures
        joined(drawn) == drawn[0] + drawn[1],
{
    let one = drawn.drop_last();
    assert(one.drop_last() == Seq::<Seq<char>>::empty());
    assert(joined(one.drop_last()) == Seq::<char>::empty());
    assert(joined(one) == Seq::<char>::empty() + drawn[0]);
    assert(Seq::<char>::empty() + drawn[0] == drawn[0]);
}

/// A set of alternatives gives exactly what one of its alternatives gives.
pub proof fn law_choice_gives_one(parts: Seq<Template>, s: Seq<char>)
    ensures
        Template::Choice(parts).can_generate(s) <==> exists|i: int|
            0 <= i < parts.len() && (#[trigger] parts[i]).can_generate(s),
{
    lemma_choice_unfolds(parts, s);
}

/// What a range gives reads back as an integer of the range, both ends
/// included; and the numeral of every integer of the range is given.
pub proof fn law_range_gives_its_integers(range: FuzzInput, s: Seq<char>, n: int)
    ensures
        Template::RandInt(range).can_generate(s) ==> integer_of(s) is Some && range.min
            <= integer_of(s)->0 <= range.max,
        range.min <= n <= range.max ==> Template::RandInt(range).can_generate(decimal_int(n)),
{
    if Template::RandInt(range).can_generate(s) {
        let m = choose|m: int| range.min <= m <= range.max && s == #[trigger] decimal_int(m);
        lemma_decimal_round_trip(m);
    }
}

} // verus!
