//! Line by line differences between two texts, as `similar` finds them.

use similar::{ChangeTag, TextDiff};
use vstd::prelude::*;

verus! {

/// What became of a line between the first text and the second.
#[derive(Debug, Clone, Copy, PartialEq, Eq, Structural)]
pub enum DiffTag {
    /// The line stands in both texts.
    Equal,
    /// The line stands in the first text only.
    Delete,
    /// The line stands in the second text only.
    Insert,
}

/// One line of a comparison: what became of it, and its text, which ends in
/// a line feed.
#[derive(Debug, Clone, PartialEq, Eq)]
pub struct DiffLine {
    pub tag: DiffTag,
    pub text: String,
}

/// A [`DiffLine`] with its text as a sequence of characters.
pub struct Change {
    pub tag: DiffTag,
    pub text: Seq<char>,
}

impl View for DiffLine {
    type V = Change;

    open spec fn view(&self) -> Change {
        Change { tag: self.tag, text: self.text@ }
    }
}

/// The views of some lines, in their order.
pub open spec fn changes_of(lines: Seq<DiffLine>) -> Seq<Change> {
    lines.map_values(|line: DiffLine| line@)
}

/// The comparison that `similar` makes of `old` and `new`, line by line.
pub uninterp spec fn line_diff(old: Seq<char>, new: Seq<char>) -> Seq<Change>;

/// Compares `old` and `new` line by line. Trusted: `TextDiff::from_lines`
/// with `iter_all_changes` of `similar` gives the lines of both texts in
/// order, each tagged as equal, deleted or inserted; the text of a line is
/// what `similar` writes for it, the line with a line feed at its end. The
/// comparison has no deadline, so it depends on the two texts alone.
#[verifier::external_body]
pub(crate) fn diff_lines(old: &str, new: &str) -> (out: Vec<DiffLine>)
    ensures
        changes_of(out@) == line_diff(old@, new@),
{
    TextDiff::from_lines(old, new).iter_all_changes().map(
        |change| DiffLine {
            tag: match change.tag() {
                ChangeTag::Equal => DiffTag::Equal,
                ChangeTag::Delete => DiffTag::Delete,
                ChangeTag::Insert => DiffTag::Insert,
            },
            text: change.to_string(),
        },
    ).collect()
}

} // verus!
