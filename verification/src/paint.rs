//! Colours and styles for a terminal, as the escape sequences that
//! `owo_colors` writes: one sequence that switches the colour or the style
//! on, the text, and one sequence that switches it off again.

use owo_colors::OwoColorize;
use vstd::prelude::*;

verus! {

/// `text` in green, as a terminal is told.
pub open spec fn in_green(text: Seq<char>) -> Seq<char> {
    "\x1b[32m"@ + text + "\x1b[39m"@
}

/// `text` in red, as a terminal is told.
pub open spec fn in_red(text: Seq<char>) -> Seq<char> {
    "\x1b[31m"@ + text + "\x1b[39m"@
}

/// `text` in blue, as a terminal is told.
pub open spec fn in_blue(text: Seq<char>) -> Seq<char> {
    "\x1b[34m"@ + text + "\x1b[39m"@
}

/// `text` in bright green, as a terminal is told.
pub open spec fn in_bright_green(text: Seq<char>) -> Seq<char> {
    "\x1b[92m"@ + text + "\x1b[39m"@
}

/// `text` in bright yellow, as a terminal is told.
pub open spec fn in_bright_yellow(text: Seq<char>) -> Seq<char> {
    "\x1b[93m"@ + text + "\x1b[39m"@
}

/// `text` in bright red, as a terminal is told.
pub open spec fn in_bright_red(text: Seq<char>) -> Seq<char> {
    "\x1b[91m"@ + text + "\x1b[39m"@
}

/// `text` in bright magenta, as a terminal is told.
pub open spec fn in_bright_magenta(text: Seq<char>) -> Seq<char> {
    "\x1b[95m"@ + text + "\x1b[39m"@
}

/// `text` bold, as a terminal is told.
pub open spec fn in_bold(text: Seq<char>) -> Seq<char> {
    "\x1b[1m"@ + text + "\x1b[0m"@
}

/// `text` dimmed, as a terminal is told.
pub open spec fn in_dimmed(text: Seq<char>) -> Seq<char> {
    "\x1b[2m"@ + text + "\x1b[0m"@
}

/// `text` struck through, as a terminal is told.
pub open spec fn in_strikethrough(text: Seq<char>) -> Seq<char> {
    "\x1b[9m"@ + text + "\x1b[0m"@
}

/// `text` in green. Trusted: `OwoColorize::green` wraps a value so that it is
/// written as the escape sequence of this foreground colour, then the value
/// itself, then the sequence that sets the default foreground colour.
#[verifier::external_body]
pub(crate) fn green(text: &str) -> (out: String)
    ensures
        out@ == in_green(text@),
{
    format!("{}", text.green())
}

/// `text` in red. Trusted: `OwoColorize::red` wraps a value so that it is
/// written as the escape sequence of this foreground colour, then the value
/// itself, then the sequence that sets the default foreground colour.
#[verifier::external_body]
pub(crate) fn red(text: &str) -> (out: String)
    ensures
        out@ == in_red(text@),
{
    format!("{}", text.red())
}

/// `text` in blue. Trusted: `OwoColorize::blue` wraps a value so that it is
/// written as the escape sequence of this foreground colour, then the value
/// itself, then the sequence that sets the default foreground colour.
#[verifier::external_body]
pub(crate) fn blue(text: &str) -> (out: String)
    ensures
        out@ == in_blue(text@),
{
    format!("{}", text.blue())
}

/// `text` in bright green. Trusted: `OwoColorize::bright_green` wraps a value so that it is
/// written as the escape sequence of this foreground colour, then the value
/// itself, then the sequence that sets the default foreground colour.
#[verifier::external_body]
pub(crate) fn bright_green(text: &str) -> (out: String)
    ensures
        out@ == in_bright_green(text@),
{
    format!("{}", text.bright_green())
}

/// `text` in bright yellow. Trusted: `OwoColorize::bright_yellow` wraps a value so that it is
/// written as the escape sequence of this foreground colour, then the value
/// itself, then the sequence that sets the default foreground colour.
#[verifier::external_body]
pub(crate) fn bright_yellow(text: &str) -> (out: String)
    ensures
        out@ == in_bright_yellow(text@),
{
    format!("{}", text.bright_yellow())
}

/// `text` in bright red. Trusted: `OwoColorize::bright_red` wraps a value so that it is
/// written as the escape sequence of this foreground colour, then the value
/// itself, then the sequence that sets the default foreground colour.
#[verifier::external_body]
pub(crate) fn bright_red(text: &str) -> (out: String)
    ensures
        out@ == in_bright_red(text@),
{
    format!("{}", text.bright_red())
}

/// `text` in bright magenta. Trusted: `OwoColorize::bright_magenta` wraps a value so that it is
/// written as the escape sequence of this foreground colour, then the value
/// itself, then the sequence that sets the default foreground colour.
#[verifier::external_body]
pub(crate) fn bright_magenta(text: &str) -> (out: String)
    ensures
        out@ == in_bright_magenta(text@),
{
    format!("{}", text.bright_magenta())
}

/// `text` bold. Trusted: `OwoColorize::bold` wraps a value so that it is
/// written as the escape sequence of this style, then the value
/// itself, then the sequence that resets all styles.
#[verifier::external_body]
pub(crate) fn bold(text: &str) -> (out: String)
    ensures
        out@ == in_bold(text@),
{
    format!("{}", text.bold())
}

/// `text` dimmed. Trusted: `OwoColorize::dimmed` wraps a value so that it is
/// written as the escape sequence of this style, then the value
/// itself, then the sequence that resets all styles.
#[verifier::external_body]
pub(crate) fn dimmed(text: &str) -> (out: String)
    ensures
        out@ == in_dimmed(text@),
{
    format!("{}", text.dimmed())
}

/// `text` struck through. Trusted: `OwoColorize::strikethrough` wraps a value so that it is
/// written as the escape sequence of this style, then the value
/// itself, then the sequence that resets all styles.
#[verifier::external_body]
pub(crate) fn strikethrough(text: &str) -> (out: String)
    ensures
        out@ == in_strikethrough(text@),
{
    format!("{}", text.strikethrough())
}

} // verus!
