//! What can be wrong with a template or with a test document.

use crate::text::{decimal_nat, numeral};
use vstd::prelude::*;
use vstd::string::*;

verus! {

/// A text that could not be read. Every variant names the place at fault: a
/// template error holds the offending fragment, a document error the index of
/// the offending line, counted from zero.
#[derive(Debug, Clone, PartialEq, Eq)]
pub enum Error {
    /// A fragment that opens with a bracket which its last character does
    /// not close.
    Brackets { fragment: String },
    /// A range that does not hold exactly one hyphen.
    Hyphens { fragment: String },
    /// A range bound that is no integer of 64 bits.
    Bound { fragment: String },
    /// A line of a test document that belongs to no record, or to no field
    /// of its record.
    Stray { line: usize },
    /// A record name that is not UTF-8.
    Name { line: usize },
}

/// An [`Error`] with its texts as sequences of characters.
pub enum Fault {
    Brackets { fragment: Seq<char> },
    Hyphens { fragment: Seq<char> },
    Bound { fragment: Seq<char> },
    Stray { line: nat },
    Name { line: nat },
}

impl View for Error {
    type V = Fault;

    open spec fn view(&self) -> Fault {
        match self {
            Error::Brackets { fragment } => Fault::Brackets { fragment: fragment@ },
            Error::Hyphens { fragment } => Fault::Hyphens { fragment: fragment@ },
            Error::Bound { fragment } => Fault::Bound { fragment: fragment@ },
            Error::Stray { line } => Fault::Stray { line: *line as nat },
            Error::Name { line } => Fault::Name { line: *line as nat },
        }
    }
}

impl Fault {
    /// The fault in words, with the place at fault.
    pub open spec fn message(self) -> Seq<char> {
        match self {
            Fault::Brackets { fragment } => "Parse: brackets do not pair up in: "@ + fragment,
            Fault::Hyphens { fragment } => "Parse: a range holds exactly one '-': "@ + fragment,
            Fault::Bound { fragment } => "Parse: not an integer: "@ + fragment,
            Fault::Stray { line } => "Parse: text outside of any field in line "@ + decimal_nat(line),
            Fault::Name { line } => "Parse: the name is not UTF-8 in line "@ + decimal_nat(line),
        }
    }
}

impl Error {
    /// The error in words, with the place at fault.
    pub fn message(&self) -> (out: String)
        ensures
            out@ == self@.message(),
    {
        match self {
            Error::Brackets { fragment } => {
                let mut out = "Parse: brackets do not pair up in: ".to_owned();
                out.append(fragment.as_str());
                out
            },
            Error::Hyphens { fragment } => {
                let mut out = "Parse: a range holds exactly one '-': ".to_owned();
                out.append(fragment.as_str());
                out
            },
            Error::Bound { fragment } => {
                let mut out = "Parse: not an integer: ".to_owned();
                out.append(fragment.as_str());
                out
            },
            Error::Stray { line } => {
                let mut out = "Parse: text outside of any field in line ".to_owned();
                out.append(numeral(*line as u128).as_str());
                out
            },
            Error::Name { line } => {
                let mut out = "Parse: the name is not UTF-8 in line ".to_owned();
                out.append(numeral(*line as u128).as_str());
                out
            },
        }
    }
}

} // verus!
