//! Test cases: a name, and what goes in and what should come out.

use vstd::prelude::*;

verus! {

/// One test: its name, the bytes to feed the program under test, and the
/// bytes expected back. A field that is absent is not an empty field: without
/// input nothing is written, without expected output nothing is compared.
#[derive(Debug, Clone, PartialEq, Eq)]
pub struct TestCase {
    pub name: String,
    pub input: Option<Vec<u8>>,
    pub output: Option<Vec<u8>>,
}

/// A [`TestCase`] as plain sequences.
pub struct Case {
    pub name: Seq<char>,
    pub input: Option<Seq<u8>>,
    pub output: Option<Seq<u8>>,
}

/// The bytes of an optional buffer.
pub open spec fn bytes_view(field: Option<Vec<u8>>) -> Option<Seq<u8>> {
    match field {
        Some(bytes) => Some(bytes@),
        None => None,
    }
}

impl View for TestCase {
    type V = Case;

    open spec fn view(&self) -> Case {
        Case { name: self.name@, input: bytes_view(self.input), output: bytes_view(self.output) }
    }
}

/// A copy of `bytes`.
pub fn copy_bytes(bytes: &Vec<u8>) -> (out: Vec<u8>)
    ensures
        out@ == bytes@,
{
    let mut out: Vec<u8> = Vec::new();
    let mut i: usize = 0;
    while i < bytes.len()
        invariant
            i <= bytes.len(),
            out@ == bytes@.take(i as int),
        decreases bytes.len() - i,
    {
        out.push(bytes[i]);
        i += 1;
    }
    assert(bytes@.take(bytes.len() as int) == bytes@);
    out
}

} // verus!
