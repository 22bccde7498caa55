//! How a parse can fail.

use vstd::prelude::*;
use crate::cursor::{Cursor, Position};

verus! {

/// What was found wanting where a parse failed.
#[derive(Clone, Copy, Debug, PartialEq, Eq, Structural)]
pub enum ErrorKind {
    /// A keyword, a punctuation mark or the start of a name was expected.
    Tag,
    /// A decimal digit was expected.
    Digit,
    /// A letter was expected.
    Alpha,
    /// A letter or a digit was expected.
    AlphaNumeric,
    /// An operator followed by its operand was expected at least once.
    Many1,
    /// An integer literal does not fit in 32 bits.
    Overflow,
    /// The program ended before the text did.
    TrailingInput,
}

/// A failed attempt of one grammar rule: where it failed and why. The caller
/// may try another rule on the same text.
#[derive(Clone, Copy, Debug)]
pub struct Failure<'a> {
    /// The cursor at the point of failure.
    pub at: Cursor<'a>,
    /// What was found wanting there.
    pub kind: ErrorKind,
}

/// The failure of a whole parse: where it failed and why.
#[derive(Clone, Copy, Debug, PartialEq, Eq, Structural)]
pub struct ParseError {
    /// The position at which the parse failed.
    pub position: Position,
    /// What was found wanting there.
    pub kind: ErrorKind,
}

impl<'a> Failure<'a> {
    /// A failure of kind `kind` at `at`.
    pub fn new(at: Cursor<'a>, kind: ErrorKind) -> (r: Failure<'a>)
        ensures
            r.at == at,
            r.kind == kind,
    {
        Failure { at, kind }
    }

    /// The failure without the text that it borrows.
    pub fn own(&self) -> (r: ParseError)
        ensures
            r.position@ == self.at@.location,
            r.kind == self.kind,
    {
        ParseError { position: self.at.position(), kind: self.kind }
    }
}

} // verus!
