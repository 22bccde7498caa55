//! What a rule makes of a text, and what it means for a function on a
//! cursor to do what a rule says.
//!
//! A rule is a function from the text still to be read to a [`Step`]: either
//! a value with the text that is left, or a miss with the text at which the
//! rule gave up. A rule that can reach a recovery point yields a [`Parse`],
//! which also counts the diagnostics that the attempt records, whether or
//! not it succeeds in the end.

use vstd::prelude::*;
use crate::cursor::{is_suffix, lemma_at_at, Cursor, CursorView};
use crate::error::{ErrorKind, Failure};

verus! {

/// The outcome of one rule on one text.
pub enum Step<T> {
    /// The rule matched: its value, and the text that is left.
    Match(T, Seq<char>),
    /// The rule did not match: why, and the text at the point of failure.
    Miss(ErrorKind, Seq<char>),
}

/// The outcome of a rule together with the number of diagnostics that
/// working it out records.
pub struct Parse<T> {
    /// What the rule makes of the text.
    pub step: Step<T>,
    /// How many diagnostics are recorded on the way.
    pub diagnostics: nat,
}

/// A step that records nothing.
pub open spec fn quiet<T>(step: Step<T>) -> Parse<T> {
    Parse { step, diagnostics: 0 }
}

/// `p` with `n` more diagnostics recorded before it.
pub open spec fn after_diagnostics<T>(n: nat, p: Parse<T>) -> Parse<T> {
    Parse { step: p.step, diagnostics: n + p.diagnostics }
}

/// Ordered choice: `first` if it matches, otherwise `second`, tried on the
/// same text after whatever `first` recorded.
pub open spec fn or_else<T>(first: Parse<T>, second: Parse<T>) -> Parse<T> {
    if first.step is Match {
        first
    } else {
        after_diagnostics(first.diagnostics, second)
    }
}

/// A rule hands back no more text than it was given. `confined` says so
/// where the definition of one rule continues on what another one left: an
/// outcome that leaves more than `s` (there is none) counts as a miss.
pub open spec fn confined<T>(p: Parse<T>, s: Seq<char>) -> Parse<T> {
    match p.step {
        Step::Match(_, rest) if rest.len() > s.len() => Parse {
            step: Step::Miss(ErrorKind::Tag, s),
            diagnostics: p.diagnostics,
        },
        _ => p,
    }
}

/// The message that is recorded where an expected punctuation mark is
/// missing.
pub open spec fn missing_token() -> Seq<char> {
    "Excepted token"@
}

/// The log `log` after `n` more diagnostics.
#[verifier::opaque]
pub open spec fn recorded(log: Seq<Seq<char>>, n: nat) -> Seq<Seq<char>> {
    log + Seq::new(n, |i: int| missing_token())
}

/// Recording `a` diagnostics and then `b` is recording `a + b`; recording
/// none changes nothing; recording one appends the message.
pub proof fn lemma_recorded(log: Seq<Seq<char>>, a: nat, b: nat)
    ensures
        recorded(recorded(log, a), b) == recorded(log, a + b),
        recorded(log, 0) == log,
        recorded(log, 1) == log.push(missing_token()),
{
    reveal(recorded);
    assert(recorded(recorded(log, a), b) =~= recorded(log, a + b));
    assert(recorded(log, 0) =~= log);
    assert(recorded(log, 1) =~= log.push(missing_token()));
}

/// Recording only appends: the log as it was stands at the front of the log
/// as it is, followed by as many messages as were recorded.
pub proof fn lemma_recorded_appends(log: Seq<Seq<char>>, n: nat)
    ensures
        recorded(log, n).len() == log.len() + n,
        log.is_prefix_of(recorded(log, n)),
        forall|i: int| log.len() <= i < log.len() + n ==> recorded(log, n)[i] == missing_token(),
{
    reveal(recorded);
    assert(recorded(log, n).subrange(0, log.len() as int) =~= log);
}

/// Whether the result `r` of running a rule on `input` is what `step` says:
/// on a match the same value, with the cursor moved to the text that is
/// left; on a miss the same kind of failure, at the point of failure.
pub open spec fn follows<'a, T: View>(
    input: CursorView,
    r: Result<(Cursor<'a>, T), Failure<'a>>,
    step: Step<T::V>,
) -> bool {
    match step {
        Step::Match(value, rest) => {
            &&& r matches Ok((tail, x))
            &&& x@ == value
            &&& tail@ == input.at(rest)
            &&& is_suffix(rest, input.rest)
        },
        Step::Miss(kind, at) => {
            &&& r matches Err(failure)
            &&& failure.kind == kind
            &&& failure.at@ == input.at(at)
            &&& is_suffix(at, input.rest)
        },
    }
}

/// What follows a step from a place further on also follows it from where
/// reading began.
pub proof fn lemma_follows_from<'a, T: View>(
    input: CursorView,
    mid: Seq<char>,
    r: Result<(Cursor<'a>, T), Failure<'a>>,
    step: Step<T::V>,
)
    requires
        is_suffix(mid, input.rest),
        follows(input.at(mid), r, step),
    ensures
        follows(input, r, step),
{
    match step {
        Step::Match(_, rest) => lemma_at_at(input, mid, rest),
        Step::Miss(_, at) => lemma_at_at(input, mid, at),
    }
}

/// Whether running a rule on `input` with the log `before` gave what `parse`
/// says: the result follows the step, and the log has grown by the
/// diagnostics of the attempt.
pub open spec fn performs<'a, T: View>(
    input: CursorView,
    before: Seq<Seq<char>>,
    r: Result<(Cursor<'a>, T), Failure<'a>>,
    after: Seq<Seq<char>>,
    parse: Parse<T::V>,
) -> bool {
    follows(input, r, parse.step) && after == recorded(before, parse.diagnostics)
}

} // verus!
