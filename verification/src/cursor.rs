//! A position-tracking view of the text that is still to be read.

use vstd::prelude::*;
use vstd::utf8::{encode_scalar, encode_utf8, is_ascii_chars};
use vstd::string::{StrSliceExecFns, StringSliceAdditionalSpecFns};

verus! {

/// Where in a text a cursor stands, as contracts see it. All three numbers
/// count from zero.
pub struct Location {
    /// Characters read so far.
    pub offset: nat,
    /// Line feeds read so far.
    pub line: nat,
    /// Characters read since the last line feed.
    pub column: nat,
}

impl Location {
    /// The location before the first character.
    pub open spec fn start() -> Location {
        Location { offset: 0, line: 0, column: 0 }
    }

    /// The location after reading `c` from `self`.
    pub open spec fn step(self, c: char) -> Location {
        if c == '\n' {
            Location { offset: self.offset + 1, line: self.line + 1, column: 0 }
        } else {
            Location { offset: self.offset + 1, line: self.line, column: self.column + 1 }
        }
    }

    /// The location after reading `consumed` from `self`.
    #[verifier::opaque]
    pub open spec fn after(self, consumed: Seq<char>) -> Location
        decreases consumed.len(),
    {
        if consumed.len() == 0 {
            self
        } else {
            self.after(consumed.drop_last()).step(consumed.last())
        }
    }
}

/// Reading `a` and then `b` leads where reading `a + b` leads.
pub proof fn lemma_after_concat(from: Location, a: Seq<char>, b: Seq<char>)
    ensures
        from.after(a + b) == from.after(a).after(b),
    decreases b.len(),
{
    reveal(Location::after);
    if b.len() == 0 {
        assert(a + b =~= a);
    } else {
        assert((a + b).drop_last() =~= a + b.drop_last());
        assert((a + b).last() == b.last());
        lemma_after_concat(from, a, b.drop_last());
    }
}

/// Reading `consumed` moves the offset by its length, and the line and the
/// column by no more than that.
pub proof fn lemma_after_bounds(from: Location, consumed: Seq<char>)
    ensures
        from.after(consumed).offset == from.offset + consumed.len(),
        from.line <= from.after(consumed).line <= from.line + consumed.len(),
        from.after(consumed).column <= from.column + consumed.len(),
    decreases consumed.len(),
{
    reveal(Location::after);
    if consumed.len() > 0 {
        lemma_after_bounds(from, consumed.drop_last());
    }
}

/// Whether `tail` is what is left of `whole` once some prefix is read.
pub open spec fn is_suffix(tail: Seq<char>, whole: Seq<char>) -> bool {
    tail.len() <= whole.len() && whole.skip(whole.len() - tail.len()) == tail
}

/// A suffix of a suffix is a suffix.
pub proof fn lemma_suffix_trans(a: Seq<char>, b: Seq<char>, c: Seq<char>)
    requires
        is_suffix(a, b),
        is_suffix(b, c),
    ensures
        is_suffix(a, c),
{
    assert(c.skip(c.len() - a.len()) =~= c.skip(c.len() - b.len()).skip(b.len() - a.len()));
}

/// Whatever is left after skipping some characters is a suffix.
pub proof fn lemma_skip_is_suffix(s: Seq<char>, n: int)
    requires
        0 <= n <= s.len(),
    ensures
        is_suffix(s.skip(n), s),
{
}

/// A cursor as contracts see it: the text still to be read, and where in the
/// whole text that is.
pub struct CursorView {
    /// The text that is still to be read.
    pub rest: Seq<char>,
    /// Where the first character of `rest` stands.
    pub location: Location,
}

impl CursorView {
    /// The part of `self.rest` that is read by the time `rest` is left.
    pub open spec fn consumed_until(self, rest: Seq<char>) -> Seq<char> {
        self.rest.take(self.rest.len() - rest.len())
    }

    /// The cursor that has `rest` left, for a suffix `rest` of `self.rest`.
    pub open spec fn at(self, rest: Seq<char>) -> CursorView {
        CursorView { rest, location: self.location.after(self.consumed_until(rest)) }
    }
}

/// Moving to an inner suffix in two steps is moving there at once.
pub proof fn lemma_at_at(v: CursorView, mid: Seq<char>, rest: Seq<char>)
    requires
        is_suffix(mid, v.rest),
        is_suffix(rest, mid),
    ensures
        is_suffix(rest, v.rest),
        v.at(mid).at(rest) == v.at(rest),
{
    lemma_suffix_trans(rest, mid, v.rest);
    let a = v.consumed_until(mid);
    let b = v.at(mid).consumed_until(rest);
    assert(a + b =~= v.consumed_until(rest));
    lemma_after_concat(v.location, a, b);
}

/// Moving to a suffix moves the offset by as many characters as were read.
pub proof fn lemma_at_offset(v: CursorView, rest: Seq<char>)
    requires
        is_suffix(rest, v.rest),
    ensures
        v.at(rest).location.offset == v.location.offset + v.rest.len() - rest.len(),
{
    lemma_after_bounds(v.location, v.consumed_until(rest));
}

/// Not moving at all leaves the cursor where it is.
pub proof fn lemma_at_self(v: CursorView)
    ensures
        v.at(v.rest) == v,
        is_suffix(v.rest, v.rest),
{
    reveal(Location::after);
    assert(v.consumed_until(v.rest) =~= Seq::<char>::empty());
    assert(v.rest.skip(0) =~= v.rest);
}

/// An encoded text has at least as many bytes as characters.
pub proof fn lemma_bytes_cover_chars(chars: Seq<char>)
    ensures
        chars.len() <= encode_utf8(chars).len(),
    decreases chars.len(),
{
    if chars.len() > 0 {
        lemma_bytes_cover_chars(chars.drop_first());
        assert(encode_scalar(chars[0] as u32).len() >= 1);
    }
}

/// Where in a text a cursor stands. All three numbers count from zero.
///
/// The offset counts characters. The grammar reads one-byte characters
/// only, so the offset of a position that a parse has reached is a byte
/// offset too.
#[derive(Clone, Copy, Debug, PartialEq, Eq, Structural)]
pub struct Position {
    /// Characters read so far.
    pub offset: usize,
    /// Line feeds read so far.
    pub line: usize,
    /// Characters read since the last line feed.
    pub column: usize,
}

impl View for Position {
    type V = Location;

    open spec fn view(&self) -> Location {
        Location { offset: self.offset as nat, line: self.line as nat, column: self.column as nat }
    }
}

/// The text that is still to be read, and where in the whole text it starts.
/// A cursor is a small value that is copied freely; it never changes the text.
#[derive(Clone, Copy, Debug)]
pub struct Cursor<'a> {
    rest: &'a str,
    position: Position,
}

impl<'a> View for Cursor<'a> {
    type V = CursorView;

    closed spec fn view(&self) -> CursorView {
        CursorView { rest: self.rest@, location: self.position@ }
    }
}

impl<'a> Cursor<'a> {
    /// The position can be advanced over the rest without leaving `usize`.
    #[verifier::type_invariant]
    spec fn well_formed(self) -> bool {
        &&& self.position.offset + self.rest@.len() <= usize::MAX
        &&& self.position.line <= self.position.offset
        &&& self.position.column <= self.position.offset
    }

    /// A cursor before the first character of `text`.
    pub fn new(text: &'a str) -> (r: Cursor<'a>)
        ensures
            r@ == (CursorView { rest: text@, location: Location::start() }),
    {
        // The bytes of the text are a slice, whose length fits in `usize`,
        // and a text has no more characters than bytes.
        let bytes = text.as_bytes();
        proof {
            assert(bytes@.len() == bytes.len());
            lemma_bytes_cover_chars(text@);
        }
        Cursor { rest: text, position: Position { offset: 0, line: 0, column: 0 } }
    }

    /// The text that is still to be read.
    pub fn fragment(&self) -> (r: &'a str)
        ensures
            r@ == self@.rest,
    {
        self.rest
    }

    /// Where the cursor stands.
    pub fn position(&self) -> (r: Position)
        ensures
            r@ == self@.location,
    {
        self.position
    }

    /// Whether the whole text has been read.
    pub fn is_empty(&self) -> (r: bool)
        ensures
            r == (self@.rest.len() == 0),
    {
        self.rest.is_empty()
    }

    /// The cursor once `matched`, the front of the text still to be read, has
    /// been read and `rest` is left.
    pub(crate) fn advance(self, matched: &str, rest: &'a str) -> (r: Cursor<'a>)
        requires
            self@.rest == matched@ + rest@,
        ensures
            r@ == self@.at(rest@),
            is_suffix(rest@, self@.rest),
    {
        proof {
            use_type_invariant(&self);
            assert(self@.consumed_until(rest@) =~= matched@);
            assert(self@.rest.skip(self@.rest.len() - rest@.len()) =~= rest@);
            lemma_after_bounds(self.position@, matched@);
        }
        let position = if matched.is_ascii() {
            position_after_ascii(self.position, matched)
        } else {
            position_after(self.position, matched)
        };
        Cursor { rest, position }
    }
}

/// The position after reading `c` from `from`.
fn position_step(from: Position, c: char) -> (r: Position)
    requires
        from.offset < usize::MAX,
        from.line <= from.offset,
        from.column <= from.offset,
    ensures
        r@ == from@.step(c),
{
    if c == '\n' {
        Position { offset: from.offset + 1, line: from.line + 1, column: 0 }
    } else {
        Position { offset: from.offset + 1, line: from.line, column: from.column + 1 }
    }
}

/// The position after reading `text` from `from`, one byte at a time.
fn position_after_ascii(from: Position, text: &str) -> (r: Position)
    requires
        is_ascii_chars(text@),
        from.offset + text@.len() <= usize::MAX,
        from.line <= from.offset,
        from.column <= from.offset,
    ensures
        r@ == from@.after(text@),
{
    proof {
        reveal(Location::after);
        vstd::utf8::is_ascii_chars_encode_utf8(text@);
    }
    let bytes = text.as_bytes();
    let mut position = from;
    let mut i: usize = 0;
    while i < bytes.len()
        invariant
            bytes@.len() == text@.len(),
            is_ascii_chars(text@),
            forall|j: int| 0 <= j < text@.len() ==> text@[j] as u8 == bytes@[j],
            i <= bytes.len(),
            position@ == from@.after(text@.take(i as int)),
            from.offset + text@.len() <= usize::MAX,
            from.line <= from.offset,
            from.column <= from.offset,
        decreases bytes.len() - i,
    {
        proof {
            reveal(Location::after);
            lemma_after_bounds(from@, text@.take(i as int));
            assert(text@.take(i + 1).drop_last() =~= text@.take(i as int));
            assert('\0' <= text@[i as int] <= '\u{7f}');
        }
        let c: char = bytes[i] as char;
        assert(c == text@[i as int]);
        position = position_step(position, c);
        i += 1;
    }
    proof {
        assert(text@.take(i as int) =~= text@);
    }
    position
}

/// The position after reading `text` from `from`, one character at a time.
fn position_after(from: Position, text: &str) -> (r: Position)
    requires
        from.offset + text@.len() <= usize::MAX,
        from.line <= from.offset,
        from.column <= from.offset,
    ensures
        r@ == from@.after(text@),
{
    let n = text.unicode_len();
    let mut position = from;
    proof {
        reveal(Location::after);
    }
    let mut i: usize = 0;
    while i < n
        invariant
            n == text@.len(),
            i <= n,
            position@ == from@.after(text@.take(i as int)),
            from.offset + text@.len() <= usize::MAX,
            from.line <= from.offset,
            from.column <= from.offset,
        decreases n - i,
    {
        proof {
            reveal(Location::after);
            lemma_after_bounds(from@, text@.take(i as int));
            assert(text@.take(i + 1).drop_last() =~= text@.take(i as int));
        }
        position = position_step(position, text.get_char(i));
        i += 1;
    }
    proof {
        assert(text@.take(i as int) =~= text@);
    }
    position
}

} // verus!
