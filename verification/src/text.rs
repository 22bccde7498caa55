//! Character classes and runs of characters at the front of a text.

use vstd::prelude::*;
use crate::error::ErrorKind;

verus! {

/// The classes of ASCII characters that tokens are made of.
#[derive(Clone, Copy, Debug, PartialEq, Eq, Structural)]
pub enum CharClass {
    /// Space, tab, carriage return and line feed.
    Space,
    /// `0` to `9`.
    Digit,
    /// `a` to `z` and `A` to `Z`.
    Alpha,
    /// A letter or a digit.
    Alphanumeric,
    /// A letter, a digit or an underscore: what a name is made of.
    Word,
}

impl CharClass {
    /// Whether `c` belongs to the class.
    pub open spec fn holds(self, c: char) -> bool {
        match self {
            CharClass::Space => c == ' ' || c == '\t' || c == '\r' || c == '\n',
            CharClass::Digit => '0' <= c <= '9',
            CharClass::Alpha => 'a' <= c <= 'z' || 'A' <= c <= 'Z',
            CharClass::Alphanumeric => 'a' <= c <= 'z' || 'A' <= c <= 'Z' || '0' <= c <= '9',
            CharClass::Word => 'a' <= c <= 'z' || 'A' <= c <= 'Z' || '0' <= c <= '9' || c == '_',
        }
    }
}

impl CharClass {
    /// The kind of failure where a character of the class is wanted and
    /// missing. Only digits, letters, and letters or digits are ever wanted
    /// on their own.
    pub open spec fn kind(self) -> ErrorKind {
        match self {
            CharClass::Digit => ErrorKind::Digit,
            CharClass::Alpha => ErrorKind::Alpha,
            CharClass::Alphanumeric | CharClass::Word | CharClass::Space => ErrorKind::AlphaNumeric,
        }
    }
}

/// Whether `c` is one of the 128 ASCII characters.
pub open spec fn is_ascii_char(c: char) -> bool {
    '\0' <= c <= '\u{7f}'
}

/// How many characters at the front of `s` belong to `class`: the length of
/// the longest prefix made of such characters only.
pub open spec fn leading_run(s: Seq<char>, class: CharClass) -> nat
    decreases s.len(),
{
    if s.len() > 0 && class.holds(s[0]) {
        1 + leading_run(s.skip(1), class)
    } else {
        0
    }
}

/// A leading run lies within the text, is made of characters of the class,
/// and ends at the end of the text or before a character outside the class.
pub proof fn lemma_leading_run(s: Seq<char>, class: CharClass)
    ensures
        leading_run(s, class) <= s.len(),
        forall|i: int| 0 <= i < leading_run(s, class) ==> class.holds(#[trigger] s[i]),
        leading_run(s, class) < s.len() ==> !class.holds(s[leading_run(s, class) as int]),
    decreases s.len(),
{
    if s.len() > 0 && class.holds(s[0]) {
        lemma_leading_run(s.skip(1), class);
        assert forall|i: int| 0 <= i < leading_run(s, class) implies class.holds(
            #[trigger] s[i],
        ) by {
            if i > 0 {
                assert(s[i] == s.skip(1)[i - 1]);
            }
        }
        if leading_run(s, class) < s.len() {
            assert(s[leading_run(s, class) as int] == s.skip(1)[leading_run(s, class) - 1]);
        }
    }
}

/// The leading run is the only length `n` at which a prefix of class
/// characters ends.
pub proof fn lemma_leading_run_unique(s: Seq<char>, class: CharClass, n: nat)
    requires
        n <= s.len(),
        forall|i: int| 0 <= i < n ==> class.holds(#[trigger] s[i]),
        n < s.len() ==> !class.holds(s[n as int]),
    ensures
        leading_run(s, class) == n,
    decreases s.len(),
{
    if n > 0 {
        assert(class.holds(s[0]));
        assert forall|i: int| 0 <= i < n - 1 implies class.holds(#[trigger] s.skip(1)[i]) by {
            assert(s.skip(1)[i] == s[i + 1]);
        }
        if n - 1 < s.skip(1).len() {
            assert(s.skip(1)[n - 1] == s[n as int]);
        }
        lemma_leading_run_unique(s.skip(1), class, (n - 1) as nat);
    }
}

/// A text of one character is a prefix of exactly the texts that start with
/// that character.
pub proof fn lemma_one_char_prefix(t: Seq<char>, c: char, s: Seq<char>)
    requires
        t.len() == 1,
        t[0] == c,
    ensures
        t.is_prefix_of(s) <==> s.len() > 0 && s[0] == c,
{
    if s.len() > 0 && s[0] == c {
        assert(s.subrange(0, 1) =~= t);
    }
    if t.is_prefix_of(s) {
        assert(s.subrange(0, 1)[0] == t[0]);
    }
}

} // verus!
