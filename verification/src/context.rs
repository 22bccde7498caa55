//! The diagnostic sink that one parse fills.

use vstd::prelude::*;

verus! {

/// Collects the diagnostics of one parse, oldest first. Messages are only
/// ever appended.
#[derive(Debug, PartialEq)]
pub struct ParsingContext {
    errors: Vec<String>,
}

impl View for ParsingContext {
    type V = Seq<Seq<char>>;

    /// The recorded messages, oldest first.
    closed spec fn view(&self) -> Seq<Seq<char>> {
        Seq::new(self.errors@.len(), |i: int| self.errors@[i]@)
    }
}

impl ParsingContext {
    /// A sink that holds no diagnostic yet.
    pub fn new() -> (r: ParsingContext)
        ensures
            r@ == Seq::<Seq<char>>::empty(),
    {
        let r = ParsingContext { errors: Vec::new() };
        assert(r@ =~= Seq::<Seq<char>>::empty());
        r
    }

    /// Appends `message` after the diagnostics recorded so far.
    pub fn add(&mut self, message: &str)
        ensures
            final(self)@ == old(self)@.push(message@),
    {
        self.errors.push(message.to_owned());
        assert(self@ =~= old(self)@.push(message@));
    }

    /// How many diagnostics have been recorded.
    pub fn len(&self) -> (n: usize)
        ensures
            n == self@.len(),
    {
        self.errors.len()
    }

    /// Whether no diagnostic has been recorded.
    pub fn is_empty(&self) -> (b: bool)
        ensures
            b == (self@.len() == 0),
    {
        self.errors.len() == 0
    }

    /// The recorded messages, oldest first.
    pub fn errors(&self) -> (messages: &Vec<String>)
        ensures
            messages@.len() == self@.len(),
            forall|i: int| 0 <= i < self@.len() ==> #[trigger] messages@[i]@ == self@[i],
    {
        &self.errors
    }
}

} // verus!
