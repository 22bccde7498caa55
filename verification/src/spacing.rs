//! Whitespace between tokens does not matter: a text and the same text with
//! more whitespace parse alike, if the whitespace is inserted anywhere but
//! inside a word, between a word and a letter that follows it, or between
//! a minus sign and a digit that follows it.
//!
//! The places that are left out are told by the two characters around them,
//! whatever the rule that reads them: a word that is split is read as two,
//! and `-1` is a literal where `- 1` is not.

use vstd::prelude::*;
use crate::ast::Tree;
use crate::grammar::{
    alphabetic, atomic_parse, binding_parse, bindings_parse, block_parse, branches_parse,
    expect_step, expr_parse, factor_parse, ident_expr_step, ident_step, if_else_parse, integer_step,
    keyword_step, kw_else, kw_if, kw_let, lemma_ident_suffix, lemma_operator_suffix,
    lemma_token_suffix, level_0_parse, level_1_parse, more_bindings, operator_step, parse_outcome,
    product_fold, program_parse, skip_space, sum_fold, summand_parse, symbol_step, term_parse,
};
use crate::outcome::{or_else, quiet, Parse, Step};
use crate::suffix::{
    lemma_atomic_shrinks, lemma_binding_shrinks, lemma_block_shrinks, lemma_expr_shrinks,
    lemma_factor_shrinks, lemma_more_bindings_within, lemma_summand_shrinks, lemma_term_shrinks,
};
use crate::text::{leading_run, lemma_leading_run, CharClass};

verus! {

/// Whether whitespace between `prev` and `next` could change how a text is
/// read: it would split a word, part a keyword from a letter that follows
/// it, or part a minus sign from the digits of its literal.
pub open spec fn tight(prev: char, next: char) -> bool {
    ||| CharClass::Word.holds(prev) && (CharClass::Word.holds(next) || alphabetic(next))
    ||| prev == '-' && CharClass::Digit.holds(next)
}

/// Whether `b` is `a` with whitespace inserted, where `prev` is the
/// character that stands before both. Whitespace is inserted only where the
/// characters on both sides of it in `a` are not [`tight`].
#[verifier::opaque]
pub open spec fn loosened_after(prev: Option<char>, a: Seq<char>, b: Seq<char>) -> bool
    decreases b.len(),
{
    if b.len() == 0 {
        a.len() == 0
    } else {
        ||| {
            &&& CharClass::Space.holds(b[0])
            &&& !(prev is Some && a.len() > 0 && tight(prev->0, a[0]))
            &&& loosened_after(prev, a, b.skip(1))
        }
        ||| {
            &&& a.len() > 0
            &&& a[0] == b[0]
            &&& loosened_after(Some(a[0]), a.skip(1), b.skip(1))
        }
    }
}

/// Whether `b` is `a` with whitespace inserted anywhere but between two
/// characters that are [`tight`].
pub open spec fn loosened(a: Seq<char>, b: Seq<char>) -> bool {
    loosened_after(None, a, b)
}

/// Whether `b` is `a` with whitespace inserted, and neither starts with
/// whitespace: the state in which every rule leaves the two texts.
pub open spec fn aligned(a: Seq<char>, b: Seq<char>) -> bool {
    if a.len() == 0 {
        b.len() == 0
    } else {
        &&& b.len() > 0
        &&& a[0] == b[0]
        &&& !CharClass::Space.holds(a[0])
        &&& loosened_after(Some(a[0]), a.skip(1), b.skip(1))
    }
}

/// Whether two steps match alike, with the same value and aligned rests, or
/// miss alike, with the same kind of failure.
pub open spec fn same_step<T>(x: Step<T>, y: Step<T>) -> bool {
    match (x, y) {
        (Step::Match(v, rest), Step::Match(w, left)) => v == w && aligned(rest, left),
        (Step::Miss(kind, _), Step::Miss(other, _)) => kind == other,
        _ => false,
    }
}

/// Whether two steps match alike or miss alike, with aligned rests either
/// way.
pub open spec fn same_token<T>(x: Step<T>, y: Step<T>) -> bool {
    match (x, y) {
        (Step::Match(v, rest), Step::Match(w, left)) => v == w && aligned(rest, left),
        (Step::Miss(kind, rest), Step::Miss(other, left)) => kind == other && aligned(rest, left),
        _ => false,
    }
}

/// Whether two outcomes are [`same_step`]s that record as many diagnostics.
pub open spec fn same_parse<T>(x: Parse<T>, y: Parse<T>) -> bool {
    x.diagnostics == y.diagnostics && same_step(x.step, y.step)
}

/// Insertion that is allowed after some character is allowed at the start.
pub proof fn lemma_loosened_from_start(prev: Option<char>, a: Seq<char>, b: Seq<char>)
    requires
        loosened_after(prev, a, b),
    ensures
        loosened(a, b),
    decreases b.len(),
{
    reveal(loosened_after);
    if b.len() > 0 {
        if CharClass::Space.holds(b[0]) && !(prev is Some && a.len() > 0 && tight(prev->0, a[0]))
            && loosened_after(prev, a, b.skip(1)) {
            lemma_loosened_from_start(prev, a, b.skip(1));
        }
    }
}

/// Skipping whitespace at the front goes one character at a time.
pub proof fn lemma_skip_space_step(s: Seq<char>)
    ensures
        s.len() > 0 && CharClass::Space.holds(s[0]) ==> skip_space(s) == skip_space(s.skip(1)),
        !(s.len() > 0 && CharClass::Space.holds(s[0])) ==> skip_space(s) == s,
        skip_space(s).len() > 0 ==> !CharClass::Space.holds(skip_space(s)[0]),
{
    lemma_leading_run(s, CharClass::Space);
    if s.len() > 0 && CharClass::Space.holds(s[0]) {
        lemma_leading_run(s.skip(1), CharClass::Space);
        let n = leading_run(s.skip(1), CharClass::Space);
        assert(s.skip(1).skip(n as int) =~= s.skip((1 + n) as int));
    } else {
        assert(s.skip(0) =~= s);
    }
}

/// Skipping the whitespace at the front of both texts aligns them.
pub proof fn lemma_skip_space_aligns(prev: Option<char>, a: Seq<char>, b: Seq<char>)
    requires
        loosened_after(prev, a, b),
    ensures
        aligned(skip_space(a), skip_space(b)),
    decreases a.len() + b.len(),
{
    reveal(loosened_after);
    lemma_skip_space_step(a);
    lemma_skip_space_step(b);
    if b.len() > 0 {
        if a.len() > 0 && a[0] == b[0] && loosened_after(Some(a[0]), a.skip(1), b.skip(1)) {
            if CharClass::Space.holds(a[0]) {
                lemma_skip_space_aligns(Some(a[0]), a.skip(1), b.skip(1));
            }
        } else {
            lemma_skip_space_aligns(prev, a, b.skip(1));
        }
    }
}

/// Aligned texts are loosened.
pub proof fn lemma_aligned_is_loosened(a: Seq<char>, b: Seq<char>)
    requires
        aligned(a, b),
    ensures
        loosened(a, b),
        skip_space(a) == a,
        skip_space(b) == b,
{
    reveal(loosened_after);
    lemma_skip_space_step(a);
    lemma_skip_space_step(b);
}

/// A run of characters of a class of word characters is the same run in
/// both texts, if no whitespace can stand before its first character.
pub proof fn lemma_run_spacing(class: CharClass, prev: char, a: Seq<char>, b: Seq<char>)
    requires
        class != CharClass::Space,
        CharClass::Word.holds(prev) || (prev == '-' && class == CharClass::Digit),
        loosened_after(Some(prev), a, b),
    ensures
        leading_run(b, class) == leading_run(a, class),
        b.take(leading_run(a, class) as int) == a.take(leading_run(a, class) as int),
        loosened_after(
            Some(
                if leading_run(a, class) == 0 {
                    prev
                } else {
                    a[leading_run(a, class) - 1]
                },
            ),
            a.skip(leading_run(a, class) as int),
            b.skip(leading_run(a, class) as int),
        ),
    decreases a.len(),
{
    reveal(loosened_after);
    let n = leading_run(a, class);
    if a.len() > 0 && class.holds(a[0]) {
        assert(tight(prev, a[0]));
        assert(b.len() > 0 && a[0] == b[0]);
        lemma_run_spacing(class, a[0], a.skip(1), b.skip(1));
        let m = leading_run(a.skip(1), class);
        lemma_leading_run(a.skip(1), class);
        lemma_leading_run(b.skip(1), class);
        assert(a.take(n as int) =~= seq![a[0]] + a.skip(1).take(m as int));
        assert(b.take(n as int) =~= seq![b[0]] + b.skip(1).take(m as int));
        assert(a.skip(1).skip(m as int) =~= a.skip(n as int));
        assert(b.skip(1).skip(m as int) =~= b.skip(n as int));
        if m > 0 {
            assert(a.skip(1)[m - 1] == a[n - 1]);
        }
    } else {
        assert(a.take(0) =~= b.take(0));
        assert(a.skip(0) =~= a);
        assert(b.skip(0) =~= b);
    }
}

/// A run of characters of a class of word characters is the same run at the
/// front of aligned texts.
pub proof fn lemma_run_aligned(class: CharClass, a: Seq<char>, b: Seq<char>)
    requires
        class != CharClass::Space,
        aligned(a, b),
    ensures
        leading_run(b, class) == leading_run(a, class),
        b.take(leading_run(a, class) as int) == a.take(leading_run(a, class) as int),
        leading_run(a, class) > 0 ==> loosened_after(
            Some(a[leading_run(a, class) - 1]),
            a.skip(leading_run(a, class) as int),
            b.skip(leading_run(a, class) as int),
        ),
{
    reveal(loosened_after);
    let n = leading_run(a, class);
    if a.len() > 0 && class.holds(a[0]) {
        lemma_run_spacing(class, a[0], a.skip(1), b.skip(1));
        let m = leading_run(a.skip(1), class);
        lemma_leading_run(a.skip(1), class);
        lemma_leading_run(b.skip(1), class);
        assert(a.take(n as int) =~= seq![a[0]] + a.skip(1).take(m as int));
        assert(b.take(n as int) =~= seq![b[0]] + b.skip(1).take(m as int));
        assert(a.skip(1).skip(m as int) =~= a.skip(n as int));
        assert(b.skip(1).skip(m as int) =~= b.skip(n as int));
        if m > 0 {
            assert(a.skip(1)[m - 1] == a[n - 1]);
        }
    } else {
        assert(a.take(0) =~= b.take(0));
    }
}

/// A text starts with a literal if it starts with the first character of
/// the literal and goes on with the rest of it.
pub proof fn lemma_prefix_step(t: Seq<char>, s: Seq<char>)
    requires
        t.len() > 0,
    ensures
        t.is_prefix_of(s) <==> s.len() > 0 && s[0] == t[0] && t.skip(1).is_prefix_of(s.skip(1)),
{
    if t.is_prefix_of(s) {
        assert(s.subrange(0, t.len() as int)[0] == t[0]);
        assert(s.skip(1).subrange(0, t.len() - 1) =~= t.skip(1)) by {
            assert forall|i: int| 0 <= i < t.len() - 1 implies s.skip(1)[i] == t.skip(1)[i] by {
                assert(s.subrange(0, t.len() as int)[i + 1] == t[i + 1]);
            }
        }
    }
    if s.len() > 0 && s[0] == t[0] && t.skip(1).is_prefix_of(s.skip(1)) {
        assert(s.subrange(0, t.len() as int) =~= t) by {
            assert forall|i: int| 0 <= i < t.len() implies s[i] == t[i] by {
                if i > 0 {
                    assert(s.skip(1).subrange(0, t.len() - 1)[i - 1] == t.skip(1)[i - 1]);
                }
            }
        }
    }
}

/// Whether every character of `t` is a word character.
pub open spec fn is_word(t: Seq<char>) -> bool {
    forall|i: int| 0 <= i < t.len() ==> CharClass::Word.holds(#[trigger] t[i])
}

/// Both texts go on with a literal made of word characters, or neither
/// does, if no whitespace can stand before a word character.
pub proof fn lemma_word_spacing(t: Seq<char>, prev: char, a: Seq<char>, b: Seq<char>)
    requires
        is_word(t),
        CharClass::Word.holds(prev),
        loosened_after(Some(prev), a, b),
    ensures
        t.is_prefix_of(a) <==> t.is_prefix_of(b),
        t.is_prefix_of(a) ==> loosened_after(
            Some(
                if t.len() == 0 {
                    prev
                } else {
                    t.last()
                },
            ),
            a.skip(t.len() as int),
            b.skip(t.len() as int),
        ),
    decreases t.len(),
{
    reveal(loosened_after);
    if t.len() == 0 {
        assert(a.skip(0) =~= a);
        assert(b.skip(0) =~= b);
        assert(a.subrange(0, 0) =~= t);
        assert(b.subrange(0, 0) =~= t);
    } else {
        lemma_prefix_step(t, a);
        lemma_prefix_step(t, b);
        assert(CharClass::Word.holds(t[0]));
        if a.len() > 0 && a[0] == t[0] {
            assert(tight(prev, a[0]));
            assert forall|i: int| 0 <= i < t.skip(1).len() implies CharClass::Word.holds(
                #[trigger] t.skip(1)[i],
            ) by {
                assert(t.skip(1)[i] == t[i + 1]);
            }
            lemma_word_spacing(t.skip(1), a[0], a.skip(1), b.skip(1));
            if t.is_prefix_of(a) {
                assert(a.skip(1).skip(t.len() - 1) =~= a.skip(t.len() as int));
                assert(b.skip(1).skip(t.len() - 1) =~= b.skip(t.len() as int));
            }
            if t.len() > 1 {
                assert(t.skip(1).last() == t.last());
            }
        }
    }
}

/// Aligned texts start with a literal that is one character or a word, or
/// neither does.
pub proof fn lemma_tag_aligned(t: Seq<char>, a: Seq<char>, b: Seq<char>)
    requires
        t.len() == 1 || (t.len() > 1 && is_word(t)),
        aligned(a, b),
    ensures
        t.is_prefix_of(a) <==> t.is_prefix_of(b),
        t.is_prefix_of(a) ==> loosened_after(
            Some(t.last()),
            a.skip(t.len() as int),
            b.skip(t.len() as int),
        ),
{
    reveal(loosened_after);
    lemma_prefix_step(t, a);
    lemma_prefix_step(t, b);
    if a.len() > 0 && a[0] == t[0] {
        if t.len() == 1 {
            assert(t.skip(1).is_prefix_of(a.skip(1))) by {
                assert(a.skip(1).subrange(0, 0) =~= t.skip(1));
            }
            assert(t.skip(1).is_prefix_of(b.skip(1))) by {
                assert(b.skip(1).subrange(0, 0) =~= t.skip(1));
            }
        } else {
            assert(CharClass::Word.holds(t[0]));
            assert forall|i: int| 0 <= i < t.skip(1).len() implies CharClass::Word.holds(
                #[trigger] t.skip(1)[i],
            ) by {
                assert(t.skip(1)[i] == t[i + 1]);
            }
            lemma_word_spacing(t.skip(1), a[0], a.skip(1), b.skip(1));
            if t.is_prefix_of(a) {
                assert(a.skip(1).skip(t.len() - 1) =~= a.skip(t.len() as int));
                assert(b.skip(1).skip(t.len() - 1) =~= b.skip(t.len() as int));
            }
            assert(t.skip(1).last() == t.last());
        }
    }
}

/// A punctuation mark is read alike in both texts.
pub proof fn lemma_symbol_spacing(t: Seq<char>, prev: Option<char>, a: Seq<char>, b: Seq<char>)
    requires
        t.len() == 1,
        loosened_after(prev, a, b),
    ensures
        same_token(symbol_step(t, a), symbol_step(t, b)),
        same_parse(expect_step(symbol_step(t, a)), expect_step(symbol_step(t, b))),
{
    reveal(symbol_step);
    lemma_skip_space_aligns(prev, a, b);
    let x = skip_space(a);
    let y = skip_space(b);
    lemma_tag_aligned(t, x, y);
    if t.is_prefix_of(x) {
        lemma_skip_space_aligns(Some(t.last()), x.skip(1), y.skip(1));
    }
}

/// A keyword is read alike in both texts.
pub proof fn lemma_keyword_spacing(kw: Seq<char>, prev: Option<char>, a: Seq<char>, b: Seq<char>)
    requires
        kw.len() > 0,
        is_word(kw),
        loosened_after(prev, a, b),
    ensures
        same_step(keyword_step(kw, a), keyword_step(kw, b)),
{
    reveal(keyword_step);
    reveal(loosened_after);
    lemma_skip_space_aligns(prev, a, b);
    let x = skip_space(a);
    let y = skip_space(b);
    lemma_tag_aligned(kw, x, y);
    if kw.is_prefix_of(x) {
        let n = kw.len() as int;
        assert(CharClass::Word.holds(kw.last()));
        lemma_skip_space_aligns(Some(kw.last()), x.skip(n), y.skip(n));
        if x.skip(n).len() > 0 && alphabetic(x.skip(n)[0]) {
            assert(tight(kw.last(), x.skip(n)[0]));
        }
    }
}

/// A name is read alike in both texts.
pub proof fn lemma_ident_spacing(prev: Option<char>, a: Seq<char>, b: Seq<char>)
    requires
        loosened_after(prev, a, b),
    ensures
        same_step(ident_step(a), ident_step(b)),
{
    reveal(ident_step);
    lemma_skip_space_aligns(prev, a, b);
    let x = skip_space(a);
    let y = skip_space(b);
    if x.len() > 0 && (CharClass::Alpha.holds(x[0]) || x[0] == '_') {
        lemma_run_spacing(CharClass::Word, x[0], x.skip(1), y.skip(1));
        lemma_leading_run(x.skip(1), CharClass::Word);
        lemma_leading_run(y.skip(1), CharClass::Word);
        let m = leading_run(x.skip(1), CharClass::Word) as int;
        assert(x.take(1 + m) =~= seq![x[0]] + x.skip(1).take(m));
        assert(y.take(1 + m) =~= seq![y[0]] + y.skip(1).take(m));
        assert(x.skip(1).skip(m) =~= x.skip(1 + m));
        assert(y.skip(1).skip(m) =~= y.skip(1 + m));
        let last = if m == 0 {
            x[0]
        } else {
            x.skip(1)[m - 1]
        };
        lemma_skip_space_aligns(Some(last), x.skip(1 + m), y.skip(1 + m));
    }
}

/// An integer literal is read alike in both texts.
pub proof fn lemma_integer_spacing(prev: Option<char>, a: Seq<char>, b: Seq<char>)
    requires
        loosened_after(prev, a, b),
    ensures
        same_step(integer_step(a), integer_step(b)),
{
    reveal(integer_step);
    lemma_skip_space_aligns(prev, a, b);
    let x = skip_space(a);
    let y = skip_space(b);
    if x.len() > 0 && x[0] == '-' {
        let n = leading_run(x.skip(1), CharClass::Digit) as int;
        lemma_run_spacing(CharClass::Digit, '-', x.skip(1), y.skip(1));
        if n > 0 {
            lemma_skip_space_aligns(Some(x.skip(1)[n - 1]), x.skip(1).skip(n), y.skip(1).skip(n));
        }
    } else {
        let n = leading_run(x, CharClass::Digit) as int;
        lemma_run_aligned(CharClass::Digit, x, y);
        if n > 0 {
            lemma_skip_space_aligns(Some(x[n - 1]), x.skip(n), y.skip(n));
        }
    }
}

/// An operator is read alike at the front of aligned texts, and what is
/// left is loosened.
pub proof fn lemma_operator_spacing(a: Seq<char>, b: Seq<char>)
    requires
        aligned(a, b),
    ensures
        match (operator_step(a), operator_step(b)) {
            (Step::Match(operator, rest), Step::Match(other, left)) => operator == other
                && loosened(rest, left),
            (Step::Miss(kind, _), Step::Miss(other, _)) => kind == other,
            _ => false,
        },
{
    reveal(operator_step);
    reveal(loosened_after);
    if a.len() > 0 {
        lemma_loosened_from_start(Some(a[0]), a.skip(1), b.skip(1));
    }
}

/// The three keywords are words.
pub proof fn lemma_keywords_are_words()
    ensures
        is_word(kw_if()) && kw_if().len() == 2,
        is_word(kw_else()) && kw_else().len() == 4,
        is_word(kw_let()) && kw_let().len() == 3,
        "{"@.len() == 1 && "}"@.len() == 1 && "="@.len() == 1 && ";"@.len() == 1 && "*"@.len()
            == 1,
{
    reveal_strlit("if");
    reveal_strlit("else");
    reveal_strlit("let");
    reveal_strlit("{");
    reveal_strlit("}");
    reveal_strlit("=");
    reveal_strlit(";");
    reveal_strlit("*");
}

/// Ordered choice keeps outcomes alike.
pub proof fn lemma_or_else_spacing<T>(x: Parse<T>, y: Parse<T>, p: Parse<T>, q: Parse<T>)
    requires
        same_parse(x, p),
        same_parse(y, q),
    ensures
        same_parse(or_else(x, y), or_else(p, q)),
{
}

/// The two branches of a conditional are read alike in both texts.
pub proof fn lemma_branches_spacing(a: Seq<char>, b: Seq<char>)
    requires
        loosened(a, b),
    ensures
        same_parse(branches_parse(a), branches_parse(b)),
    decreases a.len(), 1nat,
{
    reveal(branches_parse);
    reveal(block_parse);
    lemma_keywords_are_words();
    lemma_block_spacing(a, b);
    lemma_block_shrinks(a);
    lemma_block_shrinks(b);
    if let (Step::Match(_, a1), Step::Match(_, b1)) = (block_parse(a).step, block_parse(b).step) {
        lemma_aligned_is_loosened(a1, b1);
        lemma_keyword_spacing(kw_else(), None, a1, b1);
        lemma_token_suffix(a1, kw_else());
        if let (Step::Match(_, a2), Step::Match(_, b2)) = (
            keyword_step(kw_else(), a1),
            keyword_step(kw_else(), b1),
        ) {
            lemma_aligned_is_loosened(a2, b2);
            lemma_block_spacing(a2, b2);
        }
    }
}

/// A conditional is read alike in both texts.
pub proof fn lemma_if_else_spacing(a: Seq<char>, b: Seq<char>)
    requires
        loosened(a, b),
    ensures
        same_parse(if_else_parse(a), if_else_parse(b)),
    decreases a.len(), 0nat,
{
    reveal(if_else_parse);
    reveal(expr_parse);
    reveal(branches_parse);
    lemma_keywords_are_words();
    lemma_keyword_spacing(kw_if(), None, a, b);
    lemma_token_suffix(a, kw_if());
    if let (Step::Match(_, a1), Step::Match(_, b1)) = (
        keyword_step(kw_if(), a),
        keyword_step(kw_if(), b),
    ) {
        lemma_aligned_is_loosened(a1, b1);
        lemma_expr_spacing(a1, b1);
        lemma_expr_shrinks(a1);
        lemma_expr_shrinks(b1);
        if let (Step::Match(_, a2), Step::Match(_, b2)) = (
            expr_parse(a1).step,
            expr_parse(b1).step,
        ) {
            lemma_aligned_is_loosened(a2, b2);
            lemma_branches_spacing(a2, b2);
        }
    }
}

/// A block is read alike in both texts.
pub proof fn lemma_block_spacing(a: Seq<char>, b: Seq<char>)
    requires
        loosened(a, b),
    ensures
        same_parse(block_parse(a), block_parse(b)),
    decreases a.len(), 0nat,
{
    reveal(block_parse);
    reveal(program_parse);
    lemma_keywords_are_words();
    lemma_symbol_spacing("{"@, None, a, b);
    lemma_token_suffix(a, "{"@);
    if let (Step::Match(_, a1), Step::Match(_, b1)) = (symbol_step("{"@, a), symbol_step("{"@, b)) {
        lemma_aligned_is_loosened(a1, b1);
        lemma_program_spacing(a1, b1);
        if let (Step::Match(_, a2), Step::Match(_, b2)) = (
            program_parse(a1).step,
            program_parse(b1).step,
        ) {
            lemma_aligned_is_loosened(a2, b2);
            lemma_symbol_spacing("}"@, None, a2, b2);
        }
    }
}

/// An atomic term is read alike in both texts.
pub proof fn lemma_atomic_spacing(a: Seq<char>, b: Seq<char>)
    requires
        loosened(a, b),
    ensures
        same_parse(atomic_parse(a), atomic_parse(b)),
    decreases a.len(), 1nat,
{
    reveal(atomic_parse);
    reveal(if_else_parse);
    reveal(block_parse);
    lemma_integer_spacing(None, a, b);
    lemma_if_else_spacing(a, b);
    lemma_block_spacing(a, b);
    lemma_ident_spacing(None, a, b);
    let last_a = or_else(block_parse(a), quiet(ident_expr_step(a)));
    let last_b = or_else(block_parse(b), quiet(ident_expr_step(b)));
    lemma_or_else_spacing(
        block_parse(a),
        quiet(ident_expr_step(a)),
        block_parse(b),
        quiet(ident_expr_step(b)),
    );
    lemma_or_else_spacing(if_else_parse(a), last_a, if_else_parse(b), last_b);
    lemma_or_else_spacing(
        quiet(integer_step(a)),
        or_else(if_else_parse(a), last_a),
        quiet(integer_step(b)),
        or_else(if_else_parse(b), last_b),
    );
}

/// A factor is read alike in both texts.
pub proof fn lemma_factor_spacing(a: Seq<char>, b: Seq<char>)
    requires
        loosened(a, b),
    ensures
        same_parse(factor_parse(a), factor_parse(b)),
    decreases a.len(), 0nat,
{
    reveal(factor_parse);
    reveal(atomic_parse);
    lemma_keywords_are_words();
    lemma_symbol_spacing("*"@, None, a, b);
    lemma_token_suffix(a, "*"@);
    if let (Step::Match(_, a1), Step::Match(_, b1)) = (symbol_step("*"@, a), symbol_step("*"@, b)) {
        lemma_aligned_is_loosened(a1, b1);
        lemma_atomic_spacing(a1, b1);
    }
}

/// A fold of factors is read alike at the front of aligned texts.
pub proof fn lemma_product_fold_spacing(acc: Tree, a: Seq<char>, b: Seq<char>)
    requires
        aligned(a, b),
    ensures
        same_parse(product_fold(acc, a), product_fold(acc, b)),
    decreases a.len(), 1nat,
{
    reveal(product_fold);
    reveal(factor_parse);
    lemma_aligned_is_loosened(a, b);
    lemma_factor_spacing(a, b);
    lemma_factor_shrinks(a);
    lemma_factor_shrinks(b);
    if let (Step::Match(rhs, a1), Step::Match(_, b1)) = (factor_parse(a).step, factor_parse(b).step) {
        lemma_product_fold_spacing(Tree::Multiplication(Box::new(acc), Box::new(rhs)), a1, b1);
    }
}

/// The multiplicative level is read alike in both texts.
pub proof fn lemma_level_1_spacing(a: Seq<char>, b: Seq<char>)
    requires
        loosened(a, b),
    ensures
        same_parse(level_1_parse(a), level_1_parse(b)),
    decreases a.len(), 2nat,
{
    reveal(level_1_parse);
    reveal(atomic_parse);
    reveal(factor_parse);
    reveal(product_fold);
    lemma_atomic_spacing(a, b);
    lemma_atomic_shrinks(a);
    lemma_atomic_shrinks(b);
    if let (Step::Match(lhs, a1), Step::Match(_, b1)) = (atomic_parse(a).step, atomic_parse(b).step) {
        lemma_aligned_is_loosened(a1, b1);
        lemma_factor_spacing(a1, b1);
        lemma_factor_shrinks(a1);
        lemma_factor_shrinks(b1);
        if let (Step::Match(rhs, a2), Step::Match(_, b2)) = (
            factor_parse(a1).step,
            factor_parse(b1).step,
        ) {
            lemma_product_fold_spacing(
                Tree::Multiplication(Box::new(lhs), Box::new(rhs)),
                a2,
                b2,
            );
        }
    }
}

/// An operand is read alike in both texts.
pub proof fn lemma_term_spacing(a: Seq<char>, b: Seq<char>)
    requires
        loosened(a, b),
    ensures
        same_parse(term_parse(a), term_parse(b)),
    decreases a.len(), 3nat,
{
    reveal(term_parse);
    reveal(level_1_parse);
    reveal(atomic_parse);
    lemma_level_1_spacing(a, b);
    lemma_atomic_spacing(a, b);
}

/// A summand is read alike at the front of aligned texts.
pub proof fn lemma_summand_spacing(a: Seq<char>, b: Seq<char>)
    requires
        aligned(a, b),
    ensures
        same_parse(summand_parse(a), summand_parse(b)),
    decreases a.len(), 0nat,
{
    reveal(summand_parse);
    reveal(term_parse);
    lemma_operator_spacing(a, b);
    lemma_operator_suffix(a);
    if let (Step::Match(_, a1), Step::Match(_, b1)) = (operator_step(a), operator_step(b)) {
        lemma_term_spacing(a1, b1);
    }
}

/// A fold of summands is read alike at the front of aligned texts.
pub proof fn lemma_sum_fold_spacing(acc: Tree, a: Seq<char>, b: Seq<char>)
    requires
        aligned(a, b),
    ensures
        same_parse(sum_fold(acc, a), sum_fold(acc, b)),
    decreases a.len(), 1nat,
{
    reveal(sum_fold);
    reveal(summand_parse);
    lemma_summand_spacing(a, b);
    lemma_summand_shrinks(a);
    lemma_summand_shrinks(b);
    if let (Step::Match((operator, rhs), a1), Step::Match(_, b1)) = (
        summand_parse(a).step,
        summand_parse(b).step,
    ) {
        lemma_sum_fold_spacing(operator.tree(acc, rhs), a1, b1);
    }
}

/// The additive level is read alike in both texts.
pub proof fn lemma_level_0_spacing(a: Seq<char>, b: Seq<char>)
    requires
        loosened(a, b),
    ensures
        same_parse(level_0_parse(a), level_0_parse(b)),
    decreases a.len(), 4nat,
{
    reveal(level_0_parse);
    reveal(term_parse);
    reveal(summand_parse);
    reveal(sum_fold);
    lemma_term_spacing(a, b);
    lemma_term_shrinks(a);
    lemma_term_shrinks(b);
    if let (Step::Match(lhs, a1), Step::Match(_, b1)) = (term_parse(a).step, term_parse(b).step) {
        lemma_summand_spacing(a1, b1);
        lemma_summand_shrinks(a1);
        lemma_summand_shrinks(b1);
        if let (Step::Match((operator, rhs), a2), Step::Match(_, b2)) = (
            summand_parse(a1).step,
            summand_parse(b1).step,
        ) {
            lemma_sum_fold_spacing(operator.tree(lhs, rhs), a2, b2);
        }
    }
}

/// A general expression is read alike in both texts.
pub proof fn lemma_expr_spacing(a: Seq<char>, b: Seq<char>)
    requires
        loosened(a, b),
    ensures
        same_parse(expr_parse(a), expr_parse(b)),
    decreases a.len(), 5nat,
{
    reveal(expr_parse);
    reveal(level_0_parse);
    reveal(level_1_parse);
    reveal(atomic_parse);
    lemma_level_0_spacing(a, b);
    lemma_level_1_spacing(a, b);
    lemma_atomic_spacing(a, b);
    lemma_or_else_spacing(level_1_parse(a), atomic_parse(a), level_1_parse(b), atomic_parse(b));
}

/// A binding clause is read alike in both texts.
pub proof fn lemma_binding_spacing(a: Seq<char>, b: Seq<char>)
    requires
        loosened(a, b),
    ensures
        same_parse(binding_parse(a), binding_parse(b)),
    decreases a.len(), 0nat,
{
    reveal(binding_parse);
    reveal(expr_parse);
    lemma_keywords_are_words();
    lemma_keyword_spacing(kw_let(), None, a, b);
    lemma_token_suffix(a, kw_let());
    if let (Step::Match(_, a1), Step::Match(_, b1)) = (
        keyword_step(kw_let(), a),
        keyword_step(kw_let(), b),
    ) {
        lemma_aligned_is_loosened(a1, b1);
        lemma_ident_spacing(None, a1, b1);
        lemma_ident_suffix(a1);
        if let (Step::Match(_, a2), Step::Match(_, b2)) = (ident_step(a1), ident_step(b1)) {
            lemma_aligned_is_loosened(a2, b2);
            lemma_symbol_spacing("="@, None, a2, b2);
            lemma_token_suffix(a2, "="@);
            let a3 = expect_step(symbol_step("="@, a2)).step->Match_1;
            let b3 = expect_step(symbol_step("="@, b2)).step->Match_1;
            lemma_aligned_is_loosened(a3, b3);
            lemma_expr_spacing(a3, b3);
            if let (Step::Match(_, a4), Step::Match(_, b4)) = (
                expr_parse(a3).step,
                expr_parse(b3).step,
            ) {
                lemma_aligned_is_loosened(a4, b4);
                lemma_symbol_spacing(";"@, None, a4, b4);
            }
        }
    }
}

/// A repetition of binding clauses is read alike at the front of aligned
/// texts.
pub proof fn lemma_more_bindings_spacing(a: Seq<char>, b: Seq<char>)
    requires
        aligned(a, b),
    ensures
        same_parse(more_bindings(a), more_bindings(b)),
    decreases a.len(), 1nat,
{
    reveal(more_bindings);
    reveal(binding_parse);
    lemma_aligned_is_loosened(a, b);
    lemma_binding_spacing(a, b);
    lemma_binding_shrinks(a);
    lemma_binding_shrinks(b);
    if let (Step::Match(_, a1), Step::Match(_, b1)) = (binding_parse(a).step, binding_parse(b).step) {
        lemma_more_bindings_spacing(a1, b1);
    }
}

/// Bindings are read alike in both texts.
pub proof fn lemma_bindings_spacing(a: Seq<char>, b: Seq<char>)
    requires
        loosened(a, b),
    ensures
        same_parse(bindings_parse(a), bindings_parse(b)),
    decreases a.len(), 6nat,
{
    reveal(bindings_parse);
    reveal(binding_parse);
    reveal(more_bindings);
    reveal(expr_parse);
    lemma_binding_spacing(a, b);
    lemma_binding_shrinks(a);
    lemma_binding_shrinks(b);
    if let (Step::Match(_, a1), Step::Match(_, b1)) = (binding_parse(a).step, binding_parse(b).step) {
        lemma_more_bindings_spacing(a1, b1);
        lemma_more_bindings_within(a1);
        lemma_more_bindings_within(b1);
        if let (Step::Match(_, a2), Step::Match(_, b2)) = (
            more_bindings(a1).step,
            more_bindings(b1).step,
        ) {
            lemma_aligned_is_loosened(a2, b2);
            lemma_expr_spacing(a2, b2);
        }
    }
}

/// A program is read alike in both texts.
pub proof fn lemma_program_spacing(a: Seq<char>, b: Seq<char>)
    requires
        loosened(a, b),
    ensures
        same_parse(program_parse(a), program_parse(b)),
    decreases a.len(), 7nat,
{
    reveal(program_parse);
    reveal(bindings_parse);
    reveal(expr_parse);
    lemma_bindings_spacing(a, b);
    lemma_expr_spacing(a, b);
}

/// Inserted whitespace is ignored. If `b` is `a` with whitespace inserted
/// anywhere but inside a word, between a word and a letter that follows it,
/// or between a minus sign and a digit that follows it, then parsing `b`
/// gives what parsing `a` gives: the same tree or the same kind of failure,
/// and as many diagnostics. In particular, if `a` is a program, `b` is the
/// same program.
pub proof fn lemma_inserted_whitespace_is_ignored(a: Seq<char>, b: Seq<char>)
    requires
        loosened(a, b),
    ensures
        match (parse_outcome(a), parse_outcome(b)) {
            (Ok(tree), Ok(other)) => tree == other,
            (Err((kind, _)), Err((other, _))) => kind == other,
            _ => false,
        },
        parse_outcome(a) is Ok ==> parse_outcome(b) == parse_outcome(a),
        program_parse(a).diagnostics == program_parse(b).diagnostics,
{
    lemma_program_spacing(a, b);
}

} // verus!
