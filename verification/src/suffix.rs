//! No rule rewinds, and every rule reads plain text: what a rule leaves is a
//! suffix of what it was given, what it has read by then is made of one-byte
//! characters, and a rule that matches has read something.

use vstd::prelude::*;
use vstd::utf8::{encode_utf8, is_ascii_chars, is_ascii_chars_encode_utf8};
use crate::ast::Tree;
use crate::cursor::is_suffix;
use crate::grammar::{
    atomic_parse, binding_parse, bindings_parse, block_parse, branches_parse, expect_step,
    expr_parse, factor_parse, ident_step, if_else_parse, integer_step, keyword_step, kw_else, kw_if,
    kw_let, level_0_parse, level_1_parse, more_bindings, operator_step, parse_outcome, product_fold,
    program_parse, skip_space, sum_fold, summand_parse, symbol_step, term_parse,
};
use crate::outcome::{confined, Parse, Step};
use crate::text::{leading_run, lemma_leading_run, CharClass};

verus! {

/// Whether reading from `whole` can leave `tail`: `tail` is a suffix of
/// `whole`, and what stands before it is made of ASCII characters only.
pub open spec fn reads(tail: Seq<char>, whole: Seq<char>) -> bool {
    is_suffix(tail, whole) && is_ascii_chars(whole.take(whole.len() - tail.len()))
}

/// Reading on from where reading stopped is reading.
pub proof fn lemma_reads_trans(a: Seq<char>, b: Seq<char>, c: Seq<char>)
    requires
        reads(a, b),
        reads(b, c),
    ensures
        reads(a, c),
{
    let n = c.len() - b.len();
    let m = b.len() - a.len();
    assert(c.skip(c.len() - a.len()) =~= c.skip(n).skip(m));
    assert forall|i: int| 0 <= i < n + m implies '\0' <= #[trigger] c.take(n + m)[i]
        <= '\u{7f}' by {
        if i < n {
            assert(c.take(n + m)[i] == c.take(n)[i]);
        } else {
            assert(c.take(n + m)[i] == c.skip(n).take(m)[i - n]);
        }
    }
}

/// Nothing read is reading.
pub proof fn lemma_reads_refl(s: Seq<char>)
    ensures
        reads(s, s),
{
    assert(s.skip(0) =~= s);
}

/// Skipping ASCII characters is reading.
pub proof fn lemma_reads_skip(s: Seq<char>, n: int)
    requires
        0 <= n <= s.len(),
        forall|i: int| 0 <= i < n ==> '\0' <= #[trigger] s[i] <= '\u{7f}',
    ensures
        reads(s.skip(n), s),
{
}

/// Skipping whitespace is reading.
pub proof fn lemma_skip_space_reads(s: Seq<char>)
    ensures
        reads(skip_space(s), s),
{
    lemma_leading_run(s, CharClass::Space);
    lemma_reads_skip(s, leading_run(s, CharClass::Space) as int);
}

/// A punctuation mark or a keyword of ASCII characters is read from a text
/// if it matches, and misses where reading can have led.
pub proof fn lemma_token_reads(s: Seq<char>, t: Seq<char>)
    requires
        is_ascii_chars(t),
    ensures
        symbol_step(t, s) matches Step::Match(_, rest) ==> reads(rest, s) && rest.len() + t.len()
            <= s.len(),
        symbol_step(t, s) matches Step::Miss(_, at) ==> reads(at, s),
        keyword_step(t, s) matches Step::Match(_, rest) ==> reads(rest, s) && rest.len()
            + t.len() <= s.len(),
        keyword_step(t, s) matches Step::Miss(_, at) ==> reads(at, s),
        expect_step(symbol_step(t, s)).step matches Step::Match(_, rest) && reads(rest, s),
{
    reveal(symbol_step);
    reveal(keyword_step);
    lemma_skip_space_reads(s);
    lemma_reads_refl(s);
    let start = skip_space(s);
    if t.is_prefix_of(start) {
        let rest = start.skip(t.len() as int);
        assert forall|i: int| 0 <= i < t.len() implies '\0' <= #[trigger] start[i]
            <= '\u{7f}' by {
            assert(start.subrange(0, t.len() as int)[i] == t[i]);
        }
        lemma_reads_skip(start, t.len() as int);
        lemma_skip_space_reads(rest);
        lemma_reads_trans(rest, start, s);
        lemma_reads_trans(skip_space(rest), rest, s);
    }
}

/// A name is read from a text if it matches, and misses where reading can
/// have led.
pub proof fn lemma_ident_reads(s: Seq<char>)
    ensures
        ident_step(s) matches Step::Match(name, rest) ==> reads(rest, s) && rest.len() < s.len(),
        ident_step(s) matches Step::Miss(_, at) ==> reads(at, s),
{
    reveal(ident_step);
    lemma_skip_space_reads(s);
    let start = skip_space(s);
    if start.len() > 0 && (CharClass::Alpha.holds(start[0]) || start[0] == '_') {
        lemma_leading_run(start.skip(1), CharClass::Word);
        let n = 1 + leading_run(start.skip(1), CharClass::Word);
        let rest = start.skip(n as int);
        assert forall|i: int| 0 <= i < n implies '\0' <= #[trigger] start[i] <= '\u{7f}' by {
            if i > 0 {
                assert(start[i] == start.skip(1)[i - 1]);
            }
        }
        lemma_reads_skip(start, n as int);
        lemma_skip_space_reads(rest);
        lemma_reads_trans(rest, start, s);
        lemma_reads_trans(skip_space(rest), rest, s);
    }
}

/// An integer literal is read from a text if it matches, and misses where
/// reading can have led.
pub proof fn lemma_integer_reads(s: Seq<char>)
    ensures
        integer_step(s) matches Step::Match(_, rest) ==> reads(rest, s) && rest.len() < s.len(),
        integer_step(s) matches Step::Miss(_, at) ==> reads(at, s),
{
    reveal(integer_step);
    lemma_skip_space_reads(s);
    let start = skip_space(s);
    let body = if start.len() > 0 && start[0] == '-' {
        start.skip(1)
    } else {
        start
    };
    if start.len() > 0 && start[0] == '-' {
        lemma_reads_skip(start, 1);
    } else {
        lemma_reads_refl(start);
    }
    lemma_reads_trans(body, start, s);
    lemma_leading_run(body, CharClass::Digit);
    let m = leading_run(body, CharClass::Digit);
    let left = body.skip(m as int);
    lemma_reads_skip(body, m as int);
    lemma_skip_space_reads(left);
    lemma_reads_trans(left, body, s);
    lemma_reads_trans(skip_space(left), left, s);
}

/// An operator is read from a text if it matches, and misses at once.
pub proof fn lemma_operator_reads(s: Seq<char>)
    ensures
        operator_step(s) matches Step::Match(_, rest) ==> reads(rest, s) && rest.len() + 1
            == s.len(),
        operator_step(s) matches Step::Miss(_, at) ==> reads(at, s),
{
    reveal(operator_step);
    if s.len() > 0 && (s[0] == '+' || s[0] == '-') {
        lemma_reads_skip(s, 1);
    }
    lemma_reads_refl(s);
}

/// The literals of the grammar are ASCII texts.
pub proof fn lemma_literals_are_ascii()
    ensures
        is_ascii_chars(kw_if()) && kw_if().len() == 2,
        is_ascii_chars(kw_else()) && kw_else().len() == 4,
        is_ascii_chars(kw_let()) && kw_let().len() == 3,
        is_ascii_chars("{"@) && "{"@.len() == 1,
        is_ascii_chars("}"@) && "}"@.len() == 1,
        is_ascii_chars("="@) && "="@.len() == 1,
        is_ascii_chars(";"@) && ";"@.len() == 1,
        is_ascii_chars("*"@) && "*"@.len() == 1,
{
    reveal_strlit("if");
    reveal_strlit("else");
    reveal_strlit("let");
    reveal_strlit("{");
    reveal_strlit("}");
    reveal_strlit("=");
    reveal_strlit(";");
    reveal_strlit("*");
}

/// Whether the outcome `p` of a rule on `s` is one that reading from `s` can
/// lead to: it leaves a suffix of `s`, after a match or at the point of
/// failure, with only ASCII characters before it.
pub open spec fn within<T>(p: Parse<T>, s: Seq<char>) -> bool {
    match p.step {
        Step::Match(_, rest) => reads(rest, s),
        Step::Miss(_, at) => reads(at, s),
    }
}

/// Whether the outcome `p` of a rule on `s` is [`within`] `s`, and leaves a
/// shorter text than `s` if it is a match.
pub open spec fn shrinks<T>(p: Parse<T>, s: Seq<char>) -> bool {
    within(p, s) && (p.step matches Step::Match(_, rest) ==> rest.len() < s.len())
}

/// An outcome within the text it was worked out from is what [`confined`]
/// leaves alone.
pub proof fn lemma_confined<T>(p: Parse<T>, s: Seq<char>)
    requires
        within(p, s),
    ensures
        confined(p, s) == p,
{
}

/// What stays within a text read from `s` stays within `s`, and shrinks `s`
/// if that text is shorter than `s` or the outcome shrinks it.
pub proof fn lemma_within_from<T>(p: Parse<T>, mid: Seq<char>, s: Seq<char>)
    requires
        reads(mid, s),
        within(p, mid),
    ensures
        within(p, s),
        mid.len() < s.len() || shrinks(p, mid) ==> shrinks(p, s),
{
    match p.step {
        Step::Match(_, rest) => lemma_reads_trans(rest, mid, s),
        Step::Miss(_, at) => lemma_reads_trans(at, mid, s),
    }
}

/// The two branches of a conditional, if they match, have read something,
/// and leave a suffix.
pub proof fn lemma_branches_shrinks(s: Seq<char>)
    ensures
        shrinks(branches_parse(s), s),
    decreases s.len(), 1nat,
{
    reveal(branches_parse);
    reveal(block_parse);
    lemma_literals_are_ascii();
    lemma_block_shrinks(s);
    if let Step::Match(_, r1) = block_parse(s).step {
        lemma_token_reads(r1, kw_else());
        match keyword_step(kw_else(), r1) {
            Step::Match(_, r2) => {
                lemma_reads_trans(r2, r1, s);
                lemma_block_shrinks(r2);
                lemma_within_from(block_parse(r2), r2, s);
            },
            Step::Miss(_, at) => {
                lemma_reads_trans(at, r1, s);
            },
        }
    }
}

/// A conditional that matches has read something, and leaves a suffix.
pub proof fn lemma_if_else_shrinks(s: Seq<char>)
    ensures
        shrinks(if_else_parse(s), s),
    decreases s.len(), 0nat,
{
    reveal(if_else_parse);
    reveal(expr_parse);
    reveal(branches_parse);
    lemma_literals_are_ascii();
    lemma_token_reads(s, kw_if());
    if let Step::Match(_, r1) = keyword_step(kw_if(), s) {
        lemma_expr_shrinks(r1);
        lemma_within_from(expr_parse(r1), r1, s);
        if let Step::Match(_, r2) = expr_parse(r1).step {
            lemma_branches_shrinks(r2);
            lemma_within_from(branches_parse(r2), r2, s);
        }
    }
}

/// A block that matches has read something, and leaves a suffix.
pub proof fn lemma_block_shrinks(s: Seq<char>)
    ensures
        shrinks(block_parse(s), s),
    decreases s.len(), 0nat,
{
    reveal(block_parse);
    reveal(program_parse);
    lemma_literals_are_ascii();
    lemma_token_reads(s, "{"@);
    if let Step::Match(_, r1) = symbol_step("{"@, s) {
        lemma_program_shrinks(r1);
        lemma_within_from(program_parse(r1), r1, s);
        if let Step::Match(_, r2) = program_parse(r1).step {
            lemma_token_reads(r2, "}"@);
            match symbol_step("}"@, r2) {
                Step::Match(_, r3) => lemma_reads_trans(r3, r2, s),
                Step::Miss(_, at) => lemma_reads_trans(at, r2, s),
            }
        }
    }
}

/// An atomic term that matches has read something, and leaves a suffix.
pub proof fn lemma_atomic_shrinks(s: Seq<char>)
    ensures
        shrinks(atomic_parse(s), s),
    decreases s.len(), 1nat,
{
    reveal(atomic_parse);
    reveal(if_else_parse);
    reveal(block_parse);
    lemma_integer_reads(s);
    lemma_if_else_shrinks(s);
    lemma_block_shrinks(s);
    lemma_ident_reads(s);
}

/// A factor that matches has read something, and leaves a suffix.
pub proof fn lemma_factor_shrinks(s: Seq<char>)
    ensures
        shrinks(factor_parse(s), s),
    decreases s.len(), 0nat,
{
    reveal(factor_parse);
    reveal(atomic_parse);
    lemma_literals_are_ascii();
    lemma_token_reads(s, "*"@);
    if let Step::Match(_, r1) = symbol_step("*"@, s) {
        lemma_atomic_shrinks(r1);
        lemma_within_from(atomic_parse(r1), r1, s);
    }
}

/// A fold of factors leaves a suffix.
pub proof fn lemma_product_fold_within(acc: Tree, s: Seq<char>)
    ensures
        within(product_fold(acc, s), s),
    decreases s.len(), 1nat,
{
    reveal(product_fold);
    reveal(factor_parse);
    lemma_factor_shrinks(s);
    lemma_reads_refl(s);
    if let Step::Match(rhs, rest) = factor_parse(s).step {
        let next = Tree::Multiplication(Box::new(acc), Box::new(rhs));
        lemma_product_fold_within(next, rest);
        lemma_within_from(product_fold(next, rest), rest, s);
    }
}

/// The multiplicative level, if it matches, has read something, and leaves
/// a suffix.
pub proof fn lemma_level_1_shrinks(s: Seq<char>)
    ensures
        shrinks(level_1_parse(s), s),
    decreases s.len(), 2nat,
{
    reveal(level_1_parse);
    reveal(atomic_parse);
    reveal(factor_parse);
    reveal(product_fold);
    lemma_atomic_shrinks(s);
    if let Step::Match(lhs, r1) = atomic_parse(s).step {
        lemma_factor_shrinks(r1);
        if let Step::Match(rhs, r2) = factor_parse(r1).step {
            let product = Tree::Multiplication(Box::new(lhs), Box::new(rhs));
            lemma_reads_trans(r2, r1, s);
            lemma_product_fold_within(product, r2);
            lemma_within_from(product_fold(product, r2), r2, s);
        }
    }
}

/// An operand that matches has read something, and leaves a suffix.
pub proof fn lemma_term_shrinks(s: Seq<char>)
    ensures
        shrinks(term_parse(s), s),
    decreases s.len(), 3nat,
{
    reveal(term_parse);
    reveal(level_1_parse);
    reveal(atomic_parse);
    lemma_level_1_shrinks(s);
    lemma_atomic_shrinks(s);
}

/// A summand that matches has read something, and leaves a suffix.
pub proof fn lemma_summand_shrinks(s: Seq<char>)
    ensures
        shrinks(summand_parse(s), s),
    decreases s.len(), 0nat,
{
    reveal(summand_parse);
    reveal(term_parse);
    lemma_operator_reads(s);
    if let Step::Match(_, r1) = operator_step(s) {
        lemma_term_shrinks(r1);
        match term_parse(r1).step {
            Step::Match(_, r2) => lemma_reads_trans(r2, r1, s),
            Step::Miss(_, at) => lemma_reads_trans(at, r1, s),
        }
    }
}

/// A fold of summands leaves a suffix.
pub proof fn lemma_sum_fold_within(acc: Tree, s: Seq<char>)
    ensures
        within(sum_fold(acc, s), s),
    decreases s.len(), 1nat,
{
    reveal(sum_fold);
    reveal(summand_parse);
    lemma_summand_shrinks(s);
    lemma_reads_refl(s);
    if let Step::Match((operator, rhs), rest) = summand_parse(s).step {
        let next = operator.tree(acc, rhs);
        lemma_sum_fold_within(next, rest);
        lemma_within_from(sum_fold(next, rest), rest, s);
    }
}

/// The additive level, if it matches, has read something, and leaves a
/// suffix.
pub proof fn lemma_level_0_shrinks(s: Seq<char>)
    ensures
        shrinks(level_0_parse(s), s),
    decreases s.len(), 4nat,
{
    reveal(level_0_parse);
    reveal(term_parse);
    reveal(summand_parse);
    reveal(sum_fold);
    lemma_term_shrinks(s);
    if let Step::Match(lhs, r1) = term_parse(s).step {
        lemma_summand_shrinks(r1);
        if let Step::Match((operator, rhs), r2) = summand_parse(r1).step {
            let sum = operator.tree(lhs, rhs);
            lemma_reads_trans(r2, r1, s);
            lemma_sum_fold_within(sum, r2);
            lemma_within_from(sum_fold(sum, r2), r2, s);
        }
    }
}

/// A general expression that matches has read something, and leaves a
/// suffix.
pub proof fn lemma_expr_shrinks(s: Seq<char>)
    ensures
        shrinks(expr_parse(s), s),
    decreases s.len(), 5nat,
{
    reveal(expr_parse);
    reveal(level_0_parse);
    reveal(level_1_parse);
    reveal(atomic_parse);
    lemma_level_0_shrinks(s);
    lemma_level_1_shrinks(s);
    lemma_atomic_shrinks(s);
}

/// A binding clause that matches has read something, and leaves a suffix.
pub proof fn lemma_binding_shrinks(s: Seq<char>)
    ensures
        shrinks(binding_parse(s), s),
    decreases s.len(), 0nat,
{
    reveal(binding_parse);
    reveal(expr_parse);
    lemma_literals_are_ascii();
    lemma_token_reads(s, kw_let());
    if let Step::Match(_, r1) = keyword_step(kw_let(), s) {
        lemma_ident_reads(r1);
        match ident_step(r1) {
            Step::Match(_, r2) => {
                lemma_reads_trans(r2, r1, s);
                lemma_token_reads(r2, "="@);
                let r3 = expect_step(symbol_step("="@, r2)).step->Match_1;
                lemma_reads_trans(r3, r2, s);
                lemma_expr_shrinks(r3);
                lemma_within_from(expr_parse(r3), r3, s);
                if let Step::Match(_, r4) = expr_parse(r3).step {
                    lemma_token_reads(r4, ";"@);
                    let r5 = expect_step(symbol_step(";"@, r4)).step->Match_1;
                    lemma_reads_trans(r5, r4, s);
                }
            },
            Step::Miss(_, at) => lemma_reads_trans(at, r1, s),
        }
    }
}

/// A repetition of binding clauses leaves a suffix.
pub proof fn lemma_more_bindings_within(s: Seq<char>)
    ensures
        within(more_bindings(s), s),
    decreases s.len(), 1nat,
{
    reveal(more_bindings);
    reveal(binding_parse);
    lemma_binding_shrinks(s);
    lemma_reads_refl(s);
    if let Step::Match(_, rest) = binding_parse(s).step {
        lemma_more_bindings_within(rest);
        lemma_within_from(more_bindings(rest), rest, s);
    }
}

/// Bindings that match have read something, and leave a suffix.
pub proof fn lemma_bindings_shrinks(s: Seq<char>)
    ensures
        shrinks(bindings_parse(s), s),
    decreases s.len(), 6nat,
{
    reveal(bindings_parse);
    reveal(binding_parse);
    reveal(more_bindings);
    reveal(expr_parse);
    lemma_binding_shrinks(s);
    if let Step::Match(_, r1) = binding_parse(s).step {
        lemma_more_bindings_within(r1);
        lemma_within_from(more_bindings(r1), r1, s);
        if let Step::Match(_, r2) = more_bindings(r1).step {
            lemma_expr_shrinks(r2);
            lemma_within_from(expr_parse(r2), r2, s);
        }
    }
}

/// A program, or the inside of a block, that matches has read something,
/// and leaves a suffix.
pub proof fn lemma_program_shrinks(s: Seq<char>)
    ensures
        shrinks(program_parse(s), s),
    decreases s.len(), 7nat,
{
    reveal(program_parse);
    reveal(bindings_parse);
    reveal(expr_parse);
    lemma_bindings_shrinks(s);
    lemma_expr_shrinks(s);
}

/// A parse fails where reading can have led: at a suffix of the text, with
/// only one-byte characters before it, so that the number of characters
/// before the point of failure is also the number of bytes before it. A
/// parse of the empty text fails.
pub proof fn lemma_parse_outcome(text: Seq<char>)
    ensures
        parse_outcome(text) matches Err((_, at)) ==> {
            &&& is_suffix(at, text)
            &&& is_ascii_chars(text.take(text.len() - at.len()))
            &&& encode_utf8(text.take(text.len() - at.len())).len() == text.len() - at.len()
        },
        text.len() == 0 ==> parse_outcome(text) is Err,
{
    lemma_program_shrinks(text);
    if let Err((_, at)) = parse_outcome(text) {
        is_ascii_chars_encode_utf8(text.take(text.len() - at.len()));
    }
}

} // verus!
