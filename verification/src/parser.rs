//! The grammar rules as functions on a cursor, each verified against what
//! the grammar says of the text that is left.

use vstd::prelude::*;
use vstd::utf8::encode_utf8;
use crate::ast::{Binding, ExprKind, Level0Operator, Tree};
use crate::context::ParsingContext;
use crate::cursor::{is_suffix, lemma_at_at, lemma_at_offset, lemma_at_self, Cursor, Location};
use crate::error::{ErrorKind, Failure, ParseError};
use crate::grammar::{
    atomic_parse, binding_parse, bindings_parse, block_parse, branches_parse, expect_step,
    expr_parse, factor_parse, ident_expr_step, ident_step, if_else_parse, keyword_step, kw_else,
    kw_if, kw_let, lemma_ident_suffix, lemma_operator_suffix, lemma_token_suffix, level_0_parse,
    level_1_parse, more_bindings, parse_outcome, product_fold, program_parse, sum_fold,
    summand_parse, symbol_step, term_parse,
};
use crate::outcome::{
    after_diagnostics, follows, lemma_follows_from, lemma_recorded, missing_token, performs,
    recorded, Parse, Step,
};
use crate::lexer::{ident, integer, keyword, level_0_operator, space_insignificant};
use crate::suffix::lemma_parse_outcome;

verus! {

/// Matches `*`, with any whitespace around it.
pub fn star<'a>(input: Cursor<'a>) -> (r: Result<(Cursor<'a>, ()), Failure<'a>>)
    ensures
        follows(input@, r, symbol_step("*"@, input@.rest)),
{
    space_insignificant("*", input)
}

/// Matches `=`, with any whitespace around it.
pub fn equal<'a>(input: Cursor<'a>) -> (r: Result<(Cursor<'a>, ()), Failure<'a>>)
    ensures
        follows(input@, r, symbol_step("="@, input@.rest)),
{
    space_insignificant("=", input)
}

/// Matches `;`, with any whitespace around it.
pub fn semicolon<'a>(input: Cursor<'a>) -> (r: Result<(Cursor<'a>, ()), Failure<'a>>)
    ensures
        follows(input@, r, symbol_step(";"@, input@.rest)),
{
    space_insignificant(";", input)
}

/// Matches `{`, with any whitespace around it.
pub fn left_curly<'a>(input: Cursor<'a>) -> (r: Result<(Cursor<'a>, ()), Failure<'a>>)
    ensures
        follows(input@, r, symbol_step("{"@, input@.rest)),
{
    space_insignificant("{", input)
}

/// Matches `}`, with any whitespace around it.
pub fn right_curly<'a>(input: Cursor<'a>) -> (r: Result<(Cursor<'a>, ()), Failure<'a>>)
    ensures
        follows(input@, r, symbol_step("}"@, input@.rest)),
{
    space_insignificant("}", input)
}

/// Matches the keyword `if`.
pub fn if_<'a>(input: Cursor<'a>) -> (r: Result<(Cursor<'a>, ()), Failure<'a>>)
    ensures
        follows(input@, r, keyword_step(kw_if(), input@.rest)),
{
    keyword("if", input)
}

/// Matches the keyword `else`.
pub fn else_<'a>(input: Cursor<'a>) -> (r: Result<(Cursor<'a>, ()), Failure<'a>>)
    ensures
        follows(input@, r, keyword_step(kw_else(), input@.rest)),
{
    keyword("else", input)
}

/// Matches the keyword `let`.
pub fn let_<'a>(input: Cursor<'a>) -> (r: Result<(Cursor<'a>, ()), Failure<'a>>)
    ensures
        follows(input@, r, keyword_step(kw_let(), input@.rest)),
{
    keyword("let", input)
}

/// Matches a reference to a name.
pub fn ident_expr<'a>(input: Cursor<'a>) -> (r: Result<(Cursor<'a>, ExprKind), Failure<'a>>)
    ensures
        follows(input@, r, ident_expr_step(input@.rest)),
{
    match ident(input) {
        Ok((tail, name)) => Ok((tail, ExprKind::ident(name))),
        Err(failure) => Err(failure),
    }
}

/// Records that a token is missing at `input`, and resumes there.
pub fn epsilon_recovery<'a>(input: Cursor<'a>, kind: ErrorKind, ctx: &mut ParsingContext) -> (r:
    Option<Cursor<'a>>)
    ensures
        r == Some(input),
        final(ctx)@ == old(ctx)@.push(missing_token()),
{
    ctx.add("Excepted token");
    Some(input)
}

/// Makes the outcome of an attempt at an expected token a success either
/// way: where the token is missing, a diagnostic is recorded and reading
/// resumes at the point of failure, with no value.
pub fn expect<'a, O>(outcome: Result<(Cursor<'a>, O), Failure<'a>>, ctx: &mut ParsingContext) -> (r:
    (Cursor<'a>, Option<O>))
    ensures
        match outcome {
            Ok((tail, data)) => r == (tail, Some(data)) && final(ctx)@ == old(ctx)@,
            Err(failure) => r == (failure.at, None::<O>) && final(ctx)@ == old(ctx)@.push(
                missing_token(),
            ),
        },
{
    match outcome {
        Ok((tail, data)) => (tail, Some(data)),
        Err(failure) => match epsilon_recovery(failure.at, failure.kind, ctx) {
            Some(tail) => (tail, None),
            None => (failure.at, None),
        },
    }
}

/// Matches the two branches of a conditional: a block, `else`, a block.
pub fn branches<'a>(input: Cursor<'a>, ctx: &mut ParsingContext) -> (r: Result<
    (Cursor<'a>, (ExprKind, ExprKind)),
    Failure<'a>,
>)
    ensures
        performs(input@, old(ctx)@, r, final(ctx)@, branches_parse(input@.rest)),
    decreases input@.rest.len(), 1nat,
{
    let ghost s = input@.rest;
    let ghost log = ctx@;
    proof {
        reveal(branches_parse);
        reveal(block_parse);
        lemma_recorded(log, 0, 0);
    }
    let (tail, consequent) = match block(input, ctx) {
        Ok(found) => found,
        Err(failure) => {
            return Err(failure);
        },
    };
    let ghost r1 = tail@.rest;
    let ghost d1 = block_parse(s).diagnostics;
    let keyword = else_(tail);
    proof {
        lemma_follows_from(input@, r1, keyword, keyword_step(kw_else(), r1));
        lemma_token_suffix(r1, kw_else());
    }
    let (tail, _) = match keyword {
        Ok(found) => found,
        Err(failure) => {
            return Err(failure);
        },
    };
    let ghost r2 = tail@.rest;
    let alternative = block(tail, ctx);
    proof {
        lemma_follows_from(input@, r2, alternative, block_parse(r2).step);
        lemma_recorded(log, d1, block_parse(r2).diagnostics);
    }
    match alternative {
        Ok((tail, alternative)) => Ok((tail, (consequent, alternative))),
        Err(failure) => Err(failure),
    }
}

/// Matches a conditional: `if`, a general expression, a block, `else`, a
/// block.
pub fn if_else<'a>(input: Cursor<'a>, ctx: &mut ParsingContext) -> (r: Result<
    (Cursor<'a>, ExprKind),
    Failure<'a>,
>)
    ensures
        performs(input@, old(ctx)@, r, final(ctx)@, if_else_parse(input@.rest)),
    decreases input@.rest.len(), 0nat,
{
    let ghost s = input@.rest;
    let ghost log = ctx@;
    proof {
        reveal(if_else_parse);
        reveal(expr_parse);
        reveal(branches_parse);
        reveal_strlit("if");
        lemma_recorded(log, 0, 0);
        lemma_token_suffix(s, kw_if());
    }
    let (tail, _) = match if_(input) {
        Ok(found) => found,
        Err(failure) => {
            return Err(failure);
        },
    };
    let ghost r1 = tail@.rest;
    let ghost d1 = expr_parse(r1).diagnostics;
    let condition = expr(tail, ctx);
    proof {
        lemma_follows_from(input@, r1, condition, expr_parse(r1).step);
    }
    let (tail, condition) = match condition {
        Ok(found) => found,
        Err(failure) => {
            return Err(failure);
        },
    };
    let ghost r2 = tail@.rest;
    let both = branches(tail, ctx);
    proof {
        lemma_follows_from(input@, r2, both, branches_parse(r2).step);
        lemma_recorded(log, d1, branches_parse(r2).diagnostics);
    }
    match both {
        Ok((tail, (consequent, alternative))) => Ok(
            (tail, ExprKind::if_(condition, consequent, alternative)),
        ),
        Err(failure) => Err(failure),
    }
}

/// Matches a block: `{`, bindings or else a general expression, `}`.
pub fn block<'a>(input: Cursor<'a>, ctx: &mut ParsingContext) -> (r: Result<
    (Cursor<'a>, ExprKind),
    Failure<'a>,
>)
    ensures
        performs(input@, old(ctx)@, r, final(ctx)@, block_parse(input@.rest)),
    decreases input@.rest.len(), 0nat,
{
    let ghost s = input@.rest;
    let ghost log = ctx@;
    proof {
        reveal(program_parse);
        reveal(block_parse);
        reveal_strlit("{");
        lemma_recorded(log, 0, 0);
        lemma_token_suffix(s, "{"@);
    }
    let (tail, _) = match left_curly(input) {
        Ok(found) => found,
        Err(failure) => {
            return Err(failure);
        },
    };
    let ghost r1 = tail@.rest;
    let inner = program(tail, ctx);
    proof {
        lemma_follows_from(input@, r1, inner, program_parse(r1).step);
    }
    let (tail, value) = match inner {
        Ok(found) => found,
        Err(failure) => {
            return Err(failure);
        },
    };
    let ghost r2 = tail@.rest;
    let closing = right_curly(tail);
    proof {
        lemma_follows_from(input@, r2, closing, symbol_step("}"@, r2));
    }
    match closing {
        Ok((tail, _)) => Ok((tail, value)),
        Err(failure) => Err(failure),
    }
}

/// Matches an atomic term: the first that matches of an integer literal, a
/// conditional, a block and a name.
pub fn atomic_expr<'a>(input: Cursor<'a>, ctx: &mut ParsingContext) -> (r: Result<
    (Cursor<'a>, ExprKind),
    Failure<'a>,
>)
    ensures
        performs(input@, old(ctx)@, r, final(ctx)@, atomic_parse(input@.rest)),
    decreases input@.rest.len(), 1nat,
{
    let ghost s = input@.rest;
    let ghost log = ctx@;
    proof {
        reveal(if_else_parse);
        reveal(block_parse);
        reveal(atomic_parse);
        lemma_recorded(log, 0, 0);
    }
    match integer(input) {
        Ok(found) => {
            return Ok(found);
        },
        Err(_) => {},
    }
    match if_else(input, ctx) {
        Ok(found) => {
            return Ok(found);
        },
        Err(_) => {},
    }
    proof {
        lemma_recorded(log, if_else_parse(s).diagnostics, block_parse(s).diagnostics);
    }
    match block(input, ctx) {
        Ok(found) => {
            return Ok(found);
        },
        Err(_) => {},
    }
    proof {
        lemma_recorded(log, if_else_parse(s).diagnostics + block_parse(s).diagnostics, 0);
    }
    ident_expr(input)
}

/// Matches one factor after the first: `*` and an atomic term.
pub fn factor<'a>(input: Cursor<'a>, ctx: &mut ParsingContext) -> (r: Result<
    (Cursor<'a>, ExprKind),
    Failure<'a>,
>)
    ensures
        performs(input@, old(ctx)@, r, final(ctx)@, factor_parse(input@.rest)),
    decreases input@.rest.len(), 0nat,
{
    let ghost s = input@.rest;
    proof {
        reveal(atomic_parse);
        reveal(factor_parse);
        reveal_strlit("*");
        lemma_recorded(ctx@, 0, 0);
        lemma_token_suffix(s, "*"@);
    }
    let (tail, _) = match star(input) {
        Ok(found) => found,
        Err(failure) => {
            return Err(failure);
        },
    };
    let ghost r1 = tail@.rest;
    let operand = atomic_expr(tail, ctx);
    proof {
        lemma_follows_from(input@, r1, operand, atomic_parse(r1).step);
    }
    operand
}

/// Matches as many further factors as there are, and folds them onto `acc`
/// from the left.
pub fn fold_products<'a>(acc: ExprKind, input: Cursor<'a>, ctx: &mut ParsingContext) -> (r: Result<
    (Cursor<'a>, ExprKind),
    Failure<'a>,
>)
    ensures
        performs(input@, old(ctx)@, r, final(ctx)@, product_fold(acc@, input@.rest)),
    decreases input@.rest.len(), 1nat,
{
    let ghost s = input@.rest;
    let ghost log = ctx@;
    let mut total = acc;
    let mut cur = input;
    let ghost mut done: nat = 0;
    proof {
        lemma_at_self(input@);
        lemma_recorded(log, 0, 0);
    }
    loop
        invariant_except_break
            ctx@ == recorded(log, done),
        invariant
            input@.rest == s,
            old(ctx)@ == log,
            cur@ == input@.at(cur@.rest),
            is_suffix(cur@.rest, s),
            product_fold(acc@, s) == after_diagnostics(done, product_fold(total@, cur@.rest)),
        ensures
            product_fold(acc@, s).step == Step::Match(total@, cur@.rest),
            ctx@ == recorded(log, product_fold(acc@, s).diagnostics),
        decreases cur@.rest.len(),
    {
        let ghost here = cur@.rest;
        let ghost d = factor_parse(here).diagnostics;
        let next = factor(cur, ctx);
        proof {
            reveal(product_fold);
            reveal(factor_parse);
            lemma_follows_from(input@, here, next, factor_parse(here).step);
            lemma_recorded(log, done, d);
        }
        match next {
            Err(_) => {
                break ;
            },
            Ok((tail, rhs)) => {
                proof {
                    lemma_at_offset(cur@, tail@.rest);
                }
                if tail.position().offset == cur.position().offset {
                    return Err(Failure::new(tail, ErrorKind::Many1));
                }
                proof {
                    done = done + d;
                }
                total = ExprKind::multiplication(total, rhs);
                cur = tail;
            },
        }
    }
    Ok((cur, total))
}

/// Matches the multiplicative level: an atomic term and one or more
/// factors, folded from the left.
pub fn level_1_expression<'a>(input: Cursor<'a>, ctx: &mut ParsingContext) -> (r: Result<
    (Cursor<'a>, ExprKind),
    Failure<'a>,
>)
    ensures
        performs(input@, old(ctx)@, r, final(ctx)@, level_1_parse(input@.rest)),
    decreases input@.rest.len(), 2nat,
{
    let ghost s = input@.rest;
    let ghost log = ctx@;
    proof {
        reveal(level_1_parse);
        reveal(atomic_parse);
        reveal(factor_parse);
        reveal(product_fold);
        lemma_recorded(log, 0, 0);
    }
    let (tail, first) = match atomic_expr(input, ctx) {
        Ok(found) => found,
        Err(failure) => {
            return Err(failure);
        },
    };
    let ghost r1 = tail@.rest;
    let ghost d1 = atomic_parse(s).diagnostics;
    let ghost d2 = factor_parse(r1).diagnostics;
    let next = factor(tail, ctx);
    proof {
        lemma_follows_from(input@, r1, next, factor_parse(r1).step);
        lemma_recorded(log, d1, d2);
    }
    let (tail, rhs) = match next {
        Ok(found) => found,
        Err(_) => {
            return Err(Failure::new(tail, ErrorKind::Many1));
        },
    };
    let ghost r2 = tail@.rest;
    let ghost product = Tree::Multiplication(Box::new(first@), Box::new(rhs@));
    let folded = fold_products(ExprKind::multiplication(first, rhs), tail, ctx);
    proof {
        lemma_follows_from(input@, r2, folded, product_fold(product, r2).step);
        lemma_recorded(log, d1 + d2, product_fold(product, r2).diagnostics);
    }
    folded
}

/// Matches an operand of the additive level: the multiplicative level, or
/// else an atomic term.
pub fn term<'a>(input: Cursor<'a>, ctx: &mut ParsingContext) -> (r: Result<
    (Cursor<'a>, ExprKind),
    Failure<'a>,
>)
    ensures
        performs(input@, old(ctx)@, r, final(ctx)@, term_parse(input@.rest)),
    decreases input@.rest.len(), 3nat,
{
    let ghost s = input@.rest;
    proof {
        reveal(level_1_parse);
        reveal(atomic_parse);
        reveal(term_parse);
        lemma_recorded(ctx@, level_1_parse(s).diagnostics, atomic_parse(s).diagnostics);
    }
    match level_1_expression(input, ctx) {
        Ok(found) => Ok(found),
        Err(_) => atomic_expr(input, ctx),
    }
}

/// Matches one summand after the first: `+` or `-` at the very front, and
/// an operand.
pub fn summand<'a>(input: Cursor<'a>, ctx: &mut ParsingContext) -> (r: Result<
    (Cursor<'a>, (Level0Operator, ExprKind)),
    Failure<'a>,
>)
    ensures
        performs(input@, old(ctx)@, r, final(ctx)@, summand_parse(input@.rest)),
    decreases input@.rest.len(), 0nat,
{
    let ghost s = input@.rest;
    proof {
        reveal(term_parse);
        reveal(summand_parse);
        lemma_recorded(ctx@, 0, 0);
        lemma_operator_suffix(s);
    }
    let (tail, operator) = match level_0_operator(input) {
        Ok(found) => found,
        Err(failure) => {
            return Err(failure);
        },
    };
    let ghost r1 = tail@.rest;
    let operand = term(tail, ctx);
    proof {
        lemma_follows_from(input@, r1, operand, term_parse(r1).step);
    }
    match operand {
        Ok((tail, rhs)) => Ok((tail, (operator, rhs))),
        Err(failure) => Err(failure),
    }
}

/// Matches as many further summands as there are, and folds them onto
/// `acc` from the left.
pub fn fold_sums<'a>(acc: ExprKind, input: Cursor<'a>, ctx: &mut ParsingContext) -> (r: Result<
    (Cursor<'a>, ExprKind),
    Failure<'a>,
>)
    ensures
        performs(input@, old(ctx)@, r, final(ctx)@, sum_fold(acc@, input@.rest)),
    decreases input@.rest.len(), 1nat,
{
    let ghost s = input@.rest;
    let ghost log = ctx@;
    let mut total = acc;
    let mut cur = input;
    let ghost mut done: nat = 0;
    proof {
        lemma_at_self(input@);
        lemma_recorded(log, 0, 0);
    }
    loop
        invariant_except_break
            ctx@ == recorded(log, done),
        invariant
            input@.rest == s,
            old(ctx)@ == log,
            cur@ == input@.at(cur@.rest),
            is_suffix(cur@.rest, s),
            sum_fold(acc@, s) == after_diagnostics(done, sum_fold(total@, cur@.rest)),
        ensures
            sum_fold(acc@, s).step == Step::Match(total@, cur@.rest),
            ctx@ == recorded(log, sum_fold(acc@, s).diagnostics),
        decreases cur@.rest.len(),
    {
        let ghost here = cur@.rest;
        let ghost d = summand_parse(here).diagnostics;
        let next = summand(cur, ctx);
        proof {
            reveal(sum_fold);
            reveal(summand_parse);
            lemma_follows_from(input@, here, next, summand_parse(here).step);
            lemma_recorded(log, done, d);
        }
        match next {
            Err(_) => {
                break ;
            },
            Ok((tail, (operator, rhs))) => {
                proof {
                    lemma_at_offset(cur@, tail@.rest);
                }
                if tail.position().offset == cur.position().offset {
                    return Err(Failure::new(tail, ErrorKind::Many1));
                }
                proof {
                    done = done + d;
                }
                total = operator.make_expr(total, rhs);
                cur = tail;
            },
        }
    }
    Ok((cur, total))
}

/// Matches the additive level: an operand and one or more summands, folded
/// from the left.
pub fn level_0_expression<'a>(input: Cursor<'a>, ctx: &mut ParsingContext) -> (r: Result<
    (Cursor<'a>, ExprKind),
    Failure<'a>,
>)
    ensures
        performs(input@, old(ctx)@, r, final(ctx)@, level_0_parse(input@.rest)),
    decreases input@.rest.len(), 4nat,
{
    let ghost s = input@.rest;
    let ghost log = ctx@;
    proof {
        reveal(level_0_parse);
        reveal(term_parse);
        reveal(summand_parse);
        reveal(sum_fold);
        lemma_recorded(log, 0, 0);
    }
    let (tail, first) = match term(input, ctx) {
        Ok(found) => found,
        Err(failure) => {
            return Err(failure);
        },
    };
    let ghost r1 = tail@.rest;
    let ghost d1 = term_parse(s).diagnostics;
    let ghost d2 = summand_parse(r1).diagnostics;
    let next = summand(tail, ctx);
    proof {
        lemma_follows_from(input@, r1, next, summand_parse(r1).step);
        lemma_recorded(log, d1, d2);
    }
    let (tail, (operator, rhs)) = match next {
        Ok(found) => found,
        Err(_) => {
            return Err(Failure::new(tail, ErrorKind::Many1));
        },
    };
    let ghost r2 = tail@.rest;
    let ghost sum = operator.tree(first@, rhs@);
    let folded = fold_sums(operator.make_expr(first, rhs), tail, ctx);
    proof {
        lemma_follows_from(input@, r2, folded, sum_fold(sum, r2).step);
        lemma_recorded(log, d1 + d2, sum_fold(sum, r2).diagnostics);
    }
    folded
}

/// Matches a general expression: the first that matches of the additive
/// level, the multiplicative level and an atomic term.
pub fn expr<'a>(input: Cursor<'a>, ctx: &mut ParsingContext) -> (r: Result<
    (Cursor<'a>, ExprKind),
    Failure<'a>,
>)
    ensures
        performs(input@, old(ctx)@, r, final(ctx)@, expr_parse(input@.rest)),
    decreases input@.rest.len(), 5nat,
{
    let ghost s = input@.rest;
    let ghost log = ctx@;
    proof {
        reveal(level_0_parse);
        reveal(level_1_parse);
        reveal(atomic_parse);
        reveal(expr_parse);
        lemma_recorded(log, level_0_parse(s).diagnostics, level_1_parse(s).diagnostics);
        lemma_recorded(
            log,
            level_0_parse(s).diagnostics + level_1_parse(s).diagnostics,
            atomic_parse(s).diagnostics,
        );
    }
    match level_0_expression(input, ctx) {
        Ok(found) => Ok(found),
        Err(_) => match level_1_expression(input, ctx) {
            Ok(found) => Ok(found),
            Err(_) => atomic_expr(input, ctx),
        },
    }
}

/// Matches a binding clause: `let`, a name, `=`, a general expression, `;`.
/// A missing `=` or `;` is recorded in `ctx` and does not fail the clause.
pub fn binding<'a>(input: Cursor<'a>, ctx: &mut ParsingContext) -> (r: Result<
    (Cursor<'a>, Binding),
    Failure<'a>,
>)
    ensures
        performs(input@, old(ctx)@, r, final(ctx)@, binding_parse(input@.rest)),
    decreases input@.rest.len(), 0nat,
{
    let ghost s = input@.rest;
    let ghost log = ctx@;
    proof {
        reveal(expr_parse);
        reveal(binding_parse);
        reveal_strlit("let");
        lemma_recorded(log, 0, 0);
        lemma_token_suffix(s, kw_let());
    }
    let (tail, _) = match let_(input) {
        Ok(found) => found,
        Err(failure) => {
            return Err(failure);
        },
    };
    let ghost r1 = tail@.rest;
    let name = ident(tail);
    proof {
        lemma_follows_from(input@, r1, name, ident_step(r1));
        lemma_ident_suffix(r1);
    }
    let (tail, name) = match name {
        Ok(found) => found,
        Err(failure) => {
            return Err(failure);
        },
    };
    let ghost r2 = tail@.rest;
    let ghost e1 = expect_step(symbol_step("="@, r2));
    let sign = equal(tail);
    proof {
        lemma_follows_from(input@, r2, sign, symbol_step("="@, r2));
        lemma_token_suffix(r2, "="@);
        lemma_recorded(log, 0, 1);
    }
    let (tail, _) = expect(sign, ctx);
    let ghost r3 = tail@.rest;
    let ghost d3 = expr_parse(r3).diagnostics;
    let value = expr(tail, ctx);
    proof {
        lemma_follows_from(input@, r3, value, expr_parse(r3).step);
        lemma_recorded(log, e1.diagnostics, d3);
    }
    let (tail, value) = match value {
        Ok(found) => found,
        Err(failure) => {
            return Err(failure);
        },
    };
    let ghost r4 = tail@.rest;
    let ghost e2 = expect_step(symbol_step(";"@, r4));
    let end = semicolon(tail);
    proof {
        lemma_follows_from(input@, r4, end, symbol_step(";"@, r4));
        lemma_token_suffix(r4, ";"@);
        lemma_recorded(log, e1.diagnostics + d3, e2.diagnostics);
        lemma_recorded(recorded(log, e1.diagnostics + d3), 0, 1);
    }
    let (tail, _) = expect(end, ctx);
    Ok((tail, Binding::new(name, value)))
}

/// The trees that the clauses `bs` stand for.
pub open spec fn clauses(bs: Seq<Binding>) -> Seq<(Seq<char>, Tree)> {
    Seq::new(bs.len(), |i: int| bs[i]@)
}

/// Matches as many further binding clauses as there are, and appends them
/// to `bs`.
pub fn more<'a>(bs: Vec<Binding>, input: Cursor<'a>, ctx: &mut ParsingContext) -> (r: Result<
    (Cursor<'a>, Vec<Binding>),
    Failure<'a>,
>)
    ensures
        match more_bindings(input@.rest).step {
            Step::Match(found, rest) => {
                &&& r matches Ok((tail, all))
                &&& clauses(all@) == clauses(bs@) + found
                &&& tail@ == input@.at(rest)
                &&& is_suffix(rest, input@.rest)
            },
            Step::Miss(kind, at) => {
                &&& r matches Err(failure)
                &&& failure.kind == kind
                &&& failure.at@ == input@.at(at)
                &&& is_suffix(at, input@.rest)
            },
        },
        final(ctx)@ == recorded(old(ctx)@, more_bindings(input@.rest).diagnostics),
    decreases input@.rest.len(), 1nat,
{
    let ghost s = input@.rest;
    let ghost log = ctx@;
    let ghost given = clauses(bs@);
    let mut all = bs;
    let mut cur = input;
    let ghost mut done: nat = 0;
    let ghost mut seen: Seq<(Seq<char>, Tree)> = Seq::empty();
    proof {
        lemma_at_self(input@);
        lemma_recorded(log, 0, 0);
        assert(given + seen =~= given);
        if more_bindings(s).step is Match {
            assert(seen + more_bindings(s).step->Match_0 =~= more_bindings(s).step->Match_0);
        }
    }
    loop
        invariant_except_break
            ctx@ == recorded(log, done),
        invariant
            input@.rest == s,
            old(ctx)@ == log,
            cur@ == input@.at(cur@.rest),
            is_suffix(cur@.rest, s),
            given == clauses(bs@),
            clauses(all@) == given + seen,
            more_bindings(s) == prepend(seen, done, more_bindings(cur@.rest)),
        ensures
            more_bindings(s).step == Step::Match(seen, cur@.rest),
            ctx@ == recorded(log, more_bindings(s).diagnostics),
        decreases cur@.rest.len(),
    {
        let ghost here = cur@.rest;
        let ghost d = binding_parse(here).diagnostics;
        let next = binding(cur, ctx);
        proof {
            reveal(more_bindings);
            reveal(binding_parse);
            lemma_follows_from(input@, here, next, binding_parse(here).step);
            lemma_recorded(log, done, d);
        }
        match next {
            Err(_) => {
                proof {
                    assert(seen + Seq::<(Seq<char>, Tree)>::empty() =~= seen);
                }
                break ;
            },
            Ok((tail, b)) => {
                proof {
                    lemma_at_offset(cur@, tail@.rest);
                }
                if tail.position().offset == cur.position().offset {
                    return Err(Failure::new(cur, ErrorKind::Many1));
                }
                proof {
                    let later = more_bindings(tail@.rest);
                    if later.step is Match {
                        let found = later.step->Match_0;
                        assert(seen + (seq![b@] + found) =~= seen.push(b@) + found);
                    }
                    assert(clauses(all@.push(b)) =~= clauses(all@).push(b@));
                    assert(given + seen.push(b@) =~= (given + seen).push(b@));
                    done = done + d;
                    seen = seen.push(b@);
                }
                all.push(b);
                cur = tail;
            },
        }
    }
    Ok((cur, all))
}

/// Matches bindings: one or more binding clauses and the general expression
/// that follows them.
pub fn bindings<'a>(input: Cursor<'a>, ctx: &mut ParsingContext) -> (r: Result<
    (Cursor<'a>, ExprKind),
    Failure<'a>,
>)
    ensures
        performs(input@, old(ctx)@, r, final(ctx)@, bindings_parse(input@.rest)),
    decreases input@.rest.len(), 6nat,
{
    let ghost s = input@.rest;
    let ghost log = ctx@;
    proof {
        reveal(bindings_parse);
        reveal(binding_parse);
        reveal(more_bindings);
        reveal(expr_parse);
        lemma_recorded(log, 0, 0);
    }
    let (tail, first) = match binding(input, ctx) {
        Ok(found) => found,
        Err(failure) => {
            return Err(failure);
        },
    };
    let ghost r1 = tail@.rest;
    let ghost d1 = binding_parse(s).diagnostics;
    let ghost d2 = more_bindings(r1).diagnostics;
    let ghost b1 = first@;
    let mut bs: Vec<Binding> = Vec::new();
    bs.push(first);
    assert(clauses(bs@) =~= seq![b1]);
    let others = more(bs, tail, ctx);
    proof {
        lemma_recorded(log, d1, d2);
        match more_bindings(r1).step {
            Step::Match(_, rest) => lemma_at_at(input@, r1, rest),
            Step::Miss(_, at) => lemma_at_at(input@, r1, at),
        }
    }
    let (tail, bs) = match others {
        Ok(found) => found,
        Err(failure) => {
            return Err(failure);
        },
    };
    let ghost r2 = tail@.rest;
    let ending = expr(tail, ctx);
    proof {
        lemma_follows_from(input@, r2, ending, expr_parse(r2).step);
        lemma_recorded(log, d1 + d2, expr_parse(r2).diagnostics);
    }
    match ending {
        Ok((tail, body)) => {
            let tree = ExprKind::bindings(bs, body);
            proof {
                assert(tree@->Bindings_0 =~= clauses(bs@));
            }
            Ok((tail, tree))
        },
        Err(failure) => Err(failure),
    }
}

/// The outcome `p` of the clauses that follow, after the clauses `seen` and
/// `done` diagnostics.
pub open spec fn prepend(
    seen: Seq<(Seq<char>, Tree)>,
    done: nat,
    p: Parse<Seq<(Seq<char>, Tree)>>,
) -> Parse<Seq<(Seq<char>, Tree)>> {
    Parse {
        step: match p.step {
            Step::Match(found, rest) => Step::Match(seen + found, rest),
            Step::Miss(kind, at) => Step::Miss(kind, at),
        },
        diagnostics: done + p.diagnostics,
    }
}

/// Matches a program, or the inside of a block: bindings, or else a general
/// expression.
pub fn program<'a>(input: Cursor<'a>, ctx: &mut ParsingContext) -> (r: Result<
    (Cursor<'a>, ExprKind),
    Failure<'a>,
>)
    ensures
        performs(input@, old(ctx)@, r, final(ctx)@, program_parse(input@.rest)),
    decreases input@.rest.len(), 7nat,
{
    let ghost s = input@.rest;
    proof {
        reveal(bindings_parse);
        reveal(expr_parse);
        reveal(program_parse);
        lemma_recorded(ctx@, bindings_parse(s).diagnostics, expr_parse(s).diagnostics);
    }
    match bindings(input, ctx) {
        Ok(found) => Ok(found),
        Err(_) => expr(input, ctx),
    }
}

/// Parses the whole of `input_code`. Gives the syntax tree of the program,
/// or the one failure that ended the parse, and in both cases the
/// diagnostics that were recorded on the way. A failure is located by the
/// text before it: its offset is the number of characters of that text, and
/// also the number of its bytes.
pub fn parse_input(input_code: &str) -> (r: (Result<ExprKind, ParseError>, ParsingContext))
    ensures
        match parse_outcome(input_code@) {
            Ok(tree) => r.0 matches Ok(expr) && expr@ == tree,
            Err((kind, at)) => {
                &&& r.0 matches Err(error)
                &&& error.kind == kind
                &&& error.position@ == Location::start().after(consumed_before(input_code@, at))
                &&& error.position.offset == encode_utf8(consumed_before(input_code@, at)).len()
            },
        },
        r.1@ == recorded(Seq::empty(), program_parse(input_code@).diagnostics),
{
    let mut parsing_ctxt = ParsingContext::new();
    let input = Cursor::new(input_code);
    proof {
        lemma_parse_outcome(input_code@);
        if let Err((_, at)) = parse_outcome(input_code@) {
            lemma_at_offset(input@, at);
        }
    }
    let parsing_status = match program(input, &mut parsing_ctxt) {
        Ok((tail, expr)) => {
            if tail.is_empty() {
                Ok(expr)
            } else {
                Err(own_err(Failure::new(tail, ErrorKind::TrailingInput)))
            }
        },
        Err(failure) => Err(own_err(failure)),
    };
    (parsing_status, parsing_ctxt)
}

/// The part of `text` that stands before its suffix `at`.
pub open spec fn consumed_before(text: Seq<char>, at: Seq<char>) -> Seq<char> {
    text.take(text.len() - at.len())
}

/// The failure without the text that it borrows.
pub fn own_err<'a>(failure: Failure<'a>) -> (r: ParseError)
    ensures
        r.kind == failure.kind,
        r.position@ == failure.at@.location,
{
    failure.own()
}

} // verus!
