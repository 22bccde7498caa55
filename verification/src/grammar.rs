//! The grammar as mathematics: what each token rule and each rule of the
//! grammar makes of a text.

use vstd::prelude::*;
use crate::ast::{Level0Operator, Tree};
use crate::cursor::{is_suffix, lemma_skip_is_suffix, lemma_suffix_trans};
use crate::error::ErrorKind;
use crate::outcome::{after_diagnostics, confined, or_else, quiet, Parse, Step};
use crate::text::{is_ascii_char, leading_run, lemma_leading_run, CharClass};

verus! {

/// Whether `c` has the Unicode property Alphabetic.
pub uninterp spec fn unicode_alphabetic(c: char) -> bool;

/// Whether `c` is alphabetic: among the ASCII characters the letters `a` to
/// `z` and `A` to `Z`, among the others those with the Unicode property
/// Alphabetic.
pub open spec fn alphabetic(c: char) -> bool {
    if is_ascii_char(c) {
        CharClass::Alpha.holds(c)
    } else {
        unicode_alphabetic(c)
    }
}

/// The value of a run of decimal digits.
pub open spec fn decimal(digits: Seq<char>) -> nat
    decreases digits.len(),
{
    if digits.len() == 0 {
        0
    } else {
        (10 * decimal(digits.drop_last()) + (digits.last() as nat - '0' as nat)) as nat
    }
}

/// The characters of `class` at the very front of `s`, as far as they go and
/// at least one.
pub open spec fn run_step(class: CharClass, s: Seq<char>) -> Step<Seq<char>> {
    let n = leading_run(s, class);
    if n == 0 {
        Step::Miss(class.kind(), s)
    } else {
        Step::Match(s.take(n as int), s.skip(n as int))
    }
}

/// `s` without the whitespace at its front.
pub open spec fn skip_space(s: Seq<char>) -> Seq<char> {
    s.skip(leading_run(s, CharClass::Space) as int)
}

/// The literal text `t` at the very front of `s`.
pub open spec fn tag_step(t: Seq<char>, s: Seq<char>) -> Step<Seq<char>> {
    if t.is_prefix_of(s) {
        Step::Match(t, s.skip(t.len() as int))
    } else {
        Step::Miss(ErrorKind::Tag, s)
    }
}

/// The punctuation mark `t`, with any whitespace around it.
#[verifier::opaque]
pub open spec fn symbol_step(t: Seq<char>, s: Seq<char>) -> Step<()> {
    match tag_step(t, skip_space(s)) {
        Step::Match(_, rest) => Step::Match((), skip_space(rest)),
        Step::Miss(kind, at) => Step::Miss(kind, at),
    }
}

/// The keyword `kw`: the literal text after any whitespace, not directly
/// followed by an alphabetic character, and then any whitespace.
#[verifier::opaque]
pub open spec fn keyword_step(kw: Seq<char>, s: Seq<char>) -> Step<()> {
    match tag_step(kw, skip_space(s)) {
        Step::Match(_, rest) => if rest.len() > 0 && alphabetic(rest[0]) {
            Step::Miss(ErrorKind::Tag, s)
        } else {
            Step::Match((), skip_space(rest))
        },
        Step::Miss(kind, at) => Step::Miss(kind, at),
    }
}

/// A name: a letter or an underscore, then letters, digits and underscores
/// as far as they go, with any whitespace around it.
#[verifier::opaque]
pub open spec fn ident_step(s: Seq<char>) -> Step<Seq<char>> {
    let t = skip_space(s);
    if t.len() > 0 && (CharClass::Alpha.holds(t[0]) || t[0] == '_') {
        let n = 1 + leading_run(t.skip(1), CharClass::Word);
        Step::Match(t.take(n as int), skip_space(t.skip(n as int)))
    } else {
        Step::Miss(ErrorKind::Tag, t)
    }
}

/// The value of the literal made of an optional minus sign and `digits`.
pub open spec fn literal_value(negative: bool, digits: Seq<char>) -> int {
    if negative {
        -decimal(digits)
    } else {
        decimal(digits) as int
    }
}

/// An integer literal: an optional minus sign directly followed by decimal
/// digits as far as they go, with any whitespace around it. A literal whose
/// value does not fit in 32 bits is a miss.
#[verifier::opaque]
pub open spec fn integer_step(s: Seq<char>) -> Step<Tree> {
    let t = skip_space(s);
    let negative = t.len() > 0 && t[0] == '-';
    let body = if negative {
        t.skip(1)
    } else {
        t
    };
    let n = leading_run(body, CharClass::Digit);
    let value = literal_value(negative, body.take(n as int));
    if n == 0 {
        Step::Miss(ErrorKind::Digit, body)
    } else if i32::MIN <= value <= i32::MAX {
        Step::Match(Tree::Integer(value), skip_space(body.skip(n as int)))
    } else {
        Step::Miss(ErrorKind::Overflow, t)
    }
}

/// `+` or `-` at the very front of `s`.
#[verifier::opaque]
pub open spec fn operator_step(s: Seq<char>) -> Step<Level0Operator> {
    if s.len() > 0 && s[0] == '+' {
        Step::Match(Level0Operator::Plus, s.skip(1))
    } else if s.len() > 0 && s[0] == '-' {
        Step::Match(Level0Operator::Minus, s.skip(1))
    } else {
        Step::Miss(ErrorKind::Tag, s)
    }
}

/// An expected punctuation mark: if it is missing, one diagnostic is recorded
/// and reading goes on where the mark should have started.
pub open spec fn expect_step(inner: Step<()>) -> Parse<bool> {
    match inner {
        Step::Match(_, rest) => Parse { step: Step::Match(true, rest), diagnostics: 0 },
        Step::Miss(_, at) => Parse { step: Step::Match(false, at), diagnostics: 1 },
    }
}

/// Skipping whitespace leaves a suffix.
pub proof fn lemma_skip_space(s: Seq<char>)
    ensures
        is_suffix(skip_space(s), s),
{
    lemma_leading_run(s, CharClass::Space);
    lemma_skip_is_suffix(s, leading_run(s, CharClass::Space) as int);
}

/// A token rule leaves a suffix of what it was given, shorter by at least
/// what it matched, and misses at a suffix of what it was given.
pub proof fn lemma_token_suffix(s: Seq<char>, t: Seq<char>)
    ensures
        tag_step(t, s) matches Step::Match(_, rest) ==> is_suffix(rest, s) && rest.len() + t.len()
            == s.len(),
        symbol_step(t, s) matches Step::Match(_, rest) ==> is_suffix(rest, s) && rest.len()
            + t.len() <= s.len(),
        symbol_step(t, s) matches Step::Miss(_, at) ==> is_suffix(at, s),
        keyword_step(t, s) matches Step::Match(_, rest) ==> is_suffix(rest, s) && rest.len()
            + t.len() <= s.len(),
        keyword_step(t, s) matches Step::Miss(_, at) ==> is_suffix(at, s),
        expect_step(symbol_step(t, s)).step matches Step::Match(_, rest) && is_suffix(rest, s),
{
    reveal(symbol_step);
    reveal(keyword_step);
    lemma_skip_space(s);
    let start = skip_space(s);
    lemma_skip_is_suffix(s, 0);
    assert(s.skip(0) =~= s);
    if t.is_prefix_of(s) {
        lemma_skip_is_suffix(s, t.len() as int);
    }
    if t.is_prefix_of(start) {
        let rest = start.skip(t.len() as int);
        lemma_skip_is_suffix(start, t.len() as int);
        lemma_skip_space(rest);
        lemma_suffix_trans(rest, start, s);
        lemma_suffix_trans(skip_space(rest), rest, s);
    }
}

/// The name rule leaves a suffix of what it was given, shorter by at least
/// the name, and misses at a suffix of what it was given.
pub proof fn lemma_ident_suffix(s: Seq<char>)
    ensures
        ident_step(s) matches Step::Match(name, rest) ==> is_suffix(rest, s) && rest.len()
            + name.len() <= s.len() && name.len() > 0,
        ident_step(s) matches Step::Miss(_, at) ==> is_suffix(at, s),
{
    reveal(ident_step);
    lemma_skip_space(s);
    let start = skip_space(s);
    if start.len() > 0 {
        lemma_leading_run(start.skip(1), CharClass::Word);
        let n = 1 + leading_run(start.skip(1), CharClass::Word);
        let rest = start.skip(n as int);
        lemma_skip_is_suffix(start, n as int);
        lemma_skip_space(rest);
        lemma_suffix_trans(rest, start, s);
        lemma_suffix_trans(skip_space(rest), rest, s);
    }
}

/// The integer rule leaves a suffix of what it was given, shorter by at
/// least a digit, and misses at a suffix of what it was given.
pub proof fn lemma_integer_suffix(s: Seq<char>)
    ensures
        integer_step(s) matches Step::Match(_, rest) ==> is_suffix(rest, s) && rest.len() < s.len(),
        integer_step(s) matches Step::Miss(_, at) ==> is_suffix(at, s),
{
    reveal(integer_step);
    lemma_skip_space(s);
    let start = skip_space(s);
    let body = if start.len() > 0 && start[0] == '-' {
        start.skip(1)
    } else {
        start
    };
    if start.len() > 0 {
        lemma_skip_is_suffix(start, 1);
    }
    lemma_skip_is_suffix(start, 0);
    assert(start.skip(0) =~= start);
    lemma_suffix_trans(body, start, s);
    lemma_leading_run(body, CharClass::Digit);
    let m = leading_run(body, CharClass::Digit);
    let left = body.skip(m as int);
    lemma_skip_is_suffix(body, m as int);
    lemma_skip_space(left);
    lemma_suffix_trans(left, body, s);
    lemma_suffix_trans(skip_space(left), left, s);
}

/// The operator rule leaves what follows the first character.
pub proof fn lemma_operator_suffix(s: Seq<char>)
    ensures
        operator_step(s) matches Step::Match(_, rest) ==> is_suffix(rest, s) && rest.len() + 1
            == s.len(),
        operator_step(s) matches Step::Miss(_, at) ==> is_suffix(at, s),
{
    reveal(operator_step);
    if s.len() > 0 {
        lemma_skip_is_suffix(s, 1);
    }
    lemma_skip_is_suffix(s, 0);
    assert(s.skip(0) =~= s);
}

/// The keyword that opens a conditional.
pub open spec fn kw_if() -> Seq<char> {
    "if"@
}

/// The keyword that opens the alternative of a conditional.
pub open spec fn kw_else() -> Seq<char> {
    "else"@
}

/// The keyword that opens a binding.
pub open spec fn kw_let() -> Seq<char> {
    "let"@
}

/// A reference to a name.
pub open spec fn ident_expr_step(s: Seq<char>) -> Step<Tree> {
    match ident_step(s) {
        Step::Match(name, rest) => Step::Match(Tree::Ident(name), rest),
        Step::Miss(kind, at) => Step::Miss(kind, at),
    }
}

/// The two branches of a conditional: a block, `else`, a block.
#[verifier::opaque]
pub open spec fn branches_parse(s: Seq<char>) -> Parse<(Tree, Tree)>
    decreases s.len(), 1nat,
    via branches_parse_decreases
{
    let consequent = confined(block_parse(s), s);
    match consequent.step {
        Step::Miss(kind, at) => Parse {
            step: Step::Miss(kind, at),
            diagnostics: consequent.diagnostics,
        },
        Step::Match(t, r1) => after_diagnostics(
            consequent.diagnostics,
            match keyword_step(kw_else(), r1) {
                Step::Miss(kind, at) => quiet(Step::Miss(kind, at)),
                Step::Match(_, r2) => {
                    let alternative = block_parse(r2);
                    Parse {
                        step: match alternative.step {
                            Step::Miss(kind, at) => Step::Miss(kind, at),
                            Step::Match(e, r3) => Step::Match((t, e), r3),
                        },
                        diagnostics: alternative.diagnostics,
                    }
                },
            },
        ),
    }
}

#[via_fn]
proof fn branches_parse_decreases(s: Seq<char>) {
    assert forall|r: Seq<char>| #[trigger] keyword_step(kw_else(), r) is Match implies keyword_step(
        kw_else(),
        r,
    )->Match_1.len() <= r.len() by {
        lemma_token_suffix(r, kw_else());
    }
}

/// A conditional: `if`, a general expression, and the two branches.
#[verifier::opaque]
pub open spec fn if_else_parse(s: Seq<char>) -> Parse<Tree>
    decreases s.len(), 0nat,
    via if_else_parse_decreases
{
    match keyword_step(kw_if(), s) {
        Step::Miss(kind, at) => quiet(Step::Miss(kind, at)),
        Step::Match(_, r1) => {
            let condition = confined(expr_parse(r1), r1);
            match condition.step {
                Step::Miss(_, _) => condition,
                Step::Match(c, r2) => {
                    let branches = branches_parse(r2);
                    Parse {
                        step: match branches.step {
                            Step::Miss(kind, at) => Step::Miss(kind, at),
                            Step::Match((t, e), r3) => Step::Match(
                                Tree::If(Box::new(c), Box::new(t), Box::new(e)),
                                r3,
                            ),
                        },
                        diagnostics: condition.diagnostics + branches.diagnostics,
                    }
                },
            }
        },
    }
}

#[via_fn]
proof fn if_else_parse_decreases(s: Seq<char>) {
    reveal_strlit("if");
    lemma_token_suffix(s, kw_if());
}

/// A block: `{`, bindings or else a general expression, `}`.
#[verifier::opaque]
pub open spec fn block_parse(s: Seq<char>) -> Parse<Tree>
    decreases s.len(), 0nat,
    via block_parse_decreases
{
    match symbol_step("{"@, s) {
        Step::Miss(kind, at) => quiet(Step::Miss(kind, at)),
        Step::Match(_, r1) => {
            let inner = program_parse(r1);
            match inner.step {
                Step::Miss(_, _) => inner,
                Step::Match(value, r2) => Parse {
                    step: match symbol_step("}"@, r2) {
                        Step::Miss(kind, at) => Step::Miss(kind, at),
                        Step::Match(_, r3) => Step::Match(value, r3),
                    },
                    diagnostics: inner.diagnostics,
                },
            }
        },
    }
}

#[via_fn]
proof fn block_parse_decreases(s: Seq<char>) {
    reveal_strlit("{");
    lemma_token_suffix(s, "{"@);
}

/// An atomic term: the first that matches of an integer literal, a
/// conditional, a block and a name.
#[verifier::opaque]
pub open spec fn atomic_parse(s: Seq<char>) -> Parse<Tree>
    decreases s.len(), 1nat,
{
    or_else(
        quiet(integer_step(s)),
        or_else(if_else_parse(s), or_else(block_parse(s), quiet(ident_expr_step(s)))),
    )
}

/// One factor after the first: `*` and an atomic term.
#[verifier::opaque]
pub open spec fn factor_parse(s: Seq<char>) -> Parse<Tree>
    decreases s.len(), 0nat,
    via factor_parse_decreases
{
    match symbol_step("*"@, s) {
        Step::Miss(kind, at) => quiet(Step::Miss(kind, at)),
        Step::Match(_, r1) => {
            atomic_parse(r1)
        },
    }
}

#[via_fn]
proof fn factor_parse_decreases(s: Seq<char>) {
    reveal_strlit("*");
    lemma_token_suffix(s, "*"@);
}

/// As many further factors as there are, folded onto `acc` from the left.
/// A factor that reads nothing would end the fold with a miss.
#[verifier::opaque]
pub open spec fn product_fold(acc: Tree, s: Seq<char>) -> Parse<Tree>
    decreases s.len(), 1nat,
{
    let next = factor_parse(s);
    match next.step {
        Step::Miss(_, _) => Parse { step: Step::Match(acc, s), diagnostics: next.diagnostics },
        Step::Match(rhs, rest) => after_diagnostics(
            next.diagnostics,
            if rest.len() < s.len() {
                product_fold(Tree::Multiplication(Box::new(acc), Box::new(rhs)), rest)
            } else {
                quiet(Step::Miss(ErrorKind::Many1, rest))
            },
        ),
    }
}

/// The multiplicative level: an atomic term and one or more factors, folded
/// from the left. An atomic term alone is a miss.
#[verifier::opaque]
pub open spec fn level_1_parse(s: Seq<char>) -> Parse<Tree>
    decreases s.len(), 2nat,
{
    let first = confined(atomic_parse(s), s);
    match first.step {
        Step::Miss(_, _) => first,
        Step::Match(lhs, r1) => {
            let next = confined(factor_parse(r1), r1);
            after_diagnostics(
                first.diagnostics + next.diagnostics,
                match next.step {
                    Step::Miss(_, _) => quiet(Step::Miss(ErrorKind::Many1, r1)),
                    Step::Match(rhs, r2) => product_fold(
                        Tree::Multiplication(Box::new(lhs), Box::new(rhs)),
                        r2,
                    ),
                },
            )
        },
    }
}

/// An operand of the additive level: the multiplicative level, or else an
/// atomic term.
#[verifier::opaque]
pub open spec fn term_parse(s: Seq<char>) -> Parse<Tree>
    decreases s.len(), 3nat,
{
    or_else(level_1_parse(s), atomic_parse(s))
}

/// One summand after the first: `+` or `-` at the very front, and an operand.
#[verifier::opaque]
pub open spec fn summand_parse(s: Seq<char>) -> Parse<(Level0Operator, Tree)>
    decreases s.len(), 0nat,
    via summand_parse_decreases
{
    match operator_step(s) {
        Step::Miss(kind, at) => quiet(Step::Miss(kind, at)),
        Step::Match(operator, r1) => {
            let operand = term_parse(r1);
            Parse {
                step: match operand.step {
                    Step::Miss(kind, at) => Step::Miss(kind, at),
                    Step::Match(rhs, r2) => Step::Match((operator, rhs), r2),
                },
                diagnostics: operand.diagnostics,
            }
        },
    }
}

#[via_fn]
proof fn summand_parse_decreases(s: Seq<char>) {
    lemma_operator_suffix(s);
}

/// As many further summands as there are, folded onto `acc` from the left.
/// A summand that reads nothing would end the fold with a miss.
#[verifier::opaque]
pub open spec fn sum_fold(acc: Tree, s: Seq<char>) -> Parse<Tree>
    decreases s.len(), 1nat,
{
    let next = summand_parse(s);
    match next.step {
        Step::Miss(_, _) => Parse { step: Step::Match(acc, s), diagnostics: next.diagnostics },
        Step::Match((operator, rhs), rest) => after_diagnostics(
            next.diagnostics,
            if rest.len() < s.len() {
                sum_fold(operator.tree(acc, rhs), rest)
            } else {
                quiet(Step::Miss(ErrorKind::Many1, rest))
            },
        ),
    }
}

/// The additive level: an operand and one or more summands, folded from the
/// left, so that `a - b + c` is `(a - b) + c`. An operand alone is a miss.
#[verifier::opaque]
pub open spec fn level_0_parse(s: Seq<char>) -> Parse<Tree>
    decreases s.len(), 4nat,
{
    let first = confined(term_parse(s), s);
    match first.step {
        Step::Miss(_, _) => first,
        Step::Match(lhs, r1) => {
            let next = confined(summand_parse(r1), r1);
            after_diagnostics(
                first.diagnostics + next.diagnostics,
                match next.step {
                    Step::Miss(_, _) => quiet(Step::Miss(ErrorKind::Many1, r1)),
                    Step::Match((operator, rhs), r2) => sum_fold(operator.tree(lhs, rhs), r2),
                },
            )
        },
    }
}

/// A general expression: the first that matches of the additive level, the
/// multiplicative level and an atomic term.
#[verifier::opaque]
pub open spec fn expr_parse(s: Seq<char>) -> Parse<Tree>
    decreases s.len(), 5nat,
{
    or_else(level_0_parse(s), or_else(level_1_parse(s), atomic_parse(s)))
}

/// A binding clause: `let`, a name, `=`, a general expression, `;`. A
/// missing `=` or `;` is recorded and does not make the clause a miss.
#[verifier::opaque]
pub open spec fn binding_parse(s: Seq<char>) -> Parse<(Seq<char>, Tree)>
    decreases s.len(), 0nat,
    via binding_parse_decreases
{
    match keyword_step(kw_let(), s) {
        Step::Miss(kind, at) => quiet(Step::Miss(kind, at)),
        Step::Match(_, r1) => match ident_step(r1) {
            Step::Miss(kind, at) => quiet(Step::Miss(kind, at)),
            Step::Match(name, r2) => {
                let equal = expect_step(symbol_step("="@, r2));
                let r3 = equal.step->Match_1;
                let value = expr_parse(r3);
                after_diagnostics(
                    equal.diagnostics,
                    match value.step {
                        Step::Miss(kind, at) => Parse {
                            step: Step::Miss(kind, at),
                            diagnostics: value.diagnostics,
                        },
                        Step::Match(v, r4) => {
                            let semicolon = expect_step(symbol_step(";"@, r4));
                            Parse {
                                step: Step::Match((name, v), semicolon.step->Match_1),
                                diagnostics: value.diagnostics + semicolon.diagnostics,
                            }
                        },
                    },
                )
            },
        },
    }
}

#[via_fn]
proof fn binding_parse_decreases(s: Seq<char>) {
    reveal_strlit("let");
    lemma_token_suffix(s, kw_let());
    let r1 = keyword_step(kw_let(), s)->Match_1;
    let r2 = ident_step(r1)->Match_1;
    lemma_ident_suffix(r1);
    lemma_token_suffix(r2, "="@);
}

/// As many further binding clauses as there are, in order. A clause that
/// reads nothing would end the repetition with a miss.
#[verifier::opaque]
pub open spec fn more_bindings(s: Seq<char>) -> Parse<Seq<(Seq<char>, Tree)>>
    decreases s.len(), 1nat,
{
    let next = binding_parse(s);
    match next.step {
        Step::Miss(_, _) => Parse {
            step: Step::Match(Seq::empty(), s),
            diagnostics: next.diagnostics,
        },
        Step::Match(b, rest) => after_diagnostics(
            next.diagnostics,
            if rest.len() < s.len() {
                let others = more_bindings(rest);
                Parse {
                    step: match others.step {
                        Step::Miss(kind, at) => Step::Miss(kind, at),
                        Step::Match(bs, end) => Step::Match(seq![b] + bs, end),
                    },
                    diagnostics: others.diagnostics,
                }
            } else {
                quiet(Step::Miss(ErrorKind::Many1, s))
            },
        ),
    }
}

/// Bindings: one or more binding clauses and the general expression that
/// follows them.
#[verifier::opaque]
pub open spec fn bindings_parse(s: Seq<char>) -> Parse<Tree>
    decreases s.len(), 6nat,
{
    let first = confined(binding_parse(s), s);
    match first.step {
        Step::Miss(kind, at) => Parse { step: Step::Miss(kind, at), diagnostics: first.diagnostics },
        Step::Match(b, r1) => {
            let others = confined(more_bindings(r1), r1);
            after_diagnostics(
                first.diagnostics + others.diagnostics,
                match others.step {
                    Step::Miss(kind, at) => quiet(Step::Miss(kind, at)),
                    Step::Match(bs, r2) => {
                        let ending = expr_parse(r2);
                        Parse {
                            step: match ending.step {
                                Step::Miss(kind, at) => Step::Miss(kind, at),
                                Step::Match(body, r3) => Step::Match(
                                    Tree::Bindings(seq![b] + bs, Box::new(body)),
                                    r3,
                                ),
                            },
                            diagnostics: ending.diagnostics,
                        }
                    },
                },
            )
        },
    }
}

/// A program, and the inside of a block: bindings, or else a general
/// expression.
#[verifier::opaque]
pub open spec fn program_parse(s: Seq<char>) -> Parse<Tree>
    decreases s.len(), 7nat,
{
    or_else(bindings_parse(s), expr_parse(s))
}

/// What parsing the whole of `text` gives: the tree of the program, or the
/// kind of the failure and the text at the point of failure. Text left after
/// the program is a failure.
pub open spec fn parse_outcome(text: Seq<char>) -> Result<Tree, (ErrorKind, Seq<char>)> {
    match program_parse(text).step {
        Step::Miss(kind, at) => Err((kind, at)),
        Step::Match(tree, rest) => if rest.len() == 0 {
            Ok(tree)
        } else {
            Err((ErrorKind::TrailingInput, rest))
        },
    }
}

} // verus!
