//! Tokens: whitespace, literal text, keywords, names and integer literals.
//!
//! The character-level matchers are nom's; what is built from them is
//! verified against the token rules of the grammar.

use vstd::prelude::*;
use vstd::string::{StrSliceExecFns, StringExecFns};
use crate::cursor::{is_suffix, lemma_at_at, lemma_at_self, lemma_skip_is_suffix, Cursor};
use crate::error::{ErrorKind, Failure};
use crate::ast::{ExprKind, Level0Operator};
use crate::grammar::{
    alphabetic, decimal, ident_step, integer_step, keyword_step, literal_value, operator_step,
    run_step, skip_space, symbol_step, tag_step, unicode_alphabetic,
};
use crate::outcome::{follows, lemma_follows_from, Step};
use crate::text::{
    leading_run, lemma_leading_run, lemma_leading_run_unique, lemma_one_char_prefix, CharClass,
};

verus! {

/// `char::is_alphabetic`: whether `c` has the Unicode property Alphabetic.
/// The contract only gives the answer a name.
pub assume_specification[ char::is_alphabetic ](c: char) -> (b: bool)
    ensures
        b == unicode_alphabetic(c),
;

/// Whether `c` is alphabetic: an ASCII letter, or a character outside ASCII
/// with the Unicode property Alphabetic.
pub fn is_letter(c: char) -> (b: bool)
    ensures
        b == alphabetic(c),
{
    if c <= '\u{7f}' {
        ('a' <= c && c <= 'z') || ('A' <= c && c <= 'Z')
    } else {
        c.is_alphabetic()
    }
}

/// `nom::character::complete::multispace0` on a `&str`: splits the input
/// after its leading spaces, tabs, carriage returns and line feeds, and
/// never fails. The result is the rest followed by what was matched.
#[verifier::external_body]
fn nom_multispace0<'a>(input: &'a str) -> (r: Option<(&'a str, &'a str)>)
    ensures
        match r {
            Some((rest, matched)) => matched@ == input@.take(
                leading_run(input@, CharClass::Space) as int,
            ) && rest@ == input@.skip(leading_run(input@, CharClass::Space) as int),
            None => false,
        },
{
    match nom::character::complete::multispace0::<&str, nom::error::Error<&str>>(input) {
        Ok((rest, matched)) => Some((rest, matched)),
        Err(_) => None,
    }
}

/// `nom::character::complete::digit1` on a `&str`: splits the input after
/// its leading ASCII digits, and fails if there is none. The result is the
/// rest followed by what was matched.
#[verifier::external_body]
fn nom_digit1<'a>(input: &'a str) -> (r: Option<(&'a str, &'a str)>)
    ensures
        match r {
            Some((rest, matched)) => run_step(CharClass::Digit, input@) == Step::Match(
                matched@,
                rest@,
            ),
            None => run_step(CharClass::Digit, input@) is Miss,
        },
{
    match nom::character::complete::digit1::<&str, nom::error::Error<&str>>(input) {
        Ok((rest, matched)) => Some((rest, matched)),
        Err(_) => None,
    }
}

/// `nom::character::complete::alpha1` on a `&str`: splits the input after
/// its leading ASCII letters, and fails if there is none. The result is the
/// rest followed by what was matched.
#[verifier::external_body]
fn nom_alpha1<'a>(input: &'a str) -> (r: Option<(&'a str, &'a str)>)
    ensures
        match r {
            Some((rest, matched)) => run_step(CharClass::Alpha, input@) == Step::Match(
                matched@,
                rest@,
            ),
            None => run_step(CharClass::Alpha, input@) is Miss,
        },
{
    match nom::character::complete::alpha1::<&str, nom::error::Error<&str>>(input) {
        Ok((rest, matched)) => Some((rest, matched)),
        Err(_) => None,
    }
}

/// `nom::character::complete::alphanumeric1` on a `&str`: splits the input
/// after its leading ASCII letters and digits, and fails if there is none.
/// The result is the rest followed by what was matched.
#[verifier::external_body]
fn nom_alphanumeric1<'a>(input: &'a str) -> (r: Option<(&'a str, &'a str)>)
    ensures
        match r {
            Some((rest, matched)) => run_step(CharClass::Alphanumeric, input@) == Step::Match(
                matched@,
                rest@,
            ),
            None => run_step(CharClass::Alphanumeric, input@) is Miss,
        },
{
    match nom::character::complete::alphanumeric1::<&str, nom::error::Error<&str>>(input) {
        Ok((rest, matched)) => Some((rest, matched)),
        Err(_) => None,
    }
}

/// `nom::bytes::complete::tag` on a `&str`: succeeds exactly when the input
/// starts with `t`, and then splits the input after it. The result is the
/// rest followed by what was matched.
#[verifier::external_body]
fn nom_tag<'a>(t: &str, input: &'a str) -> (r: Option<(&'a str, &'a str)>)
    ensures
        match r {
            Some((rest, matched)) => t@.is_prefix_of(input@) && matched@ == t@ && rest@
                == input@.skip(t@.len() as int),
            None => !t@.is_prefix_of(input@),
        },
{
    match nom::bytes::complete::tag::<&str, &str, nom::error::Error<&str>>(t)(input) {
        Ok((rest, matched)) => Some((rest, matched)),
        Err(_) => None,
    }
}

/// Moves past the whitespace at the front of the text.
pub fn multispace0<'a>(input: Cursor<'a>) -> (r: Cursor<'a>)
    ensures
        r@ == input@.at(skip_space(input@.rest)),
        is_suffix(skip_space(input@.rest), input@.rest),
{
    proof {
        lemma_leading_run(input@.rest, CharClass::Space);
    }
    match nom_multispace0(input.fragment()) {
        Some((rest, matched)) => {
            assert(input@.rest =~= matched@ + rest@);
            input.advance(matched, rest)
        },
        None => input,
    }
}

/// Matches the literal text `t` at the very front of the text.
pub fn tag<'a, 'b>(t: &'b str, input: Cursor<'a>) -> (r: Result<(Cursor<'a>, &'a str), Failure<'a>>)
    ensures
        follows(input@, r, tag_step(t@, input@.rest)),
{
    match nom_tag(t, input.fragment()) {
        Some((rest, matched)) => {
            assert(input@.rest =~= matched@ + rest@);
            Ok((input.advance(matched, rest), matched))
        },
        None => {
            proof {
                lemma_at_self(input@);
            }
            Err(Failure::new(input, ErrorKind::Tag))
        },
    }
}

/// Matches the ASCII letters at the very front of the text, at least one.
pub fn alpha1<'a>(input: Cursor<'a>) -> (r: Result<(Cursor<'a>, &'a str), Failure<'a>>)
    ensures
        follows(input@, r, run_step(CharClass::Alpha, input@.rest)),
{
    proof {
        lemma_leading_run(input@.rest, CharClass::Alpha);
    }
    match nom_alpha1(input.fragment()) {
        Some((rest, matched)) => {
            assert(input@.rest =~= matched@ + rest@);
            Ok((input.advance(matched, rest), matched))
        },
        None => {
            proof {
                lemma_at_self(input@);
            }
            Err(Failure::new(input, ErrorKind::Alpha))
        },
    }
}

/// Matches the ASCII letters and digits at the very front of the text, at
/// least one.
pub fn alphanumeric1<'a>(input: Cursor<'a>) -> (r: Result<(Cursor<'a>, &'a str), Failure<'a>>)
    ensures
        follows(input@, r, run_step(CharClass::Alphanumeric, input@.rest)),
{
    proof {
        lemma_leading_run(input@.rest, CharClass::Alphanumeric);
    }
    match nom_alphanumeric1(input.fragment()) {
        Some((rest, matched)) => {
            assert(input@.rest =~= matched@ + rest@);
            Ok((input.advance(matched, rest), matched))
        },
        None => {
            proof {
                lemma_at_self(input@);
            }
            Err(Failure::new(input, ErrorKind::AlphaNumeric))
        },
    }
}

/// Matches the ASCII digits at the very front of the text, at least one.
pub fn digit1<'a>(input: Cursor<'a>) -> (r: Result<(Cursor<'a>, &'a str), Failure<'a>>)
    ensures
        follows(input@, r, run_step(CharClass::Digit, input@.rest)),
{
    proof {
        lemma_leading_run(input@.rest, CharClass::Digit);
    }
    match nom_digit1(input.fragment()) {
        Some((rest, matched)) => {
            assert(input@.rest =~= matched@ + rest@);
            Ok((input.advance(matched, rest), matched))
        },
        None => {
            proof {
                lemma_at_self(input@);
            }
            Err(Failure::new(input, ErrorKind::Digit))
        },
    }
}

/// Matches `+` or `-` at the very front of the text.
pub fn level_0_operator<'a>(input: Cursor<'a>) -> (r: Result<
    (Cursor<'a>, Level0Operator),
    Failure<'a>,
>)
    ensures
        follows(input@, r, operator_step(input@.rest)),
{
    proof {
        reveal(operator_step);
    }
    proof {
        reveal_strlit("+");
        reveal_strlit("-");
        lemma_one_char_prefix("+"@, '+', input@.rest);
        lemma_one_char_prefix("-"@, '-', input@.rest);
    }
    match tag("+", input) {
        Ok((tail, _)) => Ok((tail, Level0Operator::Plus)),
        Err(_) => match tag("-", input) {
            Ok((tail, _)) => Ok((tail, Level0Operator::Minus)),
            Err(failure) => Err(failure),
        },
    }
}

/// Matches the punctuation mark `t`, with any whitespace around it.
pub fn space_insignificant<'a, 'b>(t: &'b str, input: Cursor<'a>) -> (r: Result<
    (Cursor<'a>, ()),
    Failure<'a>,
>)
    ensures
        follows(input@, r, symbol_step(t@, input@.rest)),
{
    proof {
        reveal(symbol_step);
    }
    let start = multispace0(input);
    match tag(t, start) {
        Ok((tail, _)) => {
            let end = multispace0(tail);
            let r = Ok((end, ()));
            proof {
                let mid = skip_space(input@.rest);
                let after_tag = tag_step(t@, mid)->Match_1;
                lemma_at_at(start@, after_tag, skip_space(after_tag));
                lemma_at_at(input@, mid, skip_space(after_tag));
            }
            r
        },
        Err(failure) => {
            let r = Err(failure);
            proof {
                lemma_follows_from::<()>(
                    input@,
                    skip_space(input@.rest),
                    r,
                    symbol_step(t@, input@.rest),
                );
            }
            r
        },
    }
}

/// Matches the keyword `kw`: the literal text after any whitespace, not
/// directly followed by an alphabetic character, and then any whitespace.
pub fn keyword<'a, 'b>(kw: &'b str, input: Cursor<'a>) -> (r: Result<(Cursor<'a>, ()), Failure<'a>>)
    ensures
        follows(input@, r, keyword_step(kw@, input@.rest)),
{
    proof {
        reveal(keyword_step);
    }
    let start = multispace0(input);
    match tag(kw, start) {
        Ok((tail, _)) => {
            let next_is_alphabetic = if tail.is_empty() {
                false
            } else {
                is_letter(tail.fragment().get_char(0))
            };
            if next_is_alphabetic {
                proof {
                    lemma_at_self(input@);
                }
                Err(Failure::new(input, ErrorKind::Tag))
            } else {
                let end = multispace0(tail);
                proof {
                    let mid = skip_space(input@.rest);
                    let after_tag = tag_step(kw@, mid)->Match_1;
                    lemma_at_at(start@, after_tag, skip_space(after_tag));
                    lemma_at_at(input@, mid, skip_space(after_tag));
                }
                Ok((end, ()))
            }
        },
        Err(failure) => {
            let r = Err(failure);
            proof {
                lemma_follows_from::<()>(
                    input@,
                    skip_space(input@.rest),
                    r,
                    keyword_step(kw@, input@.rest),
                );
            }
            r
        },
    }
}

/// Matches a name: a letter or an underscore, then letters, digits and
/// underscores as far as they go, with any whitespace around it.
pub fn ident<'a>(input: Cursor<'a>) -> (r: Result<(Cursor<'a>, String), Failure<'a>>)
    ensures
        follows(input@, r, ident_step(input@.rest)),
{
    proof {
        reveal(ident_step);
    }
    let start = multispace0(input);
    let ghost t = start@.rest;
    proof {
        reveal_strlit("_");
        lemma_one_char_prefix("_"@, '_', t);
        lemma_leading_run(t, CharClass::Alpha);
    }
    let first = match alpha1(start) {
        Ok(found) => Ok(found),
        Err(_) => tag("_", start),
    };
    let (head_end, head) = match first {
        Ok(found) => found,
        Err(failure) => {
            let r = Err(failure);
            proof {
                lemma_follows_from::<String>(input@, t, r, ident_step(input@.rest));
            }
            return r;
        },
    };
    let mut tail = head_end;
    let mut name = String::from_str(head);
    let ghost mut k: nat = name@.len();
    loop
        invariant
            start@.rest == t,
            1 <= k <= t.len(),
            name@ == t.take(k as int),
            tail@ == start@.at(t.skip(k as int)),
            CharClass::Alpha.holds(t[0]) || t[0] == '_',
            forall|i: int| 1 <= i < k ==> CharClass::Word.holds(#[trigger] t[i]),
        ensures
            k == 1 + leading_run(t.skip(1), CharClass::Word),
        decreases t.len() - k,
    {
        let ghost left = t.skip(k as int);
        proof {
            reveal_strlit("_");
            lemma_one_char_prefix("_"@, '_', left);
            lemma_leading_run(left, CharClass::Alphanumeric);
            lemma_skip_is_suffix(t, k as int);
        }
        let next = match alphanumeric1(tail) {
            Ok(found) => Ok(found),
            Err(_) => tag("_", tail),
        };
        assert(next matches Ok((piece_end, piece)) ==> {
            &&& piece@.len() >= 1
            &&& left =~= piece@ + piece_end@.rest
            &&& forall|j: int| 0 <= j < piece@.len() ==> CharClass::Word.holds(#[trigger] piece@[j])
        });
        match next {
            Ok((piece_end, piece)) => {
                proof {
                    assert(piece_end@.rest =~= t.skip((k + piece@.len()) as int));
                    assert(t.take(k as int) + piece@ =~= t.take((k + piece@.len()) as int));
                    assert forall|i: int| k <= i < k + piece@.len() implies CharClass::Word.holds(
                        #[trigger] t[i],
                    ) by {
                        assert(t[i] == left[i - k]);
                        assert(left[i - k] == piece@[i - k]);
                    }
                    lemma_at_at(start@, left, piece_end@.rest);
                    k = k + piece@.len();
                }
                name.append(piece);
                tail = piece_end;
            },
            Err(_) => {
                proof {
                    assert forall|i: int| 0 <= i < k - 1 implies CharClass::Word.holds(
                        #[trigger] t.skip(1)[i],
                    ) by {
                        assert(t.skip(1)[i] == t[i + 1]);
                    }
                    if k - 1 < t.skip(1).len() {
                        assert(t.skip(1)[k - 1] == left[0]);
                    }
                    lemma_leading_run_unique(t.skip(1), CharClass::Word, (k - 1) as nat);
                }
                break ;
            },
        }
    }
    let end = multispace0(tail);
    proof {
        let left = t.skip(k as int);
        lemma_skip_is_suffix(t, k as int);
        lemma_at_at(start@, left, skip_space(left));
        lemma_at_at(input@, t, skip_space(left));
    }
    Ok((end, name))
}

/// The value of the integer literal made of an optional minus sign and the
/// decimal digits `digits`, if it fits in 32 bits.
fn literal_to_i32(negative: bool, digits: &str) -> (r: Option<i32>)
    requires
        forall|i: int| 0 <= i < digits@.len() ==> CharClass::Digit.holds(#[trigger] digits@[i]),
    ensures
        match r {
            Some(value) => value == literal_value(negative, digits@),
            None => !(i32::MIN <= literal_value(negative, digits@) <= i32::MAX),
        },
{
    proof {
        vstd::utf8::is_ascii_chars_encode_utf8(digits@);
    }
    let bytes = digits.as_bytes();
    let mut magnitude: i64 = 0;
    let mut i: usize = 0;
    while i < bytes.len()
        invariant
            bytes@.len() == digits@.len(),
            forall|j: int| 0 <= j < digits@.len() ==> CharClass::Digit.holds(#[trigger] digits@[j]),
            forall|j: int| 0 <= j < digits@.len() ==> digits@[j] as u8 == bytes@[j],
            i <= bytes.len(),
            0 <= magnitude <= 0x8000_0001,
            magnitude <= 0x8000_0000 ==> magnitude == decimal(digits@.take(i as int)),
            magnitude > 0x8000_0000 ==> decimal(digits@.take(i as int)) > 0x8000_0000,
        decreases bytes.len() - i,
    {
        proof {
            assert(digits@.take(i + 1).drop_last() =~= digits@.take(i as int));
            assert(CharClass::Digit.holds(digits@[i as int]));
        }
        let digit: i64 = (bytes[i] - 48u8) as i64;
        assert(digit == digits@[i as int] as nat - '0' as nat);
        if magnitude <= 0x8000_0000 {
            magnitude = magnitude * 10 + digit;
            if magnitude > 0x8000_0000 {
                magnitude = 0x8000_0001;
            }
        }
        i += 1;
    }
    proof {
        assert(digits@.take(i as int) =~= digits@);
    }
    if negative {
        if magnitude <= 0x8000_0000 {
            Some((-magnitude) as i32)
        } else {
            None
        }
    } else {
        if magnitude <= 0x7fff_ffff {
            Some(magnitude as i32)
        } else {
            None
        }
    }
}

/// Matches an integer literal: an optional minus sign directly followed by
/// decimal digits, with any whitespace around it.
pub fn integer<'a>(input: Cursor<'a>) -> (r: Result<(Cursor<'a>, ExprKind), Failure<'a>>)
    ensures
        follows(input@, r, integer_step(input@.rest)),
{
    proof {
        reveal(integer_step);
    }
    let start = multispace0(input);
    let ghost t = start@.rest;
    proof {
        reveal_strlit("-");
        lemma_one_char_prefix("-"@, '-', t);
    }
    let (body, negative) = match tag("-", start) {
        Ok((after_sign, _)) => (after_sign, true),
        Err(_) => {
            proof {
                lemma_at_self(start@);
            }
            (start, false)
        },
    };
    let ghost b = body@.rest;
    proof {
        lemma_leading_run(b, CharClass::Digit);
    }
    match digit1(body) {
        Ok((tail, digits)) => {
            match literal_to_i32(negative, digits) {
                Some(value) => {
                    let end = multispace0(tail);
                    proof {
                        lemma_at_at(body@, tail@.rest, skip_space(tail@.rest));
                        lemma_at_at(start@, b, skip_space(tail@.rest));
                        lemma_at_at(input@, t, skip_space(tail@.rest));
                    }
                    Ok((end, ExprKind::integer(value)))
                },
                None => {
                    Err(Failure::new(start, ErrorKind::Overflow))
                },
            }
        },
        Err(failure) => {
            let r = Err(failure);
            proof {
                lemma_at_at(start@, b, b);
                lemma_at_at(input@, t, b);
            }
            r
        },
    }
}

} // verus!
