use dyl::ast::{Binding, ExprKind, Level0Operator};
use dyl::context::ParsingContext;
use dyl::cursor::{Cursor, Position};
use dyl::error::{ErrorKind, Failure, ParseError};
use dyl::lexer::{
    alpha1, alphanumeric1, digit1, ident, integer, is_letter, keyword, level_0_operator,
    multispace0, space_insignificant, tag,
};
use dyl::parser::{
    atomic_expr, binding, bindings, block, epsilon_recovery, expect, expr, parse_input, program,
    semicolon,
};

fn num(value: i32) -> ExprKind {
    ExprKind::integer(value)
}

fn name(text: &str) -> ExprKind {
    ExprKind::ident(text.to_owned())
}

fn tree_of(text: &str) -> ExprKind {
    let (status, _) = parse_input(text);
    status.unwrap()
}

fn error_of(text: &str) -> ParseError {
    let (status, _) = parse_input(text);
    status.unwrap_err()
}

fn at(offset: usize, line: usize, column: usize) -> Position {
    Position { offset, line, column }
}

fn own<'a, O>(
    result: Result<(Cursor<'a>, O), Failure<'a>>,
) -> Result<(&'a str, O), ParseError> {
    result
        .map(|(tail, value)| (tail.fragment(), value))
        .map_err(|failure| failure.own())
}

#[test]
fn constructors_build_the_variants() {
    assert_eq!(num(3), ExprKind::Integer(3));
    assert_eq!(name("x"), ExprKind::Ident("x".to_owned()));
    assert_eq!(
        ExprKind::addition(num(1), num(2)),
        ExprKind::Addition(Box::new(num(1)), Box::new(num(2)))
    );
    assert_eq!(
        ExprKind::subtraction(num(1), num(2)),
        ExprKind::Subtraction(Box::new(num(1)), Box::new(num(2)))
    );
    assert_eq!(
        ExprKind::multiplication(num(1), num(2)),
        ExprKind::Multiplication(Box::new(num(1)), Box::new(num(2)))
    );
    assert_eq!(
        ExprKind::if_(num(1), num(2), num(3)),
        ExprKind::If(Box::new(num(1)), Box::new(num(2)), Box::new(num(3)))
    );
    assert_eq!(
        ExprKind::single_binding("a".to_owned(), num(1), name("a")),
        ExprKind::bindings(vec![Binding::new("a".to_owned(), num(1))], name("a"))
    );
}

#[test]
fn make_expr_tells_the_operators_apart() {
    assert_eq!(
        Level0Operator::Plus.make_expr(num(1), num(2)),
        ExprKind::addition(num(1), num(2))
    );
    assert_eq!(
        Level0Operator::Minus.make_expr(num(1), num(2)),
        ExprKind::subtraction(num(1), num(2))
    );
}

#[test]
fn clone_keeps_the_tree() {
    let tree = tree_of("let a = if 1 { 2 } else { b * 3 }; a - 4");
    assert_eq!(tree.clone(), tree);
}

#[test]
fn context_appends_in_order() {
    let mut ctx = ParsingContext::new();
    assert!(ctx.is_empty());
    ctx.add("first");
    ctx.add("second");
    assert_eq!(ctx.len(), 2);
    assert_eq!(ctx.errors(), &vec!["first".to_owned(), "second".to_owned()]);
}

#[test]
fn cursor_starts_before_the_text() {
    let cursor = Cursor::new("let");
    assert_eq!(cursor.fragment(), "let");
    assert_eq!(cursor.position(), at(0, 0, 0));
    assert!(!cursor.is_empty());
    assert!(Cursor::new("").is_empty());
}

#[test]
fn whitespace_is_skipped_and_counted() {
    let tail = multispace0(Cursor::new(" \t\r\n\n  x y"));
    assert_eq!(tail.fragment(), "x y");
    assert_eq!(tail.position(), at(7, 2, 2));
}

#[test]
fn whitespace_may_be_absent() {
    let tail = multispace0(Cursor::new("x "));
    assert_eq!(tail.fragment(), "x ");
    assert_eq!(tail.position(), at(0, 0, 0));
}

#[test]
fn tag_splits_after_the_literal() {
    assert_eq!(own(tag("let", Cursor::new("lettuce"))), Ok(("tuce", "let")));
    let failure = tag("let", Cursor::new("le")).unwrap_err();
    assert_eq!(failure.kind, ErrorKind::Tag);
    assert_eq!(failure.at.fragment(), "le");
}

#[test]
fn tag_counts_the_characters_of_a_wide_literal() {
    let (tail, _) = tag("é\n", Cursor::new("é\nx")).unwrap();
    assert_eq!(tail.fragment(), "x");
    assert_eq!(tail.position(), at(2, 1, 0));
}

#[test]
fn runs_split_after_their_class() {
    assert_eq!(own(alpha1(Cursor::new("ab1_"))), Ok(("1_", "ab")));
    assert_eq!(own(alphanumeric1(Cursor::new("ab1_"))), Ok(("_", "ab1")));
    assert_eq!(own(digit1(Cursor::new("12ab"))), Ok(("ab", "12")));
}

#[test]
fn runs_need_one_character() {
    assert_eq!(
        own(alpha1(Cursor::new("1a"))),
        Err(ParseError { position: at(0, 0, 0), kind: ErrorKind::Alpha })
    );
    assert_eq!(
        own(alphanumeric1(Cursor::new("_a"))),
        Err(ParseError { position: at(0, 0, 0), kind: ErrorKind::AlphaNumeric })
    );
    assert_eq!(
        own(digit1(Cursor::new(""))),
        Err(ParseError { position: at(0, 0, 0), kind: ErrorKind::Digit })
    );
}

#[test]
fn runs_stop_at_letters_outside_ascii() {
    assert_eq!(own(alpha1(Cursor::new("aé"))), Ok(("é", "a")));
    assert!(alpha1(Cursor::new("éa")).is_err());
}

#[test]
fn operators_are_read_without_whitespace() {
    assert_eq!(own(level_0_operator(Cursor::new("+1"))), Ok(("1", Level0Operator::Plus)));
    assert_eq!(own(level_0_operator(Cursor::new("- 1"))), Ok((" 1", Level0Operator::Minus)));
    assert_eq!(
        own(level_0_operator(Cursor::new(" +1"))),
        Err(ParseError { position: at(0, 0, 0), kind: ErrorKind::Tag })
    );
}

#[test]
fn punctuation_takes_the_whitespace_around_it() {
    assert_eq!(own(space_insignificant(";", Cursor::new(" \n; x"))), Ok(("x", ())));
    assert_eq!(
        own(semicolon(Cursor::new(" \n x"))),
        Err(ParseError { position: at(3, 1, 1), kind: ErrorKind::Tag })
    );
}

#[test]
fn keyword_boundary() {
    let ok: Result<(&str, ()), ParseError> = Ok(("", ()));
    assert_eq!(own(keyword("if", Cursor::new("if "))), ok);
    assert_eq!(own(keyword("if", Cursor::new("if42"))), Ok(("42", ())));
    assert_eq!(own(keyword("if", Cursor::new("if_"))), Ok(("_", ())));
    assert_eq!(
        own(keyword("if", Cursor::new("  iff"))),
        Err(ParseError { position: at(0, 0, 0), kind: ErrorKind::Tag })
    );
    assert_eq!(
        own(keyword("if", Cursor::new("  of"))),
        Err(ParseError { position: at(2, 0, 2), kind: ErrorKind::Tag })
    );
}

#[test]
fn letters() {
    assert!(is_letter('a') && is_letter('z') && is_letter('A') && is_letter('Z'));
    assert!(!is_letter('0') && !is_letter('_') && !is_letter(' ') && !is_letter('{'));
    assert!(!is_letter('`') && !is_letter('[') && !is_letter('@') && !is_letter('\u{7f}'));
    assert!(is_letter('é') && is_letter('京'));
    assert!(!is_letter('💝') && !is_letter('→') && !is_letter('\u{80}'));
}

#[test]
fn trees_are_compared_as_a_whole() {
    let tree = tree_of("let a = 1; let b = a; if a { b } else { a * b - 1 }");
    assert_eq!(tree, tree.clone());
    assert_ne!(tree, tree_of("let a = 1; let b = a; if a { b } else { a * b - 2 }"));
    assert_ne!(tree, tree_of("let a = 1; let c = a; if a { b } else { a * b - 1 }"));
    assert_ne!(tree, tree_of("let a = 1; if a { b } else { a * b - 1 }"));
    assert_ne!(tree_of("a + b"), tree_of("a - b"));
    assert_ne!(tree_of("a + b"), tree_of("b + a"));
    assert_ne!(num(1), name("a"));
}

#[test]
fn keyword_boundary_outside_ascii() {
    assert!(keyword("if", Cursor::new("ifé")).is_err());
    assert!(keyword("if", Cursor::new("if京")).is_err());
    assert_eq!(own(keyword("if", Cursor::new("if💝"))), Ok(("💝", ())));
    assert_eq!(own(keyword("if", Cursor::new("if→"))), Ok(("→", ())));
}

#[test]
fn names() {
    assert_eq!(own(ident(Cursor::new(" _a1_b2 + c"))), Ok(("+ c", "_a1_b2".to_owned())));
    assert_eq!(own(ident(Cursor::new("x"))), Ok(("", "x".to_owned())));
    assert_eq!(own(ident(Cursor::new("a_é"))), Ok(("é", "a_".to_owned())));
    assert_eq!(
        own(ident(Cursor::new(" 1a"))),
        Err(ParseError { position: at(1, 0, 1), kind: ErrorKind::Tag })
    );
}

#[test]
fn integer_literals() {
    assert_eq!(own(integer(Cursor::new("007 "))), Ok(("", num(7))));
    assert_eq!(own(integer(Cursor::new("-0"))), Ok(("", num(0))));
    assert_eq!(own(integer(Cursor::new("12a"))), Ok(("a", num(12))));
    assert_eq!(own(integer(Cursor::new("2147483647"))), Ok(("", num(i32::MAX))));
    assert_eq!(own(integer(Cursor::new("-2147483648"))), Ok(("", num(i32::MIN))));
}

#[test]
fn integer_literals_that_do_not_match() {
    assert_eq!(
        own(integer(Cursor::new(" - 1"))),
        Err(ParseError { position: at(2, 0, 2), kind: ErrorKind::Digit })
    );
    assert_eq!(
        own(integer(Cursor::new(" 2147483648"))),
        Err(ParseError { position: at(1, 0, 1), kind: ErrorKind::Overflow })
    );
    assert_eq!(
        own(integer(Cursor::new("-2147483649"))),
        Err(ParseError { position: at(0, 0, 0), kind: ErrorKind::Overflow })
    );
    assert_eq!(
        own(integer(Cursor::new("99999999999999999999999999"))),
        Err(ParseError { position: at(0, 0, 0), kind: ErrorKind::Overflow })
    );
}

#[test]
fn atomic_terms_in_order() {
    let mut ctx = ParsingContext::new();
    assert_eq!(own(atomic_expr(Cursor::new("1 x"), &mut ctx)), Ok(("x", num(1))));
    assert_eq!(own(atomic_expr(Cursor::new("if 1"), &mut ctx)), Ok(("1", name("if"))));
    assert_eq!(own(atomic_expr(Cursor::new("{ x } y"), &mut ctx)), Ok(("y", name("x"))));
    assert_eq!(
        own(atomic_expr(Cursor::new(" ?"), &mut ctx)),
        Err(ParseError { position: at(1, 0, 1), kind: ErrorKind::Tag })
    );
    assert!(ctx.is_empty());
}

#[test]
fn left_associativity() {
    assert_eq!(
        tree_of("1+2+2"),
        ExprKind::addition(ExprKind::addition(num(1), num(2)), num(2))
    );
    assert_ne!(
        tree_of("1+2+2"),
        ExprKind::addition(num(1), ExprKind::addition(num(2), num(2)))
    );
    assert_eq!(
        tree_of("2*3*4"),
        ExprKind::multiplication(ExprKind::multiplication(num(2), num(3)), num(4))
    );
}

#[test]
fn precedence() {
    assert_eq!(
        tree_of("10 * 4 + 2"),
        ExprKind::addition(ExprKind::multiplication(num(10), num(4)), num(2))
    );
    assert_eq!(
        tree_of("2 + 10 * 4"),
        ExprKind::addition(num(2), ExprKind::multiplication(num(10), num(4)))
    );
    assert_eq!(
        tree_of("{2 + 10} * 4"),
        ExprKind::multiplication(ExprKind::addition(num(2), num(10)), num(4))
    );
}

#[test]
fn minus_is_a_sign_only_where_a_term_starts() {
    assert_eq!(tree_of("1 -1"), ExprKind::subtraction(num(1), num(1)));
    assert_eq!(tree_of("1--1"), ExprKind::subtraction(num(1), num(-1)));
    assert_eq!(tree_of("-1"), num(-1));
    assert!(parse_input("- 1").0.is_err());
}

#[test]
fn recovery_records_each_missing_token() {
    let mut ctx = ParsingContext::new();
    let expected = Binding::new("x".to_owned(), num(42));
    assert_eq!(own(binding(Cursor::new("let x 42;"), &mut ctx)), Ok(("", expected.clone())));
    assert_eq!(ctx.errors(), &vec!["Excepted token".to_owned()]);
    assert_eq!(own(binding(Cursor::new("let x = 42"), &mut ctx)), Ok(("", expected.clone())));
    assert_eq!(ctx.len(), 2);
    assert_eq!(own(binding(Cursor::new("let x 42 y"), &mut ctx)), Ok(("y", expected.clone())));
    assert_eq!(ctx.len(), 4);
    assert_eq!(own(binding(Cursor::new("let x = 42;"), &mut ctx)), Ok(("", expected)));
    assert_eq!(ctx.len(), 4);
}

#[test]
fn recovery_resumes_where_the_token_should_start() {
    let mut ctx = ParsingContext::new();
    let (tail, found) = expect(semicolon(Cursor::new("  x")), &mut ctx);
    assert_eq!(found, None);
    assert_eq!(tail.fragment(), "x");
    assert_eq!(tail.position(), at(2, 0, 2));
    assert_eq!(ctx.len(), 1);
    let (tail, found) = expect(semicolon(Cursor::new(" ; x")), &mut ctx);
    assert_eq!(found, Some(()));
    assert_eq!(tail.fragment(), "x");
    assert_eq!(ctx.len(), 1);
    let here = Cursor::new("y");
    let resumed = epsilon_recovery(here, ErrorKind::Tag, &mut ctx).unwrap();
    assert_eq!(resumed.fragment(), "y");
    assert_eq!(ctx.len(), 2);
}

#[test]
fn diagnostics_of_abandoned_attempts_stay() {
    let (status, ctx) = parse_input("{ let a 1; a }");
    assert_eq!(status, Ok(ExprKind::single_binding("a".to_owned(), num(1), name("a"))));
    assert_eq!(ctx.len(), 4);
    let (status, ctx) = parse_input("let x 42");
    assert_eq!(status.unwrap_err().kind, ErrorKind::TrailingInput);
    assert_eq!(ctx.len(), 2);
}

#[test]
fn whole_program_consumption() {
    let expected = ExprKind::single_binding("a".to_owned(), num(1), name("a"));
    assert_eq!(parse_input("let a = 1; a").0, Ok(expected.clone()));
    assert_eq!(
        parse_input("let a = 1; a extra").0,
        Err(ParseError { position: at(13, 0, 13), kind: ErrorKind::TrailingInput })
    );
    let mut ctx = ParsingContext::new();
    assert_eq!(own(program(Cursor::new("let a = 1; a extra"), &mut ctx)), Ok(("extra", expected)));
}

#[test]
fn failures_carry_their_position() {
    assert_eq!(error_of(""), ParseError { position: at(0, 0, 0), kind: ErrorKind::Tag });
    assert_eq!(error_of("1\n\n  +"), ParseError {
        position: at(5, 2, 2),
        kind: ErrorKind::TrailingInput,
    });
    assert_eq!(error_of("\n ?"), ParseError { position: at(2, 1, 1), kind: ErrorKind::Tag });
}

#[test]
fn levels_need_an_operator() {
    let mut ctx = ParsingContext::new();
    let failure = dyl::parser::level_1_expression(Cursor::new("7 +"), &mut ctx).unwrap_err();
    assert_eq!(failure.own(), ParseError { position: at(2, 0, 2), kind: ErrorKind::Many1 });
    let failure = dyl::parser::level_0_expression(Cursor::new("7 * 2 ;"), &mut ctx).unwrap_err();
    assert_eq!(failure.own(), ParseError { position: at(6, 0, 6), kind: ErrorKind::Many1 });
}

#[test]
fn conditionals_with_and_without_whitespace() {
    let expected = ExprKind::if_(num(0), num(1), num(42));
    assert_eq!(tree_of("if 0 { 1 } else { 42 }"), expected);
    assert_eq!(tree_of("if0{1}else{42}"), expected);
    assert_eq!(tree_of(" if\n0\t{ 1 }\r\nelse{42 } "), expected);
    assert!(parse_input("if 0 { 1 }").0.is_err());
}

#[test]
fn bindings_example() {
    assert_eq!(
        tree_of("let a = 40; let b = 2; a + b"),
        ExprKind::bindings(
            vec![
                Binding::new("a".to_owned(), num(40)),
                Binding::new("b".to_owned(), num(2)),
            ],
            ExprKind::addition(name("a"), name("b")),
        )
    );
}

#[test]
fn bindings_need_a_clause_and_an_ending() {
    let mut ctx = ParsingContext::new();
    assert!(bindings(Cursor::new("a"), &mut ctx).is_err());
    assert!(bindings(Cursor::new("let a = 1;"), &mut ctx).is_err());
    assert_eq!(
        own(block(Cursor::new("{ let a = 1; let b = a; b } c"), &mut ctx)),
        Ok((
            "c",
            ExprKind::bindings(
                vec![
                    Binding::new("a".to_owned(), num(1)),
                    Binding::new("b".to_owned(), name("a")),
                ],
                name("b"),
            )
        ))
    );
    assert!(ctx.is_empty());
}

#[test]
fn whitespace_between_tokens_changes_nothing() {
    let tight = "let a=if x{1}else{2*y};a-1+{b}";
    let loose = " let  a\n=\tif x {\n1 }\r\nelse { 2 * y } ;\n a - 1 + { b }\n";
    assert_eq!(parse_input(tight), parse_input(loose));
    let (status, ctx) = parse_input("let a 1 a");
    let (spaced, spaced_ctx) = parse_input("\nlet a  1\n a ");
    assert_eq!(status, spaced);
    assert_eq!(status, Ok(ExprKind::single_binding("a".to_owned(), num(1), name("a"))));
    assert_eq!(ctx, spaced_ctx);
    assert_eq!(ctx.len(), 2);
}

#[test]
fn expressions_try_the_additive_level_first() {
    let mut ctx = ParsingContext::new();
    assert_eq!(own(expr(Cursor::new("a * b - c d"), &mut ctx)), Ok((
        "d",
        ExprKind::subtraction(ExprKind::multiplication(name("a"), name("b")), name("c")),
    )));
    assert_eq!(own(expr(Cursor::new("a * b ;"), &mut ctx)), Ok((
        ";",
        ExprKind::multiplication(name("a"), name("b")),
    )));
    assert_eq!(own(expr(Cursor::new("a ;"), &mut ctx)), Ok((";", name("a"))));
}

#[test]
fn rules_leave_a_suffix_and_count_what_they_read() {
    let inputs = [
        "let a = 1;\n let b = { a * 2 };\n if a { b } else { a - b } rest",
        "  1 + 2 * 3 - x ;",
        "if 1 { 2 } else { 3 } * 4 }",
        "{{{ 1 }}} \n ?",
        "x é",
        "",
    ];
    for input in inputs {
        let mut ctx = ParsingContext::new();
        let (rest, position) = match program(Cursor::new(input), &mut ctx) {
            Ok((tail, _)) => (tail.fragment(), tail.position()),
            Err(failure) => (failure.at.fragment(), failure.at.position()),
        };
        assert!(input.ends_with(rest));
        let read = &input[..input.len() - rest.len()];
        assert!(read.is_ascii());
        assert_eq!(position.offset, read.len());
        assert_eq!(position.line, read.matches('\n').count());
        assert_eq!(position.column, read.len() - read.rfind('\n').map_or(0, |at| at + 1));
    }
}

#[test]
fn matching_rules_read_something() {
    let mut ctx = ParsingContext::new();
    for input in ["1", "a", "{a}", "if a {b} else {c}", "let a 1 a", "a*b", "a-b"] {
        let (tail, _) = program(Cursor::new(input), &mut ctx).unwrap();
        assert!(tail.fragment().len() < input.len());
        assert!(tail.is_empty());
    }
}
