use dyl::ast::{Binding, ExprKind};
use dyl::context::ParsingContext;
use dyl::cursor::Cursor;
use dyl::error::{Failure, ParseError};
use dyl::lexer::{integer, keyword};
use dyl::parser::{
    binding, bindings, block, expr, if_else, level_0_expression, level_1_expression, program,
};

fn parse_and_own<O>(
    f: impl for<'a> Fn(Cursor<'a>, &mut ParsingContext) -> Result<(Cursor<'a>, O), Failure<'a>>,
    input: &str,
) -> (Result<O, ParseError>, ParsingContext) {
    let mut parsing_ctxt = ParsingContext::new();
    let input = Cursor::new(input);
    let parsing_status = f(input, &mut parsing_ctxt)
        .map_err(|failure| failure.own())
        .map(|(_, parsed)| parsed);

    (parsing_status, parsing_ctxt)
}

fn parse_integer(input: &str) -> (Result<ExprKind, ParseError>, ParsingContext) {
    parse_and_own(|cursor, _| integer(cursor), input)
}

fn parse_keyword(kw: &str, input: &str) -> (Result<(), ParseError>, ParsingContext) {
    parse_and_own(|cursor, _| keyword(kw, cursor), input)
}

#[test]
fn handles_bindings() {
    let (left, _) = parse_and_own(program, "let a = 40; let b = 2; a + b");
    let right = Ok(ExprKind::bindings(
        vec![
            Binding::new("a".to_owned(), ExprKind::integer(40)),
            Binding::new("b".to_owned(), ExprKind::integer(2)),
        ],
        ExprKind::addition(
            ExprKind::ident("a".to_owned()),
            ExprKind::ident("b".to_owned()),
        ),
    ));

    assert_eq!(left, right);
}

#[test]
fn handles_expression() {
    let (left, _) = parse_and_own(program, "1 + 2 + 2");
    let right = Ok(ExprKind::addition(
        ExprKind::addition(ExprKind::integer(1), ExprKind::integer(2)),
        ExprKind::integer(2),
    ));

    assert_eq!(left, right);
}

#[test]
fn parser_handles_bindings() {
    let (left, _) = parse_and_own(block, "{ let a = 42; a }");
    let right = Ok(ExprKind::bindings(
        vec![Binding::new("a".to_owned(), ExprKind::integer(42))],
        ExprKind::ident("a".to_owned()),
    ));

    assert_eq!(left, right);
}

#[test]
fn parser_handles_expression() {
    let (left, _) = parse_and_own(block, "{ 42 }");
    let right = Ok(ExprKind::integer(42));

    assert_eq!(left, right);
}

#[test]
fn if_addition_parses() {
    let (left, _) = parse_and_own(expr, "if 1 { 1 } else { 1 } + 1");
    let right = Ok(ExprKind::addition(
        ExprKind::if_(
            ExprKind::integer(1),
            ExprKind::integer(1),
            ExprKind::integer(1),
        ),
        ExprKind::integer(1),
    ));

    assert_eq!(left, right);
}

#[test]
fn integer_simple() {
    let (left, _) = parse_integer("42");
    let right = Ok(ExprKind::integer(42));

    assert_eq!(left, right);
}

#[test]
fn integer_with_tail() {
    let file = Cursor::new("101 !");

    let left = integer(file)
        .map(|(tail, parsed)| (tail.fragment(), parsed))
        .map_err(|failure| failure.own());
    let right = Ok(("!", ExprKind::integer(101)));

    assert_eq!(left, right);
}

#[test]
fn integer_failing_when_not_digit() {
    assert!(parse_integer("abc").0.is_err());
    assert!(parse_integer("").0.is_err());
}

#[test]
fn integer_eats_whitespaces_before_and_after() {
    let (left, _) = parse_integer(" 42 ");
    let right = Ok(ExprKind::integer(42));

    assert_eq!(left, right);
}

#[test]
fn negative() {
    let (left, _) = parse_integer("-101");
    let right = Ok(ExprKind::integer(-101));

    assert_eq!(left, right);
}

#[test]
fn single_factor_fails() {
    assert!(parse_and_own(level_0_expression, "42").0.is_err());
}

#[test]
fn addition_simple() {
    let (left, _) = parse_and_own(level_0_expression, "1+1");
    let right = Ok(ExprKind::addition(
        ExprKind::integer(1),
        ExprKind::integer(1),
    ));

    assert_eq!(left, right);
}

#[test]
fn addition_right_associative() {
    let (left, _) = parse_and_own(level_0_expression, "1+1+1");
    let right = Ok(ExprKind::addition(
        ExprKind::addition(ExprKind::integer(1), ExprKind::integer(1)),
        ExprKind::integer(1),
    ));

    assert_eq!(left, right);
}

#[test]
fn subtraction_simple() {
    let (left, _) = parse_and_own(level_0_expression, "43-1");
    let right = Ok(ExprKind::subtraction(
        ExprKind::integer(43),
        ExprKind::integer(1),
    ));

    assert_eq!(left, right);
}

#[test]
fn subtraction_right_associative() {
    let (left, _) = parse_and_own(level_0_expression, "44-1-1");
    let right = Ok(ExprKind::subtraction(
        ExprKind::subtraction(ExprKind::integer(44), ExprKind::integer(1)),
        ExprKind::integer(1),
    ));

    assert_eq!(left, right);
}

#[test]
fn addition_subtraction_mixed() {
    let (left, _) = parse_and_own(level_0_expression, "42-1+1");
    let right = Ok(ExprKind::addition(
        ExprKind::subtraction(ExprKind::integer(42), ExprKind::integer(1)),
        ExprKind::integer(1),
    ));

    assert_eq!(left, right);
}

#[test]
fn parse_simple() {
    let (left, _) = parse_and_own(level_1_expression, "7*6");
    let right = Ok(ExprKind::multiplication(
        ExprKind::integer(7),
        ExprKind::integer(6),
    ));

    assert_eq!(left, right);
}

#[test]
fn when_spaced() {
    let (left, _) = parse_and_own(level_1_expression, "21 * 2");
    let right = Ok(ExprKind::multiplication(
        ExprKind::integer(21),
        ExprKind::integer(2),
    ));

    assert_eq!(left, right);
}

#[test]
fn priority_simple() {
    let (left, _) = parse_and_own(level_0_expression, "10 * 4 + 2");
    let right = Ok(ExprKind::addition(
        ExprKind::multiplication(ExprKind::integer(10), ExprKind::integer(4)),
        ExprKind::integer(2),
    ));

    assert_eq!(left, right);
}

#[test]
fn if_else_simple() {
    let (left, _) = parse_and_own(if_else, "if0{1}else{42}");
    let right = Ok(ExprKind::if_(
        ExprKind::integer(0),
        ExprKind::integer(1),
        ExprKind::integer(42),
    ));

    assert_eq!(left, right);
}

#[test]
fn if_else_spaced_braces() {
    let (left, _) = parse_and_own(if_else, "if 0 { 1 } else { 42 }");
    let right = Ok(ExprKind::if_(
        ExprKind::integer(0),
        ExprKind::integer(1),
        ExprKind::integer(42),
    ));

    assert_eq!(left, right);
}

#[test]
fn addition_as_condition() {
    let (left, _) = parse_and_own(if_else, "if 1 + 1 { 1 } else { 1 }");
    let right = Ok(ExprKind::if_(
        ExprKind::addition(ExprKind::integer(1), ExprKind::integer(1)),
        ExprKind::integer(1),
        ExprKind::integer(1),
    ));

    assert_eq!(left, right);
}

#[test]
fn bindings_as_consequent_and_alternative() {
    let (left, _) = parse_and_own(if_else, "if 1 { let a = 0; a } else { let a = 0; a }");
    let inner_bindings = ExprKind::bindings(
        vec![Binding::new("a".to_owned(), ExprKind::integer(0))],
        ExprKind::ident("a".to_owned()),
    );
    let right = Ok(ExprKind::if_(
        ExprKind::integer(1),
        inner_bindings.clone(),
        inner_bindings,
    ));

    assert_eq!(left, right);
}

#[test]
fn parses() {
    let (left, _) = parse_keyword("if", "if");
    let right = Ok(());

    assert_eq!(left, right);
}

#[test]
fn fails_when_followed_by_letter() {
    assert!(parse_keyword("if", "iff").0.is_err());
}

#[test]
fn works_when_followed_by_non_letter() {
    let (left, _) = parse_keyword("if", "if42");
    let right = Ok(());

    assert_eq!(left, right);
}

#[test]
fn kw_followed_by_space_and_letter() {
    assert!(parse_keyword("let", "let a").0.is_ok());
}

#[test]
fn simple() {
    let (left, _) = parse_and_own(binding, "let a = 42;");
    let right = Ok(Binding::new("a".to_owned(), ExprKind::integer(42)));

    assert_eq!(left, right);
}

#[test]
fn with_if_else() {
    let (left, _) = parse_and_own(binding, "let foo = if 5 { 42 } else { 101 };");
    let right = Ok(Binding::new(
        "foo".to_owned(),
        ExprKind::if_(
            ExprKind::integer(5),
            ExprKind::integer(42),
            ExprKind::integer(101),
        ),
    ));

    assert_eq!(left, right);
}

#[test]
fn recovers_on_missing_equal() {
    assert!(parse_and_own(binding, "let x 42;").0.is_ok());
}

#[test]
fn recovers_on_missing_semicolon() {
    assert!(parse_and_own(binding, "let x = 42").0.is_ok());
}

#[test]
fn bindings_simple() {
    let (left, _) = parse_and_own(bindings, "let a = 42; a");
    let right = Ok(ExprKind::single_binding(
        "a".to_owned(),
        ExprKind::integer(42),
        ExprKind::ident("a".to_owned()),
    ));

    assert_eq!(left, right);
}
