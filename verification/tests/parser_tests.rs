use tinylang::lexer::{Lexer, Token};
use tinylang::parser::{Expr, ParseError, Parser, Stmt};

fn parse_source(source: &str) -> Result<Vec<Stmt>, ParseError> {
    let mut lexer = Lexer::new(source.to_string());
    let tokens = lexer.tokenize().expect("lexing should succeed");
    let mut parser = Parser::new(tokens);
    parser.parse()
}

fn num(n: i64) -> Expr {
    Expr::Literal(Token::Number(n))
}

#[test]
fn empty_token_sequence_gives_no_statements() {
    assert_eq!(parse_source(""), Ok(vec![]));
}

#[test]
fn assignment_with_precedence() {
    // `x = 1 + 2 * 3;`: one assignment to `x`; `*` binds tighter than `+`.
    let expected = Stmt::Assignment(
        "x".to_string(),
        Expr::Binary(
            Box::new(num(1)),
            Token::Plus,
            Box::new(Expr::Binary(Box::new(num(2)), Token::Star, Box::new(num(3)))),
        ),
    );
    assert_eq!(parse_source("x = 1 + 2 * 3;"), Ok(vec![expected]));
}

#[test]
fn print_statement_wraps_stdout_call() {
    // `stdout = "hi", 1;`: one print statement around a call named `stdout`
    // with the string and the number as its two arguments.
    let expected = Stmt::Print(Expr::Call(
        "stdout".to_string(),
        vec![Expr::Literal(Token::String("hi".to_string())), num(1)],
    ));
    assert_eq!(parse_source("stdout = \"hi\", 1;"), Ok(vec![expected]));
}

#[test]
fn call_statement_keeps_argument_order() {
    // `foo(1, 2);`: one expression statement around a call named `foo`.
    let expected = Stmt::Expression(Expr::Call("foo".to_string(), vec![num(1), num(2)]));
    assert_eq!(parse_source("foo(1, 2);"), Ok(vec![expected]));
}

#[test]
fn call_with_no_arguments() {
    let expected = Stmt::Expression(Expr::Call("foo".to_string(), vec![]));
    assert_eq!(parse_source("foo();"), Ok(vec![expected]));
}

#[test]
fn identifier_without_assign_or_paren_is_fatal() {
    // `x;`: an identifier statement must continue with `=` or `(`.
    assert_eq!(parse_source("x;"), Err(ParseError::ExpectedAssignOrParen));
    assert_eq!(
        ParseError::ExpectedAssignOrParen.message(),
        "Expected '=' or '('."
    );
}

#[test]
fn unmatched_parenthesis_is_fatal() {
    // `(1 + 2;`: the missing `)` aborts the parse.
    let r = parse_source("(1 + 2;");
    assert_eq!(r, Err(ParseError::ExpectedRightParenAfterExpr));
    assert_eq!(
        ParseError::ExpectedRightParenAfterExpr.message(),
        "Expect ')' after expression."
    );
}

#[test]
fn parenthesized_expression_is_unwrapped() {
    let expected = Stmt::Expression(Expr::Binary(
        Box::new(Expr::Binary(
            Box::new(num(1)),
            Token::Plus,
            Box::new(num(2)),
        )),
        Token::Star,
        Box::new(num(3)),
    ));
    assert_eq!(parse_source("(1 + 2) * 3"), Ok(vec![expected]));
}

#[test]
fn additive_is_left_associative() {
    let expected = Stmt::Expression(Expr::Binary(
        Box::new(Expr::Binary(
            Box::new(num(1)),
            Token::Minus,
            Box::new(num(2)),
        )),
        Token::Minus,
        Box::new(num(3)),
    ));
    assert_eq!(parse_source("1 - 2 - 3"), Ok(vec![expected]));
}

#[test]
fn equality_is_loosest_level() {
    // `true and 2 match 3`: `match` binds tighter than `and`.
    let expected = Stmt::Expression(Expr::Binary(
        Box::new(Expr::Literal(Token::True)),
        Token::And,
        Box::new(Expr::Binary(
            Box::new(num(2)),
            Token::Match,
            Box::new(num(3)),
        )),
    ));
    assert_eq!(parse_source("true and 2 match 3"), Ok(vec![expected]));
}

#[test]
fn unary_negation_nests() {
    let expected = Stmt::Expression(Expr::Unary(
        Token::Minus,
        Box::new(Expr::Unary(Token::Minus, Box::new(num(5)))),
    ));
    assert_eq!(parse_source("--5"), Ok(vec![expected]));
}

#[test]
fn bare_identifier_expression_inside_assignment() {
    let expected = Stmt::Assignment(
        "x".to_string(),
        Expr::Binary(
            Box::new(Expr::Identifier("y".to_string())),
            Token::Plus,
            Box::new(num(1)),
        ),
    );
    assert_eq!(parse_source("x = y + 1;"), Ok(vec![expected]));
}

#[test]
fn several_statements_in_source_order() {
    let expected = vec![
        Stmt::Assignment("x".to_string(), num(1)),
        Stmt::Assignment("y".to_string(), num(2)),
    ];
    assert_eq!(parse_source("x = 1; y = 2;"), Ok(expected));
}

#[test]
fn missing_assign_after_stdout_is_fatal() {
    assert_eq!(
        parse_source("stdout 1;"),
        Err(ParseError::ExpectedAssignAfterStdout)
    );
    assert_eq!(
        ParseError::ExpectedAssignAfterStdout.message(),
        "Expect '=' after 'stdout'."
    );
}

#[test]
fn missing_semicolon_after_stdout_is_fatal() {
    assert_eq!(
        parse_source("stdout = 1"),
        Err(ParseError::ExpectedSemicolonAfterStdout)
    );
    assert_eq!(
        ParseError::ExpectedSemicolonAfterStdout.message(),
        "Expect ';' after 'stdout' statement."
    );
}

#[test]
fn missing_semicolon_after_assignment_is_fatal() {
    assert_eq!(
        parse_source("x = 1"),
        Err(ParseError::ExpectedSemicolonAfterAssignment)
    );
    assert_eq!(
        ParseError::ExpectedSemicolonAfterAssignment.message(),
        "Expect ';' after assignment."
    );
}

#[test]
fn missing_paren_after_arguments_is_fatal() {
    assert_eq!(
        parse_source("foo(1;"),
        Err(ParseError::ExpectedRightParenAfterArgs)
    );
    assert_eq!(
        ParseError::ExpectedRightParenAfterArgs.message(),
        "Expect ')' after function arguments."
    );
}

#[test]
fn call_without_trailing_semicolon_parses() {
    // The call branch requires only the `)`; a trailing `;` is consumed when
    // one stands there and is not demanded.
    let expected = Stmt::Expression(Expr::Call("foo".to_string(), vec![num(1)]));
    assert_eq!(parse_source("foo(1)"), Ok(vec![expected]));
}

#[test]
fn call_statements_follow_each_other() {
    let expected = vec![
        Stmt::Expression(Expr::Call("f".to_string(), vec![])),
        Stmt::Expression(Expr::Call("g".to_string(), vec![num(1)])),
    ];
    assert_eq!(parse_source("f(); g(1);"), Ok(expected));
}

#[test]
fn empty_print_list_gives_empty_call() {
    // The print statement's expression list closes on `;`, so `stdout = ;`
    // is a print statement with zero arguments.
    let expected = Stmt::Print(Expr::Call("stdout".to_string(), vec![]));
    assert_eq!(parse_source("stdout = ;"), Ok(vec![expected]));
}

#[test]
fn print_list_with_trailing_comma_is_fatal() {
    // After a comma another expression is demanded; `;` is no expression.
    assert_eq!(
        parse_source("stdout = 1, ;"),
        Err(ParseError::ExpectedExpression)
    );
    assert_eq!(
        ParseError::ExpectedExpression.message(),
        "Expected expression."
    );
}

#[test]
fn operator_alone_is_fatal() {
    assert_eq!(parse_source("+"), Err(ParseError::ExpectedExpression));
    assert_eq!(parse_source(";"), Err(ParseError::ExpectedExpression));
}

#[test]
fn boolean_literals_parse() {
    let expected = vec![Stmt::Assignment(
        "x".to_string(),
        Expr::Binary(
            Box::new(Expr::Literal(Token::True)),
            Token::Xor,
            Box::new(Expr::Literal(Token::False)),
        ),
    )];
    assert_eq!(parse_source("x = true xor false;"), Ok(expected));
}

#[test]
fn fail_fast_returns_no_partial_result() {
    // The first violation ends the run even when later statements are fine.
    assert_eq!(
        parse_source("z; x = 1;"),
        Err(ParseError::ExpectedAssignOrParen)
    );
}
