use delta::ast::{Expr, Stmt};
use delta::lexer::tokenize;
use delta::parser::{parse, ParseError, Parser};
use delta::token::Token;

fn ident(name: &str) -> Token {
    Token::Identifier(name.to_string())
}

fn var(name: &str) -> Expr {
    Expr::Variable(name.to_string())
}

fn sum(left: Expr, right: Expr) -> Expr {
    Expr::Binary(Box::new(left), Box::new(right))
}

fn let_stmt(name: &str, value: Expr) -> Stmt {
    Stmt::Let(name.to_string(), value)
}

fn parse_source(source: &str) -> Result<Vec<Stmt>, ParseError> {
    parse(tokenize(source).unwrap())
}

#[test]
fn no_tokens_make_the_empty_program() {
    assert_eq!(parse(vec![]), Ok(vec![]));
}

#[test]
fn let_with_number() {
    assert_eq!(
        parse(vec![
            Token::Let,
            ident("x"),
            Token::Equal,
            Token::Number(5),
            Token::Semicolon,
        ]),
        Ok(vec![let_stmt("x", Expr::Number(5))])
    );
}

#[test]
fn let_with_string() {
    assert_eq!(
        parse_source("let s = \"hi\";"),
        Ok(vec![let_stmt("s", Expr::String("hi".to_string()))])
    );
}

#[test]
fn let_with_variable() {
    assert_eq!(parse_source("let y = x;"), Ok(vec![let_stmt("y", var("x"))]));
}

#[test]
fn console_log_with_term() {
    assert_eq!(
        parse(vec![
            Token::Console,
            Token::Dot,
            Token::Log,
            Token::LParen,
            ident("x"),
            Token::RParen,
            Token::Semicolon,
        ]),
        Ok(vec![Stmt::ConsoleLog(var("x"))])
    );
}

#[test]
fn sum_of_two_terms() {
    assert_eq!(
        parse_source("console.log(a + 3);"),
        Ok(vec![Stmt::ConsoleLog(sum(var("a"), Expr::Number(3)))])
    );
    assert_eq!(
        parse_source("let z = \"a\" + \"b\";"),
        Ok(vec![let_stmt(
            "z",
            sum(Expr::String("a".to_string()), Expr::String("b".to_string()))
        )])
    );
}

#[test]
fn statements_come_in_source_order() {
    assert_eq!(
        parse_source("let a = 2; let b = 3; console.log(a + b);"),
        Ok(vec![
            let_stmt("a", Expr::Number(2)),
            let_stmt("b", Expr::Number(3)),
            Stmt::ConsoleLog(sum(var("a"), var("b"))),
        ])
    );
}

#[test]
fn sum_of_three_terms_does_not_parse() {
    assert_eq!(
        parse_source("let x = 1 + 2 + 3;"),
        Err(ParseError::InvalidStatement)
    );
    assert_eq!(
        parse_source("console.log(1 + 2 + 3);"),
        Err(ParseError::InvalidStatement)
    );
}

#[test]
fn expression_stops_after_the_second_term() {
    // The second `+` is stepped over in the place of `;`, the `3` in the
    // place of nothing: the statement itself parses.
    assert_eq!(
        parse(vec![
            Token::Let,
            ident("x"),
            Token::Equal,
            Token::Number(1),
            Token::Plus,
            Token::Number(2),
            Token::Plus,
        ]),
        Ok(vec![let_stmt("x", sum(Expr::Number(1), Expr::Number(2)))])
    );
}

#[test]
fn statement_must_start_with_let_or_console() {
    assert_eq!(parse_source("x = 1;"), Err(ParseError::InvalidStatement));
    assert_eq!(parse_source("5;"), Err(ParseError::InvalidStatement));
    assert_eq!(parse_source(";"), Err(ParseError::InvalidStatement));
    assert_eq!(parse_source("log(1);"), Err(ParseError::InvalidStatement));
    assert_eq!(
        parse_source("let x = 1; + let y = 2;"),
        Err(ParseError::InvalidStatement)
    );
}

#[test]
fn term_must_be_number_string_or_identifier() {
    assert_eq!(parse_source("let x = ;"), Err(ParseError::InvalidExpression));
    assert_eq!(
        parse_source("let x = let;"),
        Err(ParseError::InvalidExpression)
    );
    assert_eq!(
        parse_source("console.log();"),
        Err(ParseError::InvalidExpression)
    );
    assert_eq!(
        parse_source("let x = 1 + ;"),
        Err(ParseError::InvalidExpression)
    );
    assert_eq!(
        parse_source("let x = (1);"),
        Err(ParseError::InvalidExpression)
    );
}

#[test]
fn tokens_may_not_end_where_a_term_is_due() {
    assert_eq!(parse_source("let x ="), Err(ParseError::InvalidExpression));
    assert_eq!(parse_source("let x"), Err(ParseError::InvalidExpression));
    assert_eq!(parse_source("console"), Err(ParseError::InvalidExpression));
    assert_eq!(
        parse_source("console.log("),
        Err(ParseError::InvalidExpression)
    );
    assert_eq!(parse_source("let x = 1 +"), Err(ParseError::InvalidExpression));
}

#[test]
fn let_must_be_followed_by_an_identifier() {
    assert_eq!(
        parse_source("let 5 = 1;"),
        Err(ParseError::ExpectedIdentifier)
    );
    assert_eq!(
        parse_source("let = 1;"),
        Err(ParseError::ExpectedIdentifier)
    );
    assert_eq!(parse_source("let"), Err(ParseError::ExpectedIdentifier));
    assert_eq!(
        parse_source("let let = 1;"),
        Err(ParseError::ExpectedIdentifier)
    );
    assert_eq!(
        parse_source("let \"x\" = 1;"),
        Err(ParseError::ExpectedIdentifier)
    );
}

#[test]
fn trailing_tokens_of_the_last_statement_may_be_missing() {
    assert_eq!(
        parse_source("let x = 1"),
        Ok(vec![let_stmt("x", Expr::Number(1))])
    );
    assert_eq!(
        parse_source("console.log(1"),
        Ok(vec![Stmt::ConsoleLog(Expr::Number(1))])
    );
    assert_eq!(
        parse_source("console.log(1)"),
        Ok(vec![Stmt::ConsoleLog(Expr::Number(1))])
    );
}

#[test]
fn structural_tokens_are_stepped_over_unseen() {
    assert_eq!(
        parse_source("let x + 1 ="),
        Ok(vec![let_stmt("x", Expr::Number(1))])
    );
    assert_eq!(
        parse_source("let x ; 1 ) let y = 2;"),
        Ok(vec![
            let_stmt("x", Expr::Number(1)),
            let_stmt("y", Expr::Number(2)),
        ])
    );
    assert_eq!(
        parse_source("console log log log 7 = ="),
        Ok(vec![Stmt::ConsoleLog(Expr::Number(7))])
    );
    assert_eq!(
        parse_source("console ; ; ; a + b ( ( console.log(c);"),
        Ok(vec![
            Stmt::ConsoleLog(sum(var("a"), var("b"))),
            Stmt::ConsoleLog(var("c")),
        ])
    );
}

#[test]
fn missing_separator_puts_the_parser_out_of_step() {
    // Without the `;` the `let` of the second statement is stepped over in
    // its place, and the statement after it starts at `y`.
    assert_eq!(
        parse_source("let x = 1 let y = 2;"),
        Err(ParseError::InvalidStatement)
    );
    // Without the `=` the value is stepped over in its place.
    assert_eq!(parse_source("let x 1;"), Err(ParseError::InvalidExpression));
}

#[test]
fn first_error_wins_and_no_statement_is_handed_out() {
    assert_eq!(
        parse_source("let a = 1; let b = ; x"),
        Err(ParseError::InvalidExpression)
    );
}

#[test]
fn parsing_again_at_the_end_gives_nothing() {
    let mut parser = Parser::new(tokenize("let x = 1; console.log(x);").unwrap());
    assert_eq!(
        parser.parse(),
        Ok(vec![
            let_stmt("x", Expr::Number(1)),
            Stmt::ConsoleLog(var("x")),
        ])
    );
    assert_eq!(parser.parse(), Ok(vec![]));
}

#[test]
fn parser_stays_at_the_error() {
    let mut parser = Parser::new(tokenize("let x = 1; 5; let y = 2;").unwrap());
    assert_eq!(parser.parse(), Err(ParseError::InvalidStatement));
    assert_eq!(parser.parse(), Err(ParseError::InvalidStatement));
}

#[test]
fn keywords_inside_expressions_are_not_terms() {
    assert_eq!(
        parse_source("console.log(log);"),
        Err(ParseError::InvalidExpression)
    );
}

#[test]
fn parse_error_messages() {
    assert_eq!(ParseError::InvalidStatement.message(), "Invalid statement");
    assert_eq!(ParseError::InvalidExpression.message(), "Invalid expression");
    assert_eq!(
        ParseError::ExpectedIdentifier.message(),
        "Expected identifier"
    );
}
