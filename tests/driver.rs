use lox::expr::{Expr, Literal, Operator};
use lox::lox::Lox;
use lox::token::Token;
use lox::tokentype::TokenType;

#[test]
fn run_returns_the_tree_of_valid_input() {
    let mut lox = Lox::new();
    let expr = lox.run("1 + 2");
    assert_eq!(
        expr,
        Some(Expr::Binary(
            Box::new(Expr::Literal(Literal::Number("1".to_string()))),
            Operator::Plus,
            Box::new(Expr::Literal(Literal::Number("2".to_string())))
        ))
    );
    assert!(!lox.had_error);
    assert!(lox.reports.is_empty());
}

#[test]
fn run_reports_a_missing_parenthesis_at_end() {
    let mut lox = Lox::new();
    assert_eq!(lox.run("(1 + 2"), None);
    assert!(lox.had_error);
    assert_eq!(lox.reports.len(), 1);
    assert_eq!(lox.reports[0].location, " at end");
    assert_eq!(lox.reports[0].message, "Expected ')' after expression");
    assert_eq!(lox.reports[0].line, 1);
}

#[test]
fn run_with_a_lexical_error_gives_no_tree() {
    let mut lox = Lox::new();
    assert_eq!(lox.run("1 + @ 2"), None);
    assert!(lox.had_error);
    assert_eq!(lox.reports.len(), 1);
    assert_eq!(lox.reports[0].message, "Unexpected character");
}

#[test]
fn run_after_an_earlier_error_gives_no_tree() {
    let mut lox = Lox::new();
    assert_eq!(lox.run("@"), None);
    assert_eq!(lox.run("1"), None);
    lox.had_error = false;
    assert!(lox.run("1").is_some());
}

#[test]
fn run_reports_lexical_and_syntax_errors_in_order() {
    let mut lox = Lox::new();
    assert_eq!(lox.run("\n# +"), None);
    assert_eq!(lox.reports.len(), 2);
    assert_eq!(lox.reports[0].message, "Unexpected character");
    assert_eq!(lox.reports[0].line, 2);
    assert_eq!(lox.reports[1].message, "Expect expression.");
    assert_eq!(lox.reports[1].location, "");
}

#[test]
fn error_at_a_token_is_recorded_with_its_line() {
    let mut lox = Lox::new();
    let token = Token::new(TokenType::Plus, "+".to_string(), None, 7);
    lox.error(&token, "bad");
    assert!(lox.had_error);
    assert_eq!(lox.reports[0].line, 7);
    assert_eq!(lox.reports[0].location, "");
    assert_eq!(lox.reports[0].message, "bad");
}

#[test]
fn report_records_every_error() {
    let mut lox = Lox::new();
    lox.report(3, " at 'x'", "first");
    lox.report(4, "", "second");
    assert_eq!(lox.reports.len(), 2);
    assert_eq!(lox.reports[0].location, " at 'x'");
    assert_eq!(lox.reports[1].line, 4);
}

#[test]
fn token_new_keeps_its_fields() {
    let token = Token::new(TokenType::String, "\"a\"".to_string(), Some("a".to_string()), 2);
    assert_eq!(token.token_type, TokenType::String);
    assert_eq!(token.lexeme, "\"a\"");
    assert_eq!(token.literal, Some("a".to_string()));
    assert_eq!(token.line, 2);
    assert_eq!(token.duplicate(), token);
    assert_eq!(token.value(), "a");
}

#[test]
fn operators_come_from_their_token_types() {
    assert_eq!(Operator::from_token_type(TokenType::Star), Some(Operator::Times));
    assert_eq!(Operator::from_token_type(TokenType::Slash), Some(Operator::Divide));
    assert_eq!(Operator::from_token_type(TokenType::BangEqual), Some(Operator::BangEqual));
    assert_eq!(Operator::from_token_type(TokenType::Equal), None);
    assert_eq!(Operator::from_token_type(TokenType::Identifier), None);
}
