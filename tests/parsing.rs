use lox::expr::{Expr, Literal, Operator};
use lox::lox::Lox;
use lox::parser::{ParseError, Parser};
use lox::scanner::Scanner;
use lox::token::Token;
use lox::tokentype::TokenType;

fn tokens(source: &str) -> Vec<Token> {
    let mut lox = Lox::new();
    Scanner::new(source).scan_tokens(&mut lox)
}

fn parse(source: &str) -> Result<Expr, ParseError> {
    Parser::new(tokens(source)).parse()
}

fn num(text: &str) -> Expr {
    Expr::Literal(Literal::Number(text.to_string()))
}

fn binary(left: Expr, operator: Operator, right: Expr) -> Expr {
    Expr::Binary(Box::new(left), operator, Box::new(right))
}

#[test]
fn single_operator_gives_one_binary_node() {
    let cases = [
        ("+", Operator::Plus),
        ("-", Operator::Minus),
        ("*", Operator::Times),
        ("/", Operator::Divide),
        ("==", Operator::EqualEqual),
        ("!=", Operator::BangEqual),
        ("<", Operator::Less),
        ("<=", Operator::LessEqual),
        (">", Operator::Greater),
        (">=", Operator::GreaterEqual),
    ];
    for (text, operator) in cases {
        let source = format!("4 {} 5", text);
        assert_eq!(parse(&source), Ok(binary(num("4"), operator, num("5"))), "{}", source);
    }
}

#[test]
fn single_operator_over_other_literals() {
    assert_eq!(
        parse("\"a\" == nil"),
        Ok(binary(
            Expr::Literal(Literal::String("a".to_string())),
            Operator::EqualEqual,
            Expr::Literal(Literal::Nil)
        ))
    );
}

#[test]
fn multiplication_binds_tighter_than_addition() {
    assert_eq!(
        parse("1 + 2 * 3"),
        Ok(binary(num("1"), Operator::Plus, binary(num("2"), Operator::Times, num("3"))))
    );
}

#[test]
fn subtraction_is_left_associative() {
    assert_eq!(
        parse("1 - 2 - 3"),
        Ok(binary(binary(num("1"), Operator::Minus, num("2")), Operator::Minus, num("3")))
    );
}

#[test]
fn equality_chains_are_left_associative() {
    assert_eq!(
        parse("1 == 2 != 3"),
        Ok(binary(
            binary(num("1"), Operator::EqualEqual, num("2")),
            Operator::BangEqual,
            num("3")
        ))
    );
}

#[test]
fn grouping_overrides_precedence() {
    assert_eq!(
        parse("(1 + 2) * 3"),
        Ok(binary(
            Expr::Grouping(Box::new(binary(num("1"), Operator::Plus, num("2")))),
            Operator::Times,
            num("3")
        ))
    );
}

#[test]
fn all_levels_in_one_expression() {
    assert_eq!(
        parse("1 < 2 == 3 - 4 / 5"),
        Ok(binary(
            binary(num("1"), Operator::Less, num("2")),
            Operator::EqualEqual,
            binary(num("3"), Operator::Minus, binary(num("4"), Operator::Divide, num("5")))
        ))
    );
}

#[test]
fn unary_operators_nest_to_the_right() {
    assert_eq!(
        parse("--1"),
        Ok(Expr::Unary(Operator::Minus, Box::new(Expr::Unary(Operator::Minus, Box::new(num("1"))))))
    );
    assert_eq!(
        parse("!true == false"),
        Ok(binary(
            Expr::Unary(Operator::Bang, Box::new(Expr::Literal(Literal::True))),
            Operator::EqualEqual,
            Expr::Literal(Literal::False)
        ))
    );
}

#[test]
fn fractional_number_keeps_its_text() {
    assert_eq!(parse("2.75"), Ok(num("2.75")));
}

#[test]
fn unmatched_parenthesis_fails_at_end_of_input() {
    let error = parse("(1 + 2").unwrap_err();
    assert_eq!(error.message, "Expected ')' after expression");
    assert_eq!(error.token.token_type, TokenType::Eof);
}

#[test]
fn missing_operand_is_a_syntax_error() {
    let error = parse("1 + )").unwrap_err();
    assert_eq!(error.message, "Expect expression.");
    assert_eq!(error.token.token_type, TokenType::RightParen);
    assert_eq!(error.token.lexeme, ")");
}

#[test]
fn empty_input_is_a_syntax_error_at_the_end() {
    let error = parse("").unwrap_err();
    assert_eq!(error.message, "Expect expression.");
    assert_eq!(error.token.token_type, TokenType::Eof);
}

#[test]
fn parsing_twice_gives_the_same_tree() {
    let source = "-(1 + 2) * 3 >= \"x\" != nil";
    let first = Parser::new(tokens(source)).parse();
    let second = Parser::new(tokens(source)).parse();
    assert!(first.is_ok());
    assert_eq!(first, second);
}

#[test]
fn synchronize_skips_past_a_semicolon() {
    let mut parser = Parser::new(tokens("+ 1 ; 2"));
    assert!(parser.parse().is_err());
    parser.synchronize();
    assert_eq!(parser.parse(), Ok(num("2")));
}

#[test]
fn synchronize_stops_before_return() {
    let mut parser = Parser::new(tokens("* 1 2 return"));
    assert!(parser.parse().is_err());
    parser.synchronize();
    let error = parser.parse().unwrap_err();
    assert_eq!(error.token.token_type, TokenType::Return);
}

#[test]
fn synchronize_at_end_stays_at_end() {
    let mut parser = Parser::new(tokens(""));
    parser.synchronize();
    let error = parser.parse().unwrap_err();
    assert_eq!(error.token.token_type, TokenType::Eof);
}

#[test]
fn token_without_literal_parses_to_its_lexeme() {
    let tokens = vec![
        Token::new(TokenType::Number, "42".to_string(), None, 1),
        Token::new(TokenType::Eof, String::new(), None, 1),
    ];
    assert_eq!(Parser::new(tokens).parse(), Ok(num("42")));
}
