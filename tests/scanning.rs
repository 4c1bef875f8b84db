use lox::lox::Lox;
use lox::scanner::Scanner;
use lox::token::Token;
use lox::tokentype::TokenType;

fn scan(source: &str) -> (Vec<Token>, Lox) {
    let mut lox = Lox::new();
    let tokens = Scanner::new(source).scan_tokens(&mut lox);
    (tokens, lox)
}

fn kinds(tokens: &[Token]) -> Vec<TokenType> {
    tokens.iter().map(|t| t.token_type).collect()
}

fn lexemes(tokens: &[Token]) -> Vec<String> {
    tokens.iter().map(|t| t.lexeme.clone()).collect()
}

#[test]
fn precedence_example_scans_to_numbers_and_operators() {
    let (tokens, lox) = scan("1 + 2 * 3");
    assert_eq!(
        kinds(&tokens),
        vec![
            TokenType::Number,
            TokenType::Plus,
            TokenType::Number,
            TokenType::Star,
            TokenType::Number,
            TokenType::Eof
        ]
    );
    assert_eq!(lexemes(&tokens), vec!["1", "+", "2", "*", "3", ""]);
    assert_eq!(tokens[0].literal, Some("1".to_string()));
    assert_eq!(tokens[1].literal, None);
    assert!(!lox.had_error);
}

#[test]
fn forest_is_one_identifier() {
    let (tokens, _) = scan("forest");
    assert_eq!(kinds(&tokens), vec![TokenType::Identifier, TokenType::Eof]);
    assert_eq!(tokens[0].lexeme, "forest");
}

#[test]
fn reserved_words_scan_to_their_types() {
    let (tokens, _) =
        scan("and class else false for fun if nil or print return super this true var while");
    assert_eq!(
        kinds(&tokens),
        vec![
            TokenType::And,
            TokenType::Class,
            TokenType::Else,
            TokenType::False,
            TokenType::For,
            TokenType::Fun,
            TokenType::If,
            TokenType::Nil,
            TokenType::Or,
            TokenType::Print,
            TokenType::Return,
            TokenType::Super,
            TokenType::This,
            TokenType::True,
            TokenType::Var,
            TokenType::While,
            TokenType::Eof
        ]
    );
}

#[test]
fn identifiers_take_letters_digits_and_underscores() {
    let (tokens, _) = scan("_a1 b_2 For");
    assert_eq!(
        kinds(&tokens),
        vec![TokenType::Identifier, TokenType::Identifier, TokenType::Identifier, TokenType::Eof]
    );
    assert_eq!(lexemes(&tokens), vec!["_a1", "b_2", "For", ""]);
}

#[test]
fn line_comment_is_invisible() {
    let (with_comment, _) = scan("// comment\n1");
    let (plain, _) = scan("1");
    assert_eq!(kinds(&with_comment), kinds(&plain));
    assert_eq!(lexemes(&with_comment), lexemes(&plain));
    assert_eq!(with_comment[0].line, 2);
}

#[test]
fn block_comment_is_invisible_and_counts_lines() {
    let (tokens, lox) = scan("/* one\ntwo */ 1 /* open");
    assert_eq!(kinds(&tokens), vec![TokenType::Number, TokenType::Eof]);
    assert_eq!(tokens[0].line, 2);
    assert!(!lox.had_error);
}

#[test]
fn block_comments_do_not_nest() {
    let (tokens, _) = scan("/* a /* b */ c */");
    assert_eq!(
        kinds(&tokens),
        vec![TokenType::Identifier, TokenType::Star, TokenType::Slash, TokenType::Eof]
    );
}

#[test]
fn unterminated_string_reports_one_error() {
    let (tokens, lox) = scan("\"abc");
    assert_eq!(kinds(&tokens), vec![TokenType::Eof]);
    assert!(lox.had_error);
    assert_eq!(lox.reports.len(), 1);
    assert_eq!(lox.reports[0].message, "Unterminated string");
    assert_eq!(lox.reports[0].line, 1);
}

#[test]
fn string_literal_is_the_text_between_quotes() {
    let (tokens, _) = scan("\"hi there\"");
    assert_eq!(kinds(&tokens), vec![TokenType::String, TokenType::Eof]);
    assert_eq!(tokens[0].lexeme, "\"hi there\"");
    assert_eq!(tokens[0].literal, Some("hi there".to_string()));
}

#[test]
fn empty_string_has_an_empty_literal() {
    let (tokens, _) = scan("\"\"");
    assert_eq!(tokens[0].literal, Some(String::new()));
}

#[test]
fn multi_line_string_keeps_its_first_line() {
    let (tokens, _) = scan("\"a\nb\" x");
    assert_eq!(tokens[0].line, 1);
    assert_eq!(tokens[0].literal, Some("a\nb".to_string()));
    assert_eq!(tokens[1].line, 2);
    assert_eq!(tokens[2].line, 2);
}

#[test]
fn numbers_take_a_fraction_only_after_a_digit() {
    let (tokens, _) = scan("12.5 7. .5");
    assert_eq!(
        kinds(&tokens),
        vec![
            TokenType::Number,
            TokenType::Number,
            TokenType::Dot,
            TokenType::Dot,
            TokenType::Number,
            TokenType::Eof
        ]
    );
    assert_eq!(lexemes(&tokens), vec!["12.5", "7", ".", ".", "5", ""]);
    assert_eq!(tokens[0].literal, Some("12.5".to_string()));
}

#[test]
fn one_and_two_character_operators() {
    let (tokens, _) = scan("! != = == < <= > >= / ===");
    assert_eq!(
        kinds(&tokens),
        vec![
            TokenType::Bang,
            TokenType::BangEqual,
            TokenType::Equal,
            TokenType::EqualEqual,
            TokenType::Less,
            TokenType::LessEqual,
            TokenType::Greater,
            TokenType::GreaterEqual,
            TokenType::Slash,
            TokenType::EqualEqual,
            TokenType::Equal,
            TokenType::Eof
        ]
    );
}

#[test]
fn punctuation_stands_alone() {
    let (tokens, _) = scan("(){},.-+;*");
    assert_eq!(
        kinds(&tokens),
        vec![
            TokenType::LeftParen,
            TokenType::RightParen,
            TokenType::LeftBrace,
            TokenType::RightBrace,
            TokenType::Comma,
            TokenType::Dot,
            TokenType::Minus,
            TokenType::Plus,
            TokenType::Semicolon,
            TokenType::Star,
            TokenType::Eof
        ]
    );
}

#[test]
fn unexpected_character_is_reported_and_skipped() {
    let (tokens, lox) = scan("1 @ 2\n#");
    assert_eq!(kinds(&tokens), vec![TokenType::Number, TokenType::Number, TokenType::Eof]);
    assert_eq!(lox.reports.len(), 2);
    assert_eq!(lox.reports[0].message, "Unexpected character");
    assert_eq!(lox.reports[0].line, 1);
    assert_eq!(lox.reports[0].location, "");
    assert_eq!(lox.reports[1].line, 2);
}

#[test]
fn empty_source_is_only_end_of_input() {
    let (tokens, lox) = scan("");
    assert_eq!(tokens.len(), 1);
    assert_eq!(tokens[0].token_type, TokenType::Eof);
    assert_eq!(tokens[0].lexeme, "");
    assert_eq!(tokens[0].line, 1);
    assert!(!lox.had_error);
}

#[test]
fn lines_are_counted_from_one() {
    let (tokens, _) = scan("a\n\tb\r\n\nc\n");
    let lines: Vec<usize> = tokens.iter().map(|t| t.line).collect();
    assert_eq!(lines, vec![1, 2, 4, 5]);
}

#[test]
fn scanning_twice_gives_the_same_tokens() {
    let source = "var x = (1 + 2.5) * \"s\"; // done\n@";
    let (first, first_lox) = scan(source);
    let (second, second_lox) = scan(source);
    assert_eq!(first, second);
    assert_eq!(first_lox.reports, second_lox.reports);
}

#[test]
fn non_ascii_text_inside_strings_is_kept() {
    let (tokens, lox) = scan("\"héllo\"");
    assert_eq!(tokens[0].literal, Some("héllo".to_string()));
    assert!(!lox.had_error);
}

#[test]
fn leading_comment_moves_everything_down_one_line() {
    let (with_comment, with_lox) = scan("// note\n1 + @\n\"x");
    let (plain, plain_lox) = scan("1 + @\n\"x");
    assert_eq!(kinds(&with_comment), kinds(&plain));
    assert_eq!(lexemes(&with_comment), lexemes(&plain));
    for (a, b) in with_comment.iter().zip(plain.iter()) {
        assert_eq!(a.line, b.line + 1);
        assert_eq!(a.literal, b.literal);
    }
    assert_eq!(with_lox.reports.len(), plain_lox.reports.len());
    for (a, b) in with_lox.reports.iter().zip(plain_lox.reports.iter()) {
        assert_eq!(a.line, b.line + 1);
        assert_eq!(a.message, b.message);
    }
}

#[test]
fn unterminated_string_over_lines_reports_its_first_line() {
    let (tokens, lox) = scan("\"a\nb");
    assert_eq!(kinds(&tokens), vec![TokenType::Eof]);
    assert_eq!(tokens[0].line, 2);
    assert_eq!(lox.reports.len(), 1);
    assert_eq!(lox.reports[0].line, 1);
    assert_eq!(lox.reports[0].message, "Unterminated string");
}

#[test]
fn words_that_start_with_reserved_words_are_identifiers() {
    for word in ["forest", "andy", "nil_", "orchid", "while2", "classes"] {
        let (tokens, _) = scan(word);
        assert_eq!(kinds(&tokens), vec![TokenType::Identifier, TokenType::Eof], "{}", word);
        assert_eq!(tokens[0].lexeme, word);
    }
}
