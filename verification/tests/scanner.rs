//! The scanner: tokens, lexemes, lines and lexical errors.

use rjlox::scanner::{keyword_of, Scanner};
use rjlox::token::{Literal, Token, TokenType};

/// Scans a whole text; number literals get the value that `f32` parses.
fn scan(source: &str) -> Scanner {
    let mut scanner = Scanner::new(source.to_string());
    while let Some(text) = scanner.scan_tokens() {
        scanner.number(text.parse::<f32>().unwrap().to_bits());
    }
    scanner
}

fn kinds(source: &str) -> Vec<TokenType> {
    scan(source).tokens.iter().map(|token| token.token_type).collect()
}

fn lexemes(source: &str) -> Vec<String> {
    scan(source).tokens.iter().map(|token| token.lexeme.clone()).collect()
}

#[test]
fn punctuation() {
    assert_eq!(
        kinds("(){},.-+;/*"),
        vec![
            TokenType::LeftParen,
            TokenType::RightParen,
            TokenType::LeftBrace,
            TokenType::RightBrace,
            TokenType::COMMA,
            TokenType::DOT,
            TokenType::MINUS,
            TokenType::PLUS,
            TokenType::SEMICOLON,
            TokenType::SLASH,
            TokenType::STAR,
            TokenType::EOF,
        ]
    );
}

#[test]
fn one_and_two_character_operators() {
    assert_eq!(
        kinds("! != = == < <= > >="),
        vec![
            TokenType::BANG,
            TokenType::BangEqual,
            TokenType::EQUAL,
            TokenType::EqualEqual,
            TokenType::LESS,
            TokenType::LessEqual,
            TokenType::GREATER,
            TokenType::GreaterEqual,
            TokenType::EOF,
        ]
    );
    assert_eq!(kinds("==="), vec![TokenType::EqualEqual, TokenType::EQUAL, TokenType::EOF]);
    assert_eq!(kinds("!"), vec![TokenType::BANG, TokenType::EOF]);
}

#[test]
fn keywords() {
    assert_eq!(
        kinds("and class else false for fun if nil or print return super this true var while"),
        vec![
            TokenType::AND,
            TokenType::CLASS,
            TokenType::ELSE,
            TokenType::FALSE,
            TokenType::FOR,
            TokenType::FUN,
            TokenType::IF,
            TokenType::NIL,
            TokenType::OR,
            TokenType::PRINT,
            TokenType::RETURN,
            TokenType::SUPER,
            TokenType::THIS,
            TokenType::TRUE,
            TokenType::VAR,
            TokenType::WHILE,
            TokenType::EOF,
        ]
    );
}

#[test]
fn keyword_lookup() {
    assert_eq!(keyword_of(&"while".to_string()), Some(TokenType::WHILE));
    assert_eq!(keyword_of(&"While".to_string()), None);
    assert_eq!(keyword_of(&"whil".to_string()), None);
    assert_eq!(keyword_of(&"".to_string()), None);
}

#[test]
fn identifiers() {
    assert_eq!(
        kinds("orchid _x1 classy fun_ Nil"),
        vec![
            TokenType::IDENTIFIER,
            TokenType::IDENTIFIER,
            TokenType::IDENTIFIER,
            TokenType::IDENTIFIER,
            TokenType::IDENTIFIER,
            TokenType::EOF,
        ]
    );
    assert_eq!(lexemes("orchid _x1"), vec!["orchid", "_x1", ""]);
}

#[test]
fn identifier_may_start_with_any_letter() {
    let scanner = scan("\u{e9}t\u{e9}");
    assert_eq!(scanner.tokens[0].token_type, TokenType::IDENTIFIER);
    assert_eq!(scanner.tokens[0].lexeme, "\u{e9}t");
    assert_eq!(scanner.tokens[1].token_type, TokenType::IDENTIFIER);
    assert_eq!(scanner.tokens[1].lexeme, "\u{e9}");
    assert!(scanner.diagnostics.is_empty());
}

#[test]
fn lexeme_is_the_source_substring() {
    let source = "var answer = (40 + 2.5) >= other_1; // note\nprint \"a b\";";
    let scanner = scan(source);
    let mut position = 0;
    for token in &scanner.tokens {
        let found = source[position..].find(token.lexeme.as_str()).unwrap();
        position += found + token.lexeme.len();
    }
    assert_eq!(
        lexemes(source),
        vec![
            "var", "answer", "=", "(", "40", "+", "2.5", ")", ">=", "other_1", ";", "print",
            "\"a b\"", ";", ""
        ]
    );
}

#[test]
fn number_literals_wait_for_their_value() {
    let mut scanner = Scanner::new("1 + 12.5".to_string());
    assert_eq!(scanner.scan_tokens(), Some("1".to_string()));
    assert_eq!(scanner.tokens.len(), 0);
    assert_eq!(scanner.scan_tokens(), Some("1".to_string()));
    scanner.number(7);
    assert_eq!(scanner.tokens, vec![Token::new(TokenType::NUMBER, "1".to_string(), Literal::Num(7), 1)]);
    assert_eq!(scanner.scan_tokens(), Some("12.5".to_string()));
    scanner.number(12.5f32.to_bits());
    assert_eq!(scanner.scan_tokens(), None);
    assert_eq!(
        scanner.tokens(),
        vec![
            Token::new(TokenType::NUMBER, "1".to_string(), Literal::Num(7), 1),
            Token::new(TokenType::PLUS, "+".to_string(), Literal::Nil, 1),
            Token::new(TokenType::NUMBER, "12.5".to_string(), Literal::Num(12.5f32.to_bits()), 1),
            Token::new(TokenType::EOF, "".to_string(), Literal::Nil, 1),
        ]
    );
}

#[test]
fn number_without_a_waiting_literal_does_nothing() {
    let mut scanner = Scanner::new("a".to_string());
    scanner.number(1);
    assert!(scanner.tokens.is_empty());
    assert_eq!(scanner.scan_tokens(), None);
    scanner.number(1);
    assert_eq!(scanner.tokens.len(), 2);
}

#[test]
fn dots_around_numbers() {
    assert_eq!(lexemes("1."), vec!["1", ".", ""]);
    assert_eq!(lexemes(".5"), vec![".", "5", ""]);
    assert_eq!(lexemes("1.5.2"), vec!["1.5", ".", "2", ""]);
    assert_eq!(lexemes("12.a"), vec!["12", ".", "a", ""]);
}

#[test]
fn end_is_marked_once() {
    let mut scanner = Scanner::new("".to_string());
    assert_eq!(scanner.scan_tokens(), None);
    assert_eq!(scanner.scan_tokens(), None);
    assert_eq!(scanner.tokens, vec![Token::new(TokenType::EOF, "".to_string(), Literal::Nil, 1)]);
}

#[test]
fn string_literal() {
    let scanner = scan("\"hello world\"");
    assert_eq!(
        scanner.tokens[0],
        Token::new(
            TokenType::STRING,
            "\"hello world\"".to_string(),
            Literal::Str("hello world".to_string()),
            1
        )
    );
}

#[test]
fn empty_string_literal() {
    let scanner = scan("\"\"");
    assert_eq!(scanner.tokens[0].literal, Literal::Str("".to_string()));
    assert_eq!(scanner.tokens[0].lexeme, "\"\"");
}

#[test]
fn string_literal_over_lines() {
    let scanner = scan("\"a\nb\nc\" x");
    assert_eq!(scanner.tokens[0].literal, Literal::Str("a\nb\nc".to_string()));
    assert_eq!(scanner.tokens[0].line, 3);
    assert_eq!(scanner.tokens[1].line, 3);
}

#[test]
fn backslash_is_an_ordinary_character_in_a_string() {
    let scanner = scan("\"a\\n\"");
    assert_eq!(scanner.tokens[0].literal, Literal::Str("a\\n".to_string()));
}

#[test]
fn unterminated_string() {
    let scanner = scan("print \"abc\ndef");
    assert_eq!(scanner.diagnostics, vec!["[line 2] Error: Unterminated string."]);
    assert_eq!(kinds("print \"abc\ndef"), vec![TokenType::PRINT, TokenType::EOF]);
}

#[test]
fn unexpected_character() {
    let scanner = scan("a @ b\n#");
    assert_eq!(
        scanner.diagnostics,
        vec!["[line 1] Error: Unexpected character.", "[line 2] Error: Unexpected character."]
    );
    assert_eq!(lexemes("a @ b\n#"), vec!["a", "b", ""]);
}

#[test]
fn comments_and_blank_space() {
    assert_eq!(lexemes("a // b c d\n\t b \r\n// only a comment"), vec!["a", "b", ""]);
    assert_eq!(lexemes("a / b"), vec!["a", "/", "b", ""]);
}

#[test]
fn lines_are_counted() {
    let scanner = scan("a\nb\n\nc // x\nd");
    let lines: Vec<usize> = scanner.tokens.iter().map(|token| token.line).collect();
    assert_eq!(lines, vec![1, 2, 4, 5, 5]);
}

#[test]
fn scanner_starts_at_line_one() {
    let scanner = Scanner::new("x".to_string());
    assert_eq!(scanner.line, 1);
    assert_eq!(scanner.current, 0);
    assert_eq!(scanner.chars, vec!['x']);
    assert!(!scanner.pending);
    assert!(!scanner.finished);
}
