use lox_scanner::diagnostic::{Diagnostic, DiagnosticKind};
use lox_scanner::stream::CharStream;
use lox_scanner::token::{Token, TokenType};
use lox_scanner::tokenizer::{format_number, parse_keywords, parse_token, tokenize};

fn token(kind: TokenType, lexeme: &str, value: Option<&str>) -> Token {
    Token::new(kind, lexeme.to_string(), value.map(|v| v.to_string()))
}

fn rest_of(mut chars: CharStream) -> String {
    let mut rest = String::new();
    while let Some(c) = chars.next() {
        rest.push(c);
    }
    rest
}

struct Step {
    tokens: Vec<Token>,
    rest: String,
    line: u32,
    has_error: bool,
    diagnostics: Vec<Diagnostic>,
}

fn step(c: char, behind: &str, line: u32, has_error: bool) -> Step {
    let mut chars = CharStream::new(behind).unwrap();
    let mut line = line;
    let mut has_error = has_error;
    let mut diagnostics = Vec::new();
    let tokens = parse_token(c, &mut chars, &mut line, &mut has_error, &mut diagnostics);
    Step { tokens, rest: rest_of(chars), line, has_error, diagnostics }
}

#[test]
fn step_on_punctuation_reads_nothing_more() {
    let s = step('(', "()", 1, false);
    assert_eq!(s.tokens, vec![token(TokenType::LEFT_PAREN, "(", None)]);
    assert_eq!(s.rest, "()");
    assert_eq!(s.line, 1);
    assert!(!s.has_error);
    assert!(s.diagnostics.is_empty());
}

#[test]
fn step_on_operator_takes_the_equal_only() {
    let s = step('<', "=x", 1, false);
    assert_eq!(s.tokens, vec![token(TokenType::LESS_EQUAL, "<=", None)]);
    assert_eq!(s.rest, "x");
    let s = step('<', "x=", 1, false);
    assert_eq!(s.tokens, vec![token(TokenType::LESS, "<", None)]);
    assert_eq!(s.rest, "x=");
    let s = step('=', "", 1, false);
    assert_eq!(s.tokens, vec![token(TokenType::EQUAL, "=", None)]);
    assert_eq!(s.rest, "");
}

#[test]
fn step_on_number_goes_on_with_what_ended_it() {
    let s = step('1', "2+3", 1, false);
    assert_eq!(
        s.tokens,
        vec![token(TokenType::NUMBER, "12", Some("12.0")), token(TokenType::PLUS, "+", None)]
    );
    assert_eq!(s.rest, "3");
}

#[test]
fn step_on_number_then_blank_stops_there() {
    let s = step('1', " 2", 1, false);
    assert_eq!(s.tokens, vec![token(TokenType::NUMBER, "1", Some("1.0"))]);
    assert_eq!(s.rest, "2");
}

#[test]
fn step_chains_through_number_identifier_and_operator() {
    let s = step('1', "ab>=c", 1, false);
    assert_eq!(
        s.tokens,
        vec![
            token(TokenType::NUMBER, "1", Some("1.0")),
            token(TokenType::IDENTIFIER, "ab", None),
            token(TokenType::GREATER_EQUAL, ">=", None),
        ]
    );
    assert_eq!(s.rest, "c");
}

#[test]
fn step_on_identifier_counts_the_newline_behind_it() {
    let s = step('v', "ar\nx", 4, false);
    assert_eq!(s.tokens, vec![token(TokenType::VAR, "var", None)]);
    assert_eq!(s.rest, "x");
    assert_eq!(s.line, 5);
}

#[test]
fn step_on_identifier_reports_what_ended_it() {
    let s = step('a', "@b", 7, false);
    assert_eq!(s.tokens, vec![token(TokenType::IDENTIFIER, "a", None)]);
    assert_eq!(s.rest, "b");
    assert!(s.has_error);
    assert_eq!(s.diagnostics, vec![Diagnostic::new(DiagnosticKind::UnexpectedCharacter('@'), 7)]);
}

#[test]
fn step_on_number_with_trailing_point() {
    let s = step('5', ".", 1, false);
    assert_eq!(
        s.tokens,
        vec![token(TokenType::NUMBER, "5", Some("5.0")), token(TokenType::DOT, ".", None)]
    );
    assert_eq!(s.rest, "");
    let s = step('5', ".;x", 1, false);
    assert_eq!(
        s.tokens,
        vec![
            token(TokenType::NUMBER, "5", Some("5.0")),
            token(TokenType::DOT, ".", None),
            token(TokenType::SEMICOLON, ";", None),
        ]
    );
    assert_eq!(s.rest, "x");
}

#[test]
fn step_on_comment_reads_through_the_newline() {
    let s = step('/', "/ note\nnext", 2, false);
    assert!(s.tokens.is_empty());
    assert_eq!(s.rest, "next");
    assert_eq!(s.line, 3);
    let s = step('/', "/ to the end", 2, false);
    assert!(s.tokens.is_empty());
    assert_eq!(s.rest, "");
    assert_eq!(s.line, 2);
}

#[test]
fn step_on_slash_alone() {
    let s = step('/', " /", 1, false);
    assert_eq!(s.tokens, vec![token(TokenType::SLASH, "/", None)]);
    assert_eq!(s.rest, " /");
}

#[test]
fn step_on_string_reads_through_the_closing_quote() {
    let s = step('"', "a\"b\"", 1, false);
    assert_eq!(s.tokens, vec![token(TokenType::STRING, "\"a\"", Some("a"))]);
    assert_eq!(s.rest, "b\"");
    assert!(!s.has_error);
}

#[test]
fn step_on_unterminated_string_reads_everything() {
    let s = step('"', "a\nb", 1, false);
    assert!(s.tokens.is_empty());
    assert_eq!(s.rest, "");
    assert_eq!(s.line, 2);
    assert!(s.has_error);
    assert_eq!(s.diagnostics, vec![Diagnostic::new(DiagnosticKind::UnterminatedString, 2)]);
}

#[test]
fn step_on_newline_and_blanks() {
    let s = step('\n', "\n", 1, false);
    assert!(s.tokens.is_empty());
    assert_eq!(s.rest, "\n");
    assert_eq!(s.line, 2);
    for blank in [' ', '\t', '\r'] {
        let s = step(blank, "x", 1, false);
        assert!(s.tokens.is_empty());
        assert_eq!(s.rest, "x");
        assert_eq!(s.line, 1);
        assert!(!s.has_error);
    }
}

#[test]
fn step_on_unexpected_character() {
    let s = step('$', "x", 12, false);
    assert!(s.tokens.is_empty());
    assert_eq!(s.rest, "x");
    assert_eq!(s.line, 12);
    assert!(s.has_error);
    assert_eq!(s.diagnostics, vec![Diagnostic::new(DiagnosticKind::UnexpectedCharacter('$'), 12)]);
    assert_eq!(s.diagnostics[0].message(), "[line 12] Error: Unexpected character: $");
}

#[test]
fn error_flag_is_sticky() {
    let s = step('(', "", 1, true);
    assert!(s.has_error);
    assert!(s.diagnostics.is_empty());
    let s = step('1', "+", 1, true);
    assert!(s.has_error);
    let s = step('#', "", 1, true);
    assert!(s.has_error);
    assert_eq!(s.diagnostics.len(), 1);
}

#[test]
fn scan_starts_where_the_stream_stands() {
    let mut chars = CharStream::new("skip me;x = 1").unwrap();
    for _ in 0..8 {
        chars.next();
    }
    let mut diagnostics = Vec::new();
    let result = tokenize(chars, &mut diagnostics);
    assert_eq!(
        result.tokens,
        vec![
            token(TokenType::IDENTIFIER, "x", None),
            token(TokenType::EQUAL, "=", None),
            token(TokenType::NUMBER, "1", Some("1.0")),
            token(TokenType::EOF, "", None),
        ]
    );
    assert_eq!(result.line, 1);
    assert!(!result.has_error);
}

#[test]
fn format_number_strips_trailing_zeros() {
    assert_eq!(format_number("1.500".to_string()), "1.5");
    assert_eq!(format_number("2.00".to_string()), "2.0");
    assert_eq!(format_number("10.0".to_string()), "10.0");
    assert_eq!(format_number("0.0".to_string()), "0.0");
    assert_eq!(format_number("3.14".to_string()), "3.14");
    assert_eq!(format_number("10.050".to_string()), "10.05");
    assert_eq!(format_number("7.".to_string()), "7.0");
}

#[test]
fn format_number_leaves_integers_alone() {
    assert_eq!(format_number("100".to_string()), "100");
    assert_eq!(format_number("0".to_string()), "0");
    assert_eq!(format_number("".to_string()), "");
}

#[test]
fn format_number_on_zeros_around_a_point() {
    assert_eq!(format_number(".000".to_string()), ".0");
    assert_eq!(format_number("000.000".to_string()), "000.0");
    assert_eq!(format_number(".".to_string()), ".0");
}

#[test]
fn parse_keywords_finds_keywords_only() {
    assert_eq!(parse_keywords("print".to_string()), vec![token(TokenType::PRINT, "print", None)]);
    assert_eq!(parse_keywords("while".to_string()), vec![token(TokenType::WHILE, "while", None)]);
    assert_eq!(parse_keywords("nil".to_string()), vec![token(TokenType::NIL, "nil", None)]);
    assert!(parse_keywords("printer".to_string()).is_empty());
    assert!(parse_keywords("prin".to_string()).is_empty());
    assert!(parse_keywords("PRINT".to_string()).is_empty());
    assert!(parse_keywords("".to_string()).is_empty());
}
