use lox_scanner::diagnostic::{Diagnostic, DiagnosticKind};
use lox_scanner::parser::{get_parser, ParseError, Parser};
use lox_scanner::stream::CharStream;
use lox_scanner::text::{chars_of, is_decimal_digit, spells, string_of};
use lox_scanner::token::{Token, TokenType};

fn token(kind: TokenType, lexeme: &str, value: Option<&str>) -> Token {
    Token::new(kind, lexeme.to_string(), value.map(|v| v.to_string()))
}

#[test]
fn token_new_keeps_its_parts() {
    let t = Token::new(TokenType::NUMBER, "1.50".to_string(), Some("1.5".to_string()));
    assert_eq!(t._type, TokenType::NUMBER);
    assert_eq!(t.lexeme, "1.50");
    assert_eq!(t.value, Some("1.5".to_string()));
    let t = Token::new(TokenType::EOF, String::new(), None);
    assert_eq!(t._type, TokenType::EOF);
    assert_eq!(t.lexeme, "");
    assert_eq!(t.value, None);
}

#[test]
fn token_prints_kind_lexeme_and_value() {
    assert_eq!(token(TokenType::NUMBER, "1.500", Some("1.5")).to_string(), "NUMBER 1.500 1.5");
    assert_eq!(token(TokenType::STRING, "\"a b\"", Some("a b")).to_string(), "STRING \"a b\" a b");
    assert_eq!(token(TokenType::LEFT_PAREN, "(", None).to_string(), "LEFT_PAREN ( null");
    assert_eq!(token(TokenType::BANG_EQUAL, "!=", None).to_string(), "BANG_EQUAL != null");
    assert_eq!(token(TokenType::IDENTIFIER, "foo", None).to_string(), "IDENTIFIER foo null");
    assert_eq!(token(TokenType::EOF, "", None).to_string(), "EOF  null");
}

#[test]
fn kind_names_are_the_variant_names() {
    let kinds = [
        TokenType::LEFT_PAREN,
        TokenType::RIGHT_PAREN,
        TokenType::LEFT_BRACE,
        TokenType::RIGHT_BRACE,
        TokenType::COMMA,
        TokenType::DOT,
        TokenType::MINUS,
        TokenType::PLUS,
        TokenType::SEMICOLON,
        TokenType::STAR,
        TokenType::SLASH,
        TokenType::EQUAL,
        TokenType::EQUAL_EQUAL,
        TokenType::BANG,
        TokenType::BANG_EQUAL,
        TokenType::LESS,
        TokenType::LESS_EQUAL,
        TokenType::GREATER,
        TokenType::GREATER_EQUAL,
        TokenType::IDENTIFIER,
        TokenType::STRING,
        TokenType::NUMBER,
        TokenType::AND,
        TokenType::CLASS,
        TokenType::ELSE,
        TokenType::FALSE,
        TokenType::FUN,
        TokenType::FOR,
        TokenType::IF,
        TokenType::NIL,
        TokenType::OR,
        TokenType::PRINT,
        TokenType::RETURN,
        TokenType::SUPER,
        TokenType::THIS,
        TokenType::TRUE,
        TokenType::VAR,
        TokenType::WHILE,
        TokenType::EOF,
    ];
    for kind in kinds {
        assert_eq!(kind.name(), format!("{:?}", kind));
    }
}

#[test]
fn diagnostic_messages() {
    let d = Diagnostic::new(DiagnosticKind::UnterminatedString, 1);
    assert_eq!(d.message(), "[line 1] Error: Unterminated string");
    let d = Diagnostic::new(DiagnosticKind::UnexpectedCharacter('@'), 7);
    assert_eq!(d.message(), "[line 7] Error: Unexpected character: @");
    let d = Diagnostic::new(DiagnosticKind::UnexpectedCharacter('\u{e9}'), 10);
    assert_eq!(d.message(), "[line 10] Error: Unexpected character: \u{e9}");
}

#[test]
fn diagnostic_line_numbers_in_decimal() {
    for line in [0u32, 9, 10, 11, 99, 100, 101, 1234567890, 4294967295] {
        let d = Diagnostic::new(DiagnosticKind::UnterminatedString, line);
        assert_eq!(d.message(), format!("[line {}] Error: Unterminated string", line));
    }
}

#[test]
fn stream_hands_out_characters_in_order() {
    let mut chars = CharStream::new("a\u{e9}").unwrap();
    assert!(!chars.is_empty());
    assert_eq!(chars.peek(), Some('a'));
    assert_eq!(chars.peek(), Some('a'));
    assert_eq!(chars.next(), Some('a'));
    assert_eq!(chars.peek(), Some('\u{e9}'));
    assert_eq!(chars.next(), Some('\u{e9}'));
    assert!(chars.is_empty());
    assert_eq!(chars.peek(), None);
    assert_eq!(chars.next(), None);
    assert_eq!(chars.next(), None);
}

#[test]
fn stream_is_made_of_any_text_whose_lines_can_be_counted() {
    assert!(CharStream::new("").is_some());
    assert!(CharStream::new("one line").is_some());
    assert!(CharStream::new("\n\n\n").is_some());
    let many_lines = vec!['\n'; 100_000];
    let mut chars = CharStream::from_chars(many_lines).unwrap();
    assert_eq!(chars.next(), Some('\n'));
}

#[test]
fn get_parser_ends_with_the_end_marker_on_any_text() {
    for source in ["", "@", "\"open", "1 + 2", "// c", "\n\n"] {
        let mut diagnostics = Vec::new();
        let parser = get_parser(CharStream::new(source).unwrap(), &mut diagnostics);
        assert_eq!(parser.tokens().last(), Some(&token(TokenType::EOF, "", None)));
        assert_eq!(parser.has_error(), !diagnostics.is_empty());
    }
}

#[test]
fn get_parser_twice_with_another_scan_between() {
    let source = "var a = \"s\"; @ 1.50\n// c\n";
    let mut first_reports = Vec::new();
    let first = get_parser(CharStream::new(source).unwrap(), &mut first_reports);
    let mut other_reports = Vec::new();
    let other = get_parser(CharStream::new("\"never closed").unwrap(), &mut other_reports);
    assert!(other.has_error());
    let mut second_reports = Vec::new();
    let second = get_parser(CharStream::new(source).unwrap(), &mut second_reports);
    assert_eq!(first.tokens(), second.tokens());
    assert_eq!(first.lines(), second.lines());
    assert_eq!(first.has_error(), second.has_error());
    assert_eq!(first_reports, second_reports);
}

#[test]
fn stream_from_chars() {
    let mut chars = CharStream::from_chars(vec!['x', 'y']).unwrap();
    assert_eq!(chars.next(), Some('x'));
    assert_eq!(chars.next(), Some('y'));
    assert_eq!(chars.next(), None);
    let mut empty = CharStream::from_chars(Vec::new()).unwrap();
    assert!(empty.is_empty());
    assert_eq!(empty.next(), None);
}

#[test]
fn text_helpers() {
    assert_eq!(chars_of("a\u{e9}1"), vec!['a', '\u{e9}', '1']);
    assert_eq!(chars_of(""), Vec::<char>::new());
    let chars = vec!['h', 'e', 'l', 'l', 'o'];
    assert_eq!(string_of(&chars, 1, 4), "ell");
    assert_eq!(string_of(&chars, 0, 5), "hello");
    assert_eq!(string_of(&chars, 2, 2), "");
    assert!(spells(&chars, "hello"));
    assert!(!spells(&chars, "hell"));
    assert!(!spells(&chars, "hello!"));
    assert!(!spells(&chars, "hallo"));
    assert!(spells(&Vec::new(), ""));
    assert!(!spells(&Vec::new(), "a"));
}

#[test]
fn decimal_digits_are_ascii_only() {
    for c in ['0', '1', '5', '9'] {
        assert!(is_decimal_digit(c));
    }
    for c in ['a', '/', ':', ' ', '\u{661}', '.'] {
        assert!(!is_decimal_digit(c));
    }
}

#[test]
fn parser_new_keeps_its_parts() {
    let tokens = vec![token(TokenType::PLUS, "+", None), token(TokenType::EOF, "", None)];
    let parser = Parser::new(tokens.clone(), 3, true);
    assert_eq!(parser.tokens(), &tokens);
    assert_eq!(parser.lines(), 3);
    assert!(parser.has_error());
}

#[test]
fn get_parser_scans_the_stream() {
    let mut diagnostics = Vec::new();
    let parser = get_parser(CharStream::new("1 +\n2").unwrap(), &mut diagnostics);
    assert_eq!(
        parser.tokens(),
        &vec![
            token(TokenType::NUMBER, "1", Some("1.0")),
            token(TokenType::PLUS, "+", None),
            token(TokenType::NUMBER, "2", Some("2.0")),
            token(TokenType::EOF, "", None),
        ]
    );
    assert_eq!(parser.lines(), 2);
    assert!(!parser.has_error());
    assert!(diagnostics.is_empty());
}

#[test]
fn parse_succeeds_on_clean_source() {
    let mut parser = Parser::new(Vec::new(), 0, true);
    let mut diagnostics = Vec::new();
    let result = parser.parse(CharStream::new("print 1;").unwrap(), &mut diagnostics);
    assert_eq!(result, Ok(()));
    assert_eq!(
        parser.tokens(),
        &vec![
            token(TokenType::PRINT, "print", None),
            token(TokenType::NUMBER, "1", Some("1.0")),
            token(TokenType::SEMICOLON, ";", None),
            token(TokenType::EOF, "", None),
        ]
    );
    assert_eq!(parser.lines(), 1);
    assert!(!parser.has_error());
    assert!(diagnostics.is_empty());
}

#[test]
fn parse_fails_on_malformed_source() {
    let mut parser = Parser::new(Vec::new(), 1, false);
    let mut diagnostics = Vec::new();
    let result = parser.parse(CharStream::new("print\n\"open").unwrap(), &mut diagnostics);
    assert_eq!(result, Err(ParseError::Lexical));
    assert_eq!(
        parser.tokens(),
        &vec![token(TokenType::PRINT, "print", None), token(TokenType::EOF, "", None)]
    );
    assert_eq!(parser.lines(), 2);
    assert!(parser.has_error());
    assert_eq!(diagnostics, vec![Diagnostic::new(DiagnosticKind::UnterminatedString, 2)]);
}
