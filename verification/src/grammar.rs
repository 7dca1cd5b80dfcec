//! What scanning means, stated over sequences of characters.
//!
//! [`lexeme`] says what the scanner makes of the lexeme at the front of the
//! input; [`scan`] folds it over the whole input and closes the tokens with the
//! end-of-input marker. Nothing here is executable.

use vstd::prelude::*;
use crate::diagnostic::{DiagnosticKind, DiagnosticView};
use crate::text::{alphanumeric, is_digit};
use crate::token::{eof_token, literal_token, plain_token, TokenType, TokenView};

verus! {

/// A character that may begin an identifier or a keyword.
pub open spec fn is_identifier_start(c: char) -> bool {
    ('a' <= c && c <= 'z') || ('A' <= c && c <= 'Z') || c == '_'
}

/// A character that may continue an identifier or a keyword.
pub open spec fn is_identifier_part(c: char) -> bool {
    alphanumeric(c) || c == '_'
}

/// Whitespace that is dropped without moving the line counter.
pub open spec fn is_blank(c: char) -> bool {
    c == ' ' || c == '\r' || c == '\t'
}

/// The kind of a character that is a token by itself, whatever follows it.
pub open spec fn punctuation(c: char) -> Option<TokenType> {
    if c == '(' {
        Some(TokenType::LEFT_PAREN)
    } else if c == ')' {
        Some(TokenType::RIGHT_PAREN)
    } else if c == '{' {
        Some(TokenType::LEFT_BRACE)
    } else if c == '}' {
        Some(TokenType::RIGHT_BRACE)
    } else if c == ',' {
        Some(TokenType::COMMA)
    } else if c == '.' {
        Some(TokenType::DOT)
    } else if c == '-' {
        Some(TokenType::MINUS)
    } else if c == '+' {
        Some(TokenType::PLUS)
    } else if c == ';' {
        Some(TokenType::SEMICOLON)
    } else if c == '*' {
        Some(TokenType::STAR)
    } else {
        None
    }
}

/// For a character that forms a longer operator when `=` follows it: the kind
/// it has alone, and the kind it has together with the `=`.
pub open spec fn operator(c: char) -> Option<(TokenType, TokenType)> {
    if c == '!' {
        Some((TokenType::BANG, TokenType::BANG_EQUAL))
    } else if c == '=' {
        Some((TokenType::EQUAL, TokenType::EQUAL_EQUAL))
    } else if c == '<' {
        Some((TokenType::LESS, TokenType::LESS_EQUAL))
    } else if c == '>' {
        Some((TokenType::GREATER, TokenType::GREATER_EQUAL))
    } else {
        None
    }
}

/// The keyword that `text` spells, if it spells one.
pub open spec fn keyword_kind(text: Seq<char>) -> Option<TokenType> {
    if text == "print"@ {
        Some(TokenType::PRINT)
    } else if text == "and"@ {
        Some(TokenType::AND)
    } else if text == "or"@ {
        Some(TokenType::OR)
    } else if text == "for"@ {
        Some(TokenType::FOR)
    } else if text == "if"@ {
        Some(TokenType::IF)
    } else if text == "else"@ {
        Some(TokenType::ELSE)
    } else if text == "while"@ {
        Some(TokenType::WHILE)
    } else if text == "fun"@ {
        Some(TokenType::FUN)
    } else if text == "return"@ {
        Some(TokenType::RETURN)
    } else if text == "class"@ {
        Some(TokenType::CLASS)
    } else if text == "this"@ {
        Some(TokenType::THIS)
    } else if text == "super"@ {
        Some(TokenType::SUPER)
    } else if text == "true"@ {
        Some(TokenType::TRUE)
    } else if text == "false"@ {
        Some(TokenType::FALSE)
    } else if text == "nil"@ {
        Some(TokenType::NIL)
    } else if text == "var"@ {
        Some(TokenType::VAR)
    } else {
        None
    }
}

/// How many newline characters `s` holds.
pub open spec fn newline_count(s: Seq<char>) -> int
    decreases s.len(),
{
    if s.len() == 0 {
        0
    } else {
        (if s[0] == '\n' {
            1int
        } else {
            0int
        }) + newline_count(s.skip(1))
    }
}

/// How many characters of `s` stand before the first `c`; all of them if
/// `s` holds no `c`.
pub open spec fn distance_to(s: Seq<char>, c: char) -> int
    decreases s.len(),
{
    if s.len() == 0 || s[0] == c {
        0
    } else {
        1 + distance_to(s.skip(1), c)
    }
}

/// The length of the longest prefix of `s` that is made of digits.
pub open spec fn digit_run(s: Seq<char>) -> int
    decreases s.len(),
{
    if s.len() > 0 && is_digit(s[0]) {
        1 + digit_run(s.skip(1))
    } else {
        0
    }
}

/// The length of the longest prefix of `s` that is made of identifier
/// characters.
pub open spec fn identifier_run(s: Seq<char>) -> int
    decreases s.len(),
{
    if s.len() > 0 && is_identifier_part(s[0]) {
        1 + identifier_run(s.skip(1))
    } else {
        0
    }
}

/// `s` with the zeros at its end taken away.
pub open spec fn without_trailing_zeros(s: Seq<char>) -> Seq<char>
    decreases s.len(),
{
    if s.len() > 0 && s.last() == '0' {
        without_trailing_zeros(s.drop_last())
    } else {
        s
    }
}

/// The canonical form of a numeral. One without a decimal point stays as it
/// is. One with a decimal point loses its trailing zeros, and where that
/// leaves the point last, a single `0` is put back after it.
pub open spec fn canonical_number(s: Seq<char>) -> Seq<char> {
    if !s.contains('.') {
        s
    } else {
        let stripped = without_trailing_zeros(s);
        if stripped.len() > 0 && stripped.last() == '.' {
            stripped.push('0')
        } else {
            stripped
        }
    }
}

/// The literal of a numeral that has no decimal point: the digits and `.0`.
pub open spec fn integer_literal(digits: Seq<char>) -> Seq<char> {
    digits + seq!['.', '0']
}

/// What the scanner made of a stretch of input.
pub struct Scanned {
    /// How many characters it read.
    pub len: int,
    /// The tokens it built from them, in order.
    pub tokens: Seq<TokenView>,
    /// The line counter after them.
    pub line: int,
    /// The diagnostics it reported on the way, in order.
    pub diagnostics: Seq<DiagnosticView>,
}

impl Scanned {
    /// Two stretches read one after the other.
    pub open spec fn followed_by(self, next: Scanned) -> Scanned {
        Scanned {
            len: self.len + next.len,
            tokens: self.tokens + next.tokens,
            line: next.line,
            diagnostics: self.diagnostics + next.diagnostics,
        }
    }

    /// Whether any lexeme in the stretch was malformed.
    pub open spec fn has_error(self) -> bool {
        self.diagnostics.len() > 0
    }
}

/// `len` characters read and dropped.
pub open spec fn skipped(len: int, line: int) -> Scanned {
    Scanned { len, tokens: Seq::empty(), line, diagnostics: Seq::empty() }
}

/// The first `len` characters of `s` read as one token without a value.
pub open spec fn one_token(kind: TokenType, s: Seq<char>, len: int, line: int) -> Scanned {
    Scanned {
        len,
        tokens: seq![plain_token(kind, s.take(len))],
        line,
        diagnostics: Seq::empty(),
    }
}

/// `!`, `=`, `<` or `>` at the front of `s`: two characters long if `=`
/// follows, else one.
pub open spec fn operator_lexeme(s: Seq<char>, line: int) -> Scanned {
    let (alone, with_equal) = operator(s[0]).unwrap();
    if s.len() > 1 && s[1] == '=' {
        one_token(with_equal, s, 2, line)
    } else {
        one_token(alone, s, 1, line)
    }
}

/// `/` at the front of `s`. Followed by a second `/` it opens a comment, which
/// runs up to and including the next newline, or to the end of the input, and
/// leaves no token. Otherwise it is a token by itself.
pub open spec fn slash_lexeme(s: Seq<char>, line: int) -> Scanned {
    if s.len() > 1 && s[1] == '/' {
        let newline = 2 + distance_to(s.skip(2), '\n');
        if newline < s.len() {
            skipped(newline + 1, line + 1)
        } else {
            skipped(s.len() as int, line)
        }
    } else {
        one_token(TokenType::SLASH, s, 1, line)
    }
}

/// `"` at the front of `s`. The literal runs to the next `"`; its value is
/// what stands between the quotes, its lexeme includes them. Without a closing
/// quote the rest of the input is read, no token is built, and the lack is
/// reported on the line on which the input ends. Every newline inside the
/// literal moves the line counter.
pub open spec fn string_lexeme(s: Seq<char>, line: int) -> Scanned {
    let close = 1 + distance_to(s.skip(1), '"');
    let body = s.subrange(1, close);
    let line_after = line + newline_count(body);
    if close < s.len() {
        Scanned {
            len: close + 1,
            tokens: seq![literal_token(TokenType::STRING, s.take(close + 1), body)],
            line: line_after,
            diagnostics: Seq::empty(),
        }
    } else {
        Scanned {
            len: s.len() as int,
            tokens: Seq::empty(),
            line: line_after,
            diagnostics: seq![
                DiagnosticView { kind: DiagnosticKind::UnterminatedString, line: line_after },
            ],
        }
    }
}

/// A digit at the front of `s`. The numeral is the longest run of digits,
/// with at most one decimal point inside it. A point that no digit follows is
/// not part of the numeral: it is read with it, and becomes a token of its own
/// behind it.
pub open spec fn number_lexeme(s: Seq<char>, line: int) -> Scanned {
    let whole_end = digit_run(s);
    if whole_end < s.len() && s[whole_end] == '.' {
        let fraction_end = whole_end + 1 + digit_run(s.skip(whole_end + 1));
        if fraction_end == whole_end + 1 {
            let digits = s.take(whole_end);
            Scanned {
                len: whole_end + 1,
                tokens: seq![
                    literal_token(TokenType::NUMBER, digits, integer_literal(digits)),
                    plain_token(TokenType::DOT, s.subrange(whole_end, whole_end + 1)),
                ],
                line,
                diagnostics: Seq::empty(),
            }
        } else {
            let numeral = s.take(fraction_end);
            Scanned {
                len: fraction_end,
                tokens: seq![literal_token(TokenType::NUMBER, numeral, canonical_number(numeral))],
                line,
                diagnostics: Seq::empty(),
            }
        }
    } else {
        let digits = s.take(whole_end);
        Scanned {
            len: whole_end,
            tokens: seq![literal_token(TokenType::NUMBER, digits, integer_literal(digits))],
            line,
            diagnostics: Seq::empty(),
        }
    }
}

/// A letter or `_` at the front of `s`: the longest run of identifier
/// characters, which is a keyword if it spells one and an identifier if not.
pub open spec fn identifier_lexeme(s: Seq<char>, line: int) -> Scanned {
    let end = 1 + identifier_run(s.skip(1));
    let text = s.take(end);
    let kind = match keyword_kind(text) {
        Some(k) => k,
        None => TokenType::IDENTIFIER,
    };
    one_token(kind, s, end, line)
}

/// A character that begins no lexeme: read, reported, and dropped.
pub open spec fn unexpected(c: char, line: int) -> Scanned {
    Scanned {
        len: 1,
        tokens: Seq::empty(),
        line,
        diagnostics: seq![DiagnosticView { kind: DiagnosticKind::UnexpectedCharacter(c), line }],
    }
}

/// The character at the front of `s`.
pub open spec fn first_char(s: Seq<char>) -> char
    recommends
        s.len() > 0,
{
    s[0]
}

/// What the scanner makes of the lexeme at the front of `s`, which is not
/// empty, when the line counter stands at `line`.
pub open spec fn lexeme(s: Seq<char>, line: int) -> Scanned
    recommends
        s.len() > 0,
{
    let c = first_char(s);
    if punctuation(c) is Some {
        one_token(punctuation(c).unwrap(), s, 1, line)
    } else if operator(c) is Some {
        operator_lexeme(s, line)
    } else if c == '/' {
        slash_lexeme(s, line)
    } else if c == '"' {
        string_lexeme(s, line)
    } else if is_blank(c) {
        skipped(1, line)
    } else if c == '\n' {
        skipped(1, line + 1)
    } else if is_digit(c) {
        number_lexeme(s, line)
    } else if is_identifier_start(c) {
        identifier_lexeme(s, line)
    } else {
        unexpected(c, line)
    }
}

/// Whether `c` begins a lexeme that is a run: a numeral, an identifier or a
/// keyword. The end of a run shows only in the character behind it.
pub open spec fn starts_run(c: char) -> bool {
    is_digit(c) || is_identifier_start(c)
}

/// What one scanning step makes of the front of `s`, which is not empty. It
/// reads one lexeme. If that was a run and input is left, the step has also
/// taken the character behind the run, and goes on with the lexeme that this
/// character begins, as if it had been read afresh.
pub open spec fn step(s: Seq<char>, line: int) -> Scanned
    recommends
        s.len() > 0,
    decreases s.len(),
{
    let first = lexeme(s, line);
    if s.len() > 0 && starts_run(s[0]) && 0 < first.len < s.len() {
        first.followed_by(step(s.skip(first.len), first.line))
    } else {
        first
    }
}

/// What the scanner makes of all of `s`, lexeme by lexeme, before the
/// end-of-input marker is added.
pub open spec fn scan_from(s: Seq<char>, line: int) -> Scanned
    decreases s.len(),
{
    if s.len() == 0 {
        skipped(0, line)
    } else {
        let first = lexeme(s, line);
        if 0 < first.len <= s.len() {
            first.followed_by(scan_from(s.skip(first.len), first.line))
        } else {
            first
        }
    }
}

/// The scan of a whole input: its tokens, closed by the end-of-input marker,
/// the final line count, counted from 1, and the diagnostics.
pub open spec fn scan(s: Seq<char>) -> Scanned {
    let body = scan_from(s, 1);
    Scanned {
        len: body.len,
        tokens: body.tokens.push(eof_token()),
        line: body.line,
        diagnostics: body.diagnostics,
    }
}

/// The lexemes of all tokens, one after the other.
pub open spec fn lexemes(tokens: Seq<TokenView>) -> Seq<char>
    decreases tokens.len(),
{
    if tokens.len() == 0 {
        Seq::empty()
    } else {
        tokens[0].lexeme + lexemes(tokens.skip(1))
    }
}

/// Whether the lexeme at the front of `s` is dropped without a trace: a blank,
/// a newline, or a comment.
pub open spec fn is_skipped(s: Seq<char>) -> bool
    recommends
        s.len() > 0,
{
    is_blank(s[0]) || s[0] == '\n' || (s[0] == '/' && s.len() > 1 && s[1] == '/')
}

/// The text of `s` that matters to its tokens: `s` without the blanks,
/// newlines and comments that stand between lexemes. What stands inside a
/// string literal is kept as it is.
pub open spec fn significant_text(s: Seq<char>) -> Seq<char>
    decreases s.len(),
{
    if s.len() == 0 {
        Seq::empty()
    } else {
        let len = lexeme(s, 0).len;
        if 0 < len <= s.len() {
            if is_skipped(s) {
                significant_text(s.skip(len))
            } else {
                s.take(len) + significant_text(s.skip(len))
            }
        } else {
            s
        }
    }
}

} // verus!
