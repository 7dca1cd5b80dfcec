//! The executable scanner.

use vstd::prelude::*;
use vstd::string::StringExecFns;
use crate::diagnostic::{
    diagnostic_views, lemma_diagnostic_views_push, Diagnostic, DiagnosticKind,
};
use crate::grammar::{
    canonical_number, digit_run, distance_to, identifier_lexeme, identifier_run,
    is_identifier_start, keyword_kind, lexeme, newline_count, number_lexeme, operator,
    lexemes, operator_lexeme, scan, scan_from, significant_text, step, string_lexeme,
    without_trailing_zeros,
};
use crate::laws::{lemma_scan_ends_with_eof, lemma_scan_round_trip};
use crate::lemmas::{
    lemma_distance_to_bounds, lemma_newline_count_nonnegative, lemma_newline_count_push,
    lemma_newline_count_split, lemma_scan_from_step, lemma_step_len, lemma_step_line,
};
use crate::stream::CharStream;
use crate::text::{chars_of, is_decimal_digit, is_digit, spells, string_of};
use crate::token::{
    eof_token, lemma_token_views_concat, lemma_token_views_push, plain_token, token_views, Token,
    TokenType,
};

verus! {

/// Whether `chars` holds a decimal point.
fn has_point(chars: &Vec<char>) -> (found: bool)
    ensures
        found == chars@.contains('.'),
{
    let mut i: usize = 0;
    while i < chars.len()
        invariant
            i <= chars.len(),
            forall|k: int| 0 <= k < i ==> chars@[k] != '.',
        decreases chars.len() - i,
    {
        if chars[i] == '.' {
            return true;
        }
        i += 1;
    }
    false
}

/// Puts a numeral into canonical form.
pub fn format_number(num_str: String) -> (formatted: String)
    ensures
        formatted@ == canonical_number(num_str@),
{
    let chars = chars_of(num_str.as_str());
    if !has_point(&chars) {
        return num_str;
    }
    let mut end: usize = chars.len();
    assert(chars@.take(end as int) =~= chars@);
    while end > 0 && chars[end - 1] == '0'
        invariant
            end <= chars.len(),
            without_trailing_zeros(chars@) == without_trailing_zeros(chars@.take(end as int)),
        decreases end,
    {
        assert(chars@.take(end as int).drop_last() =~= chars@.take(end - 1));
        end -= 1;
    }
    let mut formatted = string_of(&chars, 0, end);
    assert(formatted@ =~= chars@.take(end as int));
    if end > 0 && chars[end - 1] == '.' {
        formatted.push('0');
    }
    formatted
}

/// The keyword that `chars` spells, if it spells one.
fn lookup_keyword(chars: &Vec<char>) -> (kind: Option<TokenType>)
    ensures
        kind == keyword_kind(chars@),
{
    if spells(chars, "print") {
        Some(TokenType::PRINT)
    } else if spells(chars, "and") {
        Some(TokenType::AND)
    } else if spells(chars, "or") {
        Some(TokenType::OR)
    } else if spells(chars, "for") {
        Some(TokenType::FOR)
    } else if spells(chars, "if") {
        Some(TokenType::IF)
    } else if spells(chars, "else") {
        Some(TokenType::ELSE)
    } else if spells(chars, "while") {
        Some(TokenType::WHILE)
    } else if spells(chars, "fun") {
        Some(TokenType::FUN)
    } else if spells(chars, "return") {
        Some(TokenType::RETURN)
    } else if spells(chars, "class") {
        Some(TokenType::CLASS)
    } else if spells(chars, "this") {
        Some(TokenType::THIS)
    } else if spells(chars, "super") {
        Some(TokenType::SUPER)
    } else if spells(chars, "true") {
        Some(TokenType::TRUE)
    } else if spells(chars, "false") {
        Some(TokenType::FALSE)
    } else if spells(chars, "nil") {
        Some(TokenType::NIL)
    } else if spells(chars, "var") {
        Some(TokenType::VAR)
    } else {
        None
    }
}

/// The keyword token that `keyword` spells, alone in a vector; an empty vector
/// if it spells none.
pub fn parse_keywords(keyword: String) -> (tokens: Vec<Token>)
    ensures
        token_views(tokens@) == match keyword_kind(keyword@) {
            Some(kind) => seq![plain_token(kind, keyword@)],
            None => Seq::empty(),
        },
{
    let chars = chars_of(keyword.as_str());
    let mut tokens: Vec<Token> = Vec::new();
    match lookup_keyword(&chars) {
        Some(kind) => {
            tokens.push(Token::new(kind, keyword, None));
            assert(token_views(tokens@) =~= seq![plain_token(kind, keyword@)]);
        },
        None => {
            assert(token_views(tokens@) =~= Seq::empty());
        },
    }
    tokens
}

/// Moves the digits at the front of `chars` to the end of `text`.
fn take_digits(chars: &mut CharStream, text: &mut String)
    ensures
        final(chars)@ == old(chars)@.skip(digit_run(old(chars)@)),
        final(text)@ == old(text)@ + old(chars)@.take(digit_run(old(chars)@)),
        0 <= digit_run(old(chars)@) <= old(chars)@.len(),
{
    let ghost rest = chars@;
    let ghost before = text@;
    let ghost mut taken: int = 0;
    assert(rest.skip(0) =~= rest);
    assert(before + rest.take(0) =~= before);
    loop
        invariant
            0 <= taken <= rest.len(),
            chars@ == rest.skip(taken),
            text@ == before + rest.take(taken),
            taken + digit_run(chars@) == digit_run(rest),
        ensures
            0 <= taken <= rest.len(),
            chars@ == rest.skip(taken),
            text@ == before + rest.take(taken),
            taken == digit_run(rest),
        decreases chars@.len(),
    {
        match chars.peek() {
            Some(d) => {
                if !is_decimal_digit(d) {
                    break ;
                }
                let _ = chars.next();
                text.push(d);
                proof {
                    assert(rest.skip(taken).skip(1) =~= rest.skip(taken + 1));
                    assert(before + rest.take(taken + 1) =~= (before + rest.take(taken)).push(d));
                    taken = taken + 1;
                }
            },
            None => {
                break ;
            },
        }
    }
}

/// Moves the identifier characters at the front of `chars` to the end of
/// `text`.
fn take_identifier_part(chars: &mut CharStream, text: &mut String)
    ensures
        final(chars)@ == old(chars)@.skip(identifier_run(old(chars)@)),
        final(text)@ == old(text)@ + old(chars)@.take(identifier_run(old(chars)@)),
        0 <= identifier_run(old(chars)@) <= old(chars)@.len(),
{
    let ghost rest = chars@;
    let ghost before = text@;
    let ghost mut taken: int = 0;
    assert(rest.skip(0) =~= rest);
    assert(before + rest.take(0) =~= before);
    loop
        invariant
            0 <= taken <= rest.len(),
            chars@ == rest.skip(taken),
            text@ == before + rest.take(taken),
            taken + identifier_run(chars@) == identifier_run(rest),
        ensures
            0 <= taken <= rest.len(),
            chars@ == rest.skip(taken),
            text@ == before + rest.take(taken),
            taken == identifier_run(rest),
        decreases chars@.len(),
    {
        match chars.peek() {
            Some(d) => {
                if !(d.is_alphanumeric() || d == '_') {
                    break ;
                }
                let _ = chars.next();
                text.push(d);
                proof {
                    assert(rest.skip(taken).skip(1) =~= rest.skip(taken + 1));
                    assert(before + rest.take(taken + 1) =~= (before + rest.take(taken)).push(d));
                    taken = taken + 1;
                }
            },
            None => {
                break ;
            },
        }
    }
}

/// A string that holds `c` alone.
fn char_string(c: char) -> (s: String)
    ensures
        s@ == seq![c],
{
    let mut s = String::new();
    s.push(c);
    assert(s@ =~= seq![c]);
    s
}

/// The token of kind `kind` whose lexeme is `c` alone.
fn single(kind: TokenType, c: char) -> (token: Token)
    ensures
        token@ == plain_token(kind, seq![c]),
{
    Token::new(kind, char_string(c), None)
}

/// A vector that holds `token` alone.
fn only(token: Token) -> (tokens: Vec<Token>)
    ensures
        token_views(tokens@) == seq![token@],
{
    let mut tokens: Vec<Token> = Vec::new();
    tokens.push(token);
    assert(token_views(tokens@) =~= seq![token@]);
    tokens
}

/// Scans the operator that `c` begins, where `c` forms a longer operator if
/// `=` follows it: the `=` is read only if it is there.
fn scan_operator(c: char, chars: &mut CharStream, alone: TokenType, with_equal: TokenType) -> (tokens:
    Vec<Token>)
    requires
        operator(c) == Some((alone, with_equal)),
    ensures
        token_views(tokens@) == operator_lexeme(seq![c] + old(chars)@, 0).tokens,
        final(chars)@ == (seq![c] + old(chars)@).skip(
            operator_lexeme(seq![c] + old(chars)@, 0).len,
        ),
{
    let ghost input = seq![c] + chars@;
    proof {
        assert(input.skip(1) =~= chars@);
    }
    match chars.peek() {
        Some('=') => {
            let _ = chars.next();
            let mut lexeme = char_string(c);
            lexeme.push('=');
            proof {
                assert(lexeme@ =~= input.take(2));
                assert(chars@ =~= input.skip(2));
            }
            only(Token::new(with_equal, lexeme, None))
        },
        _ => {
            proof {
                assert(input.take(1) =~= seq![c]);
            }
            only(single(alone, c))
        },
    }
}

/// Reads on to the end of the line, newline included, and says whether there
/// was a newline to end it.
fn skip_line(chars: &mut CharStream) -> (ended: bool)
    ensures
        ended == (distance_to(old(chars)@, '\n') < old(chars)@.len()),
        ended ==> final(chars)@ == old(chars)@.skip(distance_to(old(chars)@, '\n') + 1),
        !ended ==> final(chars)@ == old(chars)@.skip(old(chars)@.len() as int),
{
    let ghost rest = chars@;
    let ghost mut taken: int = 0;
    let mut ended = false;
    assert(rest.skip(0) =~= rest);
    loop
        invariant_except_break
            !ended,
            0 <= taken <= rest.len(),
            chars@ == rest.skip(taken),
            taken + distance_to(chars@, '\n') == distance_to(rest, '\n'),
        ensures
            ended == (distance_to(rest, '\n') < rest.len()),
            ended ==> chars@ == rest.skip(distance_to(rest, '\n') + 1),
            !ended ==> chars@ == rest.skip(rest.len() as int),
        decreases chars@.len(),
    {
        match chars.next() {
            Some(c) => {
                proof {
                    assert(rest.skip(taken).skip(1) =~= rest.skip(taken + 1));
                }
                if c == '\n' {
                    ended = true;
                    break ;
                }
                proof {
                    taken = taken + 1;
                }
            },
            None => {
                break ;
            },
        }
    }
    ended
}

/// What a scanning routine did, held against what the grammar says of the
/// input `input` that it was given.
spec fn carried_out(
    outcome: crate::grammar::Scanned,
    input: Seq<char>,
    tokens: Seq<Token>,
    rest: Seq<char>,
    line: u32,
    had_error: bool,
    has_error: bool,
    reported_before: Seq<Diagnostic>,
    reported: Seq<Diagnostic>,
) -> bool {
    &&& token_views(tokens) == outcome.tokens
    &&& rest == input.skip(outcome.len)
    &&& line == outcome.line
    &&& has_error == (had_error || outcome.has_error())
    &&& diagnostic_views(reported) == diagnostic_views(reported_before) + outcome.diagnostics
}

/// Scans a string literal whose opening quote has been read.
fn scan_string(
    chars: &mut CharStream,
    line: &mut u32,
    has_error: &mut bool,
    diagnostics: &mut Vec<Diagnostic>,
) -> (tokens: Vec<Token>)
    requires
        *old(line) + newline_count(old(chars)@) <= u32::MAX,
    ensures
        carried_out(
            string_lexeme(seq!['"'] + old(chars)@, *old(line) as int),
            seq!['"'] + old(chars)@,
            tokens@,
            final(chars)@,
            *final(line),
            *old(has_error),
            *final(has_error),
            old(diagnostics)@,
            final(diagnostics)@,
        ),
{
    let ghost rest = chars@;
    let ghost input = seq!['"'] + rest;
    let ghost first_line = *line as int;
    let ghost mut taken: int = 0;
    let mut body = String::new();
    let mut closed = false;
    proof {
        assert(rest.skip(0) =~= rest);
        assert(rest.take(0) =~= body@);
        assert(input.skip(1) =~= rest);
        lemma_distance_to_bounds(rest, '"');
    }
    loop
        invariant_except_break
            !closed,
            chars@ == rest.skip(taken),
            taken + distance_to(chars@, '"') == distance_to(rest, '"'),
            *line + newline_count(chars@) <= u32::MAX,
        invariant
            0 <= taken <= rest.len(),
            body@ == rest.take(taken),
            *line == first_line + newline_count(body@),
            *has_error == *old(has_error),
            diagnostics@ == old(diagnostics)@,
        ensures
            closed ==> taken == distance_to(rest, '"') && taken < rest.len() && chars@ == rest.skip(
                taken + 1,
            ),
            !closed ==> taken == rest.len() && taken == distance_to(rest, '"') && chars@
                == rest.skip(taken),
        decreases chars@.len(),
    {
        let ghost ahead = chars@;
        match chars.next() {
            Some(c) => {
                proof {
                    assert(rest.skip(taken).skip(1) =~= rest.skip(taken + 1));
                    assert(distance_to(ahead, '"') == if c == '"' {
                        0
                    } else {
                        1 + distance_to(ahead.skip(1), '"')
                    });
                    assert(newline_count(ahead) == newline_count(ahead.skip(1)) + if c == '\n' {
                        1int
                    } else {
                        0int
                    });
                    lemma_newline_count_nonnegative(ahead.skip(1));
                }
                if c == '"' {
                    closed = true;
                    break ;
                }
                if c == '\n' {
                    *line = *line + 1;
                }
                body.push(c);
                proof {
                    lemma_newline_count_push(rest.take(taken), c);
                    assert(rest.take(taken + 1) =~= rest.take(taken).push(c));
                    taken = taken + 1;
                }
            },
            None => {
                break ;
            },
        }
    }
    let ghost outcome = string_lexeme(input, first_line);
    proof {
        assert(input.subrange(1, 1 + taken) =~= rest.take(taken));
        assert(outcome.line == *line);
    }
    let mut tokens: Vec<Token> = Vec::new();
    if closed {
        let mut lexeme = char_string('"');
        lexeme.append(body.as_str());
        lexeme.push('"');
        proof {
            assert(lexeme@ =~= input.take(taken + 2));
            assert(rest.skip(taken + 1) =~= input.skip(taken + 2));
        }
        let token = Token::new(TokenType::STRING, lexeme, Some(body));
        tokens.push(token);
        proof {
            assert(token_views(tokens@) =~= seq![token@]);
            assert(outcome.tokens =~= seq![token@]);
            assert(diagnostic_views(diagnostics@) + outcome.diagnostics =~= diagnostic_views(
                diagnostics@,
            ));
        }
    } else {
        let diagnostic = Diagnostic::new(DiagnosticKind::UnterminatedString, *line);
        proof {
            lemma_diagnostic_views_push(diagnostics@, diagnostic);
            assert(outcome.diagnostics =~= seq![diagnostic@]);
            assert(diagnostic_views(diagnostics@).push(diagnostic@) =~= diagnostic_views(
                diagnostics@,
            ) + outcome.diagnostics);
            assert(rest.skip(taken) =~= input.skip(taken + 1));
            assert(token_views(tokens@) =~= outcome.tokens);
        }
        diagnostics.push(diagnostic);
        *has_error = true;
    }
    tokens
}

/// Scans a numeral whose first digit, `c`, has been read.
fn scan_number(c: char, chars: &mut CharStream) -> (tokens: Vec<Token>)
    requires
        is_digit(c),
    ensures
        token_views(tokens@) == number_lexeme(seq![c] + old(chars)@, 0).tokens,
        final(chars)@ == (seq![c] + old(chars)@).skip(number_lexeme(seq![c] + old(chars)@, 0).len),
{
    let ghost rest = chars@;
    let ghost input = seq![c] + rest;
    let mut text = char_string(c);
    take_digits(chars, &mut text);
    let ghost whole_end = 1 + digit_run(rest);
    proof {
        assert(input.skip(1) =~= rest);
        assert(text@ =~= input.take(whole_end));
        assert(chars@ =~= input.skip(whole_end));
    }
    let mut tokens: Vec<Token> = Vec::new();
    match chars.peek() {
        Some('.') => {
            let _ = chars.next();
            let ghost after_point = chars@;
            let mut fraction = String::new();
            take_digits(chars, &mut fraction);
            proof {
                assert(after_point =~= input.skip(whole_end + 1));
                assert(chars@ =~= input.skip(whole_end + 1 + digit_run(after_point)));
            }
            if fraction.as_str().is_empty() {
                let mut value = text.clone();
                value.push('.');
                value.push('0');
                let number = Token::new(TokenType::NUMBER, text, Some(value));
                let point = single(TokenType::DOT, '.');
                tokens.push(number);
                tokens.push(point);
                proof {
                    assert(value@ =~= input.take(whole_end) + seq!['.', '0']);
                    assert(input.subrange(whole_end, whole_end + 1) =~= seq!['.']);
                    assert(fraction@.len() == 0);
                    assert(digit_run(after_point) == 0);
                    assert(token_views(tokens@) =~= seq![number@, point@]);
                }
            } else {
                let mut numeral = text;
                numeral.push('.');
                numeral.append(fraction.as_str());
                proof {
                    assert(digit_run(after_point) > 0);
                    assert(numeral@ =~= input.take(whole_end + 1 + digit_run(after_point)));
                }
                let value = format_number(numeral.clone());
                let number = Token::new(TokenType::NUMBER, numeral, Some(value));
                tokens.push(number);
                proof {
                    assert(token_views(tokens@) =~= seq![number@]);
                }
            }
        },
        _ => {
            let mut value = text.clone();
            value.push('.');
            value.push('0');
            let number = Token::new(TokenType::NUMBER, text, Some(value));
            tokens.push(number);
            proof {
                assert(value@ =~= input.take(whole_end) + seq!['.', '0']);
                assert(token_views(tokens@) =~= seq![number@]);
            }
        },
    }
    tokens
}

/// Scans an identifier or a keyword whose first character, `c`, has been
/// read.
fn scan_identifier(c: char, chars: &mut CharStream) -> (tokens: Vec<Token>)
    requires
        is_identifier_start(c),
    ensures
        token_views(tokens@) == identifier_lexeme(seq![c] + old(chars)@, 0).tokens,
        final(chars)@ == (seq![c] + old(chars)@).skip(
            identifier_lexeme(seq![c] + old(chars)@, 0).len,
        ),
{
    let ghost rest = chars@;
    let ghost input = seq![c] + rest;
    let mut text = char_string(c);
    take_identifier_part(chars, &mut text);
    let ghost end = 1 + identifier_run(rest);
    proof {
        assert(input.skip(1) =~= rest);
        assert(text@ =~= input.take(end));
        assert(chars@ =~= input.skip(end));
    }
    let keyword = parse_keywords(text.clone());
    if keyword.len() > 0 {
        keyword
    } else {
        let mut tokens: Vec<Token> = Vec::new();
        let token = Token::new(TokenType::IDENTIFIER, text, None);
        tokens.push(token);
        proof {
            assert(token_views(keyword@).len() == 0);
            assert(token_views(tokens@) =~= seq![token@]);
        }
        tokens
    }
}

/// Whether `c` may begin an identifier or a keyword.
fn is_word_start(c: char) -> (r: bool)
    ensures
        r == is_identifier_start(c),
{
    (c >= 'a' && c <= 'z') || (c >= 'A' && c <= 'Z') || c == '_'
}

/// One scanning step. `c` has just been read from `chars`; the step reads
/// from `chars` whatever else belongs to the lexeme that `c` begins, and
/// returns the tokens of what it read. Behind a numeral, an identifier or a
/// keyword it also reads the character that ended the run, and goes on with
/// the lexeme that this character begins.
///
/// A malformed lexeme yields no token: it is reported to `diagnostics` with the
/// line on which it was met, and `has_error` is set and never cleared.
/// `line` is moved forward by every newline read.
pub fn parse_token(
    c: char,
    chars: &mut CharStream,
    line: &mut u32,
    has_error: &mut bool,
    diagnostics: &mut Vec<Diagnostic>,
) -> (tokens: Vec<Token>)
    requires
        *old(line) + newline_count(seq![c] + old(chars)@) <= u32::MAX,
    ensures
        token_views(tokens@) == step(seq![c] + old(chars)@, *old(line) as int).tokens,
        final(chars)@ == (seq![c] + old(chars)@).skip(
            step(seq![c] + old(chars)@, *old(line) as int).len,
        ),
        *final(line) == step(seq![c] + old(chars)@, *old(line) as int).line,
        *final(has_error) == (*old(has_error) || step(
            seq![c] + old(chars)@,
            *old(line) as int,
        ).has_error()),
        diagnostic_views(final(diagnostics)@) == diagnostic_views(old(diagnostics)@) + step(
            seq![c] + old(chars)@,
            *old(line) as int,
        ).diagnostics,
    decreases old(chars)@.len(),
{
    let ghost rest = chars@;
    let ghost input = seq![c] + rest;
    let ghost first_line = *line as int;
    let ghost first = lexeme(input, first_line);
    proof {
        assert(input.skip(1) =~= rest);
        assert(input.take(1) =~= seq![c]);
        assert(diagnostic_views(diagnostics@) + Seq::empty() =~= diagnostic_views(diagnostics@));
        assert(newline_count(input) == newline_count(rest) + if c == '\n' {
            1int
        } else {
            0int
        });
        lemma_newline_count_nonnegative(rest);
    }
    let mut tokens: Vec<Token> = Vec::new();
    let mut run = false;
    proof {
        assert(token_views(tokens@) =~= Seq::empty());
    }
    match c {
        '(' => {
            tokens = only(single(TokenType::LEFT_PAREN, c));
        },
        ')' => {
            tokens = only(single(TokenType::RIGHT_PAREN, c));
        },
        '{' => {
            tokens = only(single(TokenType::LEFT_BRACE, c));
        },
        '}' => {
            tokens = only(single(TokenType::RIGHT_BRACE, c));
        },
        ',' => {
            tokens = only(single(TokenType::COMMA, c));
        },
        '.' => {
            tokens = only(single(TokenType::DOT, c));
        },
        '-' => {
            tokens = only(single(TokenType::MINUS, c));
        },
        '+' => {
            tokens = only(single(TokenType::PLUS, c));
        },
        ';' => {
            tokens = only(single(TokenType::SEMICOLON, c));
        },
        '*' => {
            tokens = only(single(TokenType::STAR, c));
        },
        '!' => {
            tokens = scan_operator(c, chars, TokenType::BANG, TokenType::BANG_EQUAL);
        },
        '=' => {
            tokens = scan_operator(c, chars, TokenType::EQUAL, TokenType::EQUAL_EQUAL);
        },
        '<' => {
            tokens = scan_operator(c, chars, TokenType::LESS, TokenType::LESS_EQUAL);
        },
        '>' => {
            tokens = scan_operator(c, chars, TokenType::GREATER, TokenType::GREATER_EQUAL);
        },
        '/' => {
            match chars.peek() {
                Some('/') => {
                    let _ = chars.next();
                    let ghost comment = chars@;
                    proof {
                        assert(comment =~= input.skip(2));
                        lemma_distance_to_bounds(comment, '\n');
                        lemma_newline_count_split(comment, distance_to(comment, '\n'));
                        lemma_newline_count_nonnegative(
                            comment.skip(distance_to(comment, '\n')).skip(1),
                        );
                        assert(newline_count(rest) == newline_count(rest.skip(1)));
                        assert(rest.skip(1) =~= comment);
                    }
                    if skip_line(chars) {
                        *line = *line + 1;
                        proof {
                            assert(comment.skip(distance_to(comment, '\n') + 1) =~= input.skip(
                                first.len,
                            ));
                        }
                    } else {
                        proof {
                            assert(comment.skip(comment.len() as int) =~= input.skip(first.len));
                        }
                    }
                },
                _ => {
                    tokens = only(single(TokenType::SLASH, c));
                },
            }
        },
        '"' => {
            tokens = scan_string(chars, line, has_error, diagnostics);
        },
        ' ' | '\r' | '\t' => {},
        '\n' => {
            *line = *line + 1;
        },
        _ => {
            if is_decimal_digit(c) {
                tokens = scan_number(c, chars);
                run = true;
            } else if is_word_start(c) {
                tokens = scan_identifier(c, chars);
                run = true;
            } else {
                let diagnostic = Diagnostic::new(DiagnosticKind::UnexpectedCharacter(c), *line);
                proof {
                    lemma_diagnostic_views_push(diagnostics@, diagnostic);
                    assert(diagnostic_views(diagnostics@).push(diagnostic@) =~= diagnostic_views(
                        diagnostics@,
                    ) + seq![diagnostic@]);
                }
                diagnostics.push(diagnostic);
                *has_error = true;
            }
        },
    }
    proof {
        assert(token_views(tokens@) =~= first.tokens);
        assert(chars@ =~= input.skip(first.len));
        assert(*line == first.line);
        assert(diagnostic_views(diagnostics@) =~= diagnostic_views(old(diagnostics)@)
            + first.diagnostics);
        assert(*has_error == (*old(has_error) || first.has_error()));
        crate::lemmas::lemma_lexeme_len(input, first_line);
    }
    if run {
        let ghost behind = chars@;
        match chars.next() {
            Some(t) => {
                proof {
                    assert(seq![t] + chars@ =~= behind);
                    lemma_newline_count_split(input, first.len);
                }
                let mut more = parse_token(t, chars, line, has_error, diagnostics);
                proof {
                    let next = step(behind, first.line);
                    lemma_step_len(behind, first.line);
                    lemma_token_views_concat(tokens@, more@);
                    assert(behind.skip(next.len) =~= input.skip(first.len + next.len));
                    assert(diagnostic_views(old(diagnostics)@) + first.diagnostics
                        + next.diagnostics =~= diagnostic_views(old(diagnostics)@) + (
                    first.diagnostics + next.diagnostics));
                }
                tokens.append(&mut more);
            },
            None => {},
        }
    }
    tokens
}

/// What a scan of a whole input gives.
pub struct Scan {
    /// The tokens, in source order, closed by the end-of-input marker.
    pub tokens: Vec<Token>,
    /// The line on which the input ends, counted from 1.
    pub line: u32,
    /// Whether any lexeme was malformed.
    pub has_error: bool,
}

/// Scans all that is left in `chars`, and closes the tokens with the
/// end-of-input marker. Malformed lexemes are reported to `diagnostics` in the
/// order in which they were met; they never end the scan.
///
/// Whatever the text, the last token is the end-of-input marker, with an empty
/// lexeme and no value. Where the scan meets no error, the lexemes of the
/// tokens, put one after the other, are the text without the blanks, newlines
/// and comments that stand between its lexemes.
pub fn tokenize(mut chars: CharStream, diagnostics: &mut Vec<Diagnostic>) -> (result: Scan)
    ensures
        token_views(result.tokens@) == scan(chars@).tokens,
        result.line == scan(chars@).line,
        result.has_error == scan(chars@).has_error(),
        diagnostic_views(final(diagnostics)@) == diagnostic_views(old(diagnostics)@) + scan(
            chars@,
        ).diagnostics,
        result.tokens@.len() >= 1,
        result.tokens@.last()@ == eof_token(),
        !result.has_error ==> lexemes(token_views(result.tokens@)) == significant_text(chars@),
{
    proof {
        use_type_invariant(&chars);
        chars.lemma_lines_countable();
        lemma_scan_ends_with_eof(chars@);
        if !scan(chars@).has_error() {
            lemma_scan_round_trip(chars@);
        }
    }
    let ghost source = chars@;
    let ghost reported_before = diagnostic_views(diagnostics@);
    let ghost mut done = crate::grammar::skipped(0, 1);
    let mut tokens: Vec<Token> = Vec::new();
    let mut line: u32 = 1;
    let mut has_error = false;
    proof {
        assert(done.followed_by(scan_from(chars@, 1)).tokens =~= scan_from(source, 1).tokens);
        assert(done.followed_by(scan_from(chars@, 1)).diagnostics =~= scan_from(
            source,
            1,
        ).diagnostics);
        assert(token_views(tokens@) =~= done.tokens);
        assert(reported_before + done.diagnostics =~= reported_before);
    }
    loop
        invariant
            token_views(tokens@) == done.tokens,
            line == done.line,
            has_error == done.has_error(),
            diagnostic_views(diagnostics@) == reported_before + done.diagnostics,
            done.followed_by(scan_from(chars@, done.line)).tokens == scan_from(source, 1).tokens,
            done.followed_by(scan_from(chars@, done.line)).line == scan_from(source, 1).line,
            done.followed_by(scan_from(chars@, done.line)).diagnostics == scan_from(
                source,
                1,
            ).diagnostics,
            line + newline_count(chars@) <= u32::MAX,
        ensures
            token_views(tokens@) == scan_from(source, 1).tokens,
            line == scan_from(source, 1).line,
            has_error == scan_from(source, 1).has_error(),
            diagnostic_views(diagnostics@) == reported_before + scan_from(source, 1).diagnostics,
        decreases chars@.len(),
    {
        let ghost ahead = chars@;
        match chars.next() {
            Some(c) => {
                proof {
                    assert(seq![c] + chars@ =~= ahead);
                }
                let mut more = parse_token(c, &mut chars, &mut line, &mut has_error, diagnostics);
                proof {
                    let taken = step(ahead, done.line);
                    lemma_step_len(ahead, done.line);
                    lemma_step_line(ahead, done.line);
                    lemma_scan_from_step(ahead, done.line);
                    lemma_token_views_concat(tokens@, more@);
                    let left = scan_from(ahead.skip(taken.len), taken.line);
                    crate::lemmas::lemma_followed_by_associative(done, taken, left);
                    assert(reported_before + done.diagnostics + taken.diagnostics
                        =~= reported_before + (done.diagnostics + taken.diagnostics));
                    done = done.followed_by(taken);
                }
                tokens.append(&mut more);
            },
            None => {
                proof {
                    assert(done.followed_by(scan_from(chars@, done.line)).tokens =~= done.tokens);
                    assert(done.followed_by(scan_from(chars@, done.line)).diagnostics
                        =~= done.diagnostics);
                }
                break ;
            },
        }
    }
    let end = Token::new(TokenType::EOF, String::new(), None);
    proof {
        lemma_token_views_push(tokens@, end);
        assert(end@ == eof_token());
    }
    tokens.push(end);
    Scan { tokens, line, has_error }
}

} // verus!
