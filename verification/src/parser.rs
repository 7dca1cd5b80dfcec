//! The parser's state: the tokens of a source text and a cursor into them.

use vstd::prelude::*;
use crate::diagnostic::{diagnostic_views, Diagnostic};
use crate::grammar::{lexemes, scan, significant_text};
use crate::stream::CharStream;
use crate::token::{eof_token, token_views, Token, TokenView};
use crate::tokenizer::tokenize;

verus! {

/// Why a source text could not be taken in.
#[derive(Debug, Clone, Copy, PartialEq, Eq, Structural)]
pub enum ParseError {
    /// The text held at least one malformed lexeme.
    Lexical,
}

/// The tokens of a source text, with the line on which the text ended, whether
/// the scan met a malformed lexeme, and the index of the token to read next.
pub struct Parser {
    tokens: Vec<Token>,
    lines: u32,
    has_error: bool,
    current: usize,
}

/// What a [`Parser`] is, as mathematics.
pub struct ParserView {
    pub tokens: Seq<TokenView>,
    pub lines: int,
    pub has_error: bool,
    pub current: int,
}

/// The state in which a parser starts on the scan of `source`.
pub open spec fn parser_of(source: Seq<char>) -> ParserView {
    ParserView {
        tokens: scan(source).tokens,
        lines: scan(source).line,
        has_error: scan(source).has_error(),
        current: 0,
    }
}

impl View for Parser {
    type V = ParserView;

    closed spec fn view(&self) -> ParserView {
        ParserView {
            tokens: token_views(self.tokens@),
            lines: self.lines as int,
            has_error: self.has_error,
            current: self.current as int,
        }
    }
}

impl Parser {
    pub fn new(tokens: Vec<Token>, lines: u32, has_error: bool) -> (parser: Parser)
        ensures
            parser@ == (ParserView {
                tokens: token_views(tokens@),
                lines: lines as int,
                has_error,
                current: 0,
            }),
    {
        Parser { tokens, lines, has_error, current: 0 }
    }

    /// The tokens that the parser reads.
    pub fn tokens(&self) -> (tokens: &Vec<Token>)
        ensures
            token_views(tokens@) == self@.tokens,
    {
        &self.tokens
    }

    /// The line on which the source ended.
    pub fn lines(&self) -> (lines: u32)
        ensures
            lines == self@.lines,
    {
        self.lines
    }

    /// Whether the scan met a malformed lexeme.
    pub fn has_error(&self) -> (has_error: bool)
        ensures
            has_error == self@.has_error,
    {
        self.has_error
    }

    /// Starts over on the text in `chars`: the parser takes the tokens of its
    /// scan, and fails if the scan met a malformed lexeme. The parser holds the
    /// tokens either way, and `diagnostics` has the reports.
    pub fn parse(&mut self, chars: CharStream, diagnostics: &mut Vec<Diagnostic>) -> (result: Result<
        (),
        ParseError,
    >)
        ensures
            final(self)@ == parser_of(chars@),
            result is Err <==> scan(chars@).has_error(),
            diagnostic_views(final(diagnostics)@) == diagnostic_views(old(diagnostics)@) + scan(
                chars@,
            ).diagnostics,
    {
        *self = get_parser(chars, diagnostics);
        if self.has_error {
            Err(ParseError::Lexical)
        } else {
            Ok(())
        }
    }
}

/// A parser at the start of the tokens of all that is left in `chars`.
///
/// Whatever the text, the last token is the end-of-input marker. Where the
/// scan meets no error, the lexemes of the tokens, put one after the other, are
/// the text without the blanks, newlines and comments that stand between its
/// lexemes.
pub fn get_parser(chars: CharStream, diagnostics: &mut Vec<Diagnostic>) -> (parser: Parser)
    ensures
        parser@ == parser_of(chars@),
        diagnostic_views(final(diagnostics)@) == diagnostic_views(old(diagnostics)@) + scan(
            chars@,
        ).diagnostics,
        parser@.tokens.len() >= 1,
        parser@.tokens.last() == eof_token(),
        !parser@.has_error ==> lexemes(parser@.tokens) == significant_text(chars@),
{
    let scanned = tokenize(chars, diagnostics);
    Parser::new(scanned.tokens, scanned.line, scanned.has_error)
}

/// Two parsers made of the same text, whenever and in whatever order, are
/// equal in every part: tokens, line count, error flag and cursor.
pub proof fn lemma_same_text_same_parser(first: Parser, second: Parser, source: Seq<char>)
    requires
        first@ == parser_of(source),
        second@ == parser_of(source),
    ensures
        first@ == second@,
{
}

} // verus!
