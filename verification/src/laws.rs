//! What holds of every scan.

use vstd::prelude::*;
use crate::grammar::{
    digit_run, identifier_lexeme, identifier_run, integer_literal, is_blank, is_identifier_start,
    is_skipped, keyword_kind, lexeme, lexemes, newline_count, number_lexeme, operator,
    punctuation, scan, scan_from, significant_text, string_lexeme,
};
use crate::lemmas::{
    lemma_digit_run_bounds, lemma_distance_to_bounds, lemma_lexeme_len, lemma_lexeme_line,
};
use crate::text::is_digit;
use crate::token::{eof_token, literal_token, TokenType, TokenView};

verus! {

/// Whether every token of `tokens` is well formed and none is the end-of-input
/// marker.
pub open spec fn proper_tokens(tokens: Seq<TokenView>) -> bool {
    forall|i: int|
        0 <= i < tokens.len() ==> (#[trigger] tokens[i]).well_formed() && tokens[i].kind
            != TokenType::EOF
}

/// A keyword is never a string, a number or the end-of-input marker.
proof fn lemma_keyword_kinds(text: Seq<char>)
    ensures
        keyword_kind(text) matches Some(kind) ==> !kind.carries_literal() && kind
            != TokenType::EOF,
{
}

/// The tokens of one lexeme are well formed, and none is the end-of-input
/// marker.
proof fn lemma_lexeme_tokens(s: Seq<char>, line: int)
    requires
        s.len() > 0,
    ensures
        proper_tokens(lexeme(s, line).tokens),
{
    lemma_keyword_kinds(s.take(1 + identifier_run(s.skip(1))));
}

/// The tokens before the end-of-input marker are well formed, and none of them
/// is that marker. Every character is read.
proof fn lemma_scan_from_tokens(s: Seq<char>, line: int)
    ensures
        proper_tokens(scan_from(s, line).tokens),
        scan_from(s, line).len == s.len(),
        line <= scan_from(s, line).line <= line + newline_count(s),
    decreases s.len(),
{
    if s.len() > 0 {
        let first = lexeme(s, line);
        lemma_lexeme_len(s, line);
        lemma_lexeme_line(s, line);
        lemma_lexeme_tokens(s, line);
        lemma_scan_from_tokens(s.skip(first.len), first.line);
    }
}

/// Every scan ends with the end-of-input marker, which has an empty lexeme and
/// no value, and holds that marker nowhere else.
pub proof fn lemma_scan_ends_with_eof(s: Seq<char>)
    ensures
        scan(s).tokens.len() >= 1,
        scan(s).tokens.last() == eof_token(),
        eof_token().lexeme.len() == 0,
        eof_token().value is None,
        forall|i: int|
            0 <= i < scan(s).tokens.len() - 1 ==> (#[trigger] scan(s).tokens[i]).kind
                != TokenType::EOF,
{
    lemma_scan_from_tokens(s, 1);
}

/// In every scan a token carries a value exactly if it is a string or a
/// number.
pub proof fn lemma_scan_tokens_well_formed(s: Seq<char>)
    ensures
        forall|i: int|
            0 <= i < scan(s).tokens.len() ==> (#[trigger] scan(s).tokens[i]).well_formed(),
{
    lemma_scan_from_tokens(s, 1);
}

/// A scan reads every character of its input, whatever errors it meets, and
/// its line count is at least 1 and at most 1 more than the input has
/// newlines.
pub proof fn lemma_scan_reads_all(s: Seq<char>)
    ensures
        scan(s).len == s.len(),
        1 <= scan(s).line <= 1 + newline_count(s),
{
    lemma_scan_from_tokens(s, 1);
}

/// A text made of digits alone is one run of digits.
proof fn lemma_all_digits_run(d: Seq<char>)
    requires
        forall|i: int| 0 <= i < d.len() ==> is_digit(#[trigger] d[i]),
    ensures
        digit_run(d) == d.len(),
    decreases d.len(),
{
    if d.len() > 0 {
        assert(is_digit(d[0]));
        assert forall|i: int| 0 <= i < d.skip(1).len() implies is_digit(
            #[trigger] d.skip(1)[i],
        ) by {
            assert(d.skip(1)[i] == d[i + 1]);
        }
        lemma_all_digits_run(d.skip(1));
    }
}

/// The scan of a text that is made of digits alone, and of at least one, is a
/// single number, whose lexeme is the text and whose value is the text with
/// `.0` behind it, and then the end-of-input marker.
pub proof fn lemma_scan_digits(d: Seq<char>)
    requires
        d.len() > 0,
        forall|i: int| 0 <= i < d.len() ==> is_digit(#[trigger] d[i]),
    ensures
        scan(d).tokens == seq![
            literal_token(TokenType::NUMBER, d, integer_literal(d)),
            eof_token(),
        ],
        !scan(d).has_error(),
        scan(d).line == 1,
{
    lemma_all_digits_run(d);
    assert(is_digit(d[0]));
    assert(d.take(d.len() as int) =~= d);
    let first = lexeme(d, 1);
    assert(first.len == d.len());
    assert(first.tokens =~= seq![literal_token(TokenType::NUMBER, d, integer_literal(d))]);
    assert(d.skip(first.len).len() == 0);
    assert(scan_from(d.skip(first.len), first.line).tokens =~= Seq::empty());
    assert(scan_from(d, 1).tokens =~= first.tokens);
    assert(scan(d).tokens =~= seq![
        literal_token(TokenType::NUMBER, d, integer_literal(d)),
        eof_token(),
    ]);
    assert(scan_from(d, 1).diagnostics =~= Seq::empty());
}

/// A scan depends on nothing but its input: two scans of the same text give
/// the same tokens, the same line count and the same diagnostics.
pub proof fn lemma_scan_repeatable(first: Seq<char>, second: Seq<char>)
    requires
        first == second,
    ensures
        scan(first).tokens == scan(second).tokens,
        scan(first).line == scan(second).line,
        scan(first).diagnostics == scan(second).diagnostics,
{
}

/// The lexemes of two sequences of tokens, one after the other.
proof fn lemma_lexemes_concat(a: Seq<TokenView>, b: Seq<TokenView>)
    ensures
        lexemes(a + b) == lexemes(a) + lexemes(b),
    decreases a.len(),
{
    if a.len() == 0 {
        assert(a + b =~= b);
        assert(lexemes(a) + lexemes(b) =~= lexemes(b));
    } else {
        lemma_lexemes_concat(a.skip(1), b);
        assert((a + b).skip(1) =~= a.skip(1) + b);
        assert(lexemes(a + b) =~= lexemes(a) + lexemes(b));
    }
}

/// The lexemes of a single token, and of two.
proof fn lemma_lexemes_short(a: TokenView, b: TokenView)
    ensures
        lexemes(Seq::<TokenView>::empty()) == Seq::<char>::empty(),
        lexemes(seq![a]) == a.lexeme,
        lexemes(seq![a, b]) == a.lexeme + b.lexeme,
{
    reveal_with_fuel(lexemes, 3);
    assert(seq![a].skip(1) =~= Seq::<TokenView>::empty());
    assert(lexemes(seq![a]) =~= a.lexeme);
    assert(seq![a, b].skip(1) =~= seq![b]);
    assert(lexemes(seq![a, b]) =~= a.lexeme + b.lexeme);
}

/// A well-formed lexeme leaves its exact source text in its tokens, unless it
/// is one that is dropped, which leaves nothing.
proof fn lemma_lexeme_lexemes(s: Seq<char>, line: int)
    requires
        s.len() > 0,
        !lexeme(s, line).has_error(),
    ensures
        lexemes(lexeme(s, line).tokens) == if is_skipped(s) {
            Seq::<char>::empty()
        } else {
            s.take(lexeme(s, line).len)
        },
        lexeme(s, line).len == lexeme(s, 0).len,
{
    let first = lexeme(s, line);
    let c = s[0];
    lemma_lexeme_len(s, line);
    if punctuation(c) is Some || operator(c) is Some {
        lemma_lexemes_short(first.tokens[0], eof_token());
        assert(first.tokens =~= seq![first.tokens[0]]);
    } else if c == '/' {
        if s.len() > 1 && s[1] == '/' {
            lemma_lexemes_short(eof_token(), eof_token());
        } else {
            lemma_lexemes_short(first.tokens[0], eof_token());
            assert(first.tokens =~= seq![first.tokens[0]]);
        }
    } else if c == '"' {
        assert(first == string_lexeme(s, line));
        lemma_distance_to_bounds(s.skip(1), '"');
        lemma_lexemes_short(first.tokens[0], eof_token());
        assert(first.tokens =~= seq![first.tokens[0]]);
    } else if is_blank(c) || c == '\n' {
        lemma_lexemes_short(eof_token(), eof_token());
    } else if is_digit(c) {
        assert(first == number_lexeme(s, line));
        let whole_end = digit_run(s);
        lemma_digit_run_bounds(s);
        if whole_end < s.len() && s[whole_end] == '.' && digit_run(s.skip(whole_end + 1)) == 0 {
            lemma_lexemes_short(first.tokens[0], first.tokens[1]);
            assert(first.tokens =~= seq![first.tokens[0], first.tokens[1]]);
            assert(s.take(whole_end) + s.subrange(whole_end, whole_end + 1) =~= s.take(
                whole_end + 1,
            ));
        } else {
            lemma_lexemes_short(first.tokens[0], eof_token());
            assert(first.tokens =~= seq![first.tokens[0]]);
        }
    } else if is_identifier_start(c) {
        assert(first == identifier_lexeme(s, line));
        lemma_lexemes_short(first.tokens[0], eof_token());
        assert(first.tokens =~= seq![first.tokens[0]]);
    } else {
        assert(first.has_error());
    }
}

/// The lexemes of a scan that met no error, before the end-of-input marker.
proof fn lemma_scan_from_lexemes(s: Seq<char>, line: int)
    requires
        !scan_from(s, line).has_error(),
    ensures
        lexemes(scan_from(s, line).tokens) == significant_text(s),
    decreases s.len(),
{
    if s.len() > 0 {
        let first = lexeme(s, line);
        lemma_lexeme_len(s, line);
        let rest = scan_from(s.skip(first.len), first.line);
        assert(scan_from(s, line).diagnostics =~= first.diagnostics + rest.diagnostics);
        lemma_lexeme_lexemes(s, line);
        lemma_scan_from_lexemes(s.skip(first.len), first.line);
        lemma_lexemes_concat(first.tokens, rest.tokens);
        assert(Seq::<char>::empty() + significant_text(s.skip(first.len)) =~= significant_text(
            s.skip(first.len),
        ));
    }
}

/// Where a scan meets no error, the lexemes of its tokens, put one after the
/// other, are the input without the blanks, newlines and comments that stand
/// between its lexemes.
pub proof fn lemma_scan_round_trip(s: Seq<char>)
    requires
        !scan(s).has_error(),
    ensures
        lexemes(scan(s).tokens) == significant_text(s),
{
    let body = scan_from(s, 1).tokens;
    lemma_scan_from_lexemes(s, 1);
    lemma_lexemes_concat(body, seq![eof_token()]);
    lemma_lexemes_short(eof_token(), eof_token());
    assert(body.push(eof_token()) =~= body + seq![eof_token()]);
    assert(lexemes(body) + eof_token().lexeme =~= lexemes(body));
}

} // verus!


