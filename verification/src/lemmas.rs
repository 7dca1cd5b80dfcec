//! Facts about the grammar that the scanner's proofs rest on.

use vstd::prelude::*;
use crate::grammar::{
    digit_run, distance_to, identifier_run, lexeme, newline_count, scan_from, starts_run, step,
    Scanned,
};

verus! {

/// A run of digits is no longer than the text it stands in.
pub proof fn lemma_digit_run_bounds(s: Seq<char>)
    ensures
        0 <= digit_run(s) <= s.len(),
    decreases s.len(),
{
    if s.len() > 0 {
        lemma_digit_run_bounds(s.skip(1));
    }
}

/// A run of identifier characters is no longer than the text it stands in.
pub proof fn lemma_identifier_run_bounds(s: Seq<char>)
    ensures
        0 <= identifier_run(s) <= s.len(),
    decreases s.len(),
{
    if s.len() > 0 {
        lemma_identifier_run_bounds(s.skip(1));
    }
}

/// The first `c` of `s` stands inside `s`, and no `c` stands before it.
pub proof fn lemma_distance_to_bounds(s: Seq<char>, c: char)
    ensures
        0 <= distance_to(s, c) <= s.len(),
        distance_to(s, c) < s.len() ==> s[distance_to(s, c)] == c,
        forall|k: int| 0 <= k < distance_to(s, c) ==> s[k] != c,
    decreases s.len(),
{
    if s.len() > 0 && s[0] != c {
        lemma_distance_to_bounds(s.skip(1), c);
        assert forall|k: int| 0 <= k < distance_to(s, c) implies s[k] != c by {
            if k > 0 {
                assert(s.skip(1)[k - 1] == s[k]);
            }
        }
    }
}

/// One more character at the end adds one newline if it is one, else none.
pub proof fn lemma_newline_count_push(s: Seq<char>, c: char)
    ensures
        newline_count(s.push(c)) == newline_count(s) + if c == '\n' {
            1int
        } else {
            0int
        },
    decreases s.len(),
{
    let longer = s.push(c);
    if s.len() == 0 {
        assert(longer.skip(1) =~= Seq::<char>::empty());
        assert(newline_count(longer.skip(1)) == 0);
        assert(longer[0] == c);
    } else {
        lemma_newline_count_push(s.skip(1), c);
        assert(longer.skip(1) =~= s.skip(1).push(c));
        assert(longer[0] == s[0]);
    }
}

/// The newlines of a text are those of any prefix and those of what follows
/// it.
pub proof fn lemma_newline_count_split(s: Seq<char>, at: int)
    requires
        0 <= at <= s.len(),
    ensures
        newline_count(s) == newline_count(s.take(at)) + newline_count(s.skip(at)),
        0 <= newline_count(s.take(at)),
        0 <= newline_count(s.skip(at)),
    decreases at,
{
    if at == 0 {
        assert(s.skip(0) =~= s);
        assert(s.take(0) =~= Seq::<char>::empty());
        lemma_newline_count_nonnegative(s);
    } else {
        lemma_newline_count_split(s.skip(1), at - 1);
        assert(s.skip(1).skip(at - 1) =~= s.skip(at));
        assert(s.take(at).skip(1) =~= s.skip(1).take(at - 1));
    }
}

/// No text holds fewer than zero newlines.
pub proof fn lemma_newline_count_nonnegative(s: Seq<char>)
    ensures
        0 <= newline_count(s),
    decreases s.len(),
{
    if s.len() > 0 {
        lemma_newline_count_nonnegative(s.skip(1));
    }
}

/// The lexeme at the front of a text that is not empty takes at least one
/// character and no more than there are.
pub proof fn lemma_lexeme_len(s: Seq<char>, line: int)
    requires
        s.len() > 0,
    ensures
        1 <= lexeme(s, line).len <= s.len(),
{
    lemma_digit_run_bounds(s);
    lemma_digit_run_bounds(s.skip(digit_run(s) + 1));
    lemma_identifier_run_bounds(s.skip(1));
    lemma_distance_to_bounds(s.skip(1), '"');
    lemma_distance_to_bounds(s.skip(2), '\n');
}

/// The line counter moves forward only, and by no more than the newlines that
/// the lexeme took.
pub proof fn lemma_lexeme_line(s: Seq<char>, line: int)
    requires
        s.len() > 0,
    ensures
        line <= lexeme(s, line).line,
        lexeme(s, line).line + newline_count(s.skip(lexeme(s, line).len)) <= line + newline_count(
            s,
        ),
{
    let out = lexeme(s, line);
    lemma_lexeme_len(s, line);
    lemma_newline_count_split(s, out.len);
    if s[0] == '"' {
        let rest = s.skip(1);
        let d = distance_to(rest, '"');
        lemma_distance_to_bounds(rest, '"');
        let body = s.subrange(1, 1 + d);
        lemma_newline_count_split(s.take(out.len), 1);
        assert(s.take(out.len).skip(1) =~= rest.take(out.len - 1));
        lemma_newline_count_split(rest.take(out.len - 1), d);
        assert(rest.take(out.len - 1).take(d) =~= body);
    } else if s[0] == '/' && s.len() > 1 && s[1] == '/' {
        let rest = s.skip(2);
        let d = distance_to(rest, '\n');
        lemma_distance_to_bounds(rest, '\n');
        if 2 + d < s.len() {
            lemma_newline_count_split(s.take(out.len), out.len - 1);
            assert(s.take(out.len).skip(out.len - 1) =~= seq!['\n']);
            assert(seq!['\n'].skip(1) =~= Seq::<char>::empty());
            assert(newline_count(seq!['\n']) == 1) by {
                reveal_with_fuel(newline_count, 2);
            }
        }
    } else if s[0] == '\n' {
        assert(s.take(1).skip(1) =~= Seq::<char>::empty());
        assert(newline_count(s.take(1)) == 1) by {
            reveal_with_fuel(newline_count, 2);
        }
    }
}

/// A scanning step takes at least one character and no more than there are.
pub proof fn lemma_step_len(s: Seq<char>, line: int)
    requires
        s.len() > 0,
    ensures
        1 <= step(s, line).len <= s.len(),
    decreases s.len(),
{
    let first = lexeme(s, line);
    lemma_lexeme_len(s, line);
    if starts_run(s[0]) && first.len < s.len() {
        lemma_step_len(s.skip(first.len), first.line);
    }
}

/// The line counter moves forward only, and by no more than the newlines that
/// the step took.
pub proof fn lemma_step_line(s: Seq<char>, line: int)
    requires
        s.len() > 0,
    ensures
        line <= step(s, line).line,
        step(s, line).line + newline_count(s.skip(step(s, line).len)) <= line + newline_count(s),
    decreases s.len(),
{
    let first = lexeme(s, line);
    lemma_lexeme_len(s, line);
    lemma_lexeme_line(s, line);
    if starts_run(s[0]) && first.len < s.len() {
        let rest = s.skip(first.len);
        lemma_step_len(rest, first.line);
        lemma_step_line(rest, first.line);
        assert(rest.skip(step(rest, first.line).len) =~= s.skip(step(s, line).len));
    }
}

/// Reading two stretches and then a third is reading the first and then the
/// other two.
pub proof fn lemma_followed_by_associative(a: Scanned, b: Scanned, c: Scanned)
    ensures
        a.followed_by(b).followed_by(c) == a.followed_by(b.followed_by(c)),
{
    assert(a.followed_by(b).followed_by(c).tokens =~= a.followed_by(b.followed_by(c)).tokens);
    assert(a.followed_by(b).followed_by(c).diagnostics =~= a.followed_by(
        b.followed_by(c),
    ).diagnostics);
}

/// Scanning a text is taking one step and scanning what the step left.
pub proof fn lemma_scan_from_step(s: Seq<char>, line: int)
    requires
        s.len() > 0,
    ensures
        scan_from(s, line) == step(s, line).followed_by(
            scan_from(s.skip(step(s, line).len), step(s, line).line),
        ),
    decreases s.len(),
{
    let first = lexeme(s, line);
    lemma_lexeme_len(s, line);
    let rest = s.skip(first.len);
    if starts_run(s[0]) && first.len < s.len() {
        let more = step(rest, first.line);
        lemma_step_len(rest, first.line);
        lemma_scan_from_step(rest, first.line);
        assert(rest.skip(more.len) =~= s.skip(first.len + more.len));
        lemma_followed_by_associative(
            first,
            more,
            scan_from(rest.skip(more.len), more.line),
        );
    }
}

} // verus!
