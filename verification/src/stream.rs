//! The character stream that the scanner reads from.

use vstd::prelude::*;
use crate::grammar::newline_count;
use crate::lemmas::{lemma_newline_count_nonnegative, lemma_newline_count_push};
use crate::text::chars_of;

verus! {

/// A cursor over source text. Its view is the text that is still to be read.
///
/// The scanner counts lines in a `u32`, from 1. A stream is made only of text
/// whose lines can be counted so: one with fewer than `u32::MAX` newlines.
///
/// The scanner reads from this rather than from `std::str::Chars`. The length
/// of the view is the measure by which its loops and its recursion end, which
/// the prophetic sequence that specifies `Chars` cannot be; and the next
/// character can be looked at without being taken.
pub struct CharStream {
    chars: Vec<char>,
    pos: usize,
}

impl View for CharStream {
    type V = Seq<char>;

    closed spec fn view(&self) -> Seq<char> {
        self.chars@.skip(self.pos as int)
    }
}

/// Whether a line counter that starts at 1 can count the lines of `text`.
pub open spec fn lines_countable(text: Seq<char>) -> bool {
    1 + newline_count(text) <= u32::MAX
}

/// Executable form of [`lines_countable`].
fn has_countable_lines(chars: &Vec<char>) -> (countable: bool)
    ensures
        countable == lines_countable(chars@),
{
    let mut newlines: usize = 0;
    let mut i: usize = 0;
    assert(chars@.take(0) =~= Seq::<char>::empty());
    while i < chars.len()
        invariant
            i <= chars.len(),
            newlines <= i,
            newlines == newline_count(chars@.take(i as int)),
        decreases chars.len() - i,
    {
        proof {
            lemma_newline_count_push(chars@.take(i as int), chars@[i as int]);
            assert(chars@.take(i + 1) =~= chars@.take(i as int).push(chars@[i as int]));
        }
        if chars[i] == '\n' {
            newlines += 1;
        }
        i += 1;
    }
    assert(chars@.take(i as int) =~= chars@);
    newlines < u32::MAX as usize
}

impl CharStream {
    /// The cursor stands inside the text, and the lines of what is left can be
    /// counted.
    #[verifier::type_invariant]
    pub closed spec fn well_formed(&self) -> bool {
        &&& self.pos <= self.chars.len()
        &&& lines_countable(self.chars@.skip(self.pos as int))
    }

    /// The lines of what is left in a stream can be counted.
    pub proof fn lemma_lines_countable(self)
        requires
            self.well_formed(),
        ensures
            lines_countable(self@),
    {
    }

    /// A stream over the characters of `source`; none if `source` has more
    /// lines than the scanner can count.
    pub fn new(source: &str) -> (stream: Option<Self>)
        ensures
            stream is Some <==> lines_countable(source@),
            stream matches Some(s) ==> s@ == source@,
    {
        CharStream::from_chars(chars_of(source))
    }

    /// A stream over `chars`; none if `chars` has more lines than the scanner
    /// can count.
    pub fn from_chars(chars: Vec<char>) -> (stream: Option<Self>)
        ensures
            stream is Some <==> lines_countable(chars@),
            stream matches Some(s) ==> s@ == chars@,
    {
        if has_countable_lines(&chars) {
            assert(chars@.skip(0) =~= chars@);
            Some(CharStream { chars, pos: 0 })
        } else {
            None
        }
    }

    /// Whether everything has been read.
    pub fn is_empty(&self) -> (empty: bool)
        ensures
            empty == (self@.len() == 0),
    {
        proof {
            use_type_invariant(self);
        }
        self.pos == self.chars.len()
    }

    /// The next character, left in the stream.
    pub fn peek(&self) -> (c: Option<char>)
        ensures
            c == (if self@.len() > 0 {
                Some(self@[0])
            } else {
                None
            }),
    {
        proof {
            use_type_invariant(self);
        }
        if self.pos < self.chars.len() {
            Some(self.chars[self.pos])
        } else {
            None
        }
    }

    /// Takes the next character out of the stream.
    pub fn next(&mut self) -> (c: Option<char>)
        ensures
            old(self)@.len() > 0 ==> c == Some(old(self)@[0]) && final(self)@ == old(self)@.skip(1),
            old(self)@.len() == 0 ==> c is None && final(self)@ == old(self)@,
    {
        proof {
            use_type_invariant(&*self);
        }
        if self.pos < self.chars.len() {
            let c = self.chars[self.pos];
            proof {
                let left = self.chars@.skip(self.pos as int);
                assert(left.skip(1) =~= self.chars@.skip(self.pos + 1));
                lemma_newline_count_nonnegative(left.skip(1));
            }
            self.pos = self.pos + 1;
            assert(self@ =~= old(self)@.skip(1));
            Some(c)
        } else {
            None
        }
    }
}

} // verus!
