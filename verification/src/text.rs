//! Character and string primitives shared by the scanner.

use vstd::prelude::*;

verus! {

/// Whether `c` is alphanumeric in the sense of `char::is_alphanumeric`: the
/// Unicode classes Alphabetic and Numeric, whose tables are not restated
/// here.
pub uninterp spec fn alphanumeric(c: char) -> bool;

/// `char::is_alphanumeric` of the standard library. The result depends on the
/// character alone; the contract gives it the name [`alphanumeric`] and
/// claims nothing else of it.
pub assume_specification[ char::is_alphanumeric ](c: char) -> (r: bool)
    ensures
        r == alphanumeric(c),
;

/// `String::push` of the standard library: the character is appended at the
/// end, and the text before it is left as it was.
pub assume_specification[ std::string::String::push ](s: &mut std::string::String, ch: char)
    ensures
        final(s)@ == old(s)@.push(ch),
;

/// The decimal digits `'0'` to `'9'`.
pub open spec fn is_digit(c: char) -> bool {
    '0' <= c && c <= '9'
}

/// Executable form of [`is_digit`].
pub fn is_decimal_digit(c: char) -> (r: bool)
    ensures
        r == is_digit(c),
{
    c >= '0' && c <= '9'
}

/// The characters of `s`, in order.
pub fn chars_of(s: &str) -> (chars: Vec<char>)
    ensures
        chars@ == s@,
{
    let mut chars: Vec<char> = Vec::new();
    for c in it: s.chars()
        invariant
            it.seq() == s@,
            chars@ == it.seq().take(it.index()),
    {
        chars.push(c);
    }
    chars
}

/// A string holding `chars[from..to]`.
pub fn string_of(chars: &Vec<char>, from: usize, to: usize) -> (s: String)
    requires
        from <= to <= chars.len(),
    ensures
        s@ == chars@.subrange(from as int, to as int),
{
    let mut s = String::new();
    let mut i: usize = from;
    while i < to
        invariant
            from <= i <= to <= chars.len(),
            s@ == chars@.subrange(from as int, i as int),
        decreases to - i,
    {
        s.push(chars[i]);
        i += 1;
    }
    s
}

/// Whether `chars` spells exactly `word`.
pub fn spells(chars: &Vec<char>, word: &str) -> (same: bool)
    ensures
        same == (chars@ == word@),
{
    let mut matched: usize = 0;
    let mut same = true;
    for c in it: word.chars()
        invariant
            it.seq() == word@,
            same ==> matched == it.index() && matched <= chars.len() && chars@.take(matched as int)
                == word@.take(matched as int),
            !same ==> chars@ != word@,
    {
        if same && matched < chars.len() && chars[matched] == c {
            assert(chars@.take(matched + 1) =~= chars@.take(matched as int).push(c));
            assert(word@.take(matched + 1) =~= word@.take(matched as int).push(c));
            matched += 1;
        } else {
            same = false;
        }
    }
    if same && matched == chars.len() {
        assert(chars@ =~= chars@.take(matched as int));
        assert(word@ =~= word@.take(matched as int));
        true
    } else {
        false
    }
}

} // verus!
