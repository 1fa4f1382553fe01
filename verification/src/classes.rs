//! Classes of input bytes, and maximal runs of one class.
//!
//! The scanner reads its input byte by byte. A byte above `0x7F` belongs to no
//! class: it is never a letter, a digit or white space.

use vstd::prelude::*;

verus! {

/// White space: space, tab, line feed or carriage return.
pub open spec fn spec_is_whitespace(b: u8) -> bool {
    b == ' ' as u8 || b == '\t' as u8 || b == '\n' as u8 || b == '\r' as u8
}

/// A decimal digit.
pub open spec fn spec_is_digit(b: u8) -> bool {
    '0' as u8 <= b <= '9' as u8
}

/// A letter of the English alphabet, in either case.
pub open spec fn spec_is_letter(b: u8) -> bool {
    'a' as u8 <= b <= 'z' as u8 || 'A' as u8 <= b <= 'Z' as u8
}

/// A byte that may begin an identifier: a letter or an underscore.
pub open spec fn spec_is_identifier_start(b: u8) -> bool {
    spec_is_letter(b) || b == '_' as u8
}

/// A byte that may continue an identifier: a letter, a digit or an underscore.
pub open spec fn spec_is_identifier_part(b: u8) -> bool {
    spec_is_identifier_start(b) || spec_is_digit(b)
}

/// A byte of the body of a numeric literal: a digit or `.`.
pub open spec fn spec_is_number_part(b: u8) -> bool {
    spec_is_digit(b) || b == '.' as u8
}

/// The suffix that marks a numeric literal as long: `l` or `L`.
pub open spec fn spec_is_long_suffix(b: u8) -> bool {
    b == 'l' as u8 || b == 'L' as u8
}

#[verifier::when_used_as_spec(spec_is_whitespace)]
pub fn is_whitespace(b: u8) -> (yes: bool)
    ensures
        yes == spec_is_whitespace(b),
{
    b == ' ' as u8 || b == '\t' as u8 || b == '\n' as u8 || b == '\r' as u8
}

#[verifier::when_used_as_spec(spec_is_digit)]
pub fn is_digit(b: u8) -> (yes: bool)
    ensures
        yes == spec_is_digit(b),
{
    '0' as u8 <= b && b <= '9' as u8
}

#[verifier::when_used_as_spec(spec_is_letter)]
pub fn is_letter(b: u8) -> (yes: bool)
    ensures
        yes == spec_is_letter(b),
{
    ('a' as u8 <= b && b <= 'z' as u8) || ('A' as u8 <= b && b <= 'Z' as u8)
}

#[verifier::when_used_as_spec(spec_is_identifier_start)]
pub fn is_identifier_start(b: u8) -> (yes: bool)
    ensures
        yes == spec_is_identifier_start(b),
{
    is_letter(b) || b == '_' as u8
}

#[verifier::when_used_as_spec(spec_is_identifier_part)]
pub fn is_identifier_part(b: u8) -> (yes: bool)
    ensures
        yes == spec_is_identifier_part(b),
{
    is_identifier_start(b) || is_digit(b)
}

#[verifier::when_used_as_spec(spec_is_number_part)]
pub fn is_number_part(b: u8) -> (yes: bool)
    ensures
        yes == spec_is_number_part(b),
{
    is_digit(b) || b == '.' as u8
}

#[verifier::when_used_as_spec(spec_is_long_suffix)]
pub fn is_long_suffix(b: u8) -> (yes: bool)
    ensures
        yes == spec_is_long_suffix(b),
{
    b == 'l' as u8 || b == 'L' as u8
}

/// The classes of which the scanner consumes whole runs.
pub enum Class {
    Whitespace,
    NumberPart,
    IdentifierPart,
}

impl Class {
    /// Whether `b` belongs to this class.
    pub open spec fn admits(self, b: u8) -> bool {
        match self {
            Class::Whitespace => is_whitespace(b),
            Class::NumberPart => is_number_part(b),
            Class::IdentifierPart => is_identifier_part(b),
        }
    }
}

/// The end of the longest run of bytes of `class` that begins at `start`: the
/// first index from `start` on that holds a byte outside the class, or the
/// length of `s` if there is none.
pub open spec fn run_end(s: Seq<u8>, class: Class, start: int) -> int
    decreases s.len() - start,
{
    if 0 <= start < s.len() && class.admits(s[start]) {
        run_end(s, class, start + 1)
    } else {
        start
    }
}

/// Whether `s[start..end]` is the longest run of bytes of `class` from `start`.
pub open spec fn is_maximal_run(s: Seq<u8>, class: Class, start: int, end: int) -> bool {
    &&& start <= end <= s.len()
    &&& forall|i: int| start <= i < end ==> class.admits(#[trigger] s[i])
    &&& end < s.len() ==> !class.admits(s[end])
}

/// `run_end` is the one index that ends the longest run from `start`.
pub proof fn lemma_run_end_is_maximal(s: Seq<u8>, class: Class, start: int)
    requires
        0 <= start <= s.len(),
    ensures
        is_maximal_run(s, class, start, run_end(s, class, start)),
        forall|end: int| is_maximal_run(s, class, start, end) ==> end == run_end(s, class, start),
    decreases s.len() - start,
{
    if start < s.len() && class.admits(s[start]) {
        lemma_run_end_is_maximal(s, class, start + 1);
        let e = run_end(s, class, start + 1);
        assert forall|end: int| is_maximal_run(s, class, start, end) implies end == e by {
            if end == start {
                assert(!class.admits(s[end]));
            } else {
                assert(is_maximal_run(s, class, start + 1, end));
            }
        }
    } else {
        assert forall|end: int| is_maximal_run(s, class, start, end) implies end == start by {
            if end > start {
                assert(class.admits(s[start]));
            }
        }
    }
}

} // verus!
