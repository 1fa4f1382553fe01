//! Text from bytes.
//!
//! The scanner reads bytes and hands out text. It reads each byte as the
//! character with the same code point, so ASCII input comes out as it went in.
//! It does not decode multi-byte UTF-8 sequences: each of their bytes is a
//! character of its own.

use vstd::prelude::*;
use vstd::utf8::{encode_utf8, is_ascii_chars, is_ascii_chars_encode_utf8};

verus! {

/// The text that a run of bytes spells: each byte read as the character with
/// the same code point.
pub open spec fn text(bytes: Seq<u8>) -> Seq<char> {
    Seq::new(bytes.len(), |i: int| bytes[i] as char)
}

/// Not proved here: `String::push` appends the given character to the end of
/// the string and leaves the characters before it as they were.
pub assume_specification[ String::push ](string: &mut String, ch: char)
    ensures
        final(string)@ == old(string)@.push(ch),
;

/// Appending a byte to a run appends its character to the text.
pub proof fn lemma_text_push(bytes: Seq<u8>, b: u8)
    ensures
        text(bytes.push(b)) == text(bytes).push(b as char),
{
    assert(text(bytes.push(b)) =~= text(bytes).push(b as char));
}

/// ASCII text comes out as it went in: the text of any range of the UTF-8
/// bytes of `chars` is that range of `chars`.
pub proof fn lemma_ascii_text(chars: Seq<char>, from: int, to: int)
    requires
        is_ascii_chars(chars),
        0 <= from <= to <= chars.len(),
    ensures
        encode_utf8(chars).len() == chars.len(),
        text(encode_utf8(chars).subrange(from, to)) == chars.subrange(from, to),
{
    is_ascii_chars_encode_utf8(chars);
    let bytes = encode_utf8(chars);
    assert forall|i: int| from <= i < to implies bytes[i] as char == chars[i] by {
        assert(chars[i] as u8 == bytes[i]);
        assert('\0' <= chars[i] <= '\u{7f}');
    }
    assert(text(bytes.subrange(from, to)) =~= chars.subrange(from, to));
}

/// The text of `bytes[from..to]`.
pub(crate) fn spell(bytes: &Vec<u8>, from: usize, to: usize) -> (spelled: String)
    requires
        from <= to <= bytes.len(),
    ensures
        spelled@ == text(bytes@.subrange(from as int, to as int)),
{
    let mut spelled = String::new();
    let mut i: usize = from;
    while i < to
        invariant
            from <= i <= to <= bytes.len(),
            spelled@ == text(bytes@.subrange(from as int, i as int)),
        decreases to - i,
    {
        proof {
            lemma_text_push(bytes@.subrange(from as int, i as int), bytes@[i as int]);
            assert(bytes@.subrange(from as int, i + 1) == bytes@.subrange(
                from as int,
                i as int,
            ).push(bytes@[i as int]));
        }
        spelled.push(bytes[i] as char);
        i += 1;
    }
    spelled
}

} // verus!
