//! On which bytes a scan step depends: on those from the cursor to the end of
//! the token and on the one behind it, and on nothing before the cursor.

use vstd::prelude::*;
use crate::classes::{
    is_digit, is_identifier_start, is_maximal_run, is_whitespace, lemma_run_end_is_maximal, run_end,
    Class,
};
use crate::grammar::{
    dot_count, pair_operator, scan, scan_identifier, scan_number, scan_string, scan_symbol,
    scan_token, string_tail, Scan, StringState, StringTail,
};

verus! {

/// `s1` and `s2` hold the same bytes at the indices from `from` up to `to`.
pub open spec fn agree(s1: Seq<u8>, s2: Seq<u8>, from: int, to: int) -> bool {
    &&& to <= s1.len()
    &&& to <= s2.len()
    &&& forall|i: int| from <= i < to ==> s1[i] == s2[i]
}

/// From index `from` on, `s1` holds what `s2` holds `by` places further on,
/// and both end together.
pub open spec fn shifted(s1: Seq<u8>, s2: Seq<u8>, from: int, by: int) -> bool {
    &&& 0 <= from
    &&& 0 <= from + by
    &&& s2.len() == s1.len() + by
    &&& forall|i: int| from <= i < s1.len() ==> #[trigger] s1[i] == s2[i + by]
}

/// `tail` with its end moved by `by`.
pub open spec fn moved(tail: Option<StringTail>, by: int) -> Option<StringTail> {
    match tail {
        Some(t) => Some(StringTail { decoded: t.decoded, end: t.end + by }),
        None => None,
    }
}

/// A string literal that is closed ends behind the place where its body was
/// entered, and within the input.
pub proof fn lemma_string_tail_bounds(s: Seq<u8>, i: int, state: StringState)
    requires
        0 <= i,
    ensures
        string_tail(s, i, state) is Some ==> i < string_tail(s, i, state)->0.end <= s.len(),
    decreases s.len() - i,
{
    if i < s.len() {
        lemma_string_tail_bounds(s, i + 1, StringState::Normal);
        lemma_string_tail_bounds(s, i + 1, StringState::Escape);
    }
}

/// What a scan step consumes at a byte other than white space, a token or a
/// literal that cannot be formed, is not empty and lies within the input.
pub proof fn lemma_token_advances(s: Seq<u8>, start: int)
    requires
        0 <= start < s.len(),
    ensures
        start < scan_token(s, start).end <= s.len(),
{
    lemma_run_end_is_maximal(s, Class::NumberPart, start);
    lemma_run_end_is_maximal(s, Class::IdentifierPart, start);
    lemma_string_tail_bounds(s, start + 1, StringState::Normal);
    assert(Class::NumberPart.admits(s[start]) ==> run_end(s, Class::NumberPart, start) > start);
    assert(Class::IdentifierPart.admits(s[start]) ==> run_end(s, Class::IdentifierPart, start)
        > start);
}

/// A run ends at the same place in two inputs that agree on the run and both
/// hold a byte outside the class behind it.
pub proof fn lemma_run_end_local(s1: Seq<u8>, s2: Seq<u8>, class: Class, start: int)
    requires
        0 <= start <= s1.len(),
        agree(s1, s2, start, run_end(s1, class, start)),
        run_end(s1, class, start) < s2.len() ==> !class.admits(s2[run_end(s1, class, start)]),
    ensures
        run_end(s2, class, start) == run_end(s1, class, start),
{
    let end = run_end(s1, class, start);
    lemma_run_end_is_maximal(s1, class, start);
    assert(is_maximal_run(s2, class, start, end)) by {
        assert forall|i: int| start <= i < end implies class.admits(#[trigger] s2[i]) by {
            assert(class.admits(s1[i]));
        }
    }
    lemma_run_end_is_maximal(s2, class, start);
}

/// The dots of a range are counted from its bytes alone.
pub proof fn lemma_dot_count_local(s1: Seq<u8>, s2: Seq<u8>, from: int, to: int)
    requires
        0 <= from,
        agree(s1, s2, from, to),
    ensures
        dot_count(s2, from, to) == dot_count(s1, from, to),
    decreases to - from,
{
    if from < to {
        lemma_dot_count_local(s1, s2, from, to - 1);
    }
}

/// A closed string literal is read from its own bytes alone.
pub proof fn lemma_string_tail_local(s1: Seq<u8>, s2: Seq<u8>, i: int, state: StringState)
    requires
        0 <= i,
        string_tail(s1, i, state) is Some,
        agree(s1, s2, i, string_tail(s1, i, state)->0.end),
    ensures
        string_tail(s2, i, state) == string_tail(s1, i, state),
    decreases s1.len() - i,
{
    lemma_string_tail_bounds(s1, i, state);
    assert(s1[i] == s2[i]);
    if state == StringState::Escape {
        lemma_string_tail_local(s1, s2, i + 1, StringState::Normal);
    } else if s1[i] == '"' as u8 {
    } else if s1[i] == '\\' as u8 {
        lemma_string_tail_local(s1, s2, i + 1, StringState::Escape);
    } else {
        lemma_string_tail_local(s1, s2, i + 1, StringState::Normal);
    }
}

/// A scan step that ends at or before a byte of white space yields the same
/// in every input that holds the same bytes up to there and white space there.
pub proof fn lemma_scan_local(s1: Seq<u8>, s2: Seq<u8>, pos: int, limit: int)
    requires
        0 <= pos <= limit,
        limit < s1.len(),
        limit < s2.len(),
        agree(s1, s2, pos, limit),
        is_whitespace(s1[limit]),
        is_whitespace(s2[limit]),
        scan(s1, pos).end <= limit,
    ensures
        scan(s2, pos) == scan(s1, pos),
{
    let start = run_end(s1, Class::Whitespace, pos);
    lemma_run_end_is_maximal(s1, Class::Whitespace, pos);
    assert(start < s1.len());
    lemma_token_advances(s1, start);
    let end = scan_token(s1, start).end;
    assert(s2[start] == s1[start]);
    lemma_run_end_local(s1, s2, Class::Whitespace, pos);
    let c = s1[start];
    if is_digit(c) {
        let body_end = run_end(s1, Class::NumberPart, start);
        lemma_run_end_is_maximal(s1, Class::NumberPart, start);
        if body_end < limit {
            assert(s2[body_end] == s1[body_end]);
        }
        lemma_run_end_local(s1, s2, Class::NumberPart, start);
        lemma_dot_count_local(s1, s2, start, body_end);
        assert(s2.subrange(start, end) =~= s1.subrange(start, end));
        assert(scan_number(s2, start) == scan_number(s1, start));
    } else if is_identifier_start(c) {
        let run = run_end(s1, Class::IdentifierPart, start);
        lemma_run_end_is_maximal(s1, Class::IdentifierPart, start);
        if run < limit {
            assert(s2[run] == s1[run]);
        }
        lemma_run_end_local(s1, s2, Class::IdentifierPart, start);
        assert(s2.subrange(start, end) =~= s1.subrange(start, end));
        assert(scan_identifier(s2, start) == scan_identifier(s1, start));
    } else if c == '"' as u8 {
        lemma_string_tail_local(s1, s2, start + 1, StringState::Normal);
        assert(scan_string(s2, start) == scan_string(s1, start));
    } else {
        if start + 1 < limit {
            assert(s2[start + 1] == s1[start + 1]);
        } else {
            assert(pair_operator(c, s2[start + 1]) is None);
            assert(pair_operator(c, s1[start + 1]) is None);
        }
        assert(scan_symbol(s2, start) == scan_symbol(s1, start));
    }
}

/// A run moves with the input.
pub proof fn lemma_run_end_shift(
    s1: Seq<u8>,
    s2: Seq<u8>,
    class: Class,
    start: int,
    from: int,
    by: int,
)
    requires
        shifted(s1, s2, from, by),
        from <= start <= s1.len(),
    ensures
        run_end(s2, class, start + by) == run_end(s1, class, start) + by,
    decreases s1.len() - start,
{
    if start < s1.len() {
        assert(s1[start] == s2[start + by]);
        if class.admits(s1[start]) {
            lemma_run_end_shift(s1, s2, class, start + 1, from, by);
        }
    }
}

/// The count of dots moves with the input.
pub proof fn lemma_dot_count_shift(
    s1: Seq<u8>,
    s2: Seq<u8>,
    a: int,
    b: int,
    from: int,
    by: int,
)
    requires
        shifted(s1, s2, from, by),
        from <= a,
        b <= s1.len(),
    ensures
        dot_count(s2, a + by, b + by) == dot_count(s1, a, b),
    decreases b - a,
{
    if a < b {
        lemma_dot_count_shift(s1, s2, a, b - 1, from, by);
        assert(s1[b - 1] == s2[b - 1 + by]);
    }
}

/// A string literal moves with the input.
pub proof fn lemma_string_tail_shift(
    s1: Seq<u8>,
    s2: Seq<u8>,
    i: int,
    state: StringState,
    from: int,
    by: int,
)
    requires
        shifted(s1, s2, from, by),
        from <= i,
    ensures
        string_tail(s2, i + by, state) == moved(string_tail(s1, i, state), by),
    decreases s1.len() - i,
{
    if i < s1.len() {
        assert(s1[i] == s2[i + by]);
        lemma_string_tail_shift(s1, s2, i + 1, StringState::Normal, from, by);
        lemma_string_tail_shift(s1, s2, i + 1, StringState::Escape, from, by);
    }
}

/// A scan step moves with the input: it depends on nothing before the cursor.
pub proof fn lemma_scan_shift(s1: Seq<u8>, s2: Seq<u8>, pos: int, from: int, by: int)
    requires
        shifted(s1, s2, from, by),
        from <= pos <= s1.len(),
    ensures
        scan(s2, pos + by) == (Scan { outcome: scan(s1, pos).outcome, end: scan(s1, pos).end + by }),
{
    let start = run_end(s1, Class::Whitespace, pos);
    lemma_run_end_is_maximal(s1, Class::Whitespace, pos);
    lemma_run_end_shift(s1, s2, Class::Whitespace, pos, from, by);
    if start < s1.len() {
        lemma_token_advances(s1, start);
        let end = scan_token(s1, start).end;
        assert(s1[start] == s2[start + by]);
        lemma_run_end_is_maximal(s1, Class::NumberPart, start);
        lemma_run_end_shift(s1, s2, Class::NumberPart, start, from, by);
        lemma_run_end_shift(s1, s2, Class::IdentifierPart, start, from, by);
        lemma_dot_count_shift(s1, s2, start, run_end(s1, Class::NumberPart, start), from, by);
        lemma_string_tail_shift(s1, s2, start + 1, StringState::Normal, from, by);
        assert(s2.subrange(start + by, end + by) =~= s1.subrange(start, end)) by {
            assert forall|k: int| 0 <= k < end - start implies s2.subrange(start + by, end + by)[k]
                == s1.subrange(start, end)[k] by {
                assert(s1[start + k] == s2[start + k + by]);
            }
        }
        let body_end = run_end(s1, Class::NumberPart, start);
        if body_end < s1.len() {
            assert(s1[body_end] == s2[body_end + by]);
        }
        if start + 1 < s1.len() {
            assert(s1[start + 1] == s2[start + 1 + by]);
        }
    }
}

} // verus!
