//! What holds of every input: each scan step moves forward, the end of the
//! input is reached and then kept, and the white space between two tokens
//! does not matter.

use vstd::prelude::*;
use crate::classes::{is_maximal_run, is_whitespace, lemma_run_end_is_maximal, run_end, Class};
use crate::grammar::scan;
use crate::scanner::byte_at;
use crate::lemmas::{agree, lemma_scan_local, lemma_scan_shift, lemma_token_advances, shifted};
use crate::token::{LexError, TokenView};

verus! {

/// Whether the scan step from `pos` finds the input used up.
pub open spec fn yields_eof(s: Seq<u8>, pos: int) -> bool {
    scan(s, pos).outcome == Ok::<TokenView, LexError>(TokenView::Eof)
}

/// The position that `steps` scan steps reach from `pos`.
pub open spec fn position_after(s: Seq<u8>, pos: int, steps: nat) -> int
    decreases steps,
{
    if steps == 0 {
        pos
    } else {
        position_after(s, scan(s, pos).end, (steps - 1) as nat)
    }
}

/// The outcomes of the scan steps from `pos` on, up to the first `Eof` and
/// with it.
pub open spec fn outcomes_from(s: Seq<u8>, pos: int) -> Seq<Result<TokenView, LexError>>
    decreases s.len() - pos,
    when 0 <= pos <= s.len()
{
    if yields_eof(s, pos) {
        seq![scan(s, pos).outcome]
    } else {
        proof {
            lemma_scan_advances(s, pos);
        }
        seq![scan(s, pos).outcome] + outcomes_from(s, scan(s, pos).end)
    }
}

/// Every scan step stays within the input, and every step but the one that
/// finds the input used up consumes at least one byte: a token or an error
/// never comes without the cursor moving forward.
pub proof fn lemma_scan_advances(s: Seq<u8>, pos: int)
    requires
        0 <= pos <= s.len(),
    ensures
        pos <= scan(s, pos).end <= s.len(),
        !yields_eof(s, pos) ==> pos < scan(s, pos).end,
        yields_eof(s, pos) ==> scan(s, pos).end == s.len(),
{
    lemma_run_end_is_maximal(s, Class::Whitespace, pos);
    let start = run_end(s, Class::Whitespace, pos);
    if start < s.len() {
        lemma_token_advances(s, start);
    }
}

/// A scan step yields `Eof` where nothing but white space is left, and only
/// there: no token is `Eof`.
pub proof fn lemma_eof_only_at_end(s: Seq<u8>, pos: int)
    requires
        0 <= pos <= s.len(),
    ensures
        yields_eof(s, pos) <==> run_end(s, Class::Whitespace, pos) == s.len(),
{
    lemma_run_end_is_maximal(s, Class::Whitespace, pos);
}

/// No number of scan steps moves the cursor back or out of the input.
pub proof fn lemma_position_after_bounds(s: Seq<u8>, pos: int, steps: nat)
    requires
        0 <= pos <= s.len(),
    ensures
        pos <= position_after(s, pos, steps) <= s.len(),
    decreases steps,
{
    if steps > 0 {
        lemma_scan_advances(s, pos);
        lemma_position_after_bounds(s, scan(s, pos).end, (steps - 1) as nat);
    }
}

/// Termination: from any position, finitely many scan steps reach the end of
/// the input. The lemma returns how many steps come before the first one that
/// yields `Eof`; they are no more than the bytes that are left.
pub proof fn lemma_scan_reaches_eof(s: Seq<u8>, pos: int) -> (steps: nat)
    requires
        0 <= pos <= s.len(),
    ensures
        steps <= s.len() - pos,
        yields_eof(s, position_after(s, pos, steps)),
        forall|earlier: nat| earlier < steps ==> !yields_eof(s, position_after(s, pos, earlier)),
    decreases s.len() - pos,
{
    lemma_scan_advances(s, pos);
    if yields_eof(s, pos) {
        0
    } else {
        let next = scan(s, pos).end;
        let rest = lemma_scan_reaches_eof(s, next);
        let steps = rest + 1;
        assert(position_after(s, pos, steps) == position_after(s, next, rest));
        assert forall|earlier: nat| earlier < steps implies !yields_eof(
            s,
            position_after(s, pos, earlier),
        ) by {
            if earlier > 0 {
                assert(position_after(s, pos, earlier) == position_after(
                    s,
                    next,
                    (earlier - 1) as nat,
                ));
            }
        }
        steps
    }
}

/// The outcomes of an input are finitely many: at most one more than the bytes
/// that are left. The last of them is `Eof`, and none before it is.
pub proof fn lemma_outcomes_end_with_eof(s: Seq<u8>, pos: int)
    requires
        0 <= pos <= s.len(),
    ensures
        0 < outcomes_from(s, pos).len() <= s.len() - pos + 1,
        outcomes_from(s, pos).last() == Ok::<TokenView, LexError>(TokenView::Eof),
        forall|i: int|
            0 <= i < outcomes_from(s, pos).len() - 1 ==> outcomes_from(s, pos)[i] != Ok::<
                TokenView,
                LexError,
            >(TokenView::Eof),
    decreases s.len() - pos,
{
    lemma_scan_advances(s, pos);
    if !yields_eof(s, pos) {
        lemma_outcomes_end_with_eof(s, scan(s, pos).end);
    }
}

/// The end of the input is a terminal state: once a scan step has yielded
/// `Eof`, every further step yields `Eof` again, never an error, and the
/// cursor rests at the end of the input.
pub proof fn lemma_eof_is_terminal(s: Seq<u8>, pos: int, steps: nat)
    requires
        0 <= pos <= s.len(),
        yields_eof(s, pos),
    ensures
        yields_eof(s, position_after(s, pos, steps)),
        steps > 0 ==> position_after(s, pos, steps) == s.len(),
    decreases steps,
{
    lemma_scan_advances(s, pos);
    if steps > 0 {
        let end = scan(s, pos).end;
        assert(run_end(s, Class::Whitespace, end) == end);
        assert(yields_eof(s, end));
        lemma_eof_is_terminal(s, end, (steps - 1) as nat);
        if steps > 1 {
            assert(position_after(s, end, (steps - 1) as nat) == s.len());
        }
    }
}

/// White space before a token does not matter: a scan step that begins
/// anywhere in a run of white space yields what the step from the end of the
/// run yields.
pub proof fn lemma_scan_skips_whitespace(s: Seq<u8>, pos: int, mid: int)
    requires
        0 <= pos <= mid <= s.len(),
        forall|i: int| pos <= i < mid ==> is_whitespace(#[trigger] s[i]),
    ensures
        scan(s, pos) == scan(s, mid),
        outcomes_from(s, pos) == outcomes_from(s, mid),
    decreases mid - pos,
{
    if pos < mid {
        assert(is_whitespace(s[pos]));
        lemma_scan_skips_whitespace(s, pos + 1, mid);
    }
}

/// The outcomes from a position on depend on nothing before it.
pub proof fn lemma_outcomes_shift(s1: Seq<u8>, s2: Seq<u8>, pos: int, from: int, by: int)
    requires
        shifted(s1, s2, from, by),
        from <= pos <= s1.len(),
    ensures
        outcomes_from(s2, pos + by) == outcomes_from(s1, pos),
    decreases s1.len() - pos,
{
    lemma_scan_shift(s1, s2, pos, from, by);
    lemma_scan_advances(s1, pos);
    if !yields_eof(s1, pos) {
        lemma_outcomes_shift(s1, s2, scan(s1, pos).end, from, by);
    }
}

/// The white space at the cursor does not matter: of two inputs that differ
/// only in the run of white space that begins where `u` ends, be the runs
/// long, short or empty, of one kind or mixed, the scan step from there
/// yields the same, ends at the same place of `v`, and all later steps yield
/// the same. Where `v` is empty or begins with a byte other than white space,
/// the white space that is passed over is that run, and behind it both inputs
/// hold the same current byte and the same text `v`.
pub proof fn lemma_whitespace_run_does_not_matter(
    u: Seq<u8>,
    w1: Seq<u8>,
    w2: Seq<u8>,
    v: Seq<u8>,
)
    requires
        forall|i: int| 0 <= i < w1.len() ==> is_whitespace(#[trigger] w1[i]),
        forall|i: int| 0 <= i < w2.len() ==> is_whitespace(#[trigger] w2[i]),
    ensures
        scan(u + w1 + v, u.len() as int).outcome == scan(u + w2 + v, u.len() as int).outcome,
        scan(u + w1 + v, u.len() as int).end - w1.len() == scan(u + w2 + v, u.len() as int).end
            - w2.len(),
        outcomes_from(u + w1 + v, u.len() as int) == outcomes_from(u + w2 + v, u.len() as int),
        v.len() == 0 || !is_whitespace(v[0]) ==> {
            &&& run_end(u + w1 + v, Class::Whitespace, u.len() as int) == u.len() + w1.len()
            &&& run_end(u + w2 + v, Class::Whitespace, u.len() as int) == u.len() + w2.len()
            &&& (u + w1 + v).skip((u.len() + w1.len()) as int) == v
            &&& (u + w2 + v).skip((u.len() + w2.len()) as int) == v
            &&& byte_at(u + w1 + v, (u.len() + w1.len()) as int) == byte_at(v, 0)
            &&& byte_at(u + w2 + v, (u.len() + w2.len()) as int) == byte_at(v, 0)
        },
{
    let s1 = u + w1 + v;
    let s2 = u + w2 + v;
    let start = u.len() as int;
    let resume1 = start + w1.len();
    let resume2 = start + w2.len();
    let by = w2.len() - w1.len();
    assert forall|i: int| start <= i < resume1 implies is_whitespace(#[trigger] s1[i]) by {
        assert(s1[i] == w1[i - start]);
    }
    assert forall|i: int| start <= i < resume2 implies is_whitespace(#[trigger] s2[i]) by {
        assert(s2[i] == w2[i - start]);
    }
    lemma_scan_skips_whitespace(s1, start, resume1);
    lemma_scan_skips_whitespace(s2, start, resume2);
    assert forall|i: int| resume1 <= i < s1.len() implies #[trigger] s1[i] == s2[i + by] by {
        assert(s1[i] == v[i - resume1]);
        assert(s2[i + by] == v[i + by - resume2]);
    }
    lemma_scan_shift(s1, s2, resume1, resume1, by);
    lemma_outcomes_shift(s1, s2, resume1, resume1, by);
    if v.len() == 0 || !is_whitespace(v[0]) {
        if v.len() > 0 {
            assert(s1[resume1] == v[0]);
            assert(s2[resume2] == v[0]);
        }
        lemma_run_end_is_maximal(s1, Class::Whitespace, start);
        lemma_run_end_is_maximal(s2, Class::Whitespace, start);
        assert(is_maximal_run(s1, Class::Whitespace, start, resume1));
        assert(is_maximal_run(s2, Class::Whitespace, start, resume2));
        assert(s1.skip(resume1) =~= v);
        assert(s2.skip(resume2) =~= v);
    }
}

/// Two inputs that hold the same bytes up to `limit` and white space there
/// have the same outcomes from `pos` on, if a token of the first ends at
/// `limit` and both have the same outcomes from there on.
proof fn lemma_outcomes_up_to_boundary(s1: Seq<u8>, s2: Seq<u8>, pos: int, limit: int, steps: nat)
    requires
        0 <= pos <= limit,
        limit < s1.len(),
        limit < s2.len(),
        agree(s1, s2, pos, limit),
        is_whitespace(s1[limit]),
        is_whitespace(s2[limit]),
        position_after(s1, pos, steps) == limit,
        outcomes_from(s1, limit) == outcomes_from(s2, limit),
    ensures
        outcomes_from(s1, pos) == outcomes_from(s2, pos),
    decreases steps,
{
    if steps > 0 {
        let end = scan(s1, pos).end;
        lemma_scan_advances(s1, pos);
        lemma_position_after_bounds(s1, end, (steps - 1) as nat);
        lemma_scan_local(s1, s2, pos, limit);
        lemma_outcomes_up_to_boundary(s1, s2, end, limit, (steps - 1) as nat);
    }
}

/// White space between tokens does not matter: where a token ends and white
/// space follows, the outcomes of the whole input are the same whatever that
/// white space is, be it one byte or many, of one kind or mixed.
///
/// Here `a` is the input up to the end of a token, which `steps` scan steps
/// reach, `w1` and `w2` are two runs of white space, neither of them empty,
/// and `b` is the rest of the input.
pub proof fn lemma_whitespace_between_tokens(
    a: Seq<u8>,
    w1: Seq<u8>,
    w2: Seq<u8>,
    b: Seq<u8>,
    steps: nat,
)
    requires
        w1.len() > 0,
        w2.len() > 0,
        forall|i: int| 0 <= i < w1.len() ==> is_whitespace(#[trigger] w1[i]),
        forall|i: int| 0 <= i < w2.len() ==> is_whitespace(#[trigger] w2[i]),
        position_after(a + w1 + b, 0, steps) == a.len(),
    ensures
        outcomes_from(a + w1 + b, 0) == outcomes_from(a + w2 + b, 0),
{
    let s1 = a + w1 + b;
    let s2 = a + w2 + b;
    let limit = a.len() as int;
    let resume1 = limit + w1.len();
    let resume2 = limit + w2.len();
    assert(is_whitespace(s1[limit])) by {
        assert(s1[limit] == w1[0]);
    }
    assert(is_whitespace(s2[limit])) by {
        assert(s2[limit] == w2[0]);
    }
    assert(agree(s1, s2, 0, limit));
    assert(outcomes_from(s1, limit) == outcomes_from(s1, resume1)) by {
        assert forall|i: int| limit <= i < resume1 implies is_whitespace(#[trigger] s1[i]) by {
            assert(s1[i] == w1[i - limit]);
        }
        lemma_scan_skips_whitespace(s1, limit, resume1);
    }
    assert(outcomes_from(s2, limit) == outcomes_from(s2, resume2)) by {
        assert forall|i: int| limit <= i < resume2 implies is_whitespace(#[trigger] s2[i]) by {
            assert(s2[i] == w2[i - limit]);
        }
        lemma_scan_skips_whitespace(s2, limit, resume2);
    }
    assert(outcomes_from(s2, resume2) == outcomes_from(s1, resume1)) by {
        let by = w2.len() - w1.len();
        assert forall|i: int| resume1 <= i < s1.len() implies #[trigger] s1[i] == s2[i + by] by {
            assert(s1[i] == b[i - resume1]);
            assert(s2[i + by] == b[i + by - resume2]);
        }
        lemma_outcomes_shift(s1, s2, resume1, resume1, by);
    }
    lemma_outcomes_up_to_boundary(s1, s2, 0, limit, steps);
}

} // verus!
