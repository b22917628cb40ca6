//! Feeding the plan parser its input in chunks gives what feeding it the
//! whole text at once gives, when the text holds no echo of the policy line.
//!
//! The argument: the markup pass holds back a tail long enough to hold any
//! wrapper that may continue in the next chunk, so running it on a prefix and
//! then on the held tail plus what follows is running it on the whole.

use vstd::prelude::*;
use crate::plan_stream::{
    PlanParserState, PlanTag, ParseMode, alt_close, alt_open, consume_spec, extract_spec, filter_policy,
    finish_spec, initial_state, lemma_markup_close, lemma_markup_open, lemma_markup_rest_normal,
    lemma_markup_rest_plan, lemma_tag_lens, markup, next_open_tag, normal_keep, plan_keep,
    proposed_close, proposed_open,
};
use crate::text::{
    byte_len, char_width, contains_seq, first_occurrence, holdback, join, lemma_byte_len_append,
    lemma_byte_len_push, lemma_first_occurrence, lemma_holdback_bound, lemma_join_split, occurs_at,
};

verus! {

// ---------------------------------------------------------------------------
// Wrappers
// ---------------------------------------------------------------------------

/// Starts with `<`, has no other `<`, and is ASCII throughout.
pub open spec fn tag_like(t: Seq<char>) -> bool {
    &&& t.len() > 0
    &&& t[0] == '<'
    &&& forall|k: int| 0 < k < t.len() ==> #[trigger] t[k] != '<'
    &&& forall|k: int| 0 <= k < t.len() ==> (#[trigger] t[k] as u32) < 128
}

proof fn lemma_wrappers_tag_like()
    ensures
        tag_like(proposed_open()),
        tag_like(alt_open()),
        tag_like(proposed_close()),
        tag_like(alt_close()),
{
    let a = proposed_open();
    assert forall|k: int| 0 < k < a.len() implies #[trigger] a[k] != '<' by {}
    assert forall|k: int| 0 <= k < a.len() implies (#[trigger] a[k] as u32) < 128 by {}
    let b = alt_open();
    assert forall|k: int| 0 < k < b.len() implies #[trigger] b[k] != '<' by {}
    assert forall|k: int| 0 <= k < b.len() implies (#[trigger] b[k] as u32) < 128 by {}
    let c = proposed_close();
    assert forall|k: int| 0 < k < c.len() implies #[trigger] c[k] != '<' by {}
    assert forall|k: int| 0 <= k < c.len() implies (#[trigger] c[k] as u32) < 128 by {}
    let d = alt_close();
    assert forall|k: int| 0 < k < d.len() implies #[trigger] d[k] != '<' by {}
    assert forall|k: int| 0 <= k < d.len() implies (#[trigger] d[k] as u32) < 128 by {}
}

/// Two occurrences of wrappers never overlap.
proof fn lemma_no_overlap(s: Seq<char>, a: Seq<char>, b: Seq<char>, i: int, j: int)
    requires
        tag_like(a),
        tag_like(b),
        occurs_at(s, a, i),
        occurs_at(s, b, j),
        i < j,
    ensures
        i + a.len() <= j,
{
    if j < i + a.len() {
        assert(s.subrange(j, j + b.len())[0] == b[0]);
        assert(s.subrange(i, i + a.len())[j - i] == a[j - i]);
        assert(a[j - i] != '<');
    }
}

/// ASCII text takes one byte per character.
proof fn lemma_ascii_byte_len(s: Seq<char>)
    requires
        forall|k: int| 0 <= k < s.len() ==> (#[trigger] s[k] as u32) < 128,
    ensures
        byte_len(s) == s.len(),
    decreases s.len(),
{
    if s.len() > 0 {
        assert(char_width(s[0]) == 1);
        assert forall|k: int| 0 <= k < s.drop_first().len() implies (#[trigger] s.drop_first()[k] as u32) < 128 by {
            assert(s.drop_first()[k] == s[k + 1]);
        }
        lemma_ascii_byte_len(s.drop_first());
    }
}

// ---------------------------------------------------------------------------
// First occurrences
// ---------------------------------------------------------------------------

proof fn lemma_min_occurrence(s: Seq<char>, p: Seq<char>, i: int)
    requires
        occurs_at(s, p, i),
    ensures
        exists|m: int| occurs_at(s, p, m) && forall|j: int| 0 <= j < m ==> !occurs_at(s, p, j),
    decreases i,
{
    if exists|j: int| 0 <= j < i && occurs_at(s, p, j) {
        let j = choose|j: int| 0 <= j < i && occurs_at(s, p, j);
        lemma_min_occurrence(s, p, j);
    } else {
        assert(occurs_at(s, p, i) && forall|j: int| 0 <= j < i ==> !occurs_at(s, p, j));
    }
}

proof fn lemma_first_occurrence_props(s: Seq<char>, p: Seq<char>)
    ensures
        first_occurrence(s, p) matches Some(i) ==> occurs_at(s, p, i) && forall|j: int|
            0 <= j < i ==> !occurs_at(s, p, j),
        first_occurrence(s, p) is None <==> !contains_seq(s, p),
{
    reveal(first_occurrence);
    if contains_seq(s, p) {
        let i = choose|i: int| occurs_at(s, p, i);
        lemma_min_occurrence(s, p, i);
    }
}

/// An occurrence in `p + q` that starts early enough lies within `p`.
proof fn lemma_occurs_in_prefix(p: Seq<char>, q: Seq<char>, t: Seq<char>, j: int)
    requires
        occurs_at(p + q, t, j),
        j + t.len() <= p.len(),
    ensures
        occurs_at(p, t, j),
{
    assert((p + q).subrange(j, j + t.len()) == p.subrange(j, j + t.len()));
}

proof fn lemma_occurs_extends(p: Seq<char>, q: Seq<char>, t: Seq<char>, j: int)
    requires
        occurs_at(p, t, j),
    ensures
        occurs_at(p + q, t, j),
{
    assert((p + q).subrange(j, j + t.len()) == p.subrange(j, j + t.len()));
}

/// A wrapper found in `p` is still the first one in `p + q`.
proof fn lemma_first_extends(p: Seq<char>, q: Seq<char>, t: Seq<char>, i: int)
    requires
        tag_like(t),
        first_occurrence(p, t) == Some(i),
    ensures
        first_occurrence(p + q, t) == Some(i),
{
    lemma_first_occurrence_props(p, t);
    lemma_occurs_extends(p, q, t, i);
    assert forall|j: int| 0 <= j < i implies !occurs_at(p + q, t, j) by {
        if occurs_at(p + q, t, j) {
            lemma_no_overlap(p + q, t, t, j, i);
            lemma_occurs_in_prefix(p, q, t, j);
        }
    }
    lemma_first_occurrence(p + q, t, i);
}

/// Where the occurrences of `t` in `a + r` all start at or after `a`, the
/// first one is the first in `r`, shifted.
proof fn lemma_first_shift(a: Seq<char>, r: Seq<char>, t: Seq<char>)
    requires
        forall|j: int| 0 <= j < a.len() ==> !occurs_at(a + r, t, j),
    ensures
        first_occurrence(a + r, t) == (match first_occurrence(r, t) {
            Some(i) => Some(i + a.len()),
            None => None,
        }),
{
    lemma_first_occurrence_props(r, t);
    lemma_first_occurrence_props(a + r, t);
    let s = a + r;
    assert forall|k: int| 0 <= k <= r.len() - t.len() implies (occurs_at(s, t, k + a.len()) <==> occurs_at(r, t, k)) by {
        assert(s.subrange(k + a.len(), k + a.len() + t.len()) == r.subrange(k, k + t.len()));
    }
    match first_occurrence(r, t) {
        Some(i) => {
            assert(occurs_at(s, t, i + a.len()));
            assert forall|j: int| 0 <= j < i + a.len() implies !occurs_at(s, t, j) by {
                if j >= a.len() && occurs_at(s, t, j) {
                    assert(occurs_at(r, t, j - a.len()));
                }
            }
            lemma_first_occurrence(s, t, i + a.len());
        },
        None => {
            if contains_seq(s, t) {
                let m = choose|m: int| occurs_at(s, t, m);
                if m >= a.len() {
                    assert(occurs_at(r, t, m - a.len()));
                }
            }
        },
    }
}

// ---------------------------------------------------------------------------
// Held-back tails
// ---------------------------------------------------------------------------

/// Unless it holds back everything, the tail held back has at least `keep`
/// bytes.
proof fn lemma_holdback_tail(p: Seq<char>, keep: nat)
    ensures
        holdback(p, keep) <= p.len(),
        holdback(p, keep) > 0 || keep == 0 ==> byte_len(p.skip(holdback(p, keep) as int)) >= keep,
    decreases p.len(),
{
    lemma_holdback_bound(p, keep);
    if p.len() == 0 || keep == 0 {
        assert(p.skip(p.len() as int).len() == 0);
    } else {
        let w = char_width(p.last());
        if w >= keep {
            assert(p.skip(p.len() - 1) == seq![p.last()]);
            assert(seq![p.last()].drop_first().len() == 0);
        } else {
            let d = p.drop_last();
            let k2 = (keep - w) as nat;
            lemma_holdback_tail(d, k2);
            let h = holdback(d, k2);
            if h > 0 {
                assert(p.skip(h as int) == d.skip(h as int).push(p.last()));
                lemma_byte_len_push(d.skip(h as int), p.last());
            }
        }
    }
}

/// With at least `keep` bytes after it, a prefix is released whole.
proof fn lemma_holdback_concat(a: Seq<char>, r: Seq<char>, keep: nat)
    requires
        byte_len(r) >= keep,
    ensures
        holdback(a + r, keep) == a.len() + holdback(r, keep),
    decreases r.len(),
{
    if keep == 0 {
    } else if r.len() == 0 {
    } else {
        let s = a + r;
        assert(s.last() == r.last());
        let w = char_width(r.last());
        if w < keep {
            assert(s.drop_last() == a + r.drop_last());
            assert(r == r.drop_last().push(r.last()));
            lemma_byte_len_push(r.drop_last(), r.last());
            lemma_holdback_concat(a, r.drop_last(), (keep - w) as nat);
        }
    }
}

/// A wrapper of at most `keep + 1` characters that does not occur in
/// `p' + t` cannot start in `p'` and run on past `t` when `t` has at least
/// `keep` bytes.
proof fn lemma_no_straddle(pre: Seq<char>, t: Seq<char>, q: Seq<char>, w: Seq<char>, keep: nat, j: int)
    requires
        tag_like(w),
        w.len() <= keep + 1,
        byte_len(t) >= keep,
        !contains_seq(pre + t, w),
        0 <= j < pre.len(),
    ensures
        !occurs_at(pre + t + q, w, j),
{
    let s = pre + t + q;
    let p = pre + t;
    if occurs_at(s, w, j) {
        if j + w.len() <= p.len() {
            assert(s == p + q);
            lemma_occurs_in_prefix(p, q, w, j);
        } else {
            let ts = s.subrange(pre.len() as int, p.len() as int);
            assert(ts == t);
            assert forall|k: int| 0 <= k < t.len() implies (#[trigger] t[k] as u32) < 128 by {
                assert(t[k] == s[pre.len() + k]);
                assert(s[pre.len() + k] == s.subrange(j, j + w.len())[pre.len() + k - j]);
                assert(w[pre.len() + k - j] == s[pre.len() + k]);
            }
            lemma_ascii_byte_len(t);
        }
    }
}

// ---------------------------------------------------------------------------
// The markup pass on a prefix, then on the rest
// ---------------------------------------------------------------------------

proof fn lemma_next_open_none(p: Seq<char>)
    requires
        next_open_tag(p) is None,
    ensures
        !contains_seq(p, proposed_open()),
        !contains_seq(p, alt_open()),
{
    reveal(next_open_tag);
    lemma_first_occurrence_props(p, proposed_open());
    lemma_first_occurrence_props(p, alt_open());
}

proof fn lemma_next_open_some(p: Seq<char>, i: int, tag: PlanTag)
    requires
        next_open_tag(p) == Some((i, tag)),
    ensures
        occurs_at(p, tag.open_seq(), i),
        0 <= i,
        i + tag.open_seq().len() <= p.len(),
{
    reveal(next_open_tag);
    lemma_first_occurrence_props(p, proposed_open());
    lemma_first_occurrence_props(p, alt_open());
}

/// An opening wrapper found in `p` is still the first one in `p + q`.
proof fn lemma_next_open_extends(p: Seq<char>, q: Seq<char>, i: int, tag: PlanTag)
    requires
        next_open_tag(p) == Some((i, tag)),
    ensures
        next_open_tag(p + q) == Some((i, tag)),
{
    reveal(next_open_tag);
    lemma_wrappers_tag_like();
    let a = proposed_open();
    let b = alt_open();
    lemma_first_occurrence_props(p, a);
    lemma_first_occurrence_props(p, b);
    lemma_first_occurrence_props(p + q, a);
    lemma_first_occurrence_props(p + q, b);
    let own = tag.open_seq();
    let other = if tag == PlanTag::Proposed {
        b
    } else {
        a
    };
    assert(first_occurrence(p, own) == Some(i));
    lemma_first_extends(p, q, own, i);
    assert(occurs_at(p, own, i));
    lemma_occurs_extends(p, q, own, i);
    // the other wrapper does not come first in `p + q`
    match first_occurrence(p + q, other) {
        Some(j) => {
            if j < i {
                lemma_no_overlap(p + q, other, own, j, i);
                lemma_occurs_in_prefix(p, q, other, j);
                assert(contains_seq(p, other));
                let m = first_occurrence(p, other).unwrap();
                assert(m <= j);
            } else if j == i {
                assert((p + q).subrange(i, i + a.len())[2] == a[2]);
                assert((p + q).subrange(i, i + b.len())[2] == b[2]);
                assert(a[2] != b[2]);
            }
        },
        None => {},
    }
}

/// The markup pass outside a block on text whose first part holds no
/// opening wrapper: that part is visible text.
proof fn lemma_markup_normal_prefix(st: PlanParserState, a: Seq<char>, r: Seq<char>, vis: Seq<char>)
    requires
        st.mode == ParseMode::Normal,
        a.len() == 0 || byte_len(r) >= normal_keep(),
        forall|j: int| 0 <= j < a.len() ==> !occurs_at(a + r, proposed_open(), j),
        forall|j: int| 0 <= j < a.len() ==> !occurs_at(a + r, alt_open(), j),
    ensures
        markup(PlanParserState { pending: a + r, ..st }, vis) == markup(
            PlanParserState { pending: r, ..st },
            vis + a,
        ),
{
    if a.len() == 0 {
        assert(a + r == r);
        assert(vis + a == vis);
    } else {
        reveal(next_open_tag);
        lemma_first_shift(a, r, proposed_open());
        lemma_first_shift(a, r, alt_open());
        let sa = PlanParserState { pending: a + r, ..st };
        let sr = PlanParserState { pending: r, ..st };
        match next_open_tag(r) {
            Some((i, tag)) => {
                lemma_next_open_some(r, i, tag);
                assert(next_open_tag(a + r) == Some((i + a.len(), tag)));
                let n = i + tag.open_seq().len();
                lemma_markup_open(sa, vis, i + a.len(), tag);
                lemma_markup_open(sr, vis + a, i, tag);
                assert((a + r).skip(i + a.len() + tag.open_seq().len()) == r.skip(n));
                assert(vis + (a + r).take(i + a.len()) == vis + a + r.take(i));
            },
            None => {
                assert(next_open_tag(a + r) is None);
                lemma_markup_rest_normal(sa, vis);
                lemma_markup_rest_normal(sr, vis + a);
                lemma_holdback_concat(a, r, normal_keep());
                let h = holdback(r, normal_keep()) as int;
                lemma_holdback_bound(r, normal_keep());
                assert((a + r).skip(a.len() + h) == r.skip(h));
                assert(vis + (a + r).take(a.len() + h) == vis + a + r.take(h));
            },
        }
    }
}

/// The markup pass inside a block on text whose first part holds no closing
/// wrapper: that part goes to the plan.
proof fn lemma_markup_plan_prefix(
    st: PlanParserState,
    tag: PlanTag,
    a: Seq<char>,
    r: Seq<char>,
    vis: Seq<char>,
)
    requires
        st.mode == ParseMode::InPlan(tag),
        a.len() == 0 || byte_len(r) >= plan_keep(tag),
        forall|j: int| 0 <= j < a.len() ==> !occurs_at(a + r, tag.close_seq(), j),
    ensures
        markup(PlanParserState { pending: a + r, ..st }, vis) == markup(
            PlanParserState { pending: r, plan_buffer: st.plan_buffer + a, ..st },
            vis,
        ),
{
    if a.len() == 0 {
        assert(a + r == r);
        assert(st.plan_buffer + a == st.plan_buffer);
    } else {
        let c = tag.close_seq();
        lemma_first_shift(a, r, c);
        lemma_first_occurrence_props(r, c);
        let sa = PlanParserState { pending: a + r, ..st };
        let sr = PlanParserState { pending: r, plan_buffer: st.plan_buffer + a, ..st };
        match first_occurrence(r, c) {
            Some(i) => {
                lemma_markup_close(sa, vis, i + a.len(), tag);
                lemma_markup_close(sr, vis, i, tag);
                assert((a + r).skip(i + a.len() + c.len()) == r.skip(i + c.len()));
                assert(st.plan_buffer + (a + r).take(i + a.len()) == st.plan_buffer + a + r.take(i));
            },
            None => {
                lemma_markup_rest_plan(sa, vis, tag);
                lemma_markup_rest_plan(sr, vis, tag);
                lemma_holdback_concat(a, r, plan_keep(tag));
                let h = holdback(r, plan_keep(tag)) as int;
                lemma_holdback_bound(r, plan_keep(tag));
                assert((a + r).skip(a.len() + h) == r.skip(h));
                assert(st.plan_buffer + (a + r).take(a.len() + h) == st.plan_buffer + a + r.take(h));
            },
        }
    }
}

/// Running the markup pass, then running it again on what it held back
/// followed by more text, is running it on all the text at once.
pub proof fn lemma_markup_append(st: PlanParserState, q: Seq<char>, vis: Seq<char>)
    ensures
        ({
            let (s1, v1) = markup(st, vis);
            markup(PlanParserState { pending: st.pending + q, ..st }, vis) == markup(
                PlanParserState { pending: s1.pending + q, ..s1 },
                v1,
            )
        }),
    decreases st.pending.len(),
{
    lemma_wrappers_tag_like();
    let p = st.pending;
    let sq = PlanParserState { pending: p + q, ..st };
    match st.mode {
        ParseMode::Normal => match next_open_tag(p) {
            Some((i, tag)) => {
                lemma_next_open_some(p, i, tag);
                lemma_next_open_extends(p, q, i, tag);
                lemma_tag_lens(tag);
                let n = i + tag.open_seq().len();
                let sa = PlanParserState {
                    mode: ParseMode::InPlan(tag),
                    pending: p.skip(n),
                    saw_plan_block: true,
                    ..st
                };
                lemma_markup_open(st, vis, i, tag);
                lemma_markup_open(sq, vis, i, tag);
                assert((p + q).skip(n) == p.skip(n) + q);
                assert((p + q).take(i) == p.take(i));
                lemma_markup_append(sa, q, vis + p.take(i));
                assert(PlanParserState { pending: sa.pending + q, ..sa } == PlanParserState {
                    mode: ParseMode::InPlan(tag),
                    pending: (p + q).skip(n),
                    saw_plan_block: true,
                    ..sq
                });
            },
            None => {
                lemma_next_open_none(p);
                lemma_markup_rest_normal(st, vis);
                let k = holdback(p, normal_keep()) as int;
                lemma_holdback_tail(p, normal_keep());
                let a = p.take(k);
                let t = p.skip(k);
                let r = t + q;
                assert(a + t == p);
                assert(a + r == p + q);
                if k > 0 {
                    lemma_byte_len_append(t, q);
                }
                assert forall|j: int| 0 <= j < a.len() implies !occurs_at(a + r, proposed_open(), j) by {
                    lemma_no_straddle(a, t, q, proposed_open(), normal_keep(), j);
                    assert(a + t + q == a + r);
                }
                assert forall|j: int| 0 <= j < a.len() implies !occurs_at(a + r, alt_open(), j) by {
                    lemma_no_straddle(a, t, q, alt_open(), normal_keep(), j);
                    assert(a + t + q == a + r);
                }
                lemma_markup_normal_prefix(st, a, r, vis);
                assert(PlanParserState { pending: a + r, ..st } == sq);
            },
        },
        ParseMode::InPlan(tag) => {
            let c = tag.close_seq();
            lemma_first_occurrence_props(p, c);
            lemma_tag_lens(tag);
            match first_occurrence(p, c) {
                Some(i) => {
                    lemma_first_extends(p, q, c, i);
                    let n = i + c.len();
                    let sa = PlanParserState {
                        mode: ParseMode::Normal,
                        pending: p.skip(n),
                        plan_buffer: st.plan_buffer + p.take(i),
                        ..st
                    };
                    lemma_markup_close(st, vis, i, tag);
                    lemma_markup_close(sq, vis, i, tag);
                    assert((p + q).skip(n) == p.skip(n) + q);
                    assert((p + q).take(i) == p.take(i));
                    lemma_markup_append(sa, q, vis);
                    assert(PlanParserState { pending: sa.pending + q, ..sa } == PlanParserState {
                        mode: ParseMode::Normal,
                        pending: (p + q).skip(n),
                        plan_buffer: sq.plan_buffer + (p + q).take(i),
                        ..sq
                    });
                },
                None => {
                    lemma_markup_rest_plan(st, vis, tag);
                    let k = holdback(p, plan_keep(tag)) as int;
                    lemma_holdback_tail(p, plan_keep(tag));
                    let a = p.take(k);
                    let t = p.skip(k);
                    let r = t + q;
                    assert(a + t == p);
                    assert(a + r == p + q);
                    if k > 0 {
                        lemma_byte_len_append(t, q);
                    }
                    assert forall|j: int| 0 <= j < a.len() implies !occurs_at(a + r, c, j) by {
                        lemma_no_straddle(a, t, q, c, plan_keep(tag), j);
                        assert(a + t + q == a + r);
                    }
                    lemma_markup_plan_prefix(st, tag, a, r, vis);
                    assert(PlanParserState { pending: a + r, ..st } == sq);
                },
            }
        },
    }
}

/// The markup pass neither reads nor changes the policy buffer, and only
/// appends to the visible text it is given.
proof fn lemma_markup_frame(st: PlanParserState, vis: Seq<char>, x: Seq<char>)
    ensures
        markup(PlanParserState { policy_pending: x, ..st }, vis) == (
            PlanParserState { policy_pending: x, ..markup(st, seq![]).0 },
            vis + markup(st, seq![]).1,
        ),
    decreases st.pending.len(),
{
    let p = st.pending;
    let sx = PlanParserState { policy_pending: x, ..st };
    match st.mode {
        ParseMode::Normal => match next_open_tag(p) {
            Some((i, tag)) => {
                lemma_next_open_some(p, i, tag);
                lemma_tag_lens(tag);
                let n = i + tag.open_seq().len();
                let sa = PlanParserState {
                    mode: ParseMode::InPlan(tag),
                    pending: p.skip(n),
                    saw_plan_block: true,
                    ..st
                };
                lemma_markup_open(st, seq![], i, tag);
                lemma_markup_open(sx, vis, i, tag);
                lemma_markup_frame(sa, Seq::<char>::empty() + p.take(i), st.policy_pending);
                lemma_markup_frame(sa, vis + p.take(i), x);
                assert(PlanParserState { policy_pending: st.policy_pending, ..sa } == sa);
                assert(Seq::<char>::empty() + p.take(i) == p.take(i));
                assert(vis + p.take(i) + markup(sa, seq![]).1 == vis + (p.take(i) + markup(sa, seq![]).1));
            },
            None => {
                lemma_markup_rest_normal(st, seq![]);
                lemma_markup_rest_normal(sx, vis);
                let k = holdback(p, normal_keep()) as int;
                assert(Seq::<char>::empty() + p.take(k) == p.take(k));
            },
        },
        ParseMode::InPlan(tag) => {
            let c = tag.close_seq();
            lemma_first_occurrence_props(p, c);
            lemma_tag_lens(tag);
            match first_occurrence(p, c) {
                Some(i) => {
                    let n = i + c.len();
                    let sa = PlanParserState {
                        mode: ParseMode::Normal,
                        pending: p.skip(n),
                        plan_buffer: st.plan_buffer + p.take(i),
                        ..st
                    };
                    lemma_markup_close(st, seq![], i, tag);
                    lemma_markup_close(sx, vis, i, tag);
                    lemma_markup_frame(sa, seq![], st.policy_pending);
                    lemma_markup_frame(sa, vis, x);
                    assert(PlanParserState { policy_pending: st.policy_pending, ..sa } == sa);
                    assert(Seq::<char>::empty() + markup(sa, seq![]).1 == markup(sa, seq![]).1);
                },
                None => {
                    lemma_markup_rest_plan(st, seq![], tag);
                    lemma_markup_rest_plan(sx, vis, tag);
                    assert(vis == vis + Seq::<char>::empty());
                },
            }
        },
    }
}

// ---------------------------------------------------------------------------
// Streaming
// ---------------------------------------------------------------------------

/// The parser fed `chunks` one `consume` call at a time: its state, and the
/// visible text of all the calls.
pub open spec fn consume_chunks(st: PlanParserState, policy: Seq<char>, chunks: Seq<Seq<char>>) -> (
    PlanParserState,
    Seq<char>,
)
    decreases chunks.len(),
{
    if chunks.len() == 0 {
        (st, seq![])
    } else {
        let (s1, v1) = consume_chunks(st, policy, chunks.drop_last());
        let (s2, v2) = consume_spec(s1, policy, chunks.last());
        (s2, v1 + v2)
    }
}

/// A fresh parser fed `chunks` and then finished: all the visible text and
/// the plan.
pub open spec fn stream_spec(policy: Seq<char>, chunks: Seq<Seq<char>>) -> (Seq<char>, Option<Seq<char>>) {
    let (s, v) = consume_chunks(initial_state(), policy, chunks);
    let (_s2, vt, plan) = finish_spec(s, policy);
    (v + vt, plan)
}

proof fn lemma_no_policy_in_part(s: Seq<char>, p: Seq<char>, lo: int, hi: int)
    requires
        0 <= lo <= hi <= s.len(),
        !contains_seq(s, p),
    ensures
        !contains_seq(s.subrange(lo, hi), p),
{
    let sub = s.subrange(lo, hi);
    if contains_seq(sub, p) {
        let i = choose|i: int| occurs_at(sub, p, i);
        assert(s.subrange(lo + i, lo + i + p.len()) == sub.subrange(i, i + p.len()));
        assert(occurs_at(s, p, lo + i));
    }
}

proof fn lemma_filter_passes(buf: Seq<char>, flush: bool, policy: Seq<char>)
    requires
        !contains_seq(buf, policy),
    ensures
        filter_policy(buf, flush, policy, seq![]).0 + filter_policy(buf, flush, policy, seq![]).1 == buf,
        flush ==> filter_policy(buf, flush, policy, seq![]).1.len() == 0,
{
    crate::plan_stream::lemma_filter_without_policy(buf, flush, policy);
}

pub open spec fn with_input(pp: Seq<char>, pending: Seq<char>) -> PlanParserState {
    PlanParserState { policy_pending: pp, pending, ..initial_state() }
}

/// After some chunks of text without the policy line, the parser is where
/// the markup pass over all of that text but the held policy tail leaves it.
proof fn lemma_consume_chunks(policy: Seq<char>, chunks: Seq<Seq<char>>)
    requires
        !contains_seq(join(chunks), policy),
    ensures
        ({
            let (s, v) = consume_chunks(initial_state(), policy, chunks);
            let text = join(chunks);
            &&& s.policy_pending.len() <= text.len()
            &&& text == text.take(text.len() - s.policy_pending.len()) + s.policy_pending
            &&& markup(with_input(s.policy_pending, text.take(text.len() - s.policy_pending.len())), seq![])
                == (s, v)
        }),
    decreases chunks.len(),
{
    if chunks.len() == 0 {
        let text = join(chunks);
        assert(text.len() == 0);
        assert(text.take(0) == Seq::<char>::empty());
        let st = initial_state();
        assert(with_input(st.policy_pending, Seq::<char>::empty()) == st);
        crate::plan_stream::lemma_no_open_tag_empty();
        assert(st.pending =~= Seq::<char>::empty());
        lemma_markup_rest_normal(st, seq![]);
    } else {
        let d = chunks.drop_last();
        let c = chunks.last();
        lemma_join_split(chunks, d.len() as int);
        assert(chunks.take(d.len() as int) == d);
        assert(chunks.skip(d.len() as int) == seq![c]);
        assert(join(seq![c]) == c) by {
            assert(seq![c].drop_last().len() == 0);
        }
        let text = join(chunks);
        assert(text == join(d) + c);
        lemma_no_policy_in_part(text, policy, 0, join(d).len() as int);
        assert(text.subrange(0, join(d).len() as int) == join(d));
        lemma_consume_chunks(policy, d);
        let (s1, v1) = consume_chunks(initial_state(), policy, d);
        let td = join(d);
        let pp = s1.policy_pending;
        let j = td.take(td.len() - pp.len());
        // the policy filter on the held tail plus the chunk
        let buf = pp + c;
        assert(buf == text.subrange(j.len() as int, text.len() as int)) by {
            assert(td == j + pp);
            assert(text == j + pp + c);
        }
        lemma_no_policy_in_part(text, policy, j.len() as int, text.len() as int);
        lemma_filter_passes(buf, false, policy);
        let (v0, pp2) = filter_policy(buf, false, policy, seq![]);
        let (s2, v2) = consume_spec(s1, policy, c);
        // markup over everything but the new held tail
        let j2 = j + v0;
        assert(buf == v0 + pp2);
        assert(text =~= j + buf);
        assert(j + (v0 + pp2) =~= j2 + pp2);
        assert(text == j2 + pp2);
        assert(text.take(text.len() - pp2.len()) == j2);
        lemma_markup_append(with_input(pp2, j), v0, seq![]);
        lemma_markup_frame(with_input(pp, j), seq![], pp2);
        assert(PlanParserState { policy_pending: pp2, ..with_input(pp, j) } == with_input(pp2, j));
        assert(PlanParserState { pending: with_input(pp2, j).pending + v0, ..with_input(pp2, j) }
            == with_input(pp2, j2));
        lemma_markup_frame(PlanParserState { pending: s1.pending + v0, ..s1 }, v1, pp2);
        lemma_markup_frame(PlanParserState { pending: s1.pending + v0, ..s1 }, seq![], pp2);
        assert(PlanParserState { policy_pending: s1.policy_pending, ..s1 } == s1);
        assert(Seq::<char>::empty() + markup(PlanParserState { pending: s1.pending + v0, ..s1 }, seq![]).1
            == markup(PlanParserState { pending: s1.pending + v0, ..s1 }, seq![]).1);
    }
}

/// Feeding the parser a text in chunks gives the visible text and the plan
/// that feeding it the whole text gives, when the text holds no echo of the
/// policy line.
pub proof fn lemma_chunked_equals_whole(policy: Seq<char>, chunks: Seq<Seq<char>>)
    requires
        !contains_seq(join(chunks), policy),
    ensures
        stream_spec(policy, chunks) == extract_spec(join(chunks), policy),
{
    let text = join(chunks);
    assert(join(seq![text]) == text) by {
        assert(seq![text].drop_last() =~= Seq::<Seq<char>>::empty());
        assert(join(Seq::<Seq<char>>::empty()) =~= Seq::<char>::empty());
        assert(Seq::<char>::empty() + text =~= text);
    }
    lemma_consume_chunks(policy, chunks);
    lemma_consume_chunks(policy, seq![text]);
    assert(seq![text].drop_last().len() == 0);
    assert(seq![text].last() == text);
    let (sa, va) = consume_chunks(initial_state(), policy, chunks);
    let (sb, vb) = consume_chunks(initial_state(), policy, seq![text]);
    assert(consume_chunks(initial_state(), policy, seq![text]) == consume_spec(initial_state(), policy, text)) by {
        let (s0, v0) = consume_chunks(initial_state(), policy, seq![text].drop_last());
        assert(s0 == initial_state());
        assert(Seq::<char>::empty() + consume_spec(initial_state(), policy, text).1 == consume_spec(
            initial_state(),
            policy,
            text,
        ).1);
    }
    // both finish the same way: flushing the held policy tail and running
    // the markup pass over all of the text
    let ppa = sa.policy_pending;
    let ppb = sb.policy_pending;
    let ja = text.take(text.len() - ppa.len());
    let jb = text.take(text.len() - ppb.len());
    lemma_no_policy_in_part(text, policy, ja.len() as int, text.len() as int);
    lemma_no_policy_in_part(text, policy, jb.len() as int, text.len() as int);
    assert(text.subrange(ja.len() as int, text.len() as int) == ppa);
    assert(text.subrange(jb.len() as int, text.len() as int) == ppb);
    lemma_filter_passes(ppa, true, policy);
    lemma_filter_passes(ppb, true, policy);
    let e = Seq::<char>::empty();
    let whole = with_input(e, text);
    // stream side
    lemma_markup_append(with_input(e, ja), ppa, seq![]);
    lemma_markup_frame(with_input(ppa, ja), seq![], e);
    assert(PlanParserState { policy_pending: e, ..with_input(ppa, ja) } == with_input(e, ja));
    assert(PlanParserState { pending: ja + ppa, ..with_input(e, ja) } == whole);
    lemma_markup_frame(PlanParserState { pending: sa.pending + ppa, ..sa }, va, e);
    lemma_markup_frame(PlanParserState { pending: sa.pending + ppa, ..sa }, seq![], e);
    // whole side
    lemma_markup_append(with_input(e, jb), ppb, seq![]);
    lemma_markup_frame(with_input(ppb, jb), seq![], e);
    assert(PlanParserState { policy_pending: e, ..with_input(ppb, jb) } == with_input(e, jb));
    assert(PlanParserState { pending: jb + ppb, ..with_input(e, jb) } == whole);
    lemma_markup_frame(PlanParserState { pending: sb.pending + ppb, ..sb }, vb, e);
    lemma_markup_frame(PlanParserState { pending: sb.pending + ppb, ..sb }, seq![], e);
    let fa = markup(PlanParserState { policy_pending: e, pending: sa.pending + ppa, ..sa }, seq![]);
    let fb = markup(PlanParserState { policy_pending: e, pending: sb.pending + ppb, ..sb }, seq![]);
    assert(fa.0 == fb.0);
    assert(va + fa.1 == vb + fb.1);
    let (vxa, pxa) = filter_policy(ppa, true, policy, seq![]);
    let (vxb, pxb) = filter_policy(ppb, true, policy, seq![]);
    assert(pxa =~= e && vxa =~= ppa) by {
        assert(vxa + pxa == ppa);
        assert(vxa + e =~= vxa);
    }
    assert(pxb =~= e && vxb =~= ppb) by {
        assert(vxb + pxb == ppb);
        assert(vxb + e =~= vxb);
    }
    assert(PlanParserState { policy_pending: pxa, pending: sa.pending + vxa, ..sa }
        == PlanParserState { policy_pending: e, pending: sa.pending + ppa, ..sa });
    assert(PlanParserState { policy_pending: pxb, pending: sb.pending + vxb, ..sb }
        == PlanParserState { policy_pending: e, pending: sb.pending + ppb, ..sb });
    let (_x, vta, plana) = finish_spec(sa, policy);
    let (_y, vtb, planb) = finish_spec(sb, policy);
    assert(plana == planb);
    match fa.0.mode {
        ParseMode::Normal => {
            assert(va + vta == va + fa.1 + fa.0.pending);
            assert(vb + vtb == vb + fb.1 + fb.0.pending);
        },
        ParseMode::InPlan(_) => {},
    }
}

} // verus!
