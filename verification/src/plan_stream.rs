//! Streaming removal of `<proposed_plan>` / `<plan>` blocks from assistant
//! text, collecting the plan body on the side.
//!
//! The parser is a state machine. Its behaviour is stated by the spec
//! functions `markup`, `filter_policy`, `consume_spec` and `finish_spec`, one
//! step of the machine each; the exec methods are proved to follow them.

use vstd::prelude::*;
use crate::text::{
    contains_seq, occurs_at, chars_of, drop_front, ends_with, extend_all, extend_range, find_first, first_occurrence, has_prefix,
    has_suffix, holdback, index_of, index_of_char_from, lemma_holdback_bound, lemma_index_of,
    push_str, starts_with, string_from, sub_vec, trim, trimmed, utf8_width,
};

verus! {

pub open spec fn proposed_open() -> Seq<char> {
    seq!['<', 'p', 'r', 'o', 'p', 'o', 's', 'e', 'd', '_', 'p', 'l', 'a', 'n', '>']
}

pub open spec fn proposed_close() -> Seq<char> {
    seq!['<', '/', 'p', 'r', 'o', 'p', 'o', 's', 'e', 'd', '_', 'p', 'l', 'a', 'n', '>']
}

pub open spec fn alt_open() -> Seq<char> {
    seq!['<', 'p', 'l', 'a', 'n', '>']
}

pub open spec fn alt_close() -> Seq<char> {
    seq!['<', '/', 'p', 'l', 'a', 'n', '>']
}

/// The runtime-owned plan persistence policy that providers sometimes echo
/// back as prose; the parser removes exact echoes of this line.
pub const PLAN_PERSISTENCE_POLICY_LINE: &'static str =
    "Emit exactly one final <proposed_plan> block when the plan is ready; the runtime persists it for approval.";

/// The two supported plan wrappers.
#[derive(Debug, Clone, Copy, PartialEq, Eq, Structural)]
pub enum PlanTag {
    Proposed,
    Alternate,
}

impl PlanTag {
    pub open spec fn open_seq(self) -> Seq<char> {
        match self {
            PlanTag::Proposed => proposed_open(),
            PlanTag::Alternate => alt_open(),
        }
    }

    pub open spec fn close_seq(self) -> Seq<char> {
        match self {
            PlanTag::Proposed => proposed_close(),
            PlanTag::Alternate => alt_close(),
        }
    }

    pub fn open_tag(self) -> (r: &'static str)
        ensures
            r@ == self.open_seq(),
    {
        match self {
            PlanTag::Proposed => {
                proof {
                    reveal_strlit("<proposed_plan>");
                }
                let r = "<proposed_plan>";
                assert(r@ =~= proposed_open());
                r
            },
            PlanTag::Alternate => {
                proof {
                    reveal_strlit("<plan>");
                }
                let r = "<plan>";
                assert(r@ =~= alt_open());
                r
            },
        }
    }

    pub fn close_tag(self) -> (r: &'static str)
        ensures
            r@ == self.close_seq(),
    {
        match self {
            PlanTag::Proposed => {
                proof {
                    reveal_strlit("</proposed_plan>");
                }
                let r = "</proposed_plan>";
                assert(r@ =~= proposed_close());
                r
            },
            PlanTag::Alternate => {
                proof {
                    reveal_strlit("</plan>");
                }
                let r = "</plan>";
                assert(r@ =~= alt_close());
                r
            },
        }
    }
}

/// Where the parser is: outside a plan block, or inside one waiting for the
/// closing wrapper of `tag`.
#[derive(Debug, Clone, Copy, PartialEq, Eq, Structural)]
pub enum ParseMode {
    Normal,
    InPlan(PlanTag),
}

/// Abstract state of the parser.
pub struct PlanParserState {
    pub mode: ParseMode,
    pub pending: Seq<char>,
    pub policy_pending: Seq<char>,
    pub plan_buffer: Seq<char>,
    pub saw_plan_block: bool,
}

/// Earliest opening wrapper in `text` (the `<proposed_plan>` form wins a tie,
/// which cannot happen since neither wrapper is a prefix of the other).
#[verifier::opaque]
pub open spec fn next_open_tag(text: Seq<char>) -> Option<(int, PlanTag)> {
    match (first_occurrence(text, proposed_open()), first_occurrence(text, alt_open())) {
        (Some(i), Some(j)) => if i <= j {
            Some((i, PlanTag::Proposed))
        } else {
            Some((j, PlanTag::Alternate))
        },
        (Some(i), None) => Some((i, PlanTag::Proposed)),
        (None, Some(j)) => Some((j, PlanTag::Alternate)),
        (None, None) => None,
    }
}

/// Bytes held back outside a block: one less than the longest opening wrapper.
pub open spec fn normal_keep() -> nat {
    14
}

/// Bytes held back inside a block: one less than the awaited closing wrapper.
pub open spec fn plan_keep(tag: PlanTag) -> nat {
    (tag.close_seq().len() - 1) as nat
}

/// One full `consume_plan_markup` pass over `st.pending`: strip wrappers,
/// route block bodies to `plan_buffer`, emit visible text, and hold back a
/// tail that may be the start of a wrapper split across chunks.
#[verifier::opaque]
pub open spec fn markup(st: PlanParserState, vis: Seq<char>) -> (PlanParserState, Seq<char>)
    decreases st.pending.len(),
{
    match st.mode {
        ParseMode::Normal => match next_open_tag(st.pending) {
            Some((i, tag)) => {
                let n = i + tag.open_seq().len();
                if 0 <= i && n <= st.pending.len() && tag.open_seq().len() > 0 {
                    markup(
                        PlanParserState {
                            mode: ParseMode::InPlan(tag),
                            pending: st.pending.skip(n),
                            saw_plan_block: true,
                            ..st
                        },
                        vis + st.pending.take(i),
                    )
                } else {
                    (st, vis)
                }
            },
            None => {
                let k = holdback(st.pending, normal_keep()) as int;
                (PlanParserState { pending: st.pending.skip(k), ..st }, vis + st.pending.take(k))
            },
        },
        ParseMode::InPlan(tag) => match first_occurrence(st.pending, tag.close_seq()) {
            Some(i) => {
                let n = i + tag.close_seq().len();
                if 0 <= i && n <= st.pending.len() && tag.close_seq().len() > 0 {
                    markup(
                        PlanParserState {
                            mode: ParseMode::Normal,
                            pending: st.pending.skip(n),
                            plan_buffer: st.plan_buffer + st.pending.take(i),
                            ..st
                        },
                        vis,
                    )
                } else {
                    (st, vis)
                }
            },
            None => {
                let k = holdback(st.pending, plan_keep(tag)) as int;
                (
                    PlanParserState {
                        pending: st.pending.skip(k),
                        plan_buffer: st.plan_buffer + st.pending.take(k),
                        ..st
                    },
                    vis,
                )
            },
        },
    }
}


pub proof fn lemma_tag_lens(tag: PlanTag)
    ensures
        tag.open_seq().len() == if tag == PlanTag::Proposed { 15int } else { 6int },
        tag.close_seq().len() == if tag == PlanTag::Proposed { 16int } else { 7int },
{
}

pub proof fn lemma_markup_open(st: PlanParserState, vis: Seq<char>, i: int, tag: PlanTag)
    requires
        st.mode == ParseMode::Normal,
        next_open_tag(st.pending) == Some((i, tag)),
        0 <= i,
        i + tag.open_seq().len() <= st.pending.len(),
    ensures
        markup(st, vis) == markup(
            PlanParserState {
                mode: ParseMode::InPlan(tag),
                pending: st.pending.skip(i + tag.open_seq().len()),
                saw_plan_block: true,
                ..st
            },
            vis + st.pending.take(i),
        ),
{
    reveal(markup);
    lemma_tag_lens(tag);
}

pub proof fn lemma_markup_close(st: PlanParserState, vis: Seq<char>, i: int, tag: PlanTag)
    requires
        st.mode == ParseMode::InPlan(tag),
        first_occurrence(st.pending, tag.close_seq()) == Some(i),
        0 <= i,
        i + tag.close_seq().len() <= st.pending.len(),
    ensures
        markup(st, vis) == markup(
            PlanParserState {
                mode: ParseMode::Normal,
                pending: st.pending.skip(i + tag.close_seq().len()),
                plan_buffer: st.plan_buffer + st.pending.take(i),
                ..st
            },
            vis,
        ),
{
    reveal(markup);
    lemma_tag_lens(tag);
}

pub proof fn lemma_markup_rest_normal(st: PlanParserState, vis: Seq<char>)
    requires
        st.mode == ParseMode::Normal,
        next_open_tag(st.pending) is None,
    ensures
        ({
            let k = holdback(st.pending, normal_keep()) as int;
            markup(st, vis) == (PlanParserState { pending: st.pending.skip(k), ..st }, vis + st.pending.take(k))
        }),
{
    reveal(markup);
}

pub proof fn lemma_markup_rest_plan(st: PlanParserState, vis: Seq<char>, tag: PlanTag)
    requires
        st.mode == ParseMode::InPlan(tag),
        first_occurrence(st.pending, tag.close_seq()) is None,
    ensures
        ({
            let k = holdback(st.pending, plan_keep(tag)) as int;
            markup(st, vis) == (
                PlanParserState {
                    pending: st.pending.skip(k),
                    plan_buffer: st.plan_buffer + st.pending.take(k),
                    ..st
                },
                vis,
            )
        }),
{
    reveal(markup);
}

/// Search for the next place where the policy line may start: the first line
/// start at or after `ls` whose remainder is a prefix of the policy line or
/// starts with it.
pub open spec fn candidate_from(text: Seq<char>, policy: Seq<char>, ls: int) -> Option<int>
    decreases text.len() - ls,
{
    if ls < 0 || ls > text.len() {
        None
    } else {
        let cand = text.skip(ls);
        if starts_with(policy, cand) || starts_with(cand, policy) {
            Some(ls)
        } else {
            let nl = index_of(cand, '\n');
            let next = ls + nl + 1;
            if nl >= cand.len() || next >= text.len() || nl < 0 {
                None
            } else {
                candidate_from(text, policy, next)
            }
        }
    }
}

/// `filter_policy_text`: drop exact echoes of the policy line that start a
/// line of `buf`, keeping back a trailing partial echo unless `flush`.
/// Returns the visible text and what stays buffered.
pub open spec fn filter_policy(buf: Seq<char>, flush: bool, policy: Seq<char>, vis: Seq<char>) -> (
    Seq<char>,
    Seq<char>,
)
    decreases buf.len(),
{
    match candidate_from(buf, policy, 0) {
        None => (vis + buf, seq![]),
        Some(s) => {
            let b = buf.skip(s);
            let v = vis + buf.take(s);
            if 0 <= s <= buf.len() && starts_with(b, policy) && policy.len() > 0 {
                filter_policy(b.skip(policy.len() as int), flush, policy, v)
            } else if !flush && starts_with(policy, b) {
                (v, b)
            } else {
                (v + b, seq![])
            }
        },
    }
}

pub open spec fn consume_spec(st: PlanParserState, policy: Seq<char>, chunk: Seq<char>) -> (
    PlanParserState,
    Seq<char>,
) {
    let (vis0, pp) = filter_policy(st.policy_pending + chunk, false, policy, seq![]);
    markup(PlanParserState { policy_pending: pp, pending: st.pending + vis0, ..st }, seq![])
}

pub open spec fn finalize_plan(saw_plan_block: bool, raw: Seq<char>) -> Option<Seq<char>> {
    if !saw_plan_block || trim(raw).len() == 0 {
        None
    } else {
        Some(trim(raw))
    }
}

/// `finish`: flush the policy buffer, run the markup pass, then hand the
/// remaining tail to the visible text (outside a block) or to the plan (an
/// unterminated block). Returns the new state, the visible tail and the plan.
pub open spec fn finish_spec(st: PlanParserState, policy: Seq<char>) -> (
    PlanParserState,
    Seq<char>,
    Option<Seq<char>>,
) {
    let (vis0, pp) = filter_policy(st.policy_pending, true, policy, seq![]);
    let (s1, vis1) = markup(
        PlanParserState { policy_pending: pp, pending: st.pending + vis0, ..st },
        seq![],
    );
    let (vis2, buf2) = match s1.mode {
        ParseMode::Normal => (vis1 + s1.pending, s1.plan_buffer),
        ParseMode::InPlan(_) => (vis1, s1.plan_buffer + s1.pending),
    };
    (
        PlanParserState { mode: ParseMode::Normal, pending: seq![], plan_buffer: buf2, ..s1 },
        vis2,
        finalize_plan(s1.saw_plan_block, buf2),
    )
}

pub open spec fn initial_state() -> PlanParserState {
    PlanParserState {
        mode: ParseMode::Normal,
        pending: seq![],
        policy_pending: seq![],
        plan_buffer: seq![],
        saw_plan_block: false,
    }
}

/// Whole-text extraction: one `consume` then `finish` on a fresh parser.
/// Returns the visible text and the plan body.
pub open spec fn extract_spec(text: Seq<char>, policy: Seq<char>) -> (Seq<char>, Option<Seq<char>>) {
    let (s1, v1) = consume_spec(initial_state(), policy, text);
    let (_s2, v2, plan) = finish_spec(s1, policy);
    (v1 + v2, plan)
}

/// `text` ends with a proper, non-empty prefix of an opening wrapper.
pub open spec fn has_partial_open(text: Seq<char>) -> bool {
    exists|t: PlanTag, n: int|
        1 <= n < t.open_seq().len() && #[trigger] ends_with(text, t.open_seq().take(n))
}

pub open spec fn unclosed(st: PlanParserState) -> bool {
    st.mode is InPlan || has_partial_open(st.pending)
}

/// Result of a whole-text plan extraction.
#[derive(Debug, Clone, PartialEq, Eq)]
pub struct ProposedPlanExtraction {
    pub stripped_text: String,
    pub plan_text: Option<String>,
}

pub open spec fn opt_view(o: Option<String>) -> Option<Seq<char>> {
    match o {
        Some(s) => Some(s@),
        None => None,
    }
}

/// Streaming parser that removes either supported plan block form from
/// assistant-visible text while collecting the plan body.
#[derive(Debug)]
pub struct ProposedPlanStreamParser {
    mode: ParseMode,
    pending: Vec<char>,
    policy_pending: Vec<char>,
    plan_buffer: Vec<char>,
    saw_plan_block: bool,
    policy: Vec<char>,
}

impl View for ProposedPlanStreamParser {
    type V = PlanParserState;

    closed spec fn view(&self) -> PlanParserState {
        PlanParserState {
            mode: self.mode,
            pending: self.pending@,
            policy_pending: self.policy_pending@,
            plan_buffer: self.plan_buffer@,
            saw_plan_block: self.saw_plan_block,
        }
    }
}

/// Earliest opening wrapper in `text`.
fn find_next_open_tag(text: &[char]) -> (r: Option<(usize, PlanTag)>)
    ensures
        match r {
            Some((i, tag)) => next_open_tag(text@) == Some((i as int, tag)) && i + tag.open_seq().len()
                <= text@.len(),
            None => next_open_tag(text@) is None,
        },
{
    let proposed = tag_chars(PlanTag::Proposed.open_tag());
    let alternate = tag_chars(PlanTag::Alternate.open_tag());
    let a = find_first(text, &proposed);
    let b = find_first(text, &alternate);
    proof {
        reveal(next_open_tag);
    }
    match (a, b) {
        (Some(i), Some(j)) => if i <= j {
            Some((i, PlanTag::Proposed))
        } else {
            Some((j, PlanTag::Alternate))
        },
        (Some(i), None) => Some((i, PlanTag::Proposed)),
        (None, Some(j)) => Some((j, PlanTag::Alternate)),
        (None, None) => None,
    }
}

/// Number of leading chars of `text` that may be emitted while keeping the
/// last `keep_tail` bytes back, cut at a character boundary.
fn safe_char_boundary(text: &[char], keep_tail: usize) -> (k: usize)
    requires
        keep_tail <= 16,
    ensures
        k == holdback(text@, keep_tail as nat),
        k <= text@.len(),
{
    let mut j = text.len();
    let mut acc: usize = 0;
    assert(text@.take(text@.len() as int) == text@);
    while j > 0 && acc < keep_tail
        invariant
            keep_tail <= 16,
            j <= text@.len(),
            acc <= keep_tail + 4,
            holdback(text@, keep_tail as nat) == if acc >= keep_tail {
                j as nat
            } else {
                holdback(text@.take(j as int), (keep_tail - acc) as nat)
            },
        decreases j,
    {
        let ghost pre = text@.take(j as int);
        let w = utf8_width(text[j - 1]);
        proof {
            assert(pre.last() == text@[j - 1]);
            assert(pre.drop_last() == text@.take(j - 1));
        }
        acc = acc + w;
        j = j - 1;
    }
    proof {
        if acc < keep_tail {
            assert(j == 0);
            assert(text@.take(0).len() == 0);
        }
        lemma_holdback_bound(text@, keep_tail as nat);
    }
    j
}

fn tag_chars(s: &str) -> (v: Vec<char>)
    ensures
        v@ == s@,
{
    chars_of(s)
}

impl ProposedPlanStreamParser {
    pub closed spec fn policy_line(&self) -> Seq<char> {
        self.policy@
    }

    /// The policy line is non-empty.
    pub closed spec fn wf(&self) -> bool {
        self.policy@.len() > 0
    }

    pub fn new() -> (p: Self)
        ensures
            p.wf(),
            p@ == initial_state(),
            p.policy_line() == PLAN_PERSISTENCE_POLICY_LINE@,
    {
        proof {
            reveal_strlit(
                "Emit exactly one final <proposed_plan> block when the plan is ready; the runtime persists it for approval.",
            );
        }
        let policy = chars_of(PLAN_PERSISTENCE_POLICY_LINE);
        let p = Self {
            mode: ParseMode::Normal,
            pending: Vec::new(),
            policy_pending: Vec::new(),
            plan_buffer: Vec::new(),
            saw_plan_block: false,
            policy,
        };
        assert(p@ =~= initial_state());
        p
    }

    /// A parser that filters echoes of `policy` instead of the built-in line.
    pub fn with_policy_line(policy: &str) -> (p: Option<Self>)
        ensures
            policy@.len() == 0 ==> p is None,
            policy@.len() > 0 ==> (p matches Some(q) && q.wf() && q@ == initial_state()
                && q.policy_line() == policy@),
    {
        let policy = chars_of(policy);
        if policy.len() == 0 {
            return None;
        }
        let p = Self {
            mode: ParseMode::Normal,
            pending: Vec::new(),
            policy_pending: Vec::new(),
            plan_buffer: Vec::new(),
            saw_plan_block: false,
            policy,
        };
        assert(p@ =~= initial_state());
        Some(p)
    }

    /// Consume streamed text and return only content that should remain visible
    /// to the assistant transcript.
    pub fn consume(&mut self, chunk: &str) -> (visible: String)
        requires
            old(self).wf(),
        ensures
            final(self).wf(),
            final(self).policy_line() == old(self).policy_line(),
            (final(self)@, visible@) == consume_spec(old(self)@, old(self).policy_line(), chunk@),
    {
        let chunk = chars_of(chunk);
        let filtered = self.filter_policy_chunk(&chunk, false);
        let visible = self.consume_plan_markup(&filtered);
        string_from(&visible)
    }

    /// One markup step: strip the next wrapper the current mode is waiting
    /// for, if the pending text holds it. Returns whether a wrapper was found.
    fn markup_step(&mut self, visible: &mut Vec<char>) -> (found: bool)
        requires
            old(self).wf(),
        ensures
            final(self).wf(),
            final(self).policy_line() == old(self).policy_line(),
            markup(old(self)@, old(visible)@) == markup(final(self)@, final(visible)@),
            found ==> final(self)@.pending.len() < old(self)@.pending.len(),
            !found ==> final(self)@ == old(self)@ && final(visible)@ == old(visible)@,
            !found ==> match old(self)@.mode {
                ParseMode::Normal => next_open_tag(old(self)@.pending) is None,
                ParseMode::InPlan(tag) => first_occurrence(old(self)@.pending, tag.close_seq()) is None,
            },
    {
        let ghost st = self@;
        let ghost vis = visible@;
        match self.mode {
            ParseMode::Normal => {
                match find_next_open_tag(&self.pending) {
                    Some((index, tag)) => {
                        let open = tag_chars(tag.open_tag());
                        proof {
                            lemma_markup_open(st, vis, index as int, tag);
                        }
                        let plen = self.pending.len();
                        assert(index + open@.len() <= plen);
                        extend_range(visible, &self.pending, 0, index);
                        drop_front(&mut self.pending, index + open.len());
                        self.mode = ParseMode::InPlan(tag);
                        self.saw_plan_block = true;
                        proof {
                            assert(st.pending.subrange(0, index as int) == st.pending.take(index as int));
                            assert(self@ == (PlanParserState {
                                mode: ParseMode::InPlan(tag),
                                pending: st.pending.skip(index + tag.open_seq().len()),
                                saw_plan_block: true,
                                ..st
                            }));
                        }
                        true
                    },
                    None => false,
                }
            },
            ParseMode::InPlan(tag) => {
                let close = tag_chars(tag.close_tag());
                match find_first(&self.pending, &close) {
                    Some(index) => {
                        proof {
                            lemma_markup_close(st, vis, index as int, tag);
                        }
                        let plen = self.pending.len();
                        assert(index + close@.len() <= plen);
                        extend_range(&mut self.plan_buffer, &self.pending, 0, index);
                        drop_front(&mut self.pending, index + close.len());
                        self.mode = ParseMode::Normal;
                        proof {
                            assert(st.pending.subrange(0, index as int) == st.pending.take(index as int));
                            assert(self@ == (PlanParserState {
                                mode: ParseMode::Normal,
                                pending: st.pending.skip(index + tag.close_seq().len()),
                                plan_buffer: st.plan_buffer + st.pending.take(index as int),
                                ..st
                            }));
                        }
                        true
                    },
                    None => false,
                }
            },
        }
    }

    fn consume_plan_markup(&mut self, chunk: &[char]) -> (visible: Vec<char>)
        requires
            old(self).wf(),
        ensures
            final(self).wf(),
            final(self).policy_line() == old(self).policy_line(),
            (final(self)@, visible@) == markup(
                PlanParserState { pending: old(self)@.pending + chunk@, ..old(self)@ },
                seq![],
            ),
    {
        extend_all(&mut self.pending, chunk);
        let mut visible: Vec<char> = Vec::new();
        let ghost start = self@;
        assert(start == (PlanParserState { pending: old(self)@.pending + chunk@, ..old(self)@ }));
        let mut progressing = true;
        while progressing
            invariant
                self.wf(),
                self.policy_line() == old(self).policy_line(),
                markup(start, seq![]) == markup(self@, visible@),
                !progressing ==> match self@.mode {
                    ParseMode::Normal => next_open_tag(self@.pending) is None,
                    ParseMode::InPlan(tag) => first_occurrence(self@.pending, tag.close_seq()) is None,
                },
            decreases self@.pending.len() + if progressing {
                1int
            } else {
                0int
            },
        {
            progressing = self.markup_step(&mut visible);
        }
        let ghost st = self@;
        let ghost vis = visible@;
        match self.mode {
            ParseMode::Normal => {
                proof {
                    lemma_markup_rest_normal(st, vis);
                }
                let emit = safe_char_boundary(&self.pending, 14);
                extend_range(&mut visible, &self.pending, 0, emit);
                drop_front(&mut self.pending, emit);
                proof {
                    assert(st.pending.subrange(0, emit as int) == st.pending.take(emit as int));
                    assert(self@ == (PlanParserState { pending: st.pending.skip(emit as int), ..st }));
                }
            },
            ParseMode::InPlan(tag) => {
                proof {
                    lemma_markup_rest_plan(st, vis, tag);
                }
                let close = tag_chars(tag.close_tag());
                let emit = safe_char_boundary(&self.pending, close.len() - 1);
                extend_range(&mut self.plan_buffer, &self.pending, 0, emit);
                drop_front(&mut self.pending, emit);
                proof {
                    assert(st.pending.subrange(0, emit as int) == st.pending.take(emit as int));
                    assert(self@ == (PlanParserState {
                        pending: st.pending.skip(emit as int),
                        plan_buffer: st.plan_buffer + st.pending.take(emit as int),
                        ..st
                    }));
                }
            },
        }
        visible
    }

    /// Finish parsing and return any remaining visible text plus optional plan.
    pub fn finish(&mut self) -> (r: ProposedPlanExtraction)
        requires
            old(self).wf(),
        ensures
            final(self).wf(),
            final(self).policy_line() == old(self).policy_line(),
            ({
                let (st, vis, plan) = finish_spec(old(self)@, old(self).policy_line());
                final(self)@ == st && r.stripped_text@ == vis && opt_view(r.plan_text) == plan
            }),
    {
        let policy_trailing = self.flush_policy_pending();
        let mut trailing_visible = self.consume_plan_markup(&policy_trailing);
        match self.mode {
            ParseMode::Normal => {
                extend_all(&mut trailing_visible, &self.pending);
            },
            ParseMode::InPlan(_) => {
                extend_all(&mut self.plan_buffer, &self.pending);
            },
        }
        self.pending = Vec::new();
        self.mode = ParseMode::Normal;
        let plan_text = finalize_plan_text(self.saw_plan_block, &self.plan_buffer);
        ProposedPlanExtraction { stripped_text: string_from(&trailing_visible), plan_text }
    }

    pub fn has_unclosed_plan_block(&self) -> (b: bool)
        ensures
            b == unclosed(self@),
    {
        let in_plan = match self.mode {
            ParseMode::InPlan(_) => true,
            ParseMode::Normal => false,
        };
        in_plan || has_partial_open_tag(&self.pending)
    }

    fn filter_policy_chunk(&mut self, chunk: &[char], flush: bool) -> (visible: Vec<char>)
        requires
            old(self).wf(),
        ensures
            final(self).wf(),
            final(self).policy_line() == old(self).policy_line(),
            (visible@, final(self)@.policy_pending) == filter_policy(
                old(self)@.policy_pending + chunk@,
                flush,
                old(self).policy_line(),
                seq![],
            ),
            final(self)@ == (PlanParserState { policy_pending: final(self)@.policy_pending, ..old(self)@ }),
    {
        extend_all(&mut self.policy_pending, chunk);
        filter_policy_text(&mut self.policy_pending, flush, &self.policy)
    }

    fn flush_policy_pending(&mut self) -> (visible: Vec<char>)
        requires
            old(self).wf(),
        ensures
            final(self).wf(),
            final(self).policy_line() == old(self).policy_line(),
            (visible@, final(self)@.policy_pending) == filter_policy(
                old(self)@.policy_pending,
                true,
                old(self).policy_line(),
                seq![],
            ),
            final(self)@ == (PlanParserState { policy_pending: final(self)@.policy_pending, ..old(self)@ }),
    {
        let empty: Vec<char> = Vec::new();
        let r = self.filter_policy_chunk(&empty, true);
        assert(old(self)@.policy_pending + seq![] == old(self)@.policy_pending);
        r
    }
}

/// Whether `text` ends with a proper, non-empty prefix of an opening wrapper.
fn has_partial_open_tag(text: &[char]) -> (b: bool)
    ensures
        b == has_partial_open(text@),
{
    let tags = [PlanTag::Proposed, PlanTag::Alternate];
    let mut t: usize = 0;
    while t < 2
        invariant
            t <= 2,
            tags@ == seq![PlanTag::Proposed, PlanTag::Alternate],
            forall|u: int, n: int|
                0 <= u < t && 1 <= n < tags@[u].open_seq().len() ==> !ends_with(
                    text@,
                    tags@[u].open_seq().take(n),
                ),
        decreases 2 - t,
    {
        let tag = tags[t];
        let open = tag_chars(tag.open_tag());
        let mut n: usize = 1;
        while n < open.len()
            invariant
                1 <= n <= open@.len(),
                open@ == tag.open_seq(),
                forall|m: int| 1 <= m < n ==> !ends_with(text@, tag.open_seq().take(m)),
            decreases open.len() - n,
        {
            let prefix = sub_vec(&open, 0, n);
            assert(prefix@ == tag.open_seq().take(n as int));
            if has_suffix(text, &prefix) {
                return true;
            }
            n += 1;
        }
        t += 1;
    }
    proof {
        assert forall|tag: PlanTag, n: int|
            1 <= n < tag.open_seq().len() implies !#[trigger] ends_with(text@, tag.open_seq().take(n)) by {
            match tag {
                PlanTag::Proposed => assert(tags@[0] == tag),
                PlanTag::Alternate => assert(tags@[1] == tag),
            }
        }
    }
    false
}

/// Next possible start of a policy echo in `text`.
fn find_policy_candidate_start(text: &[char], policy: &[char]) -> (r: Option<usize>)
    ensures
        match r {
            Some(s) => candidate_from(text@, policy@, 0) == Some(s as int) && s <= text@.len(),
            None => candidate_from(text@, policy@, 0) is None,
        },
{
    let mut line_start: usize = 0;
    loop
        invariant
            line_start <= text@.len(),
            candidate_from(text@, policy@, 0) == candidate_from(text@, policy@, line_start as int),
        decreases text@.len() - line_start,
    {
        let candidate = sub_vec(text, line_start, text.len());
        assert(candidate@ == text@.skip(line_start as int));
        if has_prefix(policy, &candidate) || has_prefix(&candidate, policy) {
            return Some(line_start);
        }
        let nl = index_of_char_from(text, '\n', line_start);
        proof {
            let cand = text@.skip(line_start as int);
            assert forall|j: int| 0 <= j < nl - line_start implies cand[j] != '\n' by {
                assert(cand[j] == text@[line_start + j]);
            }
            if nl < text.len() {
                assert(cand[nl - line_start] == text@[nl as int]);
            }
            lemma_index_of(cand, '\n', nl - line_start);
        }
        if nl >= text.len() {
            return None;
        }
        line_start = nl + 1;
        if line_start >= text.len() {
            return None;
        }
    }
}

/// Drop exact echoes of `policy` at line starts of `buffer`. Unless `flush`,
/// a trailing partial echo stays buffered for the next chunk.
fn filter_policy_text(buffer: &mut Vec<char>, flush: bool, policy: &[char]) -> (visible: Vec<char>)
    requires
        policy@.len() > 0,
    ensures
        (visible@, final(buffer)@) == filter_policy(old(buffer)@, flush, policy@, seq![]),
{
    let mut visible: Vec<char> = Vec::new();
    loop
        invariant
            policy@.len() > 0,
            filter_policy(old(buffer)@, flush, policy@, seq![]) == filter_policy(buffer@, flush, policy@, visible@),
        decreases buffer@.len(),
    {
        let ghost buf0 = buffer@;
        let ghost vis0 = visible@;
        match find_policy_candidate_start(buffer, policy) {
            None => {
                extend_all(&mut visible, buffer);
                *buffer = Vec::new();
                assert(buffer@ =~= seq![]);
                return visible;
            },
            Some(start) => {
                extend_range(&mut visible, buffer, 0, start);
                drop_front(buffer, start);
                assert(buf0.subrange(0, start as int) == buf0.take(start as int));
                if has_prefix(buffer, policy) {
                    drop_front(buffer, policy.len());
                    continue;
                }
                if !flush && has_prefix(policy, buffer) {
                    return visible;
                }
                extend_all(&mut visible, buffer);
                *buffer = Vec::new();
                assert(buffer@ =~= seq![]);
                return visible;
            },
        }
    }
}

fn finalize_plan_text(saw_plan_block: bool, raw: &[char]) -> (r: Option<String>)
    ensures
        opt_view(r) == finalize_plan(saw_plan_block, raw@),
{
    if !saw_plan_block {
        return None;
    }
    let trimmed = trimmed(raw);
    if trimmed.len() == 0 {
        None
    } else {
        Some(string_from(&trimmed))
    }
}

/// Strip every plan block from `text`, returning the visible text and the
/// trimmed plan body (if a block was present and non-empty).
pub fn extract_proposed_plan(text: &str) -> (r: ProposedPlanExtraction)
    ensures
        ({
            let (vis, plan) = extract_spec(text@, PLAN_PERSISTENCE_POLICY_LINE@);
            r.stripped_text@ == vis && opt_view(r.plan_text) == plan
        }),
{
    let mut parser = ProposedPlanStreamParser::new();
    let mut stripped = parser.consume(text);
    let trailing = parser.finish();
    push_str(&mut stripped, trailing.stripped_text.as_str());
    ProposedPlanExtraction { stripped_text: stripped, plan_text: trailing.plan_text }
}

/// Same as [`extract_proposed_plan`]: both wrappers go through one parser.
pub fn extract_any_plan(text: &str) -> (r: ProposedPlanExtraction)
    ensures
        ({
            let (vis, plan) = extract_spec(text@, PLAN_PERSISTENCE_POLICY_LINE@);
            r.stripped_text@ == vis && opt_view(r.plan_text) == plan
        }),
{
    extract_proposed_plan(text)
}

/// Whether streaming `text` leaves the parser inside a block or holding the
/// start of an opening wrapper.
pub fn has_unclosed_plan_block(text: &str) -> (b: bool)
    ensures
        b == unclosed(consume_spec(initial_state(), PLAN_PERSISTENCE_POLICY_LINE@, text@).0),
{
    let mut parser = ProposedPlanStreamParser::new();
    let _ = parser.consume(text);
    parser.has_unclosed_plan_block()
}

// ---------------------------------------------------------------------------
// Text without plan markup
// ---------------------------------------------------------------------------

proof fn lemma_no_occurrence_in_part(s: Seq<char>, p: Seq<char>, lo: int, hi: int)
    requires
        0 <= lo <= hi <= s.len(),
        !contains_seq(s, p),
    ensures
        !contains_seq(s.subrange(lo, hi), p),
{
    let sub = s.subrange(lo, hi);
    if contains_seq(sub, p) {
        let i = choose|i: int| occurs_at(sub, p, i);
        assert(s.subrange(lo + i, lo + i + p.len()) == sub.subrange(i, i + p.len()));
        assert(occurs_at(s, p, lo + i));
    }
}

/// The empty text holds no opening wrapper.
pub proof fn lemma_no_open_tag_empty()
    ensures
        next_open_tag(Seq::<char>::empty()) is None,
{
    reveal(next_open_tag);
    reveal(first_occurrence);
}

proof fn lemma_no_open_tag(s: Seq<char>)
    requires
        !contains_seq(s, proposed_open()),
        !contains_seq(s, alt_open()),
    ensures
        next_open_tag(s) is None,
{
    reveal(next_open_tag);
    reveal(first_occurrence);
}

proof fn lemma_candidate_bounds(text: Seq<char>, policy: Seq<char>, ls: int)
    ensures
        candidate_from(text, policy, ls) matches Some(s) ==> 0 <= s <= text.len(),
    decreases text.len() - ls,
{
    if 0 <= ls <= text.len() {
        let cand = text.skip(ls);
        if !(starts_with(policy, cand) || starts_with(cand, policy)) {
            let nl = index_of(cand, '\n');
            let next = ls + nl + 1;
            if !(nl >= cand.len() || next >= text.len() || nl < 0) {
                lemma_candidate_bounds(text, policy, next);
            }
        }
    }
}

/// Without an echo of the policy line, the policy filter lets all of the
/// text through, holding back at most a tail of it (none when flushing).
pub proof fn lemma_filter_without_policy(buf: Seq<char>, flush: bool, policy: Seq<char>)
    requires
        !contains_seq(buf, policy),
    ensures
        filter_policy(buf, flush, policy, seq![]).0 + filter_policy(buf, flush, policy, seq![]).1 == buf,
        flush ==> filter_policy(buf, flush, policy, seq![]).1.len() == 0,
{
    lemma_candidate_bounds(buf, policy, 0);
    match candidate_from(buf, policy, 0) {
        None => {
            assert(buf + Seq::<char>::empty() == buf);
        },
        Some(s) => {
            let b = buf.skip(s);
            assert(Seq::<char>::empty() + buf.take(s) == buf.take(s));
            if starts_with(b, policy) {
                assert(buf.subrange(s, s + policy.len()) == b.take(policy.len() as int));
                assert(occurs_at(buf, policy, s));
            }
            assert(buf.take(s) + b == buf);
            assert(buf.take(s) + b + Seq::<char>::empty() == buf);
        },
    }
}

/// Text with neither opening wrapper and no echo of the policy line comes
/// out of a whole-text extraction unchanged, with no plan.
pub proof fn lemma_plain_text_passes_through(text: Seq<char>, policy: Seq<char>)
    requires
        !contains_seq(text, proposed_open()),
        !contains_seq(text, alt_open()),
        !contains_seq(text, policy),
    ensures
        extract_spec(text, policy) == (text, Option::<Seq<char>>::None),
{
    let st0 = initial_state();
    let (v, pp) = filter_policy(st0.policy_pending + text, false, policy, seq![]);
    assert(st0.policy_pending + text == text);
    lemma_filter_without_policy(text, false, policy);
    assert(v == text.take(v.len() as int));
    assert(pp == text.skip(v.len() as int));
    let a = PlanParserState { policy_pending: pp, pending: st0.pending + v, ..st0 };
    assert(st0.pending + v == v);
    lemma_no_occurrence_in_part(text, proposed_open(), 0, v.len() as int);
    lemma_no_occurrence_in_part(text, alt_open(), 0, v.len() as int);
    assert(text.subrange(0, v.len() as int) == v);
    lemma_no_open_tag(v);
    lemma_markup_rest_normal(a, seq![]);
    let k = holdback(v, normal_keep()) as int;
    lemma_holdback_bound(v, normal_keep());
    let (s1, v1) = consume_spec(st0, policy, text);
    assert(s1 == PlanParserState { pending: v.skip(k), ..a });
    assert(v1 == Seq::<char>::empty() + v.take(k));
    // finishing
    lemma_no_occurrence_in_part(text, policy, v.len() as int, text.len() as int);
    assert(text.subrange(v.len() as int, text.len() as int) == pp);
    lemma_filter_without_policy(pp, true, policy);
    let (vis0, pp2) = filter_policy(s1.policy_pending, true, policy, seq![]);
    assert(vis0 == pp);
    let b = PlanParserState { policy_pending: pp2, pending: s1.pending + vis0, ..s1 };
    assert(s1.pending + vis0 == text.skip(k)) by {
        assert(v.skip(k) + pp == text.skip(k));
    }
    lemma_no_occurrence_in_part(text, proposed_open(), k, text.len() as int);
    lemma_no_occurrence_in_part(text, alt_open(), k, text.len() as int);
    assert(text.subrange(k, text.len() as int) == text.skip(k));
    lemma_no_open_tag(text.skip(k));
    lemma_markup_rest_normal(b, seq![]);
    let k2 = holdback(b.pending, normal_keep()) as int;
    lemma_holdback_bound(b.pending, normal_keep());
    let (s2, v2, plan) = finish_spec(s1, policy);
    assert(v2 == Seq::<char>::empty() + b.pending.take(k2) + b.pending.skip(k2));
    assert(v2 == text.skip(k));
    assert(plan is None);
    assert(v.take(k) == text.take(k));
    assert(text.take(k) + text.skip(k) == text);
}

} // verus!
