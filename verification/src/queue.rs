//! The queue of inputs submitted while the agent is busy: strict first-in
//! first-out order, a one-shot promotion of the newest input, and batching
//! of consecutive Ctrl+Enter messages into one prompt.
//!
//! Attachments are carried through untouched; the queue only asks whether
//! an input has any.

use std::collections::VecDeque;
use vstd::prelude::*;
use crate::text::{byte_len, byte_len_capped, chars_of, extend_str, string_from, trim};

verus! {

/// A message the user submitted, with its attachments.
#[derive(Debug, Clone, PartialEq, Eq)]
pub struct SubmittedInput<A> {
    pub text: String,
    pub attachments: Vec<A>,
    /// Submitted with Ctrl+Enter, so it may be merged with its neighbours.
    pub batchable: bool,
}

impl<A> SubmittedInput<A> {
    /// A plain (Enter) submission.
    pub fn new(text: &str, attachments: Vec<A>) -> (r: Self)
        ensures
            r.text@ == text@,
            r.attachments@ == attachments@,
            !r.batchable,
    {
        SubmittedInput { text: text.to_owned(), attachments, batchable: false }
    }

    /// The same submission, marked as Ctrl+Enter.
    pub fn batchable(self) -> (r: Self)
        ensures
            r.text@ == self.text@,
            r.attachments@ == self.attachments@,
            r.batchable,
    {
        SubmittedInput { text: self.text, attachments: self.attachments, batchable: true }
    }

    pub fn has_attachments(&self) -> (b: bool)
        ensures
            b == (self.attachments@.len() > 0),
    {
        self.attachments.len() > 0
    }
}

/// A queued submission and the agent it was addressed to when queued.
#[derive(Debug, Clone, PartialEq, Eq)]
pub struct QueuedInput<A> {
    pub input: SubmittedInput<A>,
    pub primary_agent: Option<String>,
    /// Only Ctrl+Enter submissions are batchable; plain-Enter slash commands
    /// queued while busy must dispatch as their own turn.
    pub batchable: bool,
}

pub open spec fn opt_view(o: Option<String>) -> Option<Seq<char>> {
    match o {
        Some(s) => Some(s@),
        None => None,
    }
}

impl<A> QueuedInput<A> {
    /// Queue a submission; a blank agent name counts as none.
    pub fn new(input: SubmittedInput<A>, primary_agent: Option<String>) -> (r: Self)
        ensures
            r.batchable == input.batchable,
            r.input == input,
            opt_view(r.primary_agent) == (match opt_view(primary_agent) {
                Some(a) => if trim(a).len() > 0 {
                    Some(a)
                } else {
                    None
                },
                None => None,
            }),
    {
        let agent = match primary_agent {
            Some(name) => {
                let c = chars_of(name.as_str());
                if crate::text::is_blank(&c) {
                    None
                } else {
                    Some(name)
                }
            },
            None => None,
        };
        QueuedInput { batchable: input.batchable, input, primary_agent: agent }
    }

    /// `agent: text`, or the text alone.
    pub fn display_label(&self) -> (r: String)
        ensures
            r@ == (match opt_view(self.primary_agent) {
                Some(a) => a + ": "@ + self.input.text@,
                None => self.input.text@,
            }),
    {
        match &self.primary_agent {
            Some(agent) => {
                let mut out = chars_of(agent.as_str());
                extend_str(&mut out, ": ");
                extend_str(&mut out, self.input.text.as_str());
                string_from(&out)
            },
            None => {
                let r = self.input.text.clone();
                r
            },
        }
    }
}

/// Most items merged into one prompt.
pub const MAX_BATCH_ITEMS: usize = 32;
/// Most bytes of a merged prompt.
pub const MAX_BATCH_BYTES: usize = 65536;

/// Two messages are separated by a blank line when both have text.
pub open spec fn needs_separator(a: Seq<char>, b: Seq<char>) -> bool {
    trim(a).len() > 0 && trim(b).len() > 0
}

pub open spec fn merged_text(a: Seq<char>, b: Seq<char>) -> Seq<char> {
    if needs_separator(a, b) {
        a + seq!['\n', '\n'] + b
    } else {
        a + b
    }
}

pub open spec fn merged_len(a: Seq<char>, b: Seq<char>) -> nat {
    byte_len(a) + (if needs_separator(a, b) {
        2nat
    } else {
        0nat
    }) + byte_len(b)
}

/// `next` may join a batch with text `text` for `agent`: it is Ctrl+Enter,
/// has no attachments, is for the same agent, and the merged text stays
/// within the byte budget.
pub open spec fn joinable<A>(text: Seq<char>, next: QueuedInput<A>, agent: Option<Seq<char>>) -> bool {
    &&& next.batchable
    &&& next.input.attachments@.len() == 0
    &&& opt_view(next.primary_agent) == agent
    &&& merged_len(text, next.input.text@) <= MAX_BATCH_BYTES
}

/// The batch grown from `text` (holding `count` items) over the front of
/// `q`: its text, and how many items of `q` it took.
pub open spec fn batch_from<A>(
    text: Seq<char>,
    agent: Option<Seq<char>>,
    q: Seq<QueuedInput<A>>,
    count: nat,
) -> (Seq<char>, nat)
    decreases q.len(),
{
    if count >= MAX_BATCH_ITEMS || q.len() == 0 || !joinable(text, q[0], agent) {
        (text, 0)
    } else {
        let (t, k) = batch_from(merged_text(text, q[0].input.text@), agent, q.drop_first(), count + 1);
        (t, k + 1)
    }
}

/// The queue of submissions waiting for the agent.
pub struct InlineQueueState<A> {
    pub queued_inputs: VecDeque<QueuedInput<A>>,
    /// The next take runs the newest item instead of the oldest.
    pub prefer_latest_once: bool,
}

impl<A> InlineQueueState<A> {
    pub fn new() -> (r: Self)
        ensures
            r.queued_inputs@.len() == 0,
            !r.prefer_latest_once,
    {
        InlineQueueState { queued_inputs: VecDeque::new(), prefer_latest_once: false }
    }

    /// Queue a submission at the back.
    pub fn push(&mut self, input: SubmittedInput<A>, primary_agent: Option<String>)
        ensures
            final(self).queued_inputs@.len() == old(self).queued_inputs@.len() + 1,
            final(self).queued_inputs@.drop_last() == old(self).queued_inputs@,
            final(self).queued_inputs@.last().input == input,
            final(self).queued_inputs@.last().batchable == input.batchable,
            opt_view(final(self).queued_inputs@.last().primary_agent) == (match opt_view(primary_agent) {
                Some(a) => if trim(a).len() > 0 {
                    Some(a)
                } else {
                    None
                },
                None => None,
            }),
            final(self).prefer_latest_once == old(self).prefer_latest_once,
    {
        let q = QueuedInput::new(input, primary_agent);
        self.queued_inputs.push_back(q);
        assert(self.queued_inputs@.drop_last() =~= old(self).queued_inputs@);
    }

    /// The next submission: the oldest, or the newest once after a
    /// promotion (which this clears).
    pub fn take_next_submission(&mut self) -> (r: Option<QueuedInput<A>>)
        ensures
            !final(self).prefer_latest_once,
            old(self).queued_inputs@.len() == 0 ==> r is None && final(self).queued_inputs@.len() == 0,
            old(self).queued_inputs@.len() > 0 && old(self).prefer_latest_once ==> r == Some(
                old(self).queued_inputs@.last(),
            ) && final(self).queued_inputs@ == old(self).queued_inputs@.drop_last(),
            old(self).queued_inputs@.len() > 0 && !old(self).prefer_latest_once ==> r == Some(
                old(self).queued_inputs@[0],
            ) && final(self).queued_inputs@ == old(self).queued_inputs@.drop_first(),
    {
        if self.prefer_latest_once {
            self.prefer_latest_once = false;
            self.queued_inputs.pop_back()
        } else {
            self.queued_inputs.pop_front()
        }
    }

    /// Pop the next submission plus every following batchable text-only
    /// submission for the same agent, joined into ONE combined prompt so
    /// several queued Ctrl+Enter messages reach the model in a single turn
    /// instead of one turn each. Non-batchable items (plain Enter, attachments,
    /// agent changes) stop the batch and dispatch alone on their own turns.
    pub fn take_batched_submission(&mut self) -> (r: Option<QueuedInput<A>>)
        ensures
            !final(self).prefer_latest_once,
            old(self).queued_inputs@.len() == 0 ==> r is None && final(self).queued_inputs@.len() == 0,
            old(self).queued_inputs@.len() > 0 && old(self).prefer_latest_once ==> r == Some(
                old(self).queued_inputs@.last(),
            ) && final(self).queued_inputs@ == old(self).queued_inputs@.drop_last(),
            ({
                let q = old(self).queued_inputs@;
                let head = q[0];
                q.len() > 0 && !old(self).prefer_latest_once && (!head.batchable
                    || head.input.attachments@.len() > 0) ==> r == Some(head)
                    && final(self).queued_inputs@ == q.drop_first()
            }),
            ({
                let q = old(self).queued_inputs@;
                let head = q[0];
                let (t, k) = batch_from(head.input.text@, opt_view(head.primary_agent), q.drop_first(), 1);
                q.len() > 0 && !old(self).prefer_latest_once && head.batchable
                    && head.input.attachments@.len() == 0 ==> (r matches Some(b) && b.input.text@ == t
                    && b.input.attachments == head.input.attachments && b.input.batchable
                    == head.input.batchable && b.primary_agent == head.primary_agent && b.batchable
                    == head.batchable && final(self).queued_inputs@ == q.drop_first().skip(k as int))
            }),
    {
        let promoted_latest = self.prefer_latest_once;
        let mut batch = match self.take_next_submission() {
            Some(b) => b,
            None => return None,
        };
        if !batch.batchable || promoted_latest || batch.input.has_attachments() {
            return Some(batch);
        }
        let ghost rest = self.queued_inputs@;
        let ghost agent = opt_view(batch.primary_agent);
        let ghost head_text = batch.input.text@;
        let ghost head = batch;
        let mut batched_count: usize = 1;
        let mut taken: usize = 0;
        let cap: u128 = (MAX_BATCH_BYTES as u128) + 1;
        assert(rest.skip(0) == rest);
        while batched_count < MAX_BATCH_ITEMS && self.queued_inputs.len() > 0
            invariant
                1 <= batched_count <= MAX_BATCH_ITEMS,
                batched_count == taken + 1,
                taken <= rest.len(),
                cap == MAX_BATCH_BYTES + 1,
                self.queued_inputs@ == rest.skip(taken as int),
                !self.prefer_latest_once,
                agent == opt_view(batch.primary_agent),
                batch.input.attachments == head.input.attachments,
                batch.input.batchable == head.input.batchable,
                batch.primary_agent == head.primary_agent,
                batch.batchable == head.batchable,
                batch_from(head_text, agent, rest, 1) == ({
                    let (t, k) = batch_from(batch.input.text@, agent, rest.skip(taken as int), batched_count as nat);
                    (t, (k + taken) as nat)
                }),
            ensures
                batch_from(batch.input.text@, agent, rest.skip(taken as int), batched_count as nat) == (
                batch.input.text@, 0nat),
            decreases rest.len() - taken,
        {
            let ghost q = self.queued_inputs@;
            let next = &self.queued_inputs[0];
            let same_agent = match (&next.primary_agent, &batch.primary_agent) {
                (Some(a), Some(b)) => {
                    let ac = chars_of(a.as_str());
                    let bc = chars_of(b.as_str());
                    crate::text::seq_eq(&ac, &bc)
                },
                (None, None) => true,
                _ => false,
            };
            assert(same_agent == (opt_view(next.primary_agent) == agent));
            assert(*next == q[0]);
            if !next.batchable || next.input.has_attachments() || !same_agent {
                assert(!joinable(batch.input.text@, q[0], agent));
                break;
            }
            let bt = chars_of(batch.input.text.as_str());
            let nt = chars_of(next.input.text.as_str());
            let needs_sep = !crate::text::is_blank(&bt) && !crate::text::is_blank(&nt);
            let bl = byte_len_capped(&bt, cap);
            let nl = byte_len_capped(&nt, cap);
            let sep: u128 = if needs_sep {
                2
            } else {
                0
            };
            assert(needs_sep == needs_separator(batch.input.text@, next.input.text@));
            if bl + sep + nl > MAX_BATCH_BYTES as u128 {
                assert(merged_len(batch.input.text@, next.input.text@) > MAX_BATCH_BYTES);
                assert(!joinable(batch.input.text@, q[0], agent));
                break;
            }
            assert(merged_len(batch.input.text@, next.input.text@) <= MAX_BATCH_BYTES);
            assert(joinable(batch.input.text@, q[0], agent));
            let next = match self.queued_inputs.pop_front() {
                Some(n) => n,
                None => break,
            };
            proof {
                assert(q.drop_first() == rest.skip(taken + 1));
                assert(next == q[0]);
            }
            let ghost old_text = batch.input.text@;
            batched_count += 1;
            taken += 1;
            let mut merged = bt;
            if needs_sep {
                merged.push('\n');
                merged.push('\n');
            }
            extend_str(&mut merged, next.input.text.as_str());
            batch.input.text = string_from(&merged);
            assert(batch.input.text@ == merged_text(old_text, next.input.text@));
        }
        Some(batch)
    }

    /// Make the next take run the newest queued item, if any.
    pub fn prefer_latest_next(&mut self)
        ensures
            final(self).prefer_latest_once == (old(self).queued_inputs@.len() > 0),
            final(self).queued_inputs@ == old(self).queued_inputs@,
    {
        self.prefer_latest_once = self.queued_inputs.len() > 0;
    }

    /// Take back the newest queued item's text for editing.
    pub fn edit_latest(&mut self) -> (r: Option<String>)
        ensures
            old(self).queued_inputs@.len() == 0 ==> r is None && final(self).queued_inputs@.len() == 0
                && final(self).prefer_latest_once == old(self).prefer_latest_once,
            old(self).queued_inputs@.len() > 0 ==> opt_view(r) == Some(
                old(self).queued_inputs@.last().input.text@,
            ) && final(self).queued_inputs@ == old(self).queued_inputs@.drop_last()
                && !final(self).prefer_latest_once,
    {
        let result = match self.queued_inputs.pop_back() {
            Some(queued) => Some(queued.input.text),
            None => None,
        };
        if result.is_some() {
            self.prefer_latest_once = false;
        }
        result
    }

    /// Drop every queued item.
    pub fn clear(&mut self)
        ensures
            final(self).queued_inputs@.len() == 0,
            !final(self).prefer_latest_once,
    {
        self.queued_inputs.clear();
        self.prefer_latest_once = false;
    }

    /// Preserve queued inputs across an interrupt: reset any one-shot
    /// latest-promotion without dropping user-queued work. Returns the
    /// preserved count.
    pub fn preserve_on_interrupt(&mut self) -> (n: usize)
        ensures
            n == old(self).queued_inputs@.len(),
            final(self).queued_inputs@ == old(self).queued_inputs@,
            !final(self).prefer_latest_once,
    {
        self.prefer_latest_once = false;
        self.queued_inputs.len()
    }

    /// The labels of the queued items, oldest first, for the queue display.
    pub fn display_labels(&self) -> (r: Vec<String>)
        ensures
            r@.len() == self.queued_inputs@.len(),
            forall|i: int| 0 <= i < r@.len() ==> #[trigger] r@[i]@ == (match opt_view(
                self.queued_inputs@[i].primary_agent,
            ) {
                Some(a) => a + ": "@ + self.queued_inputs@[i].input.text@,
                None => self.queued_inputs@[i].input.text@,
            }),
    {
        let mut out: Vec<String> = Vec::new();
        let mut i: usize = 0;
        while i < self.queued_inputs.len()
            invariant
                i <= self.queued_inputs@.len(),
                out@.len() == i,
                forall|j: int| 0 <= j < i ==> #[trigger] out@[j]@ == (match opt_view(
                    self.queued_inputs@[j].primary_agent,
                ) {
                    Some(a) => a + ": "@ + self.queued_inputs@[j].input.text@,
                    None => self.queued_inputs@[j].input.text@,
                }),
            decreases self.queued_inputs@.len() - i,
        {
            let label = self.queued_inputs[i].display_label();
            out.push(label);
            i += 1;
        }
        out
    }
}

proof fn lemma_merged_len(a: Seq<char>, b: Seq<char>)
    ensures
        byte_len(merged_text(a, b)) == merged_len(a, b),
{
    if needs_separator(a, b) {
        let nl = seq!['\n', '\n'];
        crate::text::lemma_byte_len_append(a, nl);
        crate::text::lemma_byte_len_append(a + nl, b);
        assert(nl.drop_first().drop_first().len() == 0);
        assert(byte_len(nl.drop_first().drop_first()) == 0);
        assert(nl.drop_first()[0] == '\n');
        assert(crate::text::char_width('\n') == 1);
        assert(byte_len(nl.drop_first()) == 1);
        assert(byte_len(nl) == 2);
    } else {
        crate::text::lemma_byte_len_append(a, b);
    }
}

/// A batch never grows past its limits: it takes items only from the front
/// of the queue, holds at most `MAX_BATCH_ITEMS` items in all, and once it
/// has taken an item its text fits in `MAX_BATCH_BYTES` bytes.
pub proof fn lemma_batch_limits<A>(
    text: Seq<char>,
    agent: Option<Seq<char>>,
    q: Seq<QueuedInput<A>>,
    count: nat,
)
    requires
        1 <= count <= MAX_BATCH_ITEMS,
    ensures
        batch_from(text, agent, q, count).1 <= q.len(),
        count + batch_from(text, agent, q, count).1 <= MAX_BATCH_ITEMS,
        batch_from(text, agent, q, count).1 > 0 ==> byte_len(batch_from(text, agent, q, count).0)
            <= MAX_BATCH_BYTES,
        batch_from(text, agent, q, count).1 == 0 ==> batch_from(text, agent, q, count).0 == text,
    decreases q.len(),
{
    if !(count >= MAX_BATCH_ITEMS || q.len() == 0 || !joinable(text, q[0], agent)) {
        let m = merged_text(text, q[0].input.text@);
        lemma_merged_len(text, q[0].input.text@);
        lemma_batch_limits(m, agent, q.drop_first(), count + 1);
    }
}

} // verus!
