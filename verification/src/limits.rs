//! Choices offered when a turn reaches its tool-loop limit.

use vstd::prelude::*;
use crate::text::{chars_of, dec, extend_str, push_dec, string_from};

verus! {

/// Standard tool-loop grant candidates, largest first.
pub const TOOL_LOOP_GRANT_CANDIDATES: [usize; 3] = [50, 20, 10];

pub open spec fn number_word(n: nat) -> Seq<char> {
    if n == 50 {
        " fifty"@
    } else if n == 20 {
        " twenty"@
    } else if n == 10 {
        " ten"@
    } else {
        seq![]
    }
}

pub open spec fn search_value_text(n: nat) -> Seq<char> {
    "increase "@ + dec(n) + number_word(n) + " plus more continue"@
}

/// Search terms of a grant choice: the number, its word for the standard
/// candidates, and the words people type to continue.
pub fn tool_loop_search_value(increment: usize) -> (r: String)
    ensures
        r@ == search_value_text(increment as nat),
{
    let mut out = chars_of("increase ");
    push_dec(&mut out, increment);
    let word = if increment == 50 {
        " fifty"
    } else if increment == 20 {
        " twenty"
    } else if increment == 10 {
        " ten"
    } else {
        ""
    };
    proof {
        reveal_strlit("");
    }
    extend_str(&mut out, word);
    extend_str(&mut out, " plus more continue");
    string_from(&out)
}

/// The standard candidates that fit in `r`, largest first.
pub open spec fn fitting_candidates(r: nat) -> Seq<nat> {
    (if 50 <= r {
        seq![50nat]
    } else {
        seq![]
    }) + (if 20 <= r {
        seq![20nat]
    } else {
        seq![]
    }) + (if 10 <= r {
        seq![10nat]
    } else {
        seq![]
    })
}

/// The grant choices for the remaining headroom: none without headroom;
/// the fitting candidates, after the exact remainder when it is below the
/// largest candidate and not one of them; the remainder alone when no
/// candidate fits.
pub open spec fn grant_options(r: nat) -> Seq<nat> {
    let viable = fitting_candidates(r);
    if r == 0 {
        seq![]
    } else if viable.len() == 0 {
        seq![r]
    } else if r < 50 && !viable.contains(r) {
        seq![r] + viable
    } else {
        viable
    }
}

/// Every grant offered fits in the remaining headroom, the choices come
/// largest first without repeats, and there is a choice exactly when there
/// is headroom.
pub proof fn lemma_grant_options_fit(r: nat)
    ensures
        forall|i: int| 0 <= i < grant_options(r).len() ==> 0 < #[trigger] grant_options(r)[i] <= r,
        forall|i: int, j: int|
            0 <= i < j < grant_options(r).len() ==> grant_options(r)[i] > grant_options(r)[j],
        (grant_options(r).len() == 0) == (r == 0),
{
    let g = grant_options(r);
    if r >= 50 {
        assert(fitting_candidates(r) =~= seq![50nat, 20nat, 10nat]);
        assert(g =~= seq![50nat, 20nat, 10nat]);
    } else if r > 20 {
        assert(fitting_candidates(r) =~= seq![20nat, 10nat]);
        assert(g =~= seq![r, 20nat, 10nat]);
    } else if r == 20 {
        assert(fitting_candidates(r) =~= seq![20nat, 10nat]);
        assert(fitting_candidates(r)[0] == r);
        assert(fitting_candidates(r).contains(r));
        assert(g =~= seq![20nat, 10nat]);
    } else if r > 10 {
        assert(fitting_candidates(r) =~= seq![10nat]);
        assert(g =~= seq![r, 10nat]);
    } else if r == 10 {
        assert(fitting_candidates(r) =~= seq![10nat]);
        assert(fitting_candidates(r)[0] == r);
        assert(fitting_candidates(r).contains(r));
        assert(g =~= seq![10nat]);
    } else if r > 0 {
        assert(fitting_candidates(r) =~= Seq::<nat>::empty());
        assert(g =~= seq![r]);
    }
}

pub open spec fn nat_views(v: Seq<usize>) -> Seq<nat> {
    v.map_values(|x: usize| x as nat)
}

/// Viable grant increments for the remaining headroom below the hard cap.
///
/// Filters the standard candidates to those that fit, and prepends the exact
/// remaining headroom as a one-shot "reaches cap" option when it is smaller
/// than the largest candidate (e.g. remaining 40 -> `[40, 20, 10]`). When the
/// remaining headroom is smaller than every candidate (e.g. 5), returns just
/// the remainder so the turn can consume the cap without another prompt loop.
/// Returns empty when there is no headroom.
pub fn tool_loop_grant_options(remaining_headroom: usize) -> (r: Vec<usize>)
    ensures
        nat_views(r@) == grant_options(remaining_headroom as nat),
        forall|i: int| 0 <= i < r@.len() ==> 0 < #[trigger] r@[i] <= remaining_headroom,
        forall|i: int, j: int| 0 <= i < j < r@.len() ==> r@[i] > r@[j],
        (r@.len() == 0) == (remaining_headroom == 0),
{
    if remaining_headroom == 0 {
        let v: Vec<usize> = Vec::new();
        assert(nat_views(v@) =~= grant_options(0));
        return v;
    }
    let mut viable: Vec<usize> = Vec::new();
    let mut i: usize = 0;
    let ghost r = remaining_headroom as nat;
    while i < 3
        invariant
            i <= 3,
            r == remaining_headroom,
            TOOL_LOOP_GRANT_CANDIDATES@ == seq![50usize, 20usize, 10usize],
            nat_views(viable@) == (if i >= 1 && 50 <= r {
                seq![50nat]
            } else {
                seq![]
            }) + (if i >= 2 && 20 <= r {
                seq![20nat]
            } else {
                seq![]
            }) + (if i >= 3 && 10 <= r {
                seq![10nat]
            } else {
                seq![]
            }),
        decreases 3 - i,
    {
        let candidate = TOOL_LOOP_GRANT_CANDIDATES[i];
        let ghost before = viable@;
        if candidate <= remaining_headroom {
            viable.push(candidate);
            assert(nat_views(viable@) =~= nat_views(before).push(candidate as nat));
        }
        i += 1;
        assert(nat_views(viable@) =~= (if i >= 1 && 50 <= r {
            seq![50nat]
        } else {
            seq![]
        }) + (if i >= 2 && 20 <= r {
            seq![20nat]
        } else {
            seq![]
        }) + (if i >= 3 && 10 <= r {
            seq![10nat]
        } else {
            seq![]
        }));
    }
    assert(nat_views(viable@) == fitting_candidates(r));
    if viable.len() == 0 {
        let v = vec![remaining_headroom];
        assert(nat_views(v@) =~= grant_options(r));
        return v;
    }
    let largest_candidate = TOOL_LOOP_GRANT_CANDIDATES[0];
    let mut contains = false;
    let mut k: usize = 0;
    while k < viable.len()
        invariant
            k <= viable@.len(),
            contains == (exists|j: int| 0 <= j < k && viable@[j] == remaining_headroom),
        decreases viable.len() - k,
    {
        if viable[k] == remaining_headroom {
            contains = true;
        }
        k += 1;
    }
    proof {
        assert(contains == nat_views(viable@).contains(r)) by {
            if contains {
                let j = choose|j: int| 0 <= j < k && viable@[j] == remaining_headroom;
                assert(nat_views(viable@)[j] == r);
            }
            if nat_views(viable@).contains(r) {
                let j = choose|j: int| 0 <= j < nat_views(viable@).len() && nat_views(viable@)[j] == r;
                assert(viable@[j] == remaining_headroom);
            }
        }
    }
    if remaining_headroom < largest_candidate && !contains {
        let ghost before = viable@;
        viable.insert(0, remaining_headroom);
        assert(nat_views(viable@) =~= seq![r] + nat_views(before));
    }
    proof {
        lemma_grant_options_fit(r);
        assert forall|i: int| 0 <= i < viable@.len() implies viable@[i] == nat_views(viable@)[i] by {}
    }
    viable
}


// ---------------------------------------------------------------------------
// Limit prompts
// ---------------------------------------------------------------------------

/// What choosing a row of a limit prompt answers: a grant of more calls,
/// or no grant.
#[derive(Debug, Clone, Copy, PartialEq, Eq, Structural)]
pub enum LimitSelection {
    Increase(usize),
    Deny,
}

/// One row of a limit prompt.
#[derive(Debug, Clone, PartialEq, Eq)]
pub struct LimitOption {
    pub title: String,
    pub subtitle: Option<String>,
    pub selection: Option<LimitSelection>,
    pub search_value: Option<String>,
}

pub struct LimitOptionView {
    pub title: Seq<char>,
    pub subtitle: Option<Seq<char>>,
    pub selection: Option<LimitSelection>,
    pub search_value: Option<Seq<char>>,
}

pub open spec fn opt_text(o: Option<String>) -> Option<Seq<char>> {
    match o {
        Some(s) => Some(s@),
        None => None,
    }
}

impl View for LimitOption {
    type V = LimitOptionView;

    open spec fn view(&self) -> LimitOptionView {
        LimitOptionView {
            title: self.title@,
            subtitle: opt_text(self.subtitle),
            selection: self.selection,
            search_value: opt_text(self.search_value),
        }
    }
}

/// A limit prompt: its title, its explanation, its rows and the grant
/// selected at first.
#[derive(Debug, Clone)]
pub struct LimitPrompt {
    pub title: String,
    pub lines: Vec<String>,
    pub options: Vec<LimitOption>,
    pub default_increment: usize,
}

pub open spec fn texts(v: Seq<String>) -> Seq<Seq<char>> {
    v.map_values(|s: String| s@)
}

pub open spec fn option_views(v: Seq<LimitOption>) -> Seq<LimitOptionView> {
    v.map_values(|o: LimitOption| o@)
}

pub open spec fn row(
    title: Seq<char>,
    subtitle: Option<Seq<char>>,
    selection: Option<LimitSelection>,
    search_value: Option<Seq<char>>,
) -> LimitOptionView {
    LimitOptionView { title, subtitle, selection, search_value }
}

pub open spec fn spacer() -> LimitOptionView {
    row(seq![], None, None, None)
}

/// The agent's name, or `unknown`.
pub open spec fn agent_label(agent: Option<Seq<char>>) -> Seq<char> {
    match agent {
        Some(a) => a,
        None => "unknown"@,
    }
}

pub open spec fn opt_str(o: Option<&str>) -> Option<Seq<char>> {
    match o {
        Some(s) => Some(s@),
        None => None,
    }
}

/// The explanation of the session-limit prompt.
pub open spec fn session_limit_lines(max_limit: nat, agent: Option<Seq<char>>) -> Seq<Seq<char>> {
    seq![
        "Session tool limit reached: "@ + dec(max_limit),
        "Current agent: "@ + agent_label(agent),
        "Grant an increase to retry the pending tool call in this turn."@,
        "Deny stops the call; reuse the outputs already gathered for the next response."@,
    ]
}

/// The rows of the session-limit prompt: a hundred more calls, fifty more,
/// a spacer, and deny.
pub open spec fn session_limit_rows() -> Seq<LimitOptionView> {
    seq![
        row(
            "+100 tool calls"@,
            Some("Increase the session limit by 100"@),
            Some(LimitSelection::Increase(100)),
            Some("increase 100 hundred plus more"@),
        ),
        row(
            "+50 tool calls"@,
            Some("Increase the session limit by 50"@),
            Some(LimitSelection::Increase(50)),
            Some("increase 50 fifty plus more"@),
        ),
        spacer(),
        row(
            "Deny"@,
            Some("Do not increase limit (stops tool execution)"@),
            Some(LimitSelection::Deny),
            Some("deny no exit stop cancel"@),
        ),
    ]
}

fn text(s: &str) -> (r: Option<String>)
    ensures
        opt_text(r) == Some(s@),
{
    Some(s.to_owned())
}

fn limit_row(title: String, subtitle: Option<String>, selection: Option<LimitSelection>, search_value: Option<String>) -> (r:
    LimitOption)
    ensures
        r@ == row(title@, opt_text(subtitle), selection, opt_text(search_value)),
{
    LimitOption { title, subtitle, selection, search_value }
}

fn agent_line(agent_name: Option<&str>) -> (r: String)
    ensures
        r@ == "Current agent: "@ + agent_label(opt_str(agent_name)),
{
    let mut out = chars_of("Current agent: ");
    match agent_name {
        Some(a) => extend_str(&mut out, a),
        None => extend_str(&mut out, "unknown"),
    }
    string_from(&out)
}

/// The prompt shown when the session's tool-call limit is reached.
pub fn session_limit_prompt(max_limit: usize, agent_name: Option<&str>) -> (r: LimitPrompt)
    ensures
        r.title@ == "Session Limit Reached"@,
        texts(r.lines@) == session_limit_lines(max_limit as nat, opt_str(agent_name)),
        option_views(r.options@) == session_limit_rows(),
        r.default_increment == 100,
{
    let mut first = chars_of("Session tool limit reached: ");
    push_dec(&mut first, max_limit);
    let mut lines: Vec<String> = Vec::new();
    lines.push(string_from(&first));
    lines.push(agent_line(agent_name));
    lines.push("Grant an increase to retry the pending tool call in this turn.".to_owned());
    lines.push("Deny stops the call; reuse the outputs already gathered for the next response.".to_owned());
    assert(texts(lines@) =~= session_limit_lines(max_limit as nat, opt_str(agent_name)));
    let mut options: Vec<LimitOption> = Vec::new();
    options.push(
        limit_row(
            "+100 tool calls".to_owned(),
            text("Increase the session limit by 100"),
            Some(LimitSelection::Increase(100)),
            text("increase 100 hundred plus more"),
        ),
    );
    options.push(
        limit_row(
            "+50 tool calls".to_owned(),
            text("Increase the session limit by 50"),
            Some(LimitSelection::Increase(50)),
            text("increase 50 fifty plus more"),
        ),
    );
    options.push(limit_row(String::new(), None, None, None));
    options.push(
        limit_row(
            "Deny".to_owned(),
            text("Do not increase limit (stops tool execution)"),
            Some(LimitSelection::Deny),
            text("deny no exit stop cancel"),
        ),
    );
    assert(option_views(options@) =~= session_limit_rows());
    LimitPrompt { title: "Session Limit Reached".to_owned(), lines, options, default_increment: 100 }
}

/// The explanation of the tool-loop prompt.
pub open spec fn tool_loop_lines(max_limit: nat, hard_cap: nat, remaining: nat, agent: Option<Seq<char>>) -> Seq<
    Seq<char>,
> {
    seq![
        "Maximum tool loops reached: "@ + dec(max_limit) + " (cap "@ + dec(hard_cap) + ", "@ + dec(remaining)
            + " remaining)"@,
        "Current agent: "@ + agent_label(agent),
        "Grant more loops to continue this turn with the current agent."@,
        "Stop synthesizes from the outputs already gathered."@,
    ]
}

/// The row granting `n` more loops; the one that uses up the headroom
/// says so.
pub open spec fn grant_row(n: nat, remaining: nat) -> LimitOptionView {
    row(
        "+"@ + dec(n) + " tool loops"@,
        Some(
            "Continue with "@ + dec(n) + (if n == remaining {
                " more tool loops (reaches cap)"@
            } else {
                " more tool loops"@
            }),
        ),
        Some(LimitSelection::Increase(n as usize)),
        Some(search_value_text(n)),
    )
}

/// The rows of the tool-loop prompt: one per grant that fits, a spacer, and
/// stop.
pub open spec fn tool_loop_rows(remaining: nat) -> Seq<LimitOptionView> {
    grant_options(remaining).map_values(|n: nat| grant_row(n, remaining)) + seq![
        spacer(),
        row(
            "Stop"@,
            Some("Stop the current turn and wait for input"@),
            Some(LimitSelection::Deny),
            Some("stop no exit cancel done"@),
        ),
    ]
}

/// The prompt shown when a turn reaches its tool-loop limit, or nothing
/// when the hard cap leaves no room for a grant.
pub fn tool_loop_limit_prompt(max_limit: usize, hard_cap: usize, agent_name: Option<&str>) -> (r: Option<
    LimitPrompt,
>)
    ensures
        ({
            let remaining: nat = if hard_cap >= max_limit {
                (hard_cap - max_limit) as nat
            } else {
                0
            };
            match r {
                None => remaining == 0 || grant_options(remaining).len() == 0,
                Some(p) => {
                    &&& remaining > 0
                    &&& grant_options(remaining).len() > 0
                    &&& p.title@ == "Tool Loop Limit Reached"@
                    &&& texts(p.lines@) == tool_loop_lines(
                        max_limit as nat,
                        hard_cap as nat,
                        remaining,
                        opt_str(agent_name),
                    )
                    &&& option_views(p.options@) == tool_loop_rows(remaining)
                    &&& p.default_increment == grant_options(remaining)[0]
                },
            }
        }),
{
    let remaining = if hard_cap >= max_limit {
        hard_cap - max_limit
    } else {
        0
    };
    if remaining == 0 {
        return None;
    }
    let viable = tool_loop_grant_options(remaining);
    if viable.len() == 0 {
        return None;
    }
    let ghost gv = nat_views(viable@);
    let mut first = chars_of("Maximum tool loops reached: ");
    push_dec(&mut first, max_limit);
    extend_str(&mut first, " (cap ");
    push_dec(&mut first, hard_cap);
    extend_str(&mut first, ", ");
    push_dec(&mut first, remaining);
    extend_str(&mut first, " remaining)");
    let mut lines: Vec<String> = Vec::new();
    lines.push(string_from(&first));
    lines.push(agent_line(agent_name));
    lines.push("Grant more loops to continue this turn with the current agent.".to_owned());
    lines.push("Stop synthesizes from the outputs already gathered.".to_owned());
    assert(texts(lines@) =~= tool_loop_lines(max_limit as nat, hard_cap as nat, remaining as nat, opt_str(agent_name)));
    let mut options: Vec<LimitOption> = Vec::new();
    let mut i: usize = 0;
    while i < viable.len()
        invariant
            i <= viable@.len(),
            gv == nat_views(viable@),
            gv == grant_options(remaining as nat),
            option_views(options@) == gv.take(i as int).map_values(|n: nat| grant_row(n, remaining as nat)),
        decreases viable.len() - i,
    {
        let n = viable[i];
        let mut title = chars_of("+");
        push_dec(&mut title, n);
        extend_str(&mut title, " tool loops");
        let mut sub = chars_of("Continue with ");
        push_dec(&mut sub, n);
        if n == remaining {
            extend_str(&mut sub, " more tool loops (reaches cap)");
        } else {
            extend_str(&mut sub, " more tool loops");
        }
        let ghost before = option_views(options@);
        options.push(
            limit_row(
                string_from(&title),
                Some(string_from(&sub)),
                Some(LimitSelection::Increase(n)),
                Some(tool_loop_search_value(n)),
            ),
        );
        proof {
            assert(gv[i as int] == n as nat);
            assert(option_views(options@) =~= before.push(grant_row(n as nat, remaining as nat)));
            assert(gv.take(i + 1).map_values(|m: nat| grant_row(m, remaining as nat)) =~= gv.take(
                i as int,
            ).map_values(|m: nat| grant_row(m, remaining as nat)).push(grant_row(n as nat, remaining as nat)));
        }
        i += 1;
    }
    assert(gv.take(i as int) =~= gv);
    let ghost grants = option_views(options@);
    options.push(limit_row(String::new(), None, None, None));
    options.push(
        limit_row(
            "Stop".to_owned(),
            text("Stop the current turn and wait for input"),
            Some(LimitSelection::Deny),
            text("stop no exit cancel done"),
        ),
    );
    assert(option_views(options@) =~= tool_loop_rows(remaining as nat));
    let default_increment = viable[0];
    Some(LimitPrompt { title: "Tool Loop Limit Reached".to_owned(), lines, options, default_increment })
}

/// How a limit prompt ended.
#[derive(Debug, Clone, Copy, PartialEq, Eq, Structural)]
pub enum PromptOutcome {
    /// A row was chosen.
    Submitted(LimitSelection),
    Cancelled,
    Interrupted,
    Exit,
    /// The prompt gave way to another input and is shown again.
    Deferred,
}

/// The answer of a limit prompt: `Some(grant)` when it is settled (no grant
/// for a denial, a cancellation, an interrupt or an exit), `None` when the
/// prompt is shown again.
pub fn limit_prompt_answer(outcome: PromptOutcome) -> (r: Option<Option<usize>>)
    ensures
        r == match outcome {
            PromptOutcome::Submitted(LimitSelection::Increase(n)) => if n == 0 {
                Some(None::<usize>)
            } else {
                Some(Some(n))
            },
            PromptOutcome::Deferred => None,
            _ => Some(None),
        },
{
    match outcome {
        PromptOutcome::Submitted(LimitSelection::Increase(n)) => {
            if n == 0 {
                Some(None)
            } else {
                Some(Some(n))
            }
        },
        PromptOutcome::Deferred => None,
        _ => Some(None),
    }
}

// ---------------------------------------------------------------------------
// Session tool-call limit
// ---------------------------------------------------------------------------

/// How many times one tool call may ask for a larger session limit.
pub const MAX_LIMIT_INCREASE_PROMPTS: u32 = 5;

/// What the safety validator answered for a tool call.
#[derive(Debug, Clone)]
pub enum SafetyAnswer {
    Passed,
    SessionLimitReached { max: usize },
    NeedsApproval(String),
    Refused,
}

/// What to do next with a tool call held at the session limit.
#[derive(Debug, Clone)]
pub enum LimitStep {
    /// Run the call.
    Proceed,
    /// Give up: the limit was not increased.
    NotIncreased,
    /// Claim an automatic increase (full-auto runs).
    ClaimAutoGrant,
    /// Ask the user for an increase of the limit `max`.
    PromptIncrease { max: usize },
    /// Raise the limit by `increment`, report the grant, and validate again.
    RecordGrant { increment: usize, attempts: u32, auto_granted: bool },
    /// Ask for approval, with this justification.
    NeedsApproval(String),
    /// The validator's refusal stands.
    Refused,
}

/// The prompts and grants of one tool call held at the session limit.
#[derive(Debug, Clone, Copy)]
pub struct SessionLimitGate {
    pub attempts: u32,
    pub auto_grant: bool,
}

impl SessionLimitGate {
    pub fn new(auto_grant: bool) -> (g: Self)
        ensures
            g.attempts == 0,
            g.auto_grant == auto_grant,
    {
        SessionLimitGate { attempts: 0, auto_grant }
    }

    /// The step after the validator's answer. Each time the limit is
    /// reached counts as an attempt; past five the call gives up.
    pub fn on_answer(&mut self, answer: SafetyAnswer) -> (r: LimitStep)
        ensures
            match answer {
                SafetyAnswer::SessionLimitReached { max } => {
                    &&& final(self).attempts == (if old(self).attempts == u32::MAX {
                        u32::MAX
                    } else {
                        (old(self).attempts + 1) as u32
                    })
                    &&& final(self).auto_grant == old(self).auto_grant
                    &&& if final(self).attempts > MAX_LIMIT_INCREASE_PROMPTS {
                        r is NotIncreased
                    } else if old(self).auto_grant {
                        r is ClaimAutoGrant
                    } else {
                        r matches LimitStep::PromptIncrease { max: m } && m == max
                    }
                },
                SafetyAnswer::Passed => r is Proceed && *final(self) == *old(self),
                SafetyAnswer::NeedsApproval(j) => (r matches LimitStep::NeedsApproval(k) && k@ == j@) && *final(self)
                    == *old(self),
                SafetyAnswer::Refused => r is Refused && *final(self) == *old(self),
            },
    {
        match answer {
            SafetyAnswer::Passed => LimitStep::Proceed,
            SafetyAnswer::NeedsApproval(j) => LimitStep::NeedsApproval(j),
            SafetyAnswer::Refused => LimitStep::Refused,
            SafetyAnswer::SessionLimitReached { max } => {
                if self.attempts < u32::MAX {
                    self.attempts = self.attempts + 1;
                }
                if self.attempts > MAX_LIMIT_INCREASE_PROMPTS {
                    LimitStep::NotIncreased
                } else if self.auto_grant {
                    LimitStep::ClaimAutoGrant
                } else {
                    LimitStep::PromptIncrease { max }
                }
            },
        }
    }

    /// The step after claiming an automatic increase of `granted` calls:
    /// none left gives up.
    pub fn on_auto_grant(&self, granted: usize) -> (r: LimitStep)
        ensures
            granted == 0 ==> r is NotIncreased,
            granted > 0 ==> (r matches LimitStep::RecordGrant { increment, attempts, auto_granted } && increment
                == granted && attempts == self.attempts && auto_granted),
    {
        if granted == 0 {
            LimitStep::NotIncreased
        } else {
            LimitStep::RecordGrant { increment: granted, attempts: self.attempts, auto_granted: true }
        }
    }

    /// The step after the user answered the prompt.
    pub fn on_prompt_answer(&self, answer: Option<usize>) -> (r: LimitStep)
        ensures
            match answer {
                Some(increment) => r matches LimitStep::RecordGrant { increment: i, attempts, auto_granted } && i
                    == increment && attempts == self.attempts && !auto_granted,
                None => r is NotIncreased,
            },
    {
        match answer {
            Some(increment) => LimitStep::RecordGrant { increment, attempts: self.attempts, auto_granted: false },
            None => LimitStep::NotIncreased,
        }
    }
}

/// The report of a session-limit grant.
pub open spec fn grant_message(
    agent: Option<Seq<char>>,
    tool: Seq<char>,
    increment: nat,
    new_limit: nat,
    auto_granted: bool,
) -> Seq<char> {
    let tail = " session tool calls"@;
    if auto_granted {
        "Full-auto auto-granted +"@ + dec(increment) + " session tool calls to current agent "@ + agent_label(agent)
            + " (limit "@ + dec(new_limit) + "); retrying the pending "@ + tool
            + " call in this turn. Reuse existing tool outputs for subsequent calls."@
    } else {
        "Current agent "@ + agent_label(agent) + " granted +"@ + dec(increment) + tail + " (limit "@ + dec(new_limit)
            + "); retrying the pending "@ + tool + " call in this turn. Reuse existing tool outputs for subsequent calls."@
    }
}

/// The message reporting that the session limit grew by `increment` to
/// `new_limit` for the pending call of `tool_name`.
pub fn session_limit_grant_message(
    agent_name: Option<&str>,
    tool_name: &str,
    increment: usize,
    new_limit: usize,
    auto_granted: bool,
) -> (r: String)
    ensures
        r@ == grant_message(opt_str(agent_name), tool_name@, increment as nat, new_limit as nat, auto_granted),
{
    let mut out: Vec<char>;
    if auto_granted {
        out = chars_of("Full-auto auto-granted +");
        push_dec(&mut out, increment);
        extend_str(&mut out, " session tool calls to current agent ");
        match agent_name {
            Some(a) => extend_str(&mut out, a),
            None => extend_str(&mut out, "unknown"),
        }
    } else {
        out = chars_of("Current agent ");
        match agent_name {
            Some(a) => extend_str(&mut out, a),
            None => extend_str(&mut out, "unknown"),
        }
        extend_str(&mut out, " granted +");
        push_dec(&mut out, increment);
        extend_str(&mut out, " session tool calls");
    }
    extend_str(&mut out, " (limit ");
    push_dec(&mut out, new_limit);
    extend_str(&mut out, "); retrying the pending ");
    extend_str(&mut out, tool_name);
    extend_str(&mut out, " call in this turn. Reuse existing tool outputs for subsequent calls.");
    string_from(&out)
}

} // verus!
