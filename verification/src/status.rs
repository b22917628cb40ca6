//! The bottom status line: which components it shows, without repeats, and
//! how they are joined.

use vstd::prelude::*;
use crate::permission::space_joined;
use crate::text::{
    chars_of, dec, extend_str, join_strings, joined_with, push_dec, split_words, string_from,
    trim, trimmed, views, words, seq_eq,
};

verus! {

pub open spec fn string_views(v: Seq<String>) -> Seq<Seq<char>> {
    v.map_values(|s: String| s@)
}

pub open spec fn opt_view(o: Option<String>) -> Option<Seq<char>> {
    match o {
        Some(s) => Some(s@),
        None => None,
    }
}

pub open spec fn opt_str_view(o: Option<&str>) -> Option<Seq<char>> {
    match o {
        Some(s) => Some(s@),
        None => None,
    }
}

/// A component's words with single spaces between them, for comparison.
pub open spec fn dedup_key(v: Seq<char>) -> Seq<char> {
    space_joined(words(v))
}

/// Collapse the whitespace of a component for duplicate detection.
pub fn normalize_for_dedup(value: &str) -> (r: String)
    ensures
        r@ == dedup_key(value@),
{
    let c = chars_of(value);
    let ws = split_words(&c);
    let ghost wv = views(ws@);
    let mut out: Vec<char> = Vec::new();
    let mut i: usize = 0;
    proof {
        assert(wv.take(0).len() == 0);
    }
    while i < ws.len()
        invariant
            i <= ws@.len(),
            wv == views(ws@),
            out@ == space_joined(wv.take(i as int)),
        decreases ws.len() - i,
    {
        proof {
            assert(wv.take(i + 1).drop_last() == wv.take(i as int));
            assert(wv.take(i + 1).last() == ws@[i as int]@);
        }
        if i > 0 {
            out.push(' ');
        } else {
            assert(wv.take(1)[0] == ws@[0]@);
            assert(out@ == Seq::<char>::empty());
        }
        crate::text::extend_all(&mut out, &ws[i]);
        i += 1;
    }
    assert(wv.take(i as int) == wv);
    string_from(&out)
}

/// `values` with `value` added, trimmed, unless it is blank or equals an
/// existing component up to whitespace.
pub open spec fn with_unique(values: Seq<Seq<char>>, value: Seq<char>) -> Seq<Seq<char>> {
    let t = trim(value);
    if t.len() == 0 {
        values
    } else if exists|i: int| 0 <= i < values.len() && dedup_key(#[trigger] values[i]) == dedup_key(t) {
        values
    } else {
        values.push(t)
    }
}

/// Adds a component unless it is blank or already shown.
pub fn push_unique(values: &mut Vec<String>, value: String)
    ensures
        string_views(final(values)@) == with_unique(string_views(old(values)@), value@),
{
    let c = chars_of(value.as_str());
    let t = trimmed(&c);
    if t.len() == 0 {
        return;
    }
    let ts = string_from(&t);
    let normalized = normalize_for_dedup(ts.as_str());
    let n = chars_of(normalized.as_str());
    let ghost vs = string_views(values@);
    let mut i: usize = 0;
    while i < values.len()
        invariant
            i <= values@.len(),
            vs == string_views(values@),
            values@ == old(values)@,
            t@ == trim(value@),
            t@.len() > 0,
            n@ == dedup_key(t@),
            forall|j: int| 0 <= j < i ==> dedup_key(#[trigger] vs[j]) != dedup_key(t@),
        decreases values.len() - i,
    {
        let existing = normalize_for_dedup(values[i].as_str());
        let e = chars_of(existing.as_str());
        if seq_eq(&e, &n) {
            assert(dedup_key(vs[i as int]) == dedup_key(t@));
            return;
        }
        i += 1;
    }
    values.push(ts);
    assert(string_views(values@) =~= vs.push(t@));
}

/// The trimmed components that are not blank.
pub open spec fn nonblank_trimmed(values: Seq<Seq<char>>) -> Seq<Seq<char>>
    decreases values.len(),
{
    if values.len() == 0 {
        seq![]
    } else {
        let rest = nonblank_trimmed(values.drop_last());
        if trim(values.last()).len() > 0 {
            rest.push(trim(values.last()))
        } else {
            rest
        }
    }
}

/// The components joined with ` · `, or nothing when all are blank.
pub open spec fn status_text(values: Seq<Seq<char>>) -> Option<Seq<char>> {
    let parts = nonblank_trimmed(values);
    if parts.len() == 0 {
        None
    } else {
        Some(joined_with(parts, " \u{b7} "@))
    }
}

/// Join status components with ` · `, dropping blank ones.
pub fn join_status_components(values: Vec<String>) -> (r: Option<String>)
    ensures
        opt_view(r) == status_text(string_views(values@)),
{
    let ghost vs = string_views(values@);
    let mut parts: Vec<String> = Vec::new();
    let mut i: usize = 0;
    proof {
        assert(vs.take(0).len() == 0);
        assert(string_views(parts@) =~= Seq::<Seq<char>>::empty());
    }
    while i < values.len()
        invariant
            i <= values@.len(),
            vs == string_views(values@),
            string_views(parts@) == nonblank_trimmed(vs.take(i as int)),
        decreases values.len() - i,
    {
        proof {
            assert(vs.take(i + 1).drop_last() == vs.take(i as int));
            assert(vs.take(i + 1).last() == values@[i as int]@);
        }
        let c = chars_of(values[i].as_str());
        let t = trimmed(&c);
        if t.len() > 0 {
            let ghost before = string_views(parts@);
            parts.push(string_from(&t));
            assert(string_views(parts@) =~= before.push(t@));
        }
        i += 1;
    }
    assert(vs.take(i as int) == vs);
    if parts.len() == 0 {
        None
    } else {
        let r = join_strings(&parts, " \u{b7} ");
        assert(parts@.map_values(|s: String| s@) == string_views(parts@));
        Some(r)
    }
}

/// The components of the left and right sides of the bottom status line.
#[derive(Debug, Clone)]
pub struct BottomStatusLayout {
    pub left: Vec<String>,
    pub right: Vec<String>,
}

impl BottomStatusLayout {
    /// The text of each side, if it shows anything.
    pub fn into_status(self) -> (r: (Option<String>, Option<String>))
        ensures
            opt_view(r.0) == status_text(string_views(self.left@)),
            opt_view(r.1) == status_text(string_views(self.right@)),
    {
        (join_status_components(self.left), join_status_components(self.right))
    }
}

/// What the automatic status components read of the status state: costs
/// come already formatted (`{:.4}` of the cost in dollars, `{:.0}` of the
/// cache hit percentage).
#[derive(Debug, Clone, Default)]
pub struct StatusInputs {
    pub show_costs: bool,
    pub balance: Option<String>,
    pub cost_usd: Option<String>,
    pub cache_hit_pct: Option<String>,
    pub clock: Option<String>,
}

pub open spec fn cancel_part(is_cancelling: bool) -> Seq<Seq<char>> {
    if is_cancelling {
        seq!["CANCELLING..."@]
    } else {
        seq![]
    }
}

pub open spec fn thread_part(thread_context: Option<Seq<char>>) -> Seq<Seq<char>> {
    match thread_context {
        Some(t) => if trim(t).len() > 0 {
            seq![trim(t)]
        } else {
            seq![]
        },
        None => seq![],
    }
}

pub open spec fn labeled_part(prefix: Seq<char>, value: Option<Seq<char>>, suffix: Seq<char>) -> Seq<Seq<char>> {
    match value {
        Some(v) => seq![prefix + v + suffix],
        None => seq![],
    }
}

pub open spec fn cost_parts(
    show_costs: bool,
    balance: Option<Seq<char>>,
    cost: Option<Seq<char>>,
    cache: Option<Seq<char>>,
) -> Seq<Seq<char>> {
    if show_costs {
        labeled_part("Balance: "@, balance, seq![]) + labeled_part("Cost: $"@, cost, seq![])
            + labeled_part("Cache: "@, cache, seq!['%'])
    } else {
        seq![]
    }
}

pub open spec fn spooled_part(spooled_files: Option<usize>) -> Seq<Seq<char>> {
    match spooled_files {
        Some(n) => if n > 0 {
            seq![dec(n as nat) + " spooled"@]
        } else {
            seq![]
        },
        None => seq![],
    }
}

pub open spec fn clock_part(clock: Option<Seq<char>>) -> Seq<Seq<char>> {
    match clock {
        Some(c) => seq![c],
        None => seq![],
    }
}

/// The candidate components, in order, before duplicates are dropped:
/// `CANCELLING...` while cancelling, the thread label, the balance, cost and
/// cache hit rate when costs are shown, the count of spooled files when
/// there are any, and the clock.
pub open spec fn status_candidates(
    thread_context: Option<Seq<char>>,
    is_cancelling: bool,
    spooled_files: Option<usize>,
    show_costs: bool,
    balance: Option<Seq<char>>,
    cost: Option<Seq<char>>,
    cache: Option<Seq<char>>,
    clock: Option<Seq<char>>,
) -> Seq<Seq<char>> {
    cancel_part(is_cancelling) + thread_part(thread_context) + cost_parts(show_costs, balance, cost, cache)
        + spooled_part(spooled_files) + clock_part(clock)
}

/// The components kept from `values`, in order, by `with_unique`.
pub open spec fn unique_components(values: Seq<Seq<char>>) -> Seq<Seq<char>>
    decreases values.len(),
{
    if values.len() == 0 {
        seq![]
    } else {
        with_unique(unique_components(values.drop_last()), values.last())
    }
}

/// The components kept from `parts`, in order, by `push_unique`.
fn unique_in_order(parts: &Vec<String>) -> (r: Vec<String>)
    ensures
        string_views(r@) == unique_components(string_views(parts@)),
{
    let ghost cands = string_views(parts@);
    let mut deduped: Vec<String> = Vec::new();
    let mut i: usize = 0;
    proof {
        assert(cands.take(0).len() == 0);
        assert(string_views(deduped@) =~= Seq::<Seq<char>>::empty());
    }
    while i < parts.len()
        invariant
            i <= parts@.len(),
            string_views(parts@) == cands,
            string_views(deduped@) == unique_components(cands.take(i as int)),
        decreases parts.len() - i,
    {
        proof {
            assert(cands.take(i + 1).drop_last() == cands.take(i as int));
            assert(cands.take(i + 1).last() == parts@[i as int]@);
        }
        let value = parts[i].clone();
        push_unique(&mut deduped, value);
        i += 1;
    }
    assert(cands.take(i as int) == cands);
    deduped
}

/// Appends `prefix + value + suffix` to `parts` when `value` is present.
fn push_labeled(parts: &mut Vec<String>, prefix: &str, value: &Option<String>, suffix: &str)
    ensures
        string_views(final(parts)@) == string_views(old(parts)@) + labeled_part(
            prefix@,
            opt_view(*value),
            suffix@,
        ),
{
    let ghost before = string_views(parts@);
    if let Some(v) = value {
        let mut out = chars_of(prefix);
        extend_str(&mut out, v.as_str());
        extend_str(&mut out, suffix);
        parts.push(string_from(&out));
        assert(string_views(parts@) =~= before + seq![prefix@ + v@ + suffix@]);
    } else {
        assert(string_views(parts@) =~= before + Seq::<Seq<char>>::empty());
    }
}

fn push_thread(parts: &mut Vec<String>, thread_context: Option<&str>)
    ensures
        string_views(final(parts)@) == string_views(old(parts)@) + thread_part(opt_str_view(thread_context)),
{
    let ghost before = string_views(parts@);
    if let Some(t) = thread_context {
        let c = chars_of(t);
        let tt = trimmed(&c);
        if tt.len() > 0 {
            parts.push(string_from(&tt));
        }
    }
    assert(string_views(parts@) =~= before + thread_part(opt_str_view(thread_context)));
}

fn push_costs(parts: &mut Vec<String>, state: &StatusInputs)
    ensures
        string_views(final(parts)@) == string_views(old(parts)@) + cost_parts(
            state.show_costs,
            opt_view(state.balance),
            opt_view(state.cost_usd),
            opt_view(state.cache_hit_pct),
        ),
{
    let ghost before = string_views(parts@);
    if state.show_costs {
        proof {
            reveal_strlit("");
        }
        push_labeled(parts, "Balance: ", &state.balance, "");
        push_labeled(parts, "Cost: $", &state.cost_usd, "");
        push_labeled(parts, "Cache: ", &state.cache_hit_pct, "%");
        proof {
            reveal_strlit("%");
            assert(""@ == Seq::<char>::empty());
            assert("%"@ == seq!['%']);
        }
    }
    assert(string_views(parts@) =~= before + cost_parts(
        state.show_costs,
        opt_view(state.balance),
        opt_view(state.cost_usd),
        opt_view(state.cache_hit_pct),
    ));
}

fn push_spooled(parts: &mut Vec<String>, spooled_files: Option<usize>)
    ensures
        string_views(final(parts)@) == string_views(old(parts)@) + spooled_part(spooled_files),
{
    let ghost before = string_views(parts@);
    if let Some(count) = spooled_files {
        if count > 0 {
            let mut out: Vec<char> = Vec::new();
            push_dec(&mut out, count);
            extend_str(&mut out, " spooled");
            parts.push(string_from(&out));
        }
    }
    assert(string_views(parts@) =~= before + spooled_part(spooled_files));
}

/// The candidate components, in order.
fn candidate_components(
    thread_context: Option<&str>,
    is_cancelling: bool,
    spooled_files: Option<usize>,
    state: &StatusInputs,
) -> (parts: Vec<String>)
    ensures
        string_views(parts@) == status_candidates(
            opt_str_view(thread_context),
            is_cancelling,
            spooled_files,
            state.show_costs,
            opt_view(state.balance),
            opt_view(state.cost_usd),
            opt_view(state.cache_hit_pct),
            opt_view(state.clock),
        ),
{
    let mut parts: Vec<String> = Vec::new();
    if is_cancelling {
        parts.push("CANCELLING...".to_owned());
    }
    assert(string_views(parts@) =~= cancel_part(is_cancelling));
    push_thread(&mut parts, thread_context);
    push_costs(&mut parts, state);
    push_spooled(&mut parts, spooled_files);
    let ghost before = string_views(parts@);
    if let Some(clock) = &state.clock {
        parts.push(clock.clone());
    }
    assert(string_views(parts@) =~= before + clock_part(opt_view(state.clock)));
    parts
}

/// The automatic right-side components: cancellation, thread, costs,
/// spooled files and clock, without blanks or repeats.
pub fn auto_status_components(
    thread_context: Option<&str>,
    is_cancelling: bool,
    spooled_files: Option<usize>,
    state: &StatusInputs,
) -> (r: Vec<String>)
    ensures
        string_views(r@) == unique_components(
            status_candidates(
                opt_str_view(thread_context),
                is_cancelling,
                spooled_files,
                state.show_costs,
                opt_view(state.balance),
                opt_view(state.cost_usd),
                opt_view(state.cache_hit_pct),
                opt_view(state.clock),
            ),
        ),
{
    let parts = candidate_components(thread_context, is_cancelling, spooled_files, state);
    unique_in_order(&parts)
}

/// The status text for a thread, cancellation and spooled-file count, with
/// nothing else shown.
pub fn build_model_status_with_context_and_spooled(
    thread_context: Option<&str>,
    is_cancelling: bool,
    spooled_files: Option<usize>,
) -> (r: Option<String>)
    ensures
        opt_view(r) == status_text(
            unique_components(
                status_candidates(
                    opt_str_view(thread_context),
                    is_cancelling,
                    spooled_files,
                    false,
                    None,
                    None,
                    None,
                    None,
                ),
            ),
        ),
{
    let state = StatusInputs {
        show_costs: false,
        balance: None,
        cost_usd: None,
        cache_hit_pct: None,
        clock: None,
    };
    join_status_components(auto_status_components(thread_context, is_cancelling, spooled_files, &state))
}

// ---------------------------------------------------------------------------
// Tracked status values
// ---------------------------------------------------------------------------

/// The branch of the workspace's repository and whether its tree is dirty.
#[derive(Debug, Clone, Default)]
pub struct GitSummary {
    pub branch: String,
    pub dirty: bool,
}

/// The status values kept between refreshes: what was last shown, the
/// values the line is built from, when the Git summary and the status
/// command last ran (milliseconds on a monotonic clock), the clock, the
/// cached display names and the terminal-title values last sent.
#[derive(Debug, Clone, Default)]
pub struct StatusTracker {
    pub left: Option<String>,
    pub right: Option<String>,
    pub git_left: Option<String>,
    pub git_summary: Option<GitSummary>,
    pub last_git_refresh_ms: Option<u64>,
    pub command_value: Option<String>,
    pub last_command_refresh_ms: Option<u64>,
    pub is_cancelling: bool,
    pub spooled_files_count: Option<usize>,
    pub thread_context: Option<String>,
    pub inputs: StatusInputs,
    pub status_dirty: bool,
    pub input_status_sync_pending: bool,
    pub last_clock_second: Option<u64>,
    pub clock_string_second: Option<u64>,
    pub cached_model_input: Option<String>,
    pub cached_model_display: Option<String>,
    pub cached_reasoning_input: Option<String>,
    pub cached_reasoning_cleaned: String,
    pub last_title_items: Option<Vec<String>>,
    pub last_title_thread_label: Option<String>,
    pub last_title_git_branch: Option<String>,
}

/// Update spooled files count in status state: the line becomes dirty only
/// when the count changes.
pub fn update_spooled_files_count(state: &mut StatusTracker, count: usize)
    ensures
        (*final(state) == StatusTracker {
            spooled_files_count: Some(count),
            status_dirty: old(state).status_dirty || old(state).spooled_files_count != Some(count),
            ..*old(state)
        }),
{
    if state.spooled_files_count != Some(count) {
        state.spooled_files_count = Some(count);
        state.status_dirty = true;
    }
}

/// The thread label with the count of local agents (`N agent`/`N agents`)
/// after ` · `, or nothing when both are empty.
pub open spec fn thread_context_value(label: Seq<char>, agents: usize) -> Option<Seq<char>> {
    let base = trim(label);
    let suffix = dec(agents as nat) + (if agents == 1 {
        " agent"@
    } else {
        " agents"@
    });
    let value = if agents > 0 {
        if base.len() == 0 {
            suffix
        } else {
            base + " \u{b7} "@ + suffix
        }
    } else {
        base
    };
    if trim(value).len() > 0 {
        Some(value)
    } else {
        None
    }
}

fn same_text(a: &Option<String>, b: &Option<String>) -> (r: bool)
    ensures
        r == (opt_view(*a) == opt_view(*b)),
{
    match (a, b) {
        (Some(x), Some(y)) => {
            let xv = chars_of(x.as_str());
            let yv = chars_of(y.as_str());
            seq_eq(&xv, &yv)
        },
        (None, None) => true,
        _ => false,
    }
}

/// Set the thread shown in the status line; the line becomes dirty only
/// when the shown value changes.
pub fn update_thread_context(state: &mut StatusTracker, thread_label: &str, local_agent_count: usize)
    ensures
        opt_view(final(state).thread_context) == thread_context_value(thread_label@, local_agent_count),
        final(state).status_dirty == (old(state).status_dirty || opt_view(old(state).thread_context)
            != thread_context_value(thread_label@, local_agent_count)),
        opt_view(old(state).thread_context) == thread_context_value(thread_label@, local_agent_count) ==> *final(state) == *old(state),
        (*final(state) == StatusTracker {
            thread_context: final(state).thread_context,
            status_dirty: final(state).status_dirty,
            ..*old(state)
        }),
{
    let c = chars_of(thread_label);
    let mut value = trimmed(&c);
    if local_agent_count > 0 {
        let mut suffix: Vec<char> = Vec::new();
        push_dec(&mut suffix, local_agent_count);
        if local_agent_count == 1 {
            extend_str(&mut suffix, " agent");
        } else {
            extend_str(&mut suffix, " agents");
        }
        if value.len() == 0 {
            value = suffix;
        } else {
            extend_str(&mut value, " \u{b7} ");
            crate::text::extend_all(&mut value, &suffix);
        }
    }
    let nonblank = !crate::text::is_blank(&value);
    let new_value: Option<String> = if nonblank {
        Some(string_from(&value))
    } else {
        None
    };
    assert(opt_view(new_value) == thread_context_value(thread_label@, local_agent_count));
    if !same_text(&state.thread_context, &new_value) {
        state.thread_context = new_value;
        state.status_dirty = true;
    }
}

/// Whether the clock display would change at second `now` since the last
/// recorded second; records `now`.
pub fn clock_second_ticked_at(state: &mut StatusTracker, now: u64) -> (changed: bool)
    ensures
        changed == (old(state).last_clock_second != Some(now)),
        (*final(state) == StatusTracker { last_clock_second: Some(now), ..*old(state) }),
{
    let changed = match state.last_clock_second {
        Some(prev) => prev != now,
        None => true,
    };
    state.last_clock_second = Some(now);
    changed
}

/// Keep the clock of second `now_second`: cleared when the clock is not
/// shown; otherwise `formatted_now` (the clock text of that second) replaces
/// the shown text only when there is none or it is of another second.
pub fn update_clock(state: &mut StatusTracker, show_clock: bool, now_second: u64, formatted_now: &str)
    ensures
        !show_clock ==> (*final(state) == StatusTracker {
            inputs: StatusInputs { clock: None, ..old(state).inputs },
            clock_string_second: None,
            ..*old(state)
        }),
        show_clock && (old(state).inputs.clock is None || old(state).clock_string_second != Some(now_second)) ==> opt_view(
            final(state).inputs.clock,
        ) == Some(formatted_now@),
        show_clock && (old(state).inputs.clock is None || old(state).clock_string_second != Some(now_second)) ==> (
        *final(state) == StatusTracker {
            inputs: StatusInputs { clock: final(state).inputs.clock, ..old(state).inputs },
            clock_string_second: Some(now_second),
            ..*old(state)
        }),
        show_clock && !(old(state).inputs.clock is None || old(state).clock_string_second != Some(now_second)) ==> *final(state) == *old(state),
{
    if !show_clock {
        state.inputs.clock = None;
        state.clock_string_second = None;
        return;
    }
    if state.inputs.clock.is_none() || state.clock_string_second != Some(now_second) {
        state.clock_string_second = Some(now_second);
        state.inputs.clock = Some(formatted_now.to_owned());
    }
}

/// Invalidate state that depends on the live status-line configuration:
/// the line is rebuilt and re-sent, the Git summary and the status command
/// run again, and the last command output is dropped.
pub fn invalidate_for_config_reload(state: &mut StatusTracker)
    ensures
        (*final(state) == StatusTracker {
            status_dirty: true,
            input_status_sync_pending: true,
            last_git_refresh_ms: None,
            last_command_refresh_ms: None,
            command_value: None,
            ..*old(state)
        }),
{
    state.status_dirty = true;
    state.input_status_sync_pending = true;
    state.last_git_refresh_ms = None;
    state.last_command_refresh_ms = None;
    state.command_value = None;
}

/// Forget the shown status after the line was cleared: the next refresh
/// sends the status again.
pub fn clear_input_status(state: &mut StatusTracker)
    ensures
        (*final(state) == StatusTracker {
            left: None,
            right: None,
            status_dirty: true,
            input_status_sync_pending: true,
            ..*old(state)
        }),
{
    state.left = None;
    state.right = None;
    state.status_dirty = true;
    state.input_status_sync_pending = true;
}

// ---------------------------------------------------------------------------
// Configuration of the status line
// ---------------------------------------------------------------------------

/// What the bottom status line shows.
#[derive(Debug, Clone, Copy, PartialEq, Eq, Structural)]
pub enum StatusLineMode {
    Auto,
    Command,
    Hidden,
    Unknown,
}

/// The status-line settings the refresh reads: the effective mode, the
/// status command, whether the clock is shown, and how often the command
/// runs.
#[derive(Debug, Clone)]
pub struct StatusLineSettings {
    pub mode: StatusLineMode,
    pub command: Option<String>,
    pub show_clock: bool,
    pub refresh_interval_ms: u64,
}

pub open spec fn mode_of(settings: Option<&StatusLineSettings>) -> StatusLineMode {
    match settings {
        Some(s) => s.mode,
        None => StatusLineMode::Auto,
    }
}

/// The status command of the settings, trimmed, when it is not blank.
pub open spec fn command_of(settings: Option<&StatusLineSettings>) -> Option<Seq<char>> {
    match settings {
        Some(s) => match s.command {
            Some(c) => if trim(c@).len() > 0 {
                Some(trim(c@))
            } else {
                None
            },
            None => None,
        },
        None => None,
    }
}

/// The automatic components are shown in automatic mode, and in command
/// mode when there is no command to run.
pub fn status_line_shows_auto_components(settings: Option<&StatusLineSettings>) -> (b: bool)
    ensures
        b == match mode_of(settings) {
            StatusLineMode::Auto | StatusLineMode::Unknown => true,
            StatusLineMode::Command => command_of(settings) is None,
            StatusLineMode::Hidden => false,
        },
{
    let mode = match settings {
        Some(s) => s.mode,
        None => StatusLineMode::Auto,
    };
    match mode {
        StatusLineMode::Auto | StatusLineMode::Unknown => true,
        StatusLineMode::Command => configured_command(settings).is_none(),
        StatusLineMode::Hidden => false,
    }
}

/// The clock is shown unless the settings turn it off.
pub fn status_line_shows_clock(settings: Option<&StatusLineSettings>) -> (b: bool)
    ensures
        b == match settings {
            Some(s) => s.show_clock,
            None => true,
        },
{
    match settings {
        Some(s) => s.show_clock,
        None => true,
    }
}

fn configured_command(settings: Option<&StatusLineSettings>) -> (r: Option<String>)
    ensures
        opt_view(r) == command_of(settings),
{
    match settings {
        Some(s) => match &s.command {
            Some(c) => {
                let cc = chars_of(c.as_str());
                let t = trimmed(&cc);
                if t.len() > 0 {
                    Some(string_from(&t))
                } else {
                    None
                }
            },
            None => None,
        },
        None => None,
    }
}

// ---------------------------------------------------------------------------
// Refreshing the status line
// ---------------------------------------------------------------------------

/// How long the Git summary is reused before it is read again.
pub const GIT_STATUS_REFRESH_INTERVAL_MS: u64 = 2000;
/// Marks a dirty working tree after the branch name.
pub const HEADER_GIT_DIRTY_SUFFIX: &'static str = "*";
/// Marks a clean working tree after the branch name.
pub const HEADER_GIT_CLEAN_SUFFIX: &'static str = "";

/// Milliseconds from `last` to `now` (none when the clock went back).
pub open spec fn elapsed(last: u64, now: u64) -> nat {
    if now >= last {
        (now - last) as nat
    } else {
        0
    }
}

/// The Git summary is due when it was never read or is two seconds old.
pub open spec fn git_refresh_due(state: StatusTracker, now_ms: u64) -> bool {
    match state.last_git_refresh_ms {
        Some(last) => elapsed(last, now_ms) >= GIT_STATUS_REFRESH_INTERVAL_MS,
        None => true,
    }
}

/// Start a refresh at `now_ms`: a hidden line drops its Git text. Whether
/// the Git summary is to be read again.
pub fn begin_status_refresh(state: &mut StatusTracker, settings: Option<&StatusLineSettings>, now_ms: u64) -> (refresh_git:
    bool)
    ensures
        refresh_git == git_refresh_due(*old(state), now_ms),
        (*final(state) == StatusTracker {
            git_left: if mode_of(settings) == StatusLineMode::Hidden {
                None
            } else {
                old(state).git_left
            },
            ..*old(state)
        }),
{
    let hidden = match settings {
        Some(s) => s.mode == StatusLineMode::Hidden,
        None => false,
    };
    if hidden {
        state.git_left = None;
    }
    match state.last_git_refresh_ms {
        Some(last) => {
            let gone = if now_ms >= last {
                now_ms - last
            } else {
                0
            };
            gone >= GIT_STATUS_REFRESH_INTERVAL_MS
        },
        None => true,
    }
}

/// What reading the Git summary gave.
#[derive(Debug, Clone)]
pub enum GitRefresh {
    /// The workspace is a repository with this summary.
    Summary(GitSummary),
    /// The workspace is not a repository.
    NoRepository,
    /// The summary could not be read.
    Failed,
}

/// The Git text of the status line: the branch and its dirty or clean
/// mark, or the mark alone for an unnamed branch.
pub open spec fn git_display(branch: Seq<char>, dirty: bool) -> Seq<char> {
    let mark = if dirty {
        HEADER_GIT_DIRTY_SUFFIX@
    } else {
        HEADER_GIT_CLEAN_SUFFIX@
    };
    if branch.len() == 0 {
        mark
    } else {
        branch + mark
    }
}

/// Record what reading the Git summary at `now_ms` gave.
pub fn apply_git_refresh(state: &mut StatusTracker, refresh: GitRefresh, hidden: bool, now_ms: u64)
    ensures
        final(state).last_git_refresh_ms == Some(now_ms),
        match refresh {
            GitRefresh::Summary(s) => {
                &&& opt_view(final(state).git_left) == (if hidden {
                    None
                } else {
                    Some(git_display(s.branch@, s.dirty))
                })
                &&& final(state).git_summary == Some(s)
            },
            _ => final(state).git_left is None && final(state).git_summary is None,
        },
        (*final(state) == StatusTracker {
            git_left: final(state).git_left,
            git_summary: final(state).git_summary,
            last_git_refresh_ms: Some(now_ms),
            ..*old(state)
        }),
{
    match refresh {
        GitRefresh::Summary(summary) => {
            let mark = if summary.dirty {
                HEADER_GIT_DIRTY_SUFFIX
            } else {
                HEADER_GIT_CLEAN_SUFFIX
            };
            let mut display = chars_of(summary.branch.as_str());
            if display.len() == 0 {
                display = chars_of(mark);
            } else {
                extend_str(&mut display, mark);
            }
            state.git_left = if hidden {
                None
            } else {
                Some(string_from(&display))
            };
            state.git_summary = Some(summary);
        },
        _ => {
            state.git_left = None;
            state.git_summary = None;
        },
    }
    state.last_git_refresh_ms = Some(now_ms);
}

/// The right-side components without those naming the Git branch (trimmed,
/// up to ASCII case).
pub open spec fn without_branch(values: Seq<Seq<char>>, branch: Option<Seq<char>>) -> Seq<Seq<char>>
    decreases values.len(),
{
    if values.len() == 0 {
        seq![]
    } else {
        let rest = without_branch(values.drop_last(), branch);
        match branch {
            Some(b) => if crate::text::eq_ignore_case(trim(values.last()), trim(b)) {
                rest
            } else {
                rest.push(values.last())
            },
            None => rest.push(values.last()),
        }
    }
}

pub open spec fn branch_of(state: StatusTracker) -> Option<Seq<char>> {
    match state.git_summary {
        Some(s) => Some(s.branch@),
        None => None,
    }
}

/// The automatic layout: the Git text on the left; on the right the
/// automatic components except one naming the branch.
pub open spec fn auto_layout(state: StatusTracker) -> (Seq<Seq<char>>, Seq<Seq<char>>) {
    (
        match state.git_left {
            Some(g) => seq![g@],
            None => seq![],
        },
        without_branch(
            unique_components(
                status_candidates(
                    opt_view(state.thread_context),
                    state.is_cancelling,
                    state.spooled_files_count,
                    state.inputs.show_costs,
                    opt_view(state.inputs.balance),
                    opt_view(state.inputs.cost_usd),
                    opt_view(state.inputs.cache_hit_pct),
                    opt_view(state.inputs.clock),
                ),
            ),
            branch_of(state),
        ),
    )
}

/// The automatic layout of the bottom status line.
pub fn auto_status_layout(state: &StatusTracker) -> (r: BottomStatusLayout)
    ensures
        (string_views(r.left@), string_views(r.right@)) == auto_layout(*state),
{
    let thread = match &state.thread_context {
        Some(t) => Some(t.as_str()),
        None => None,
    };
    let components = auto_status_components(thread, state.is_cancelling, state.spooled_files_count, &state.inputs);
    let ghost cv = string_views(components@);
    let branch: Option<Vec<char>> = match &state.git_summary {
        Some(s) => {
            let b = chars_of(s.branch.as_str());
            Some(trimmed(&b))
        },
        None => None,
    };
    let mut right: Vec<String> = Vec::new();
    let mut i: usize = 0;
    while i < components.len()
        invariant
            i <= components@.len(),
            cv == string_views(components@),
            string_views(right@) == without_branch(cv.take(i as int), branch_of(*state)),
            match branch {
                Some(b) => branch_of(*state) matches Some(bs) && b@ == trim(bs),
                None => branch_of(*state) is None,
            },
        decreases components.len() - i,
    {
        proof {
            assert(cv.take(i + 1).drop_last() =~= cv.take(i as int));
            assert(cv.take(i + 1).last() == components@[i as int]@);
        }
        let keep = match &branch {
            Some(b) => {
                let c = chars_of(components[i].as_str());
                let t = trimmed(&c);
                !crate::text::eq_ignore_ascii_case(&t, b)
            },
            None => true,
        };
        if keep {
            let ghost before = string_views(right@);
            right.push(components[i].clone());
            assert(string_views(right@) =~= before.push(components@[i as int]@));
        }
        i += 1;
    }
    assert(cv.take(i as int) =~= cv);
    let mut left: Vec<String> = Vec::new();
    if let Some(g) = &state.git_left {
        left.push(g.clone());
    }
    assert(string_views(left@) =~= auto_layout(*state).0);
    BottomStatusLayout { left, right }
}

/// What the status line shows next, or the command to run first.
#[derive(Debug, Clone)]
pub enum StatusLayoutStep {
    /// Show these sides.
    Ready(Option<String>, Option<String>),
    /// Run this status command, record its output with
    /// `record_command_output`, and show that output on the left.
    RunCommand(String),
}

pub enum StatusLayoutView {
    Ready(Option<Seq<char>>, Option<Seq<char>>),
    RunCommand(Seq<char>),
}

pub open spec fn layout_view(s: StatusLayoutStep) -> StatusLayoutView {
    match s {
        StatusLayoutStep::Ready(l, r) => StatusLayoutView::Ready(opt_view(l), opt_view(r)),
        StatusLayoutStep::RunCommand(c) => StatusLayoutView::RunCommand(c@),
    }
}

/// The status command is due when it never ran, runs on every refresh, or
/// ran an interval ago.
pub open spec fn command_refresh_due(state: StatusTracker, interval_ms: u64, now_ms: u64) -> bool {
    match state.last_command_refresh_ms {
        Some(last) => interval_ms == 0 || elapsed(last, now_ms) >= interval_ms,
        None => true,
    }
}

pub open spec fn auto_sides(state: StatusTracker) -> StatusLayoutView {
    StatusLayoutView::Ready(status_text(auto_layout(state).0), status_text(auto_layout(state).1))
}

pub open spec fn interval_of(settings: Option<&StatusLineSettings>) -> u64 {
    match settings {
        Some(s) => s.refresh_interval_ms,
        None => 0,
    }
}

/// Lay out the status line at `now_ms`: nothing when hidden, the automatic
/// layout in automatic mode or without a command, else the command's
/// output, running the command first when it is due.
pub fn status_layout(state: &mut StatusTracker, settings: Option<&StatusLineSettings>, now_ms: u64) -> (r:
    StatusLayoutStep)
    ensures
        match mode_of(settings) {
            StatusLineMode::Hidden => {
                &&& layout_view(r) == StatusLayoutView::Ready(None, None)
                &&& (*final(state) == StatusTracker {
                    command_value: None,
                    last_command_refresh_ms: None,
                    ..*old(state)
                })
            },
            StatusLineMode::Auto | StatusLineMode::Unknown => {
                &&& layout_view(r) == auto_sides(*old(state))
                &&& *final(state) == *old(state)
            },
            StatusLineMode::Command => match command_of(settings) {
                Some(c) => if command_refresh_due(*old(state), interval_of(settings), now_ms) {
                    &&& layout_view(r) == StatusLayoutView::RunCommand(c)
                    &&& (*final(state) == StatusTracker { last_command_refresh_ms: Some(now_ms), ..*old(state) })
                } else {
                    &&& layout_view(r) == StatusLayoutView::Ready(opt_view(old(state).command_value), None)
                    &&& *final(state) == *old(state)
                },
                None => {
                    &&& layout_view(r) == auto_sides(*old(state))
                    &&& (*final(state) == StatusTracker { command_value: None, ..*old(state) })
                },
            },
        },
{
    let mode = match settings {
        Some(s) => s.mode,
        None => StatusLineMode::Auto,
    };
    match mode {
        StatusLineMode::Hidden => {
            state.command_value = None;
            state.last_command_refresh_ms = None;
            StatusLayoutStep::Ready(None, None)
        },
        StatusLineMode::Auto | StatusLineMode::Unknown => {
            let (l, r) = auto_status_layout(state).into_status();
            StatusLayoutStep::Ready(l, r)
        },
        StatusLineMode::Command => match configured_command(settings) {
            Some(command) => {
                let interval = match settings {
                    Some(s) => s.refresh_interval_ms,
                    None => 0,
                };
                let due = match state.last_command_refresh_ms {
                    Some(last) => {
                        let gone = if now_ms >= last {
                            now_ms - last
                        } else {
                            0
                        };
                        interval == 0 || gone >= interval
                    },
                    None => true,
                };
                if due {
                    state.last_command_refresh_ms = Some(now_ms);
                    StatusLayoutStep::RunCommand(command)
                } else {
                    let value = match &state.command_value {
                        Some(v) => Some(v.clone()),
                        None => None,
                    };
                    StatusLayoutStep::Ready(value, None)
                }
            },
            None => {
                state.command_value = None;
                let (l, r) = auto_status_layout(state).into_status();
                StatusLayoutStep::Ready(l, r)
            },
        },
    }
}

/// Record the output of a status command that ran; a failed run keeps the
/// previous output. The sides to show: the output on the left.
pub fn record_command_output(state: &mut StatusTracker, output: Option<Option<String>>) -> (r: (
    Option<String>,
    Option<String>,
))
    ensures
        match output {
            Some(o) => opt_view(final(state).command_value) == opt_view(o),
            None => opt_view(final(state).command_value) == opt_view(old(state).command_value),
        },
        (*final(state) == StatusTracker { command_value: final(state).command_value, ..*old(state) }),
        opt_view(r.0) == opt_view(final(state).command_value),
        r.1 is None,
{
    if let Some(o) = output {
        state.command_value = o;
    }
    let value = match &state.command_value {
        Some(v) => Some(v.clone()),
        None => None,
    };
    (value, None)
}

/// Keep the sides to show; whether they must be sent to the terminal: when
/// a resend is pending or either side changed.
pub fn commit_status(state: &mut StatusTracker, left: Option<String>, right: Option<String>) -> (send: bool)
    ensures
        send == (old(state).input_status_sync_pending || opt_view(old(state).left) != opt_view(left) || opt_view(
            old(state).right,
        ) != opt_view(right)),
        send ==> opt_view(final(state).left) == opt_view(left) && opt_view(final(state).right) == opt_view(right)
            && !final(state).input_status_sync_pending && (*final(state) == StatusTracker {
            left: final(state).left,
            right: final(state).right,
            input_status_sync_pending: false,
            ..*old(state)
        }),
        !send ==> *final(state) == *old(state),
{
    let send = state.input_status_sync_pending || !same_text(&state.left, &left) || !same_text(&state.right, &right);
    if send {
        state.left = left;
        state.right = right;
        state.input_status_sync_pending = false;
    }
    send
}

// ---------------------------------------------------------------------------
// Terminal title
// ---------------------------------------------------------------------------

/// The terminal-title values to send: each only when it changed since it
/// was last sent (`Some(new value)`), else `None`.
#[derive(Debug, Clone)]
pub struct TitleUpdates {
    pub items: Option<Option<Vec<String>>>,
    pub thread_label: Option<Option<String>>,
    pub git_branch: Option<Option<String>>,
}

pub open spec fn opt_views(o: Option<Vec<String>>) -> Option<Seq<Seq<char>>> {
    match o {
        Some(v) => Some(string_views(v@)),
        None => None,
    }
}

/// The branch shown in the terminal title: the Git branch when not blank.
pub open spec fn title_branch(state: StatusTracker) -> Option<Seq<char>> {
    match state.git_summary {
        Some(s) => if trim(s.branch@).len() > 0 {
            Some(s.branch@)
        } else {
            None
        },
        None => None,
    }
}

#[verifier::loop_isolation(false)]
fn same_texts(a: &Option<Vec<String>>, b: Option<&Vec<String>>) -> (r: bool)
    ensures
        r == (opt_views(*a) == match b {
            Some(v) => Some(string_views(v@)),
            None => None::<Seq<Seq<char>>>,
        }),
{
    match (a, b) {
        (Some(x), Some(y)) => {
            if x.len() != y.len() {
                assert(string_views(x@).len() != string_views(y@).len());
                return false;
            }
            let mut i: usize = 0;
            while i < x.len()
                invariant
                    i <= x@.len(),
                    x@.len() == y@.len(),
                    forall|j: int| 0 <= j < i ==> (#[trigger] x@[j])@ == y@[j]@,
                decreases x.len() - i,
            {
                let xi = chars_of(x[i].as_str());
                let yi = chars_of(y[i].as_str());
                if !seq_eq(&xi, &yi) {
                    assert(string_views(x@)[i as int] == x@[i as int]@);
                    assert(string_views(y@)[i as int] == y@[i as int]@);
                    assert(string_views(x@) != string_views(y@));
                    return false;
                }
                i += 1;
            }
            assert(string_views(x@) =~= string_views(y@));
            true
        },
        (None, None) => true,
        _ => false,
    }
}

fn copy_texts(v: &Vec<String>) -> (r: Vec<String>)
    ensures
        string_views(r@) == string_views(v@),
{
    let mut out: Vec<String> = Vec::new();
    let mut i: usize = 0;
    while i < v.len()
        invariant
            i <= v@.len(),
            string_views(out@) == string_views(v@).take(i as int),
        decreases v.len() - i,
    {
        let ghost before = string_views(out@);
        out.push(v[i].clone());
        assert(string_views(out@) =~= before.push(v@[i as int]@));
        assert(string_views(v@).take(i + 1) =~= string_views(v@).take(i as int).push(v@[i as int]@));
        i += 1;
    }
    assert(string_views(v@).take(i as int) =~= string_views(v@));
    out
}

fn copy_opt(o: &Option<String>) -> (r: Option<String>)
    ensures
        opt_view(r) == opt_view(*o),
{
    match o {
        Some(s) => Some(s.clone()),
        None => None,
    }
}

/// The terminal-title values that changed since they were last sent, which
/// become the values last sent.
pub fn sync_terminal_title(state: &mut StatusTracker, title_items: Option<&Vec<String>>) -> (r: TitleUpdates)
    ensures
        ({
            let items = match title_items {
                Some(v) => Some(string_views(v@)),
                None => None::<Seq<Seq<char>>>,
            };
            &&& opt_views(final(state).last_title_items) == items
            &&& opt_view(final(state).last_title_thread_label) == opt_view(old(state).thread_context)
            &&& opt_view(final(state).last_title_git_branch) == title_branch(*old(state))
            &&& match r.items {
                Some(v) => opt_views(old(state).last_title_items) != items && opt_views(v) == items,
                None => opt_views(old(state).last_title_items) == items,
            }
            &&& match r.thread_label {
                Some(v) => opt_view(old(state).last_title_thread_label) != opt_view(old(state).thread_context)
                    && opt_view(v) == opt_view(old(state).thread_context),
                None => opt_view(old(state).last_title_thread_label) == opt_view(old(state).thread_context),
            }
            &&& match r.git_branch {
                Some(v) => opt_view(old(state).last_title_git_branch) != title_branch(*old(state)) && opt_view(v)
                    == title_branch(*old(state)),
                None => opt_view(old(state).last_title_git_branch) == title_branch(*old(state)),
            }
        }),
        (*final(state) == StatusTracker {
            last_title_items: final(state).last_title_items,
            last_title_thread_label: final(state).last_title_thread_label,
            last_title_git_branch: final(state).last_title_git_branch,
            ..*old(state)
        }),
{
    let items = if same_texts(&state.last_title_items, title_items) {
        None
    } else {
        let next: Option<Vec<String>> = match title_items {
            Some(v) => Some(copy_texts(v)),
            None => None,
        };
        state.last_title_items = match &next {
            Some(v) => Some(copy_texts(v)),
            None => None,
        };
        Some(next)
    };
    let thread_label = if same_text(&state.last_title_thread_label, &state.thread_context) {
        None
    } else {
        let next = copy_opt(&state.thread_context);
        state.last_title_thread_label = copy_opt(&next);
        Some(next)
    };
    let branch: Option<String> = match &state.git_summary {
        Some(s) => {
            let c = chars_of(s.branch.as_str());
            if crate::text::is_blank(&c) {
                None
            } else {
                Some(s.branch.clone())
            }
        },
        None => None,
    };
    let git_branch = if same_text(&state.last_title_git_branch, &branch) {
        None
    } else {
        state.last_title_git_branch = copy_opt(&branch);
        Some(branch)
    };
    TitleUpdates { items, thread_label, git_branch }
}

// ---------------------------------------------------------------------------
// Cached display names
// ---------------------------------------------------------------------------

/// Whether the model's display name is cached for `model` (trimmed); when
/// it is not, the caller computes it and stores it with
/// `remember_model_display`.
pub fn model_display_is_cached(state: &StatusTracker, model: &str) -> (b: bool)
    ensures
        b == (opt_view(state.cached_model_input) == Some(trim(model@))),
{
    let c = chars_of(model);
    let t = trimmed(&c);
    match &state.cached_model_input {
        Some(m) => {
            let mc = chars_of(m.as_str());
            seq_eq(&mc, &t)
        },
        None => false,
    }
}

/// Cache the display name of `model` (trimmed).
pub fn remember_model_display(state: &mut StatusTracker, model: &str, display: String)
    ensures
        opt_view(final(state).cached_model_input) == Some(trim(model@)),
        opt_view(final(state).cached_model_display) == Some(display@),
        (*final(state) == StatusTracker {
            cached_model_input: final(state).cached_model_input,
            cached_model_display: final(state).cached_model_display,
            ..*old(state)
        }),
{
    let c = chars_of(model);
    let t = trimmed(&c);
    state.cached_model_input = Some(string_from(&t));
    state.cached_model_display = Some(display);
}

/// Whether the cleaned reasoning text is cached for `reasoning` (trimmed).
pub fn reasoning_is_cached(state: &StatusTracker, reasoning: &str) -> (b: bool)
    ensures
        b == (opt_view(state.cached_reasoning_input) == Some(trim(reasoning@))),
{
    let c = chars_of(reasoning);
    let t = trimmed(&c);
    match &state.cached_reasoning_input {
        Some(m) => {
            let mc = chars_of(m.as_str());
            seq_eq(&mc, &t)
        },
        None => false,
    }
}

/// Cache the cleaned text of `reasoning` (trimmed).
pub fn remember_cleaned_reasoning(state: &mut StatusTracker, reasoning: &str, cleaned: String)
    ensures
        opt_view(final(state).cached_reasoning_input) == Some(trim(reasoning@)),
        final(state).cached_reasoning_cleaned@ == cleaned@,
        (*final(state) == StatusTracker {
            cached_reasoning_input: final(state).cached_reasoning_input,
            cached_reasoning_cleaned: final(state).cached_reasoning_cleaned,
            ..*old(state)
        }),
{
    let c = chars_of(reasoning);
    let t = trimmed(&c);
    state.cached_reasoning_input = Some(string_from(&t));
    state.cached_reasoning_cleaned = cleaned;
}

// ---------------------------------------------------------------------------
// Context budget
// ---------------------------------------------------------------------------

/// The token counts the status line shows of the context window: used
/// (capped at the limit), the limit and what remains.
#[derive(Debug, Clone, Copy, PartialEq, Eq, Structural)]
pub struct ContextCounts {
    pub used: usize,
    pub limit: usize,
    pub remaining: usize,
}

/// The counts for `used` tokens of a window of `limit`; none without a
/// limit.
pub open spec fn context_counts_of(used: usize, limit: usize) -> Option<ContextCounts> {
    if limit == 0 {
        None
    } else {
        let u = if used < limit {
            used
        } else {
            limit
        };
        Some(ContextCounts { used: u, limit, remaining: (limit - u) as usize })
    }
}

/// The new counts of the context window and whether they changed (which
/// marks the status line dirty). The share left, a percentage, follows
/// from the remaining and limit counts.
pub fn context_budget_step(previous: Option<ContextCounts>, used_tokens: usize, limit_tokens: usize) -> (r: (
    Option<ContextCounts>,
    bool,
))
    ensures
        r.0 == context_counts_of(used_tokens, limit_tokens),
        r.1 == (previous != context_counts_of(used_tokens, limit_tokens)),
{
    let next = if limit_tokens == 0 {
        None
    } else {
        let used = if used_tokens < limit_tokens {
            used_tokens
        } else {
            limit_tokens
        };
        Some(ContextCounts { used, limit: limit_tokens, remaining: limit_tokens - used })
    };
    let changed = match (previous, next) {
        (None, None) => false,
        (Some(a), Some(b)) => !(a.used == b.used && a.limit == b.limit && a.remaining == b.remaining),
        _ => true,
    };
    (next, changed)
}

/// The context budget splits the window: with a window (a non-zero limit)
/// the counts keep its limit, count as used the tokens used but never more
/// than the window, and leave as remaining exactly the rest of it; without
/// one there are no counts.
pub proof fn lemma_context_budget_splits_window(used_tokens: usize, limit_tokens: usize)
    ensures
        limit_tokens == 0 <==> context_counts_of(used_tokens, limit_tokens) is None,
        context_counts_of(used_tokens, limit_tokens) matches Some(c) ==> {
            &&& c.limit == limit_tokens
            &&& c.used + c.remaining == limit_tokens
            &&& c.used <= used_tokens
            &&& c.used <= limit_tokens
            &&& (c.used == used_tokens || c.used == limit_tokens)
        },
{
}

} // verus!
