//! The curated settings groups, and which view a typed settings path opens.

use vstd::prelude::*;
use crate::settings_path::{
    SETTINGS_ADVANCED_VIEW_PATH, SETTINGS_GROUP_PREFIX, advanced_dot_prefix, advanced_view,
    group_prefix,
};
use crate::text::{
    byte_len, byte_len_capped, extend_all, join, push_char, push_str, split_words, views, words,
    contains_char, contains_seq, find, sub_vec, chars_of, eq_str, extend_str, has_prefix_str, starts_with, string_from, trim, trimmed,
};

verus! {

/// A group of settings shown together at the root of the settings palette.
#[derive(Debug, Clone)]
pub struct CuratedSettingsGroup {
    pub id: &'static str,
    pub title: &'static str,
    pub description: &'static str,
    pub paths: Vec<&'static str>,
}

pub struct GroupView {
    pub id: Seq<char>,
    pub title: Seq<char>,
    pub description: Seq<char>,
    pub paths: Seq<Seq<char>>,
}

pub open spec fn str_views(v: Seq<&str>) -> Seq<Seq<char>> {
    v.map_values(|s: &str| s@)
}

impl View for CuratedSettingsGroup {
    type V = GroupView;

    open spec fn view(&self) -> GroupView {
        GroupView {
            id: self.id@,
            title: self.title@,
            description: self.description@,
            paths: str_views(self.paths@),
        }
    }
}

pub open spec fn group_views(v: Seq<CuratedSettingsGroup>) -> Seq<GroupView> {
    v.map_values(|g: CuratedSettingsGroup| g@)
}

pub open spec fn group(id: &str, title: &str, description: &str, paths: Seq<Seq<char>>) -> GroupView {
    GroupView { id: id@, title: title@, description: description@, paths }
}

/// The curated groups, in display order.
pub open spec fn curated_table() -> Seq<GroupView> {
    seq![
        group(
            "model_provider",
            "Model & Provider",
            "Choose the active provider, model, and response behavior.",
            seq![
                "agent.provider"@,
                "agent.default_model"@,
                "agent.reasoning_effort"@,
                "agent.temperature"@,
                "agent.verbosity"@,
                "custom_providers"@,
            ],
        ),
        group(
            "agent_automation",
            "Agent & Automation",
            "Tune planning, prompts, retries, and unattended runs.",
            seq![
                "agent.require_plan_confirmation"@,
                "agent.todo_planning_mode"@,
                "agent.tool_documentation_mode"@,
                "agent.system_prompt_mode"@,
                "agent.max_conversation_turns"@,
                "agent.max_review_passes"@,
                "agent.max_task_retries"@,
                "automation.full_auto.enabled"@,
                "automation.full_auto.max_turns"@,
                "automation.full_auto.require_profile_ack"@,
                "automation.scheduled_tasks.enabled"@,
            ],
        ),
        group(
            "approvals_security",
            "Approvals & Security",
            "Control approval rules, sandboxing, and protection defaults.",
            seq![
                "permissions.enabled"@,
                "permissions.audit_enabled"@,
                "permissions.allow"@,
                "permissions.ask"@,
                "permissions.deny"@,
                "security.human_in_the_loop"@,
                "security.hitl_notification_bell"@,
                "security.require_write_tool_for_claims"@,
                "sandbox.enabled"@,
                "sandbox.default_policy"@,
                "sandbox.network.policy"@,
                "dotfile_protection.enabled"@,
            ],
        ),
        group(
            "tools_integrations",
            "Tools & Integrations",
            "Configure tools, the editor, search, MCP, and IDE bridges.",
            seq![
                "tools.default_policy"@,
                "tools.profile"@,
                "tools.max_tool_loops"@,
                "tools.client_tool_search"@,
                "tools.editor"@,
                "tools.web_fetch.mode"@,
                "tools.web_fetch.strict_https_only"@,
                "tools.web_search.provider"@,
                "mcp.enabled"@,
                "mcp.providers"@,
                "acp.enabled"@,
                "ide_context.enabled"@,
                "ide_context.show_in_tui"@,
            ],
        ),
        group(
            "context_memory",
            "Context & Memory",
            "Manage context budgets, dynamic context, and persistent memory.",
            seq![
                "features.memories"@,
                "agent.persistent_memory.enabled"@,
                "agent.persistent_memory.auto_write"@,
                "agent.persistent_memory.memories.use_memories"@,
                "agent.persistent_memory.memories.generate_memories"@,
                "context.max_context_tokens"@,
                "context.dynamic.enabled"@,
                "context.dynamic.tool_output_threshold"@,
                "context.dynamic.retained_user_messages"@,
                "context.ledger.enabled"@,
                "context.ledger.include_in_prompt"@,
                "workspace.include_context"@,
            ],
        ),
        group(
            "interface_terminal",
            "Interface & Terminal",
            "Shape the chat surface, transcript, theme, and shell sessions.",
            seq![
                "agent.theme"@,
                "ui.display_mode"@,
                "ui.tool_display_mode"@,
                "ui.tool_output_mode"@,
                "ui.reasoning_display_mode"@,
                "ui.show_sidebar"@,
                "ui.show_task_panel"@,
                "ui.vim_mode"@,
                "ui.color_scheme_mode"@,
                "pty.enabled"@,
                "pty.command_timeout_seconds"@,
                "pty.scrollback_lines"@,
            ],
        ),
        group(
            "performance_diagnostics",
            "Performance & Diagnostics",
            "Balance runtime limits, caching, timeouts, and diagnostics.",
            seq![
                "agent.harness.max_tool_calls_per_turn"@,
                "agent.harness.max_tool_wall_clock_secs"@,
                "agent.harness.max_tool_retries"@,
                "agent.harness.max_parallel_tool_calls"@,
                "agent.harness.auto_compaction_enabled"@,
                "optimization.command_cache.enabled"@,
                "optimization.file_read_cache.enabled"@,
                "optimization.llm_client.enable_response_caching"@,
                "timeouts.default_ceiling_seconds"@,
                "timeouts.long_running_command_ceiling_seconds"@,
                "telemetry.trajectory_enabled"@,
                "telemetry.atif_enabled"@,
                "ui.show_diagnostics_in_transcript"@,
                "optimization.profiling.enabled"@,
            ],
        ),
    ]
}

/// The curated settings groups, in display order.
pub fn curated_groups() -> (r: Vec<CuratedSettingsGroup>)
    ensures
        group_views(r@) == curated_table(),
{
    let r = vec![
        CuratedSettingsGroup {
            id: "model_provider",
            title: "Model & Provider",
            description: "Choose the active provider, model, and response behavior.",
            paths: vec![
                "agent.provider",
                "agent.default_model",
                "agent.reasoning_effort",
                "agent.temperature",
                "agent.verbosity",
                "custom_providers",
            ],
        },
        CuratedSettingsGroup {
            id: "agent_automation",
            title: "Agent & Automation",
            description: "Tune planning, prompts, retries, and unattended runs.",
            paths: vec![
                "agent.require_plan_confirmation",
                "agent.todo_planning_mode",
                "agent.tool_documentation_mode",
                "agent.system_prompt_mode",
                "agent.max_conversation_turns",
                "agent.max_review_passes",
                "agent.max_task_retries",
                "automation.full_auto.enabled",
                "automation.full_auto.max_turns",
                "automation.full_auto.require_profile_ack",
                "automation.scheduled_tasks.enabled",
            ],
        },
        CuratedSettingsGroup {
            id: "approvals_security",
            title: "Approvals & Security",
            description: "Control approval rules, sandboxing, and protection defaults.",
            paths: vec![
                "permissions.enabled",
                "permissions.audit_enabled",
                "permissions.allow",
                "permissions.ask",
                "permissions.deny",
                "security.human_in_the_loop",
                "security.hitl_notification_bell",
                "security.require_write_tool_for_claims",
                "sandbox.enabled",
                "sandbox.default_policy",
                "sandbox.network.policy",
                "dotfile_protection.enabled",
            ],
        },
        CuratedSettingsGroup {
            id: "tools_integrations",
            title: "Tools & Integrations",
            description: "Configure tools, the editor, search, MCP, and IDE bridges.",
            paths: vec![
                "tools.default_policy",
                "tools.profile",
                "tools.max_tool_loops",
                "tools.client_tool_search",
                "tools.editor",
                "tools.web_fetch.mode",
                "tools.web_fetch.strict_https_only",
                "tools.web_search.provider",
                "mcp.enabled",
                "mcp.providers",
                "acp.enabled",
                "ide_context.enabled",
                "ide_context.show_in_tui",
            ],
        },
        CuratedSettingsGroup {
            id: "context_memory",
            title: "Context & Memory",
            description: "Manage context budgets, dynamic context, and persistent memory.",
            paths: vec![
                "features.memories",
                "agent.persistent_memory.enabled",
                "agent.persistent_memory.auto_write",
                "agent.persistent_memory.memories.use_memories",
                "agent.persistent_memory.memories.generate_memories",
                "context.max_context_tokens",
                "context.dynamic.enabled",
                "context.dynamic.tool_output_threshold",
                "context.dynamic.retained_user_messages",
                "context.ledger.enabled",
                "context.ledger.include_in_prompt",
                "workspace.include_context",
            ],
        },
        CuratedSettingsGroup {
            id: "interface_terminal",
            title: "Interface & Terminal",
            description: "Shape the chat surface, transcript, theme, and shell sessions.",
            paths: vec![
                "agent.theme",
                "ui.display_mode",
                "ui.tool_display_mode",
                "ui.tool_output_mode",
                "ui.reasoning_display_mode",
                "ui.show_sidebar",
                "ui.show_task_panel",
                "ui.vim_mode",
                "ui.color_scheme_mode",
                "pty.enabled",
                "pty.command_timeout_seconds",
                "pty.scrollback_lines",
            ],
        },
        CuratedSettingsGroup {
            id: "performance_diagnostics",
            title: "Performance & Diagnostics",
            description: "Balance runtime limits, caching, timeouts, and diagnostics.",
            paths: vec![
                "agent.harness.max_tool_calls_per_turn",
                "agent.harness.max_tool_wall_clock_secs",
                "agent.harness.max_tool_retries",
                "agent.harness.max_parallel_tool_calls",
                "agent.harness.auto_compaction_enabled",
                "optimization.command_cache.enabled",
                "optimization.file_read_cache.enabled",
                "optimization.llm_client.enable_response_caching",
                "timeouts.default_ceiling_seconds",
                "timeouts.long_running_command_ceiling_seconds",
                "telemetry.trajectory_enabled",
                "telemetry.atif_enabled",
                "ui.show_diagnostics_in_transcript",
                "optimization.profiling.enabled",
            ],
        },
    ];
    proof {
        assert forall|i: int| 0 <= i < r@.len() implies r@[i]@.paths =~= curated_table()[i].paths by {}
        assert(group_views(r@) =~= curated_table());
    }
    r
}

/// The first group of `gs` with the given id.
pub open spec fn find_group(gs: Seq<GroupView>, id: Seq<char>) -> Option<GroupView>
    decreases gs.len(),
{
    if gs.len() == 0 {
        None
    } else if gs[0].id == id {
        Some(gs[0])
    } else {
        find_group(gs.drop_first(), id)
    }
}

pub open spec fn opt_group_view(o: Option<CuratedSettingsGroup>) -> Option<GroupView> {
    match o {
        Some(g) => Some(g@),
        None => None,
    }
}

/// The curated group with the given id.
pub fn curated_group(id: &str) -> (r: Option<CuratedSettingsGroup>)
    ensures
        opt_group_view(r) == find_group(curated_table(), id@),
{
    let mut groups = curated_groups();
    let ghost table = curated_table();
    let idc = chars_of(id);
    let mut i: usize = 0;
    assert(table.skip(0) == table);
    while i < groups.len()
        invariant
            i <= groups@.len(),
            group_views(groups@) == table,
            table == curated_table(),
            idc@ == id@,
            find_group(table, id@) == find_group(table.skip(i as int), id@),
        decreases groups.len() - i,
    {
        let ghost rest = table.skip(i as int);
        assert(rest[0] == groups@[i as int]@);
        assert(rest.drop_first() == table.skip(i + 1));
        if eq_str(&idc, groups[i].id) {
            let g = groups.remove(i);
            return Some(g);
        }
        i += 1;
    }
    assert(table.skip(i as int).len() == 0);
    None
}

// ---------------------------------------------------------------------------
// Resolving typed paths
// ---------------------------------------------------------------------------

/// The view of the model configuration.
pub const SETTINGS_MODEL_CONFIG_PATH: &'static str = "model_config";
/// The view of the main model's configuration.
pub const SETTINGS_MODEL_CONFIG_MAIN_PATH: &'static str = "model_config.main";

/// The view that a typed settings path opens: aliases for the model and
/// Codex views, the advanced view and its documented paths, a curated
/// group by its id, and otherwise the path itself (trimmed).
pub open spec fn resolved_view(path: Seq<char>) -> Seq<char> {
    let t = trim(path);
    if t == "model"@ {
        SETTINGS_MODEL_CONFIG_PATH@
    } else if t == "model.main"@ {
        SETTINGS_MODEL_CONFIG_MAIN_PATH@
    } else if t == "codex"@ || t == "codex_app_server"@ || t == "codex.app_server"@ || t
        == "app_server"@ {
        "agent.codex_app_server"@
    } else if t == advanced_view() {
        advanced_view()
    } else if starts_with(t, advanced_dot_prefix()) {
        t
    } else if find_group(curated_table(), t) is Some {
        group_prefix() + t
    } else {
        t
    }
}

/// The settings view that a typed path opens.
pub fn resolve_settings_view_path(path: &str) -> (r: String)
    ensures
        r@ == resolved_view(path@),
{
    proof {
        reveal_strlit("advanced");
        reveal_strlit("advanced.");
        reveal_strlit("group:");
        assert(advanced_view() == SETTINGS_ADVANCED_VIEW_PATH@);
        assert(advanced_dot_prefix() == "advanced."@);
        assert(group_prefix() == SETTINGS_GROUP_PREFIX@);
    }
    let chars = chars_of(path);
    let t = trimmed(&chars);
    if eq_str(&t, "model") {
        return SETTINGS_MODEL_CONFIG_PATH.to_owned();
    }
    if eq_str(&t, "model.main") {
        return SETTINGS_MODEL_CONFIG_MAIN_PATH.to_owned();
    }
    if eq_str(&t, "codex") || eq_str(&t, "codex_app_server") || eq_str(&t, "codex.app_server")
        || eq_str(&t, "app_server") {
        return "agent.codex_app_server".to_owned();
    }
    if eq_str(&t, SETTINGS_ADVANCED_VIEW_PATH) {
        return SETTINGS_ADVANCED_VIEW_PATH.to_owned();
    }
    if has_prefix_str(&t, "advanced.") {
        return string_from(&t);
    }
    let ts = string_from(&t);
    if curated_group(ts.as_str()).is_some() {
        let mut out = chars_of(SETTINGS_GROUP_PREFIX);
        extend_str(&mut out, ts.as_str());
        return string_from(&out);
    }
    ts
}

// ---------------------------------------------------------------------------
// Paths of the advanced view
// ---------------------------------------------------------------------------

/// `path` has a `.`-separated segment that is exactly `*`.
pub open spec fn has_star_segment(path: Seq<char>) -> bool {
    exists|i: int|
        0 <= i < path.len() && #[trigger] path[i] == '*' && (i == 0 || path[i - 1] == '.') && (i + 1
            == path.len() || path[i + 1] == '.')
}

/// A documented schema path rather than a concrete one: it has an array
/// placeholder `[]` or a `*` segment.
pub open spec fn schema_path(path: Seq<char>) -> bool {
    contains_seq(path, seq!['[', ']']) || has_star_segment(path)
}

/// Whether `path` is a schema path with placeholders.
pub fn is_schema_path(path: &str) -> (b: bool)
    ensures
        b == schema_path(path@),
{
    let p = chars_of(path);
    let brackets = vec!['[', ']'];
    if find(&p, &brackets).is_some() {
        return true;
    }
    let mut i: usize = 0;
    while i < p.len()
        invariant
            i <= p@.len(),
            p@ == path@,
            forall|j: int|
                0 <= j < i ==> !(#[trigger] p@[j] == '*' && (j == 0 || p@[j - 1] == '.') && (j + 1
                    == p@.len() || p@[j + 1] == '.')),
        decreases p.len() - i,
    {
        if p[i] == '*' && (i == 0 || p[i - 1] == '.') && (i + 1 == p.len() || p[i + 1] == '.') {
            return true;
        }
        i += 1;
    }
    false
}

/// The label of a documented field shown under its parent: the last key of
/// `path` when it is a direct child of `parent`.
pub open spec fn missing_doc_label_of(path: Seq<char>, parent: Option<Seq<char>>) -> Option<
    Seq<char>,
> {
    match parent {
        Some(pp) => if starts_with(path, pp) && path.len() > pp.len() && path[pp.len() as int]
            == '.' {
            let rest = path.skip(pp.len() + 1int);
            if !rest.contains('.') && !rest.contains('[') {
                Some(rest)
            } else {
                None
            }
        } else {
            None
        },
        None => Some(path),
    }
}

pub open spec fn opt_str_view(o: Option<&str>) -> Option<Seq<char>> {
    match o {
        Some(s) => Some(s@),
        None => None,
    }
}

pub open spec fn opt_view(o: Option<String>) -> Option<Seq<char>> {
    match o {
        Some(s) => Some(s@),
        None => None,
    }
}

/// The label for a documented field of `path`, when it is a direct child
/// of `parent_path` (or when there is no parent).
pub fn missing_doc_label(path: &str, parent_path: Option<&str>) -> (r: Option<String>)
    ensures
        opt_view(r) == missing_doc_label_of(path@, opt_str_view(parent_path)),
{
    match parent_path {
        Some(parent) => {
            let p = chars_of(path);
            if !crate::text::has_prefix_str(&p, parent) {
                return None;
            }
            let n = parent.unicode_len();
            if p.len() <= n || p[n] != '.' {
                return None;
            }
            let rest = sub_vec(&p, n + 1, p.len());
            if contains_char(&rest, '.') || contains_char(&rest, '[') {
                return None;
            }
            Some(string_from(&rest))
        },
        None => Some(path.to_owned()),
    }
}

/// `prefix.key`, or `key` alone without a prefix.
pub open spec fn joined_path(prefix: Option<Seq<char>>, key: Seq<char>) -> Seq<char> {
    match prefix {
        Some(p) => if p.len() > 0 {
            p + seq!['.'] + key
        } else {
            key
        },
        None => key,
    }
}

/// The dotted path of `key` under `prefix`.
pub fn build_path(prefix: Option<&str>, key: &str) -> (r: String)
    ensures
        r@ == joined_path(opt_str_view(prefix), key@),
{
    match prefix {
        Some(p) if !p.is_empty() => {
            let mut out = chars_of(p);
            out.push('.');
            extend_str(&mut out, key);
            string_from(&out)
        },
        _ => key.to_owned(),
    }
}

pub open spec fn string_views(v: Seq<String>) -> Seq<Seq<char>> {
    v.map_values(|s: String| s@)
}

/// The values the Codex sidecar command cycles through: the default, then
/// the current value when it is set and differs from the default.
pub open spec fn sidecar_options(current: Seq<char>, default: Seq<char>) -> Seq<Seq<char>> {
    let t = trim(current);
    if t.len() > 0 && t != default {
        seq![default, t]
    } else {
        seq![default]
    }
}

pub fn codex_sidecar_cycle_options(current: &str, default: &str) -> (r: Vec<String>)
    ensures
        string_views(r@) == sidecar_options(current@, default@),
{
    let mut options: Vec<String> = Vec::new();
    options.push(default.to_owned());
    let c = chars_of(current);
    let t = trimmed(&c);
    if t.len() > 0 && !eq_str(&t, default) {
        options.push(string_from(&t));
    }
    assert(string_views(options@) =~= sidecar_options(current@, default@));
    options
}

// ---------------------------------------------------------------------------
// Comments in the rendered configuration
// ---------------------------------------------------------------------------

/// State of greedy wrapping: the finished lines and the line being filled.
pub open spec fn wrap_scan(ws: Seq<Seq<char>>, max_width: nat) -> (Seq<Seq<char>>, Seq<char>)
    decreases ws.len(),
{
    if ws.len() == 0 {
        (seq![], seq![])
    } else {
        let (lines, current) = wrap_scan(ws.drop_last(), max_width);
        let w = ws.last();
        if current.len() == 0 {
            (lines, w)
        } else if byte_len(current) + 1 + byte_len(w) > max_width {
            (lines.push(current), w)
        } else {
            (lines, current + seq![' '] + w)
        }
    }
}

/// The words of `text` packed greedily into lines of at most `max_width`
/// bytes (a longer word stands alone on its line).
pub open spec fn wrapped(text: Seq<char>, max_width: nat) -> Seq<Seq<char>> {
    let (lines, current) = wrap_scan(words(text), max_width);
    if current.len() > 0 {
        lines.push(current)
    } else {
        lines
    }
}

/// Wrap `text` at word boundaries into lines of at most `max_width` bytes.
pub fn wrap_comment(text: &str, max_width: usize) -> (r: Vec<String>)
    ensures
        string_views(r@) == wrapped(text@, max_width as nat),
{
    let chars = chars_of(text);
    let ws = split_words(&chars);
    let ghost wv = views(ws@);
    let cap: u128 = (max_width as u128) + 1;
    let mut lines: Vec<String> = Vec::new();
    let mut current: Vec<char> = Vec::new();
    let mut k: usize = 0;
    proof {
        assert(wv.take(0).len() == 0);
        assert(string_views(lines@) =~= Seq::<Seq<char>>::empty());
    }
    while k < ws.len()
        invariant
            k <= ws@.len(),
            wv == views(ws@),
            wv == words(text@),
            cap == max_width + 1,
            wrap_scan(wv.take(k as int), max_width as nat) == (string_views(lines@), current@),
        decreases ws.len() - k,
    {
        let word = &ws[k];
        proof {
            assert(wv.take(k + 1).drop_last() == wv.take(k as int));
            assert(wv.take(k + 1).last() == word@);
        }
        if current.len() == 0 {
            current = sub_vec(word, 0, word.len());
            assert(current@ == word@);
        } else {
            let cl = byte_len_capped(&current, cap);
            let wl = byte_len_capped(word, cap);
            if cl + 1 + wl > max_width as u128 {
                let ghost before = lines@;
                lines.push(string_from(&current));
                assert(string_views(lines@) =~= string_views(before).push(current@));
                current = sub_vec(word, 0, word.len());
                assert(current@ == word@);
            } else {
                current.push(' ');
                extend_all(&mut current, word);
            }
        }
        k += 1;
    }
    proof {
        assert(wv.take(k as int) == wv);
    }
    if current.len() > 0 {
        let ghost before = lines@;
        lines.push(string_from(&current));
        assert(string_views(lines@) =~= string_views(before).push(current@));
    }
    lines
}

/// `# line` comment lines for `description`, wrapped at 100 bytes.
pub open spec fn comment_lines(description: Seq<char>) -> Seq<char> {
    join(wrapped(description, 100).map_values(|l: Seq<char>| seq!['#', ' '] + l + seq!['\n']))
}

/// Appends `description` to `output` as wrapped `#` comment lines.
pub fn push_comment_lines(output: &mut String, description: &str)
    ensures
        final(output)@ == old(output)@ + comment_lines(description@),
{
    let lines = wrap_comment(description, 100);
    let ghost ls = string_views(lines@);
    let ghost f = |l: Seq<char>| seq!['#', ' '] + l + seq!['\n'];
    let ghost start = output@;
    let mut i: usize = 0;
    proof {
        assert(ls.take(0).map_values(f).len() == 0);
        assert(start + join(ls.take(0).map_values(f)) == start);
    }
    while i < lines.len()
        invariant
            i <= lines@.len(),
            ls == string_views(lines@),
            ls == wrapped(description@, 100),
            f == (|l: Seq<char>| seq!['#', ' '] + l + seq!['\n']),
            output@ == start + join(ls.take(i as int).map_values(f)),
        decreases lines.len() - i,
    {
        let ghost prev = ls.take(i as int).map_values(f);
        proof {
            assert(ls.take(i + 1).map_values(f) == prev.push(f(ls[i as int])));
            assert(prev.push(f(ls[i as int])).drop_last() == prev);
        }
        push_str(output, "# ");
        push_str(output, lines[i].as_str());
        push_char(output, '\n');
        proof {
            reveal_strlit("# ");
            assert(output@ == start + join(prev) + f(ls[i as int]));
        }
        i += 1;
    }
    proof {
        assert(ls.take(i as int) == ls);
    }
}

/// What the documentation of a configuration field says.
#[derive(Debug, Clone)]
pub struct FieldDoc {
    pub description: String,
    pub options: Vec<String>,
    pub default_value: String,
    pub value_type: String,
}

/// `items` joined with `", "` between them.
pub open spec fn comma_joined(items: Seq<Seq<char>>) -> Seq<char>
    decreases items.len(),
{
    if items.len() == 0 {
        seq![]
    } else if items.len() == 1 {
        items[0]
    } else {
        comma_joined(items.drop_last()) + seq![',', ' '] + items.last()
    }
}

pub open spec fn description_part(description: Seq<char>) -> Seq<char> {
    if description.len() > 0 {
        comment_lines(description)
    } else {
        seq![]
    }
}

pub open spec fn options_part(options: Seq<Seq<char>>, with_details: bool) -> Seq<char> {
    if with_details && options.len() > 0 {
        "# Possible values: "@ + comma_joined(options) + seq!['\n']
    } else {
        seq![]
    }
}

pub open spec fn default_part(default_value: Seq<char>) -> Seq<char> {
    if default_value.len() > 0 {
        "# Default: "@ + default_value + seq!['\n']
    } else {
        seq![]
    }
}

pub open spec fn value_type_part(value_type: Seq<char>, with_details: bool) -> Seq<char> {
    if with_details && value_type.len() > 0 {
        "# Type: "@ + value_type + seq!['\n']
    } else {
        seq![]
    }
}

/// The comments documenting a field: its wrapped description, its possible
/// values and type when asked for, and its default.
pub open spec fn doc_comments(
    description: Seq<char>,
    options: Seq<Seq<char>>,
    default_value: Seq<char>,
    value_type: Seq<char>,
    include_type_and_options: bool,
) -> Seq<char> {
    description_part(description) + options_part(options, include_type_and_options) + default_part(
        default_value,
    ) + value_type_part(value_type, include_type_and_options)
}

/// Appends `", "`-joined `items` to `out`.
fn push_comma_joined(out: &mut String, items: &Vec<String>)
    ensures
        final(out)@ == old(out)@ + comma_joined(string_views(items@)),
{
    let ghost start = out@;
    let ghost iv = string_views(items@);
    let mut i: usize = 0;
    proof {
        assert(iv.take(0).len() == 0);
        assert(start + comma_joined(iv.take(0)) == start);
    }
    while i < items.len()
        invariant
            i <= items@.len(),
            iv == string_views(items@),
            out@ == start + comma_joined(iv.take(i as int)),
        decreases items.len() - i,
    {
        proof {
            assert(iv.take(i + 1).drop_last() == iv.take(i as int));
            assert(iv.take(i + 1).last() == items@[i as int]@);
        }
        if i > 0 {
            push_str(out, ", ");
            proof {
                reveal_strlit(", ");
            }
        } else {
            assert(iv.take(1)[0] == items@[0]@);
        }
        push_str(out, items[i].as_str());
        i += 1;
    }
    assert(iv.take(i as int) == iv);
}

/// Appends `prefix`, `value` and a newline.
fn push_comment(output: &mut String, prefix: &str, value: &str)
    ensures
        final(output)@ == old(output)@ + (prefix@ + value@ + seq!['\n']),
{
    push_str(output, prefix);
    push_str(output, value);
    push_char(output, '\n');
}

fn push_options(output: &mut String, options: &Vec<String>, with_details: bool)
    ensures
        final(output)@ == old(output)@ + options_part(string_views(options@), with_details),
{
    if with_details && options.len() > 0 {
        push_str(output, "# Possible values: ");
        push_comma_joined(output, options);
        push_char(output, '\n');
    }
}

/// Appends the `#` comments documenting a field to `output`.
pub fn write_doc_comments(output: &mut String, doc: &FieldDoc, include_type_and_options: bool)
    ensures
        final(output)@ == old(output)@ + doc_comments(
            doc.description@,
            string_views(doc.options@),
            doc.default_value@,
            doc.value_type@,
            include_type_and_options,
        ),
{
    let ghost start = output@;
    if !doc.description.as_str().is_empty() {
        push_comment_lines(output, doc.description.as_str());
    }
    let ghost a = output@;
    assert(a == start + description_part(doc.description@));
    push_options(output, &doc.options, include_type_and_options);
    let ghost b = output@;
    if !doc.default_value.as_str().is_empty() {
        push_comment(output, "# Default: ", doc.default_value.as_str());
    }
    let ghost c = output@;
    assert(c == b + default_part(doc.default_value@));
    if include_type_and_options && !doc.value_type.as_str().is_empty() {
        push_comment(output, "# Type: ", doc.value_type.as_str());
    }
    let ghost d = output@;
    assert(d == c + value_type_part(doc.value_type@, include_type_and_options));
    proof {
        let d1 = description_part(doc.description@);
        let d2 = options_part(string_views(doc.options@), include_type_and_options);
        let d3 = default_part(doc.default_value@);
        let d4 = value_type_part(doc.value_type@, include_type_and_options);
        assert(start + d1 + d2 + d3 + d4 == start + (d1 + d2 + d3 + d4));
    }
}

/// The source line shown when no configuration file exists yet.
pub open spec fn no_config_label(workspace: Seq<char>) -> Seq<char> {
    "No vtcode.toml found for "@ + workspace + ". Draft starts from runtime defaults."@
}

/// Label for a workspace without a configuration file; `workspace` is the
/// workspace path as displayed.
pub fn no_config_source_label(workspace: &str) -> (r: String)
    ensures
        r@ == no_config_label(workspace@),
{
    let mut out = chars_of("No vtcode.toml found for ");
    extend_str(&mut out, workspace);
    extend_str(&mut out, ". Draft starts from runtime defaults.");
    string_from(&out)
}

// ---------------------------------------------------------------------------
// Cycling through string options
// ---------------------------------------------------------------------------

/// How a scalar setting is changed.
#[derive(Debug, Clone, Copy, PartialEq, Eq, Structural)]
pub enum ScalarOperation {
    Toggle,
    Increment,
    Decrement,
    CycleNext,
    CyclePrev,
}

/// Why a string setting cannot be cycled.
#[derive(Debug, Clone, Copy, PartialEq, Eq, Structural)]
pub enum CycleError {
    NoOptions,
    InvalidOperation,
}

impl CycleError {
    pub fn message(&self) -> (m: String)
        ensures
            m@ == (match self {
                CycleError::NoOptions => "No cycle options available"@,
                CycleError::InvalidOperation => "Invalid string cycle operation"@,
            }),
    {
        match self {
            CycleError::NoOptions => "No cycle options available".to_owned(),
            CycleError::InvalidOperation => "Invalid string cycle operation".to_owned(),
        }
    }
}

/// `a` comes before `b` in the order of `String` (by code point, which is
/// the order of their UTF-8 bytes).
pub open spec fn str_lt(a: Seq<char>, b: Seq<char>) -> bool
    decreases a.len(),
{
    if a.len() == 0 {
        b.len() > 0
    } else if b.len() == 0 {
        false
    } else if a[0] != b[0] {
        a[0] < b[0]
    } else {
        str_lt(a.drop_first(), b.drop_first())
    }
}

proof fn lemma_str_lt_irreflexive(a: Seq<char>)
    ensures
        !str_lt(a, a),
    decreases a.len(),
{
    if a.len() > 0 {
        lemma_str_lt_irreflexive(a.drop_first());
    }
}

proof fn lemma_str_lt_transitive(a: Seq<char>, b: Seq<char>, c: Seq<char>)
    requires
        str_lt(a, b),
        str_lt(b, c),
    ensures
        str_lt(a, c),
    decreases a.len(),
{
    if a.len() > 0 && b.len() > 0 && c.len() > 0 && a[0] == b[0] && b[0] == c[0] {
        lemma_str_lt_transitive(a.drop_first(), b.drop_first(), c.drop_first());
    }
}

proof fn lemma_str_lt_total(a: Seq<char>, b: Seq<char>)
    requires
        a != b,
    ensures
        str_lt(a, b) || str_lt(b, a),
    decreases a.len(),
{
    if a.len() > 0 && b.len() > 0 && a[0] == b[0] {
        if a.drop_first() == b.drop_first() {
            assert(a == seq![a[0]] + a.drop_first());
            assert(b == seq![b[0]] + b.drop_first());
        }
        lemma_str_lt_total(a.drop_first(), b.drop_first());
    } else if a.len() == 0 && b.len() == 0 {
        assert(a == b);
    }
}

/// Strictly ascending, so without repeats.
pub open spec fn ascending(s: Seq<Seq<char>>) -> bool {
    forall|i: int, j: int| 0 <= i < j < s.len() ==> str_lt(#[trigger] s[i], #[trigger] s[j])
}

/// `x` put into the ascending `s` at its place, unless it is there already.
pub open spec fn insert_sorted(s: Seq<Seq<char>>, x: Seq<char>) -> Seq<Seq<char>>
    decreases s.len(),
{
    if s.len() == 0 {
        seq![x]
    } else if s[0] == x {
        s
    } else if str_lt(x, s[0]) {
        seq![x] + s
    } else {
        seq![s[0]] + insert_sorted(s.drop_first(), x)
    }
}

/// The distinct options in ascending order (sort, then dedup).
pub open spec fn sorted_distinct(opts: Seq<Seq<char>>) -> Seq<Seq<char>>
    decreases opts.len(),
{
    if opts.len() == 0 {
        seq![]
    } else {
        insert_sorted(sorted_distinct(opts.drop_last()), opts.last())
    }
}

proof fn lemma_insert_sorted(s: Seq<Seq<char>>, x: Seq<char>)
    requires
        ascending(s),
    ensures
        ascending(insert_sorted(s, x)),
        forall|y: Seq<char>| #[trigger] insert_sorted(s, x).contains(y) <==> (s.contains(y) || y == x),
    decreases s.len(),
{
    let r = insert_sorted(s, x);
    if s.len() == 0 {
        assert forall|y: Seq<char>| #[trigger] r.contains(y) <==> (s.contains(y) || y == x) by {
            if r.contains(y) {
                assert(r[0] == y);
            }
            if y == x {
                assert(r[0] == x);
            }
        }
    } else if s[0] == x {
        assert forall|y: Seq<char>| #[trigger] r.contains(y) <==> (s.contains(y) || y == x) by {
            if y == x {
                assert(s[0] == y);
            }
        }
    } else if str_lt(x, s[0]) {
        assert forall|i: int, j: int| 0 <= i < j < r.len() implies str_lt(#[trigger] r[i], #[trigger] r[j]) by {
            if i == 0 {
                assert(r[j] == s[j - 1]);
                if j > 1 {
                    assert(str_lt(s[0], s[j - 1]));
                    lemma_str_lt_transitive(x, s[0], s[j - 1]);
                }
            } else {
                assert(r[i] == s[i - 1] && r[j] == s[j - 1]);
            }
        }
        assert forall|y: Seq<char>| #[trigger] r.contains(y) <==> (s.contains(y) || y == x) by {
            if r.contains(y) {
                let k = choose|k: int| 0 <= k < r.len() && r[k] == y;
                if k > 0 {
                    assert(s[k - 1] == y);
                }
            }
            if s.contains(y) {
                let k = choose|k: int| 0 <= k < s.len() && s[k] == y;
                assert(r[k + 1] == y);
            }
            if y == x {
                assert(r[0] == y);
            }
        }
    } else {
        lemma_str_lt_total(x, s[0]);
        let t = s.drop_first();
        assert(ascending(t)) by {
            assert forall|i: int, j: int| 0 <= i < j < t.len() implies str_lt(#[trigger] t[i], #[trigger] t[j]) by {
                assert(t[i] == s[i + 1] && t[j] == s[j + 1]);
            }
        }
        lemma_insert_sorted(t, x);
        let it = insert_sorted(t, x);
        assert(r == seq![s[0]] + it);
        assert forall|i: int, j: int| 0 <= i < j < r.len() implies str_lt(#[trigger] r[i], #[trigger] r[j]) by {
            if i == 0 {
                assert(r[j] == it[j - 1]);
                assert(it.contains(it[j - 1]));
                if t.contains(it[j - 1]) {
                    let k = choose|k: int| 0 <= k < t.len() && t[k] == it[j - 1];
                    assert(s[k + 1] == it[j - 1]);
                    assert(str_lt(s[0], s[k + 1]));
                }
            } else {
                assert(r[i] == it[i - 1] && r[j] == it[j - 1]);
            }
        }
        assert forall|y: Seq<char>| #[trigger] r.contains(y) <==> (s.contains(y) || y == x) by {
            if r.contains(y) {
                let k = choose|k: int| 0 <= k < r.len() && r[k] == y;
                if k > 0 {
                    assert(it[k - 1] == y);
                    assert(it.contains(y));
                    if t.contains(y) {
                        let m = choose|m: int| 0 <= m < t.len() && t[m] == y;
                        assert(s[m + 1] == y);
                    }
                } else {
                    assert(s[0] == y);
                }
            }
            if s.contains(y) {
                let k = choose|k: int| 0 <= k < s.len() && s[k] == y;
                if k > 0 {
                    assert(t[k - 1] == y);
                    assert(t.contains(y));
                    assert(it.contains(y));
                    let m = choose|m: int| 0 <= m < it.len() && it[m] == y;
                    assert(r[m + 1] == y);
                } else {
                    assert(r[0] == y);
                }
            }
            if y == x {
                assert(it.contains(y));
                let m = choose|m: int| 0 <= m < it.len() && it[m] == y;
                assert(r[m + 1] == y);
            }
        }
    }
}

/// The options of a cycle are the given options, each once, in ascending
/// order.
pub proof fn lemma_sorted_distinct(opts: Seq<Seq<char>>)
    ensures
        ascending(sorted_distinct(opts)),
        forall|y: Seq<char>| #[trigger] sorted_distinct(opts).contains(y) <==> opts.contains(y),
    decreases opts.len(),
{
    if opts.len() > 0 {
        let d = opts.drop_last();
        lemma_sorted_distinct(d);
        lemma_insert_sorted(sorted_distinct(d), opts.last());
        assert forall|y: Seq<char>| #[trigger] sorted_distinct(opts).contains(y) <==> opts.contains(y) by {
            if d.contains(y) {
                let k = choose|k: int| 0 <= k < d.len() && d[k] == y;
                assert(opts[k] == y);
            }
            if opts.contains(y) {
                let k = choose|k: int| 0 <= k < opts.len() && opts[k] == y;
                if k < opts.len() - 1 {
                    assert(d[k] == y);
                }
            }
        }
    }
}

/// Index of the first `x` in `s`, or `s.len()`.
pub open spec fn position_of(s: Seq<Seq<char>>, x: Seq<char>) -> nat
    decreases s.len(),
{
    if s.len() == 0 || s[0] == x {
        0
    } else {
        1 + position_of(s.drop_first(), x)
    }
}

/// The option after (or before) the current one, wrapping around; a
/// current value that is not an option counts as the first.
pub open spec fn cycle_pick(ordered: Seq<Seq<char>>, current: Seq<char>, next: bool) -> Seq<char> {
    let p = position_of(ordered, current);
    let idx: int = if p < ordered.len() {
        p as int
    } else {
        0
    };
    let n: int = if next {
        (idx + 1) % (ordered.len() as int)
    } else if idx == 0 {
        ordered.len() - 1
    } else {
        idx - 1
    };
    ordered[n]
}

proof fn lemma_position_distinct(s: Seq<Seq<char>>, k: int)
    requires
        0 <= k < s.len(),
        forall|i: int, j: int| 0 <= i < j < s.len() ==> s[i] != s[j],
    ensures
        position_of(s, s[k]) == k,
    decreases k,
{
    if k > 0 {
        let t = s.drop_first();
        assert(s[0] != s[k]);
        assert(t[k - 1] == s[k]);
        assert forall|i: int, j: int| 0 <= i < j < t.len() implies t[i] != t[j] by {
            assert(t[i] == s[i + 1] && t[j] == s[j + 1]);
        }
        lemma_position_distinct(t, k - 1);
    }
}

proof fn lemma_position_found(s: Seq<Seq<char>>, x: Seq<char>)
    requires
        s.contains(x),
    ensures
        position_of(s, x) < s.len(),
        s[position_of(s, x) as int] == x,
    decreases s.len(),
{
    if s[0] != x {
        let k = choose|k: int| 0 <= k < s.len() && s[k] == x;
        assert(s.drop_first()[k - 1] == x);
        lemma_position_found(s.drop_first(), x);
    }
}

/// Cycling back undoes cycling forward: from a value among the options,
/// the previous option of its next option is the value itself.
pub proof fn lemma_cycle_prev_undoes_next(current: Seq<char>, options: Seq<Seq<char>>)
    requires
        options.contains(current),
    ensures
        cycle_result(current, options, ScalarOperation::CycleNext) is Ok,
        cycle_result(
            cycle_result(current, options, ScalarOperation::CycleNext)->Ok_0,
            options,
            ScalarOperation::CyclePrev,
        ) == Ok::<Seq<char>, CycleError>(current),
{
    let ordered = sorted_distinct(options);
    lemma_sorted_distinct(options);
    assert(ordered.contains(current));
    assert forall|i: int, j: int| 0 <= i < j < ordered.len() implies ordered[i] != ordered[j] by {
        if ordered[i] == ordered[j] {
            lemma_str_lt_irreflexive(ordered[i]);
        }
    }
    lemma_position_found(ordered, current);
    let p = position_of(ordered, current) as int;
    let n = ordered.len() as int;
    let q = (p + 1) % n;
    assert(0 <= q < n) by (nonlinear_arith)
        requires
            n > 0,
            q == (p + 1) % n,
    ;
    let nxt = ordered[q];
    assert(cycle_pick(ordered, current, true) == nxt);
    lemma_position_distinct(ordered, q);
    lemma_position_distinct(ordered, p);
    if p + 1 < n {
        assert(q == p + 1) by (nonlinear_arith)
            requires
                0 <= p + 1 < n,
                q == (p + 1) % n,
        ;
    } else {
        assert(q == 0) by (nonlinear_arith)
            requires
                p + 1 == n,
                n > 0,
                q == (p + 1) % n,
        ;
    }
    assert(cycle_pick(ordered, nxt, false) == ordered[p]);
}

pub open spec fn cycle_result(
    current: Seq<char>,
    options: Seq<Seq<char>>,
    operation: ScalarOperation,
) -> Result<Seq<char>, CycleError> {
    if options.len() == 0 {
        Err(CycleError::NoOptions)
    } else if operation == ScalarOperation::CycleNext {
        Ok(cycle_pick(sorted_distinct(options), current, true))
    } else if operation == ScalarOperation::CyclePrev {
        Ok(cycle_pick(sorted_distinct(options), current, false))
    } else {
        Err(CycleError::InvalidOperation)
    }
}

/// Whether `a` comes before `b`.
fn str_less(a: &[char], b: &[char]) -> (r: bool)
    ensures
        r == str_lt(a@, b@),
{
    let mut i: usize = 0;
    assert(a@.skip(0) == a@ && b@.skip(0) == b@);
    while i < a.len() && i < b.len() && a[i] == b[i]
        invariant
            i <= a@.len(),
            i <= b@.len(),
            str_lt(a@, b@) == str_lt(a@.skip(i as int), b@.skip(i as int)),
        decreases a.len() - i,
    {
        assert(a@.skip(i as int).drop_first() == a@.skip(i + 1));
        assert(b@.skip(i as int).drop_first() == b@.skip(i + 1));
        i += 1;
    }
    proof {
        if i < a.len() {
            assert(a@.skip(i as int)[0] == a@[i as int]);
        }
        if i < b.len() {
            assert(b@.skip(i as int)[0] == b@[i as int]);
        }
    }
    if i == a.len() {
        i < b.len()
    } else if i == b.len() {
        false
    } else {
        a[i] < b[i]
    }
}

/// Puts `x` into the ascending `ordered` at its place, unless it is there.
fn insert_sorted_exec(ordered: &mut Vec<Vec<char>>, x: Vec<char>)
    ensures
        views(final(ordered)@) == insert_sorted(views(old(ordered)@), x@),
{
    let ghost s = views(ordered@);
    let mut i: usize = 0;
    assert(s.skip(0) == s);
    while i < ordered.len()
        invariant
            i <= ordered@.len(),
            s == views(ordered@),
            ordered@ == old(ordered)@,
            insert_sorted(s, x@) == s.take(i as int) + insert_sorted(s.skip(i as int), x@),
        decreases ordered.len() - i,
    {
        let ghost t = s.skip(i as int);
        assert(t[0] == ordered@[i as int]@);
        assert(t.drop_first() == s.skip(i + 1));
        if crate::text::seq_eq(&ordered[i], &x) {
            assert(s.take(i as int) + t == s);
            return;
        }
        if str_less(&x, &ordered[i]) {
            let ghost xv = x@;
            ordered.insert(i, x);
            assert(views(ordered@) =~= s.take(i as int) + (seq![xv] + t));
            return;
        }
        assert(s.take(i + 1) == s.take(i as int).push(t[0]));
        assert(s.take(i as int) + (seq![t[0]] + insert_sorted(t.drop_first(), x@)) == s.take(i + 1)
            + insert_sorted(s.skip(i + 1), x@));
        i += 1;
    }
    let ghost xv = x@;
    ordered.push(x);
    assert(s.skip(i as int).len() == 0);
    assert(s.take(i as int) == s);
    assert(views(ordered@) =~= s + seq![xv]);
}

pub open spec fn string_views_of(v: Seq<String>) -> Seq<Seq<char>> {
    v.map_values(|s: String| s@)
}

pub open spec fn result_view(r: Result<String, CycleError>) -> Result<Seq<char>, CycleError> {
    match r {
        Ok(s) => Ok(s@),
        Err(e) => Err(e),
    }
}

/// The options in ascending order without repeats (`sort` then `dedup`).
pub fn sorted_distinct_options(options: &[String]) -> (r: Vec<String>)
    ensures
        string_views_of(r@) == sorted_distinct(string_views_of(options@)),
{
    let ghost ov = string_views_of(options@);
    let mut ordered: Vec<Vec<char>> = Vec::new();
    let mut k: usize = 0;
    proof {
        assert(ov.take(0).len() == 0);
        assert(views(ordered@) =~= Seq::<Seq<char>>::empty());
    }
    while k < options.len()
        invariant
            k <= options@.len(),
            ov == string_views_of(options@),
            views(ordered@) == sorted_distinct(ov.take(k as int)),
        decreases options.len() - k,
    {
        proof {
            assert(ov.take(k + 1).drop_last() == ov.take(k as int));
            assert(ov.take(k + 1).last() == options@[k as int]@);
        }
        let x = chars_of(options[k].as_str());
        insert_sorted_exec(&mut ordered, x);
        k += 1;
    }
    assert(ov.take(k as int) == ov);
    let mut out: Vec<String> = Vec::new();
    let mut i: usize = 0;
    while i < ordered.len()
        invariant
            i <= ordered@.len(),
            string_views_of(out@) == views(ordered@).take(i as int),
        decreases ordered.len() - i,
    {
        let ghost before = string_views_of(out@);
        out.push(string_from(&ordered[i]));
        assert(string_views_of(out@) =~= before.push(ordered@[i as int]@));
        assert(views(ordered@).take(i + 1) =~= views(ordered@).take(i as int).push(ordered@[i as int]@));
        i += 1;
    }
    assert(views(ordered@).take(i as int) =~= views(ordered@));
    out
}

/// The next (or previous) value of a string setting among its options,
/// taken in ascending order without repeats.
pub fn cycle_string_option(current: &str, options: &[String], operation: ScalarOperation) -> (r: Result<
    String,
    CycleError,
>)
    ensures
        result_view(r) == cycle_result(current@, string_views_of(options@), operation),
{
    if options.len() == 0 {
        return Err(CycleError::NoOptions);
    }
    let ghost ov = string_views_of(options@);
    let mut ordered: Vec<Vec<char>> = Vec::new();
    let mut k: usize = 0;
    proof {
        assert(ov.take(0).len() == 0);
        assert(views(ordered@) =~= Seq::<Seq<char>>::empty());
    }
    while k < options.len()
        invariant
            k <= options@.len(),
            ov == string_views_of(options@),
            views(ordered@) == sorted_distinct(ov.take(k as int)),
        decreases options.len() - k,
    {
        proof {
            assert(ov.take(k + 1).drop_last() == ov.take(k as int));
            assert(ov.take(k + 1).last() == options@[k as int]@);
        }
        let x = chars_of(options[k].as_str());
        insert_sorted_exec(&mut ordered, x);
        k += 1;
    }
    assert(ov.take(k as int) == ov);
    let ghost sd = views(ordered@);
    proof {
        lemma_sorted_distinct(ov);
        assert(ov.contains(ov[0]));
        assert(sd.contains(ov[0]));
    }
    let cur = chars_of(current);
    let mut p: usize = 0;
    assert(sd.skip(0) == sd);
    while p < ordered.len() && !crate::text::seq_eq(&ordered[p], &cur)
        invariant
            p <= ordered@.len(),
            sd == views(ordered@),
            cur@ == current@,
            position_of(sd, cur@) == p + position_of(sd.skip(p as int), cur@),
        decreases ordered.len() - p,
    {
        assert(sd.skip(p as int)[0] == ordered@[p as int]@);
        assert(sd.skip(p as int).drop_first() == sd.skip(p + 1));
        p += 1;
    }
    proof {
        if p < ordered.len() {
            assert(sd.skip(p as int)[0] == ordered@[p as int]@);
        } else {
            assert(sd.skip(p as int).len() == 0);
        }
    }
    let idx = if p < ordered.len() {
        p
    } else {
        0
    };
    let n = ordered.len();
    let next_index = match operation {
        ScalarOperation::CycleNext => (idx + 1) % n,
        ScalarOperation::CyclePrev => {
            if idx == 0 {
                n - 1
            } else {
                idx - 1
            }
        },
        _ => {
            return Err(CycleError::InvalidOperation);
        },
    };
    Ok(string_from(&ordered[next_index]))
}

} // verus!
