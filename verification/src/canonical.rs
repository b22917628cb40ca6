//! Tool names that models write in text: which are clean identifiers, which
//! may be dispatched, and how aliases map onto the canonical tool names.

use vstd::prelude::*;
use crate::text::{
    byte_len, char_is_ascii_alnum, char_is_ascii_alpha, char_to_ascii_lower, chars_of, eq_str,
    is_ascii_alnum, is_ascii_alpha, is_whitespace, is_ws, lemma_byte_len_push, lower_char,
    string_from, trim, trim_in, trimmed, trimmed_in,
};

verus! {

/// The canonical name of the shell execution tool.
pub const EXEC_COMMAND: &'static str = "exec_command";

/// Maximum accepted tool-name length for content-derived calls.
pub const MAX_CLEAN_TOOL_NAME_LEN: usize = 64;

/// Whether the UTF-8 length of `s` exceeds `limit`, without computing more
/// of it than needed.
pub fn byte_len_exceeds(s: &[char], limit: usize) -> (b: bool)
    ensures
        b == (byte_len(s@) > limit),
{
    let mut acc: usize = 0;
    let mut i: usize = 0;
    while i < s.len()
        invariant
            i <= s@.len(),
            acc <= limit,
            acc == byte_len(s@.take(i as int)),
        decreases s.len() - i,
    {
        let w = crate::text::utf8_width(s[i]);
        proof {
            assert(s@.take(i + 1) == s@.take(i as int).push(s@[i as int]));
            lemma_byte_len_push(s@.take(i as int), s@[i as int]);
        }
        if w > limit - acc {
            proof {
                crate::text::lemma_byte_len_prefix(s@, i + 1);
            }
            return true;
        }
        acc = acc + w;
        i += 1;
    }
    assert(s@.take(i as int) == s@);
    false
}

/// A clean identifier: a letter, then letters, digits and underscores.
pub open spec fn clean_identifier(t: Seq<char>) -> bool {
    &&& t.len() > 0
    &&& is_ascii_alpha(t[0])
    &&& forall|i: int| 1 <= i < t.len() ==> is_ascii_alnum(#[trigger] t[i]) || t[i] == '_'
}

pub open spec fn clean_tool_name(raw: Seq<char>) -> bool {
    let t = trim(raw);
    byte_len(t) <= MAX_CLEAN_TOOL_NAME_LEN && clean_identifier(t)
}

/// Whether `raw` is a clean tool identifier (not prose, not a fixture blob).
///
/// Content-derived tool-call extraction must only bind names that look like
/// real tool identifiers. Mid-prose mentions of `tool_call` produce fragments
/// (backticks, spaces, em-dashes); rejecting those keeps documentation from
/// becoming a dispatchable call.
pub fn is_clean_tool_name(raw: &str) -> (b: bool)
    ensures
        b == clean_tool_name(raw@),
{
    let chars = chars_of(raw);
    let t = trimmed(&chars);
    if t.len() == 0 || byte_len_exceeds(&t, MAX_CLEAN_TOOL_NAME_LEN) {
        return false;
    }
    if !char_is_ascii_alpha(t[0]) {
        return false;
    }
    let mut i: usize = 1;
    while i < t.len()
        invariant
            1 <= i <= t@.len(),
            t@ == trim(raw@),
            byte_len(t@) <= MAX_CLEAN_TOOL_NAME_LEN,
            is_ascii_alpha(t@[0]),
            forall|j: int| 1 <= j < i ==> is_ascii_alnum(#[trigger] t@[j]) || t@[j] == '_',
        decreases t.len() - i,
    {
        if !(char_is_ascii_alnum(t[i]) || t[i] == '_') {
            assert(!(is_ascii_alnum(t@[i as int]) || t@[i as int] == '_'));
            return false;
        }
        i += 1;
    }
    true
}

/// Characters that mark prose rather than a tool name.
pub open spec fn prose_char(c: char) -> bool {
    is_ws(c) || c == '`' || c == '\u{2014}' || c == '\u{2013}'
}

pub open spec fn dispatchable_tool_name(raw: Seq<char>) -> bool {
    let t = trim(raw);
    &&& t.len() > 0
    &&& byte_len(t) <= MAX_CLEAN_TOOL_NAME_LEN
    &&& forall|i: int| 0 <= i < t.len() ==> !prose_char(#[trigger] t[i])
}

/// Whether `raw` is safe to dispatch as a native tool name (not a prose blob).
///
/// Allows MCP-visible names (`mcp__github__list`) and names with `:`/`-`/`.`
/// while rejecting whitespace/newlines/backticks and absurd lengths that mark
/// model analysis text accidentally placed in the name field.
pub fn is_dispatchable_tool_name(raw: &str) -> (b: bool)
    ensures
        b == dispatchable_tool_name(raw@),
{
    let chars = chars_of(raw);
    let t = trimmed(&chars);
    if t.len() == 0 || byte_len_exceeds(&t, MAX_CLEAN_TOOL_NAME_LEN) {
        return false;
    }
    let mut i: usize = 0;
    while i < t.len()
        invariant
            i <= t@.len(),
            t@ == trim(raw@),
            t@.len() > 0,
            byte_len(t@) <= MAX_CLEAN_TOOL_NAME_LEN,
            forall|j: int| 0 <= j < i ==> !prose_char(#[trigger] t@[j]),
        decreases t.len() - i,
    {
        let ch = t[i];
        if is_whitespace(ch) || ch == '`' || ch == '\u{2014}' || ch == '\u{2013}' {
            assert(prose_char(t@[i as int]));
            return false;
        }
        i += 1;
    }
    true
}

// ---------------------------------------------------------------------------
// Normalised names
// ---------------------------------------------------------------------------

pub open spec fn name_quote_chars() -> Seq<char> {
    seq!['"', '\'', '`']
}

/// Characters that separate words of a name.
pub open spec fn name_separator(c: char) -> bool {
    c == ' ' || c == '\t' || c == '\n' || c == '-' || c == ':' || c == '.'
}

/// The normalised name built from `s` before its surrounding underscores
/// are removed, with whether its last character came from a separator:
/// letters and digits in ASCII lowercase, underscores kept, each run of
/// separators after some output becoming one underscore, anything else
/// dropped.
pub open spec fn normalize_scan(s: Seq<char>) -> (Seq<char>, bool)
    decreases s.len(),
{
    if s.len() == 0 {
        (seq![], false)
    } else {
        let (out, last_sep) = normalize_scan(s.drop_last());
        let ch = s.last();
        if is_ascii_alnum(ch) {
            (out.push(lower_char(ch)), false)
        } else if ch == '_' {
            (out.push('_'), false)
        } else if name_separator(ch) && !last_sep && out.len() > 0 {
            (out.push('_'), true)
        } else {
            (out, last_sep)
        }
    }
}

/// The normalised form of a tool name, or none when nothing is left.
pub open spec fn normalized_name(raw: Seq<char>) -> Option<Seq<char>> {
    let t = trim(raw);
    if t.len() == 0 {
        None
    } else {
        let n = trim_in(normalize_scan(trim_in(t, name_quote_chars())).0, seq!['_']);
        if n.len() == 0 {
            None
        } else {
            Some(n)
        }
    }
}

/// A character of a normalised name: a lowercase ASCII letter, a digit or
/// an underscore.
pub open spec fn snake_char(c: char) -> bool {
    crate::text::is_ascii_lower(c) || crate::text::is_ascii_digit(c) || c == '_'
}

/// A normalised name: non-empty, lowercase snake case, without a leading or
/// trailing underscore.
pub open spec fn snake_name(n: Seq<char>) -> bool {
    &&& n.len() > 0
    &&& n[0] != '_'
    &&& n.last() != '_'
    &&& forall|i: int| 0 <= i < n.len() ==> snake_char(#[trigger] n[i])
}

proof fn lemma_lower_char_snake(c: char)
    requires
        is_ascii_alnum(c),
    ensures
        snake_char(lower_char(c)),
        snake_char(c) ==> lower_char(c) == c,
{
    if crate::text::is_ascii_upper(c) {
        let v = (c as u32) + 32;
        assert(0x61 <= v <= 0x7A);
        assert(lower_char(c) == v as char);
    }
}

proof fn lemma_scan_chars(s: Seq<char>)
    ensures
        forall|i: int| 0 <= i < normalize_scan(s).0.len() ==> snake_char(#[trigger] normalize_scan(s).0[i]),
    decreases s.len(),
{
    if s.len() > 0 {
        lemma_scan_chars(s.drop_last());
        let ch = s.last();
        if is_ascii_alnum(ch) {
            lemma_lower_char_snake(ch);
        }
        let prev = normalize_scan(s.drop_last()).0;
        assert forall|i: int| 0 <= i < normalize_scan(s).0.len() implies snake_char(#[trigger] normalize_scan(s).0[i]) by {
            if i < prev.len() {
                assert(normalize_scan(s).0[i] == prev[i]);
            }
        }
    }
}

proof fn lemma_scan_identity(s: Seq<char>)
    requires
        forall|i: int| 0 <= i < s.len() ==> snake_char(#[trigger] s[i]),
    ensures
        normalize_scan(s) == (s, false),
    decreases s.len(),
{
    if s.len() > 0 {
        let d = s.drop_last();
        assert forall|i: int| 0 <= i < d.len() implies snake_char(#[trigger] d[i]) by {
            assert(d[i] == s[i]);
        }
        lemma_scan_identity(d);
        let ch = s.last();
        assert(snake_char(s[s.len() - 1]));
        if ch != '_' {
            assert(is_ascii_alnum(ch));
            lemma_lower_char_snake(ch);
        }
        assert(d.push(ch) =~= s);
    }
}

proof fn lemma_trim_start_in_shape(s: Seq<char>, set: Seq<char>)
    ensures
        exists|k: int| 0 <= k <= s.len() && #[trigger] s.skip(k) == crate::text::trim_start_in(s, set),
        crate::text::trim_start_in(s, set).len() > 0 ==> !set.contains(crate::text::trim_start_in(s, set)[0]),
    decreases s.len(),
{
    if s.len() > 0 && set.contains(s[0]) {
        lemma_trim_start_in_shape(s.drop_first(), set);
        let k = choose|k: int| 0 <= k <= s.drop_first().len() && #[trigger] s.drop_first().skip(k)
            == crate::text::trim_start_in(s.drop_first(), set);
        assert(s.skip(k + 1) =~= s.drop_first().skip(k));
    } else {
        assert(s.skip(0) =~= s);
    }
}

proof fn lemma_trim_end_in_shape(s: Seq<char>, set: Seq<char>)
    ensures
        exists|k: int| 0 <= k <= s.len() && #[trigger] s.take(k) == crate::text::trim_end_in(s, set),
        crate::text::trim_end_in(s, set).len() > 0 ==> !set.contains(crate::text::trim_end_in(s, set).last()),
    decreases s.len(),
{
    if s.len() > 0 && set.contains(s.last()) {
        lemma_trim_end_in_shape(s.drop_last(), set);
        let k = choose|k: int| 0 <= k <= s.drop_last().len() && #[trigger] s.drop_last().take(k)
            == crate::text::trim_end_in(s.drop_last(), set);
        assert(s.take(k) =~= s.drop_last().take(k));
    } else {
        assert(s.take(s.len() as int) =~= s);
    }
}

/// Normalising a tool name gives lowercase snake case without a leading or
/// trailing underscore, and normalising that name again gives it back.
pub proof fn lemma_normalized_name_is_fixed_snake_case(raw: Seq<char>)
    ensures
        match normalized_name(raw) {
            Some(n) => snake_name(n) && normalized_name(n) == Some(n),
            None => true,
        },
{
    let t = trim(raw);
    if t.len() > 0 {
        let u = trim_in(t, name_quote_chars());
        let scanned = normalize_scan(u).0;
        lemma_scan_chars(u);
        let a = crate::text::trim_start_in(scanned, seq!['_']);
        lemma_trim_start_in_shape(scanned, seq!['_']);
        lemma_trim_end_in_shape(a, seq!['_']);
        let n = crate::text::trim_end_in(a, seq!['_']);
        if n.len() > 0 {
            let k1 = choose|k: int| 0 <= k <= scanned.len() && #[trigger] scanned.skip(k) == a;
            let k2 = choose|k: int| 0 <= k <= a.len() && #[trigger] a.take(k) == n;
            assert forall|i: int| 0 <= i < n.len() implies snake_char(#[trigger] n[i]) by {
                assert(n[i] == a[i]);
                assert(a[i] == scanned[i + k1]);
            }
            assert(n[0] == a[0]);
            assert(!seq!['_'].contains(a[0]));
            assert(!seq!['_'].contains(n.last()));
            if n[0] == '_' {
                assert(seq!['_'][0] == '_');
                assert(seq!['_'].contains(a[0]));
            }
            if n.last() == '_' {
                assert(seq!['_'][0] == '_');
                assert(seq!['_'].contains(n.last()));
            }
            // Normalising `n` again changes nothing.
            assert(!crate::text::is_ws(n[0]));
            assert(!crate::text::is_ws(n.last()));
            assert(crate::text::trim_start(n) == n);
            assert(crate::text::trim_end(n) == n);
            assert(trim(n) == n);
            assert(!name_quote_chars().contains(n[0]));
            assert(!name_quote_chars().contains(n.last()));
            assert(crate::text::trim_start_in(n, name_quote_chars()) == n);
            assert(crate::text::trim_end_in(n, name_quote_chars()) == n);
            lemma_scan_identity(n);
            assert(crate::text::trim_start_in(n, seq!['_']) == n);
            assert(crate::text::trim_end_in(n, seq!['_']) == n);
            assert(trim_in(n, name_quote_chars()) == n);
            assert(normalize_scan(trim_in(n, name_quote_chars())).0 == n);
            assert(trim_in(n, seq!['_']) == n);
        }
    }
}

pub open spec fn opt_string_view(o: Option<String>) -> Option<Seq<char>> {
    match o {
        Some(s) => Some(s@),
        None => None,
    }
}

/// Normalise a tool name: trim it and its quotes, lowercase it, and turn
/// separators into single underscores.
pub fn canonicalize_normalized_name(raw: &str) -> (r: Option<String>)
    ensures
        opt_string_view(r) == normalized_name(raw@),
{
    let chars = chars_of(raw);
    let t = trimmed(&chars);
    if t.len() == 0 {
        return None;
    }
    let quotes = vec!['"', '\'', '`'];
    assert(quotes@ == name_quote_chars());
    let unquoted = trimmed_in(&t, &quotes);
    let mut normalized: Vec<char> = Vec::new();
    let mut last_was_separator = false;
    let mut i: usize = 0;
    while i < unquoted.len()
        invariant
            i <= unquoted@.len(),
            normalize_scan(unquoted@.take(i as int)) == (normalized@, last_was_separator),
        decreases unquoted.len() - i,
    {
        let ch = unquoted[i];
        proof {
            assert(unquoted@.take(i + 1).drop_last() == unquoted@.take(i as int));
            assert(unquoted@.take(i + 1).last() == ch);
        }
        if char_is_ascii_alnum(ch) {
            normalized.push(char_to_ascii_lower(ch));
            last_was_separator = false;
        } else if ch == '_' {
            normalized.push('_');
            last_was_separator = false;
        } else if (ch == ' ' || ch == '\t' || ch == '\n' || ch == '-' || ch == ':' || ch == '.')
            && !last_was_separator && normalized.len() > 0 {
            normalized.push('_');
            last_was_separator = true;
        }
        i += 1;
    }
    proof {
        assert(unquoted@.take(i as int) == unquoted@);
    }
    let underscores = vec!['_'];
    assert(underscores@ == seq!['_']);
    let cleaned = trimmed_in(&normalized, &underscores);
    if cleaned.len() == 0 {
        None
    } else {
        Some(string_from(&cleaned))
    }
}

// ---------------------------------------------------------------------------
// Aliases and `exec_command` defaults
// ---------------------------------------------------------------------------

/// Normalised names that are plain shell aliases of `exec_command`.
pub open spec fn shell_alias_names() -> Seq<Seq<char>> {
    seq![
        "run"@,
        "runcmd"@,
        "runcommand"@,
        "terminalrun"@,
        "terminalcmd"@,
        "terminalcommand"@,
        "command"@,
        "shell"@,
        "bash"@,
        "container_exec"@,
        "exec"@,
        "exec_command"@,
    ]
}

pub open spec fn str_views(v: Seq<&str>) -> Seq<Seq<char>> {
    v.map_values(|s: &str| s@)
}

/// Whether `v` is one of `names`.
pub fn is_one_of(v: &[char], names: &[&str]) -> (b: bool)
    ensures
        b == str_views(names@).contains(v@),
{
    let mut i: usize = 0;
    while i < names.len()
        invariant
            i <= names@.len(),
            forall|j: int| 0 <= j < i ==> names@[j]@ != v@,
        decreases names.len() - i,
    {
        if eq_str(v, names[i]) {
            assert(str_views(names@)[i as int] == v@);
            return true;
        }
        i += 1;
    }
    proof {
        if str_views(names@).contains(v@) {
            let j = choose|j: int| 0 <= j < str_views(names@).len() && str_views(names@)[j] == v@;
            assert(names@[j]@ == v@);
        }
    }
    false
}

fn shell_aliases() -> (v: Vec<&'static str>)
    ensures
        str_views(v@) == shell_alias_names(),
{
    let v = vec![
        "run",
        "runcmd",
        "runcommand",
        "terminalrun",
        "terminalcmd",
        "terminalcommand",
        "command",
        "shell",
        "bash",
        "container_exec",
        "exec",
        "exec_command",
    ];
    assert(str_views(v@) =~= shell_alias_names());
    v
}

/// Map well-known shell aliases used by gateway models onto `exec_command`.
///
/// Returns `None` when the name is not a shell alias (leave it unchanged).
/// Also used for native tool calls so `bash`/`shell`/`run` do not fail as
/// `Unknown tool` after the textual path already understood them.
pub fn canonicalize_shell_tool_alias(raw: &str) -> (r: Option<String>)
    ensures
        opt_string_view(r) == (match normalized_name(raw@) {
            Some(n) => if shell_alias_names().contains(n) {
                Some(EXEC_COMMAND@)
            } else {
                None
            },
            None => None,
        }),
{
    let normalized = match canonicalize_normalized_name(raw) {
        Some(n) => n,
        None => return None,
    };
    let n = chars_of(normalized.as_str());
    let aliases = shell_aliases();
    if is_one_of(&n, &aliases) {
        Some(EXEC_COMMAND.to_owned())
    } else {
        None
    }
}

/// What a name that stands for `exec_command` fills in when the call leaves
/// it out: the action, and whether a terminal is forced.
#[derive(Clone, Copy, Debug)]
pub struct ExecCommandDefaults {
    pub action: &'static str,
    pub force_tty: Option<bool>,
}

/// The defaults for a normalised name, as (action, forced terminal).
pub open spec fn exec_defaults(n: Seq<char>) -> Option<(Seq<char>, Option<bool>)> {
    if shell_alias_names().contains(n) {
        Some(("run"@, None))
    } else if n == "run_pty_cmd"@ || n == "create_pty_session"@ {
        Some(("run"@, Some(true)))
    } else if n == "send_pty_input"@ {
        Some(("write"@, None))
    } else if n == "read_pty_session"@ {
        Some(("poll"@, None))
    } else if n == "list_pty_sessions"@ {
        Some(("list"@, None))
    } else if n == "close_pty_session"@ {
        Some(("close"@, None))
    } else {
        None
    }
}

pub open spec fn defaults_view(o: Option<ExecCommandDefaults>) -> Option<(Seq<char>, Option<bool>)> {
    match o {
        Some(d) => Some((d.action@, d.force_tty)),
        None => None,
    }
}

/// The `exec_command` defaults for an already normalised name.
pub fn exec_command_defaults_from_normalized_name(normalized: &str) -> (r: Option<ExecCommandDefaults>)
    ensures
        defaults_view(r) == exec_defaults(normalized@),
{
    let n = chars_of(normalized);
    let aliases = shell_aliases();
    if is_one_of(&n, &aliases) {
        Some(ExecCommandDefaults { action: "run", force_tty: None })
    } else if eq_str(&n, "run_pty_cmd") || eq_str(&n, "create_pty_session") {
        Some(ExecCommandDefaults { action: "run", force_tty: Some(true) })
    } else if eq_str(&n, "send_pty_input") {
        Some(ExecCommandDefaults { action: "write", force_tty: None })
    } else if eq_str(&n, "read_pty_session") {
        Some(ExecCommandDefaults { action: "poll", force_tty: None })
    } else if eq_str(&n, "list_pty_sessions") {
        Some(ExecCommandDefaults { action: "list", force_tty: None })
    } else if eq_str(&n, "close_pty_session") {
        Some(ExecCommandDefaults { action: "close", force_tty: None })
    } else {
        None
    }
}

/// The defaults for a raw tool name: those of its normalised form.
pub open spec fn exec_defaults_for_raw(raw: Seq<char>) -> Option<(Seq<char>, Option<bool>)> {
    match normalized_name(raw) {
        Some(n) => exec_defaults(n),
        None => None,
    }
}

/// The `exec_command` defaults for a raw tool name.
pub fn exec_command_defaults_for_name(raw: &str) -> (r: Option<ExecCommandDefaults>)
    ensures
        defaults_view(r) == exec_defaults_for_raw(raw@),
{
    match canonicalize_normalized_name(raw) {
        Some(n) => exec_command_defaults_from_normalized_name(n.as_str()),
        None => None,
    }
}

/// The canonical tool name for a raw name: `exec_command` for anything that
/// stands for it, otherwise the normalised name.
pub open spec fn canonical_tool_name(raw: Seq<char>) -> Option<Seq<char>> {
    match normalized_name(raw) {
        Some(n) => if exec_defaults(n) is Some {
            Some(EXEC_COMMAND@)
        } else {
            Some(n)
        },
        None => None,
    }
}

/// Canonicalise a tool name written by a model.
pub fn canonicalize_tool_name(raw: &str) -> (r: Option<String>)
    ensures
        opt_string_view(r) == canonical_tool_name(raw@),
{
    let normalized = match canonicalize_normalized_name(raw) {
        Some(n) => n,
        None => return None,
    };
    if normalized.as_str().is_empty() {
        None
    } else if exec_command_defaults_from_normalized_name(normalized.as_str()).is_some() {
        Some(EXEC_COMMAND.to_owned())
    } else {
        Some(normalized)
    }
}

proof fn lemma_not_shell_alias(n: Seq<char>)
    requires
        n == "run_pty_cmd"@ || n == "create_pty_session"@ || n == "send_pty_input"@ || n == "read_pty_session"@
            || n == "list_pty_sessions"@ || n == "close_pty_session"@,
    ensures
        !shell_alias_names().contains(n),
{
    reveal_strlit("run_pty_cmd");
    reveal_strlit("create_pty_session");
    reveal_strlit("send_pty_input");
    reveal_strlit("read_pty_session");
    reveal_strlit("list_pty_sessions");
    reveal_strlit("close_pty_session");
    reveal_strlit("run");
    reveal_strlit("runcmd");
    reveal_strlit("runcommand");
    reveal_strlit("terminalrun");
    reveal_strlit("terminalcmd");
    reveal_strlit("terminalcommand");
    reveal_strlit("command");
    reveal_strlit("shell");
    reveal_strlit("bash");
    reveal_strlit("container_exec");
    reveal_strlit("exec");
    reveal_strlit("exec_command");
    let a = shell_alias_names();
    assert forall|i: int| 0 <= i < a.len() implies a[i] != n by {
        assert(a[i].len() != n.len() || a[i][0] != n[0] || a[i][1] != n[1]);
    }
}

/// The legacy PTY tool names stand for `exec_command`, each with its fixed
/// defaults: `run_pty_cmd` and `create_pty_session` run a command on a
/// terminal, `send_pty_input` writes, `read_pty_session` polls,
/// `list_pty_sessions` lists and `close_pty_session` closes. A raw name
/// that normalises to one of them canonicalises to `exec_command`.
pub proof fn lemma_legacy_pty_names_are_exec_command(raw: Seq<char>)
    ensures
        normalized_name(raw) == Some("run_pty_cmd"@) ==> canonical_tool_name(raw) == Some("exec_command"@)
            && exec_defaults_for_raw(raw) == Some(("run"@, Some(true))),
        normalized_name(raw) == Some("create_pty_session"@) ==> canonical_tool_name(raw) == Some("exec_command"@)
            && exec_defaults_for_raw(raw) == Some(("run"@, Some(true))),
        normalized_name(raw) == Some("send_pty_input"@) ==> canonical_tool_name(raw) == Some("exec_command"@)
            && exec_defaults_for_raw(raw) == Some(("write"@, None::<bool>)),
        normalized_name(raw) == Some("read_pty_session"@) ==> canonical_tool_name(raw) == Some("exec_command"@)
            && exec_defaults_for_raw(raw) == Some(("poll"@, None::<bool>)),
        normalized_name(raw) == Some("list_pty_sessions"@) ==> canonical_tool_name(raw) == Some("exec_command"@)
            && exec_defaults_for_raw(raw) == Some(("list"@, None::<bool>)),
        normalized_name(raw) == Some("close_pty_session"@) ==> canonical_tool_name(raw) == Some("exec_command"@)
            && exec_defaults_for_raw(raw) == Some(("close"@, None::<bool>)),
{
    lemma_not_shell_alias("run_pty_cmd"@);
    lemma_not_shell_alias("create_pty_session"@);
    lemma_not_shell_alias("send_pty_input"@);
    lemma_not_shell_alias("read_pty_session"@);
    lemma_not_shell_alias("list_pty_sessions"@);
    lemma_not_shell_alias("close_pty_session"@);
    reveal_strlit("run_pty_cmd");
    reveal_strlit("create_pty_session");
    reveal_strlit("send_pty_input");
    reveal_strlit("read_pty_session");
    reveal_strlit("list_pty_sessions");
    reveal_strlit("close_pty_session");
    reveal_strlit("exec_command");
    assert("create_pty_session"@ != "run_pty_cmd"@) by {
        assert("create_pty_session"@.len() != "run_pty_cmd"@.len() || "create_pty_session"@[0] != "run_pty_cmd"@[0]);
    }
    assert("send_pty_input"@ != "run_pty_cmd"@) by {
        assert("send_pty_input"@.len() != "run_pty_cmd"@.len() || "send_pty_input"@[0] != "run_pty_cmd"@[0]);
    }
    assert("send_pty_input"@ != "create_pty_session"@) by {
        assert("send_pty_input"@.len() != "create_pty_session"@.len() || "send_pty_input"@[0] != "create_pty_session"@[0]);
    }
    assert("read_pty_session"@ != "run_pty_cmd"@) by {
        assert("read_pty_session"@.len() != "run_pty_cmd"@.len() || "read_pty_session"@[0] != "run_pty_cmd"@[0]);
    }
    assert("read_pty_session"@ != "create_pty_session"@) by {
        assert("read_pty_session"@.len() != "create_pty_session"@.len() || "read_pty_session"@[0] != "create_pty_session"@[0]);
    }
    assert("read_pty_session"@ != "send_pty_input"@) by {
        assert("read_pty_session"@.len() != "send_pty_input"@.len() || "read_pty_session"@[0] != "send_pty_input"@[0]);
    }
    assert("list_pty_sessions"@ != "run_pty_cmd"@) by {
        assert("list_pty_sessions"@.len() != "run_pty_cmd"@.len() || "list_pty_sessions"@[0] != "run_pty_cmd"@[0]);
    }
    assert("list_pty_sessions"@ != "create_pty_session"@) by {
        assert("list_pty_sessions"@.len() != "create_pty_session"@.len() || "list_pty_sessions"@[0] != "create_pty_session"@[0]);
    }
    assert("list_pty_sessions"@ != "send_pty_input"@) by {
        assert("list_pty_sessions"@.len() != "send_pty_input"@.len() || "list_pty_sessions"@[0] != "send_pty_input"@[0]);
    }
    assert("list_pty_sessions"@ != "read_pty_session"@) by {
        assert("list_pty_sessions"@.len() != "read_pty_session"@.len() || "list_pty_sessions"@[0] != "read_pty_session"@[0]);
    }
    assert("close_pty_session"@ != "run_pty_cmd"@) by {
        assert("close_pty_session"@.len() != "run_pty_cmd"@.len() || "close_pty_session"@[0] != "run_pty_cmd"@[0]);
    }
    assert("close_pty_session"@ != "create_pty_session"@) by {
        assert("close_pty_session"@.len() != "create_pty_session"@.len() || "close_pty_session"@[0] != "create_pty_session"@[0]);
    }
    assert("close_pty_session"@ != "send_pty_input"@) by {
        assert("close_pty_session"@.len() != "send_pty_input"@.len() || "close_pty_session"@[0] != "send_pty_input"@[0]);
    }
    assert("close_pty_session"@ != "read_pty_session"@) by {
        assert("close_pty_session"@.len() != "read_pty_session"@.len() || "close_pty_session"@[0] != "read_pty_session"@[0]);
    }
    assert("close_pty_session"@ != "list_pty_sessions"@) by {
        assert("close_pty_session"@.len() != "list_pty_sessions"@.len() || "close_pty_session"@[0] != "list_pty_sessions"@[0]);
    }
}

} // verus!
