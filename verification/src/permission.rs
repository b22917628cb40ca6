//! Wording and shell-command analysis for the tool permission prompt.

use vstd::prelude::*;
use crate::text::{
    chars_of, contains_str, dec, eq_str, extend_all, extend_str,
    is_ascii_upper, join, lines, lower, push_dec, split_lines, string_from, sub_vec, to_ascii_lower,
    trim, trimmed, views, contains_seq,
};

verus! {

// ---------------------------------------------------------------------------
// Decisions
// ---------------------------------------------------------------------------

/// What the user decided in a human-in-the-loop prompt.
#[derive(Debug, Clone, Copy, PartialEq, Eq, Structural)]
pub enum HitlDecision {
    Approved,
    ApprovedSession,
    ApprovedPermanent,
    Denied,
    DeniedOnce,
    Exit,
    Interrupt,
    Enable,
}

/// Which permission prompt is shown.
#[derive(Debug, Clone, Copy, PartialEq, Eq, Structural)]
pub enum ToolPermissionPromptKind {
    Standard,
    Mcp,
}

/// The decision when the user cancels the prompt: an MCP prompt is denied
/// for this call only, any other is denied.
pub fn cancelled_prompt_decision(prompt_kind: ToolPermissionPromptKind) -> (d: HitlDecision)
    ensures
        d == (if prompt_kind == ToolPermissionPromptKind::Mcp {
            HitlDecision::DeniedOnce
        } else {
            HitlDecision::Denied
        }),
{
    if prompt_kind == ToolPermissionPromptKind::Mcp {
        HitlDecision::DeniedOnce
    } else {
        HitlDecision::Denied
    }
}

// ---------------------------------------------------------------------------
// Shell commands
// ---------------------------------------------------------------------------

/// The command chains, pipes, substitutes or continues on another line.
pub open spec fn has_control_operator(c: Seq<char>) -> bool {
    contains_seq(c, "&&"@) || contains_seq(c, "||"@) || c.contains('|') || c.contains(';')
        || contains_seq(c, "$("@) || c.contains('`') || contains_seq(c, "<<"@) || c.contains('\n')
}

/// Whether a shell command string uses control operators.
pub fn shell_command_contains_control_operators(command: &str) -> (b: bool)
    ensures
        b == has_control_operator(command@),
{
    let c = chars_of(command);
    contains_str(&c, "&&") || contains_str(&c, "||") || crate::text::contains_char(&c, '|')
        || crate::text::contains_char(&c, ';') || contains_str(&c, "$(")
        || crate::text::contains_char(&c, '`') || contains_str(&c, "<<")
        || crate::text::contains_char(&c, '\n')
}

/// A program word that every platform's path rules leave whole: non-empty,
/// without `/`, `\\` or `:`, and not `.` or `..`.
pub open spec fn plain_program_name(p: Seq<char>) -> bool {
    p.len() > 0 && !p.contains('/') && !p.contains('\\') && !p.contains(':') && p != "."@ && p != ".."@
}

/// The index just past the last `/` of `p` (zero when it has none).
pub open spec fn after_last_slash(p: Seq<char>) -> int
    decreases p.len(),
{
    if p.len() == 0 {
        0
    } else if p.last() == '/' {
        p.len() as int
    } else {
        after_last_slash(p.drop_last())
    }
}

/// What follows the last `/` of `p` (all of `p` when it has none).
pub open spec fn last_slash_segment(p: Seq<char>) -> Seq<char> {
    p.subrange(after_last_slash(p), p.len() as int)
}

/// A program word whose file name every platform agrees on: without `\\`
/// or `:` (Windows separators and drive prefixes), not opening with `//`
/// (a Windows share prefix), and ending, after its last `/`, in a plain
/// program name. `/` separates components on every platform, so that name
/// is the word's last component.
pub open spec fn portable_program_path(p: Seq<char>) -> bool {
    !p.contains('\\') && !p.contains(':') && !(p.len() >= 2 && p[0] == '/' && p[1] == '/')
        && plain_program_name(last_slash_segment(p))
}

/// `Path::new(p).file_name()` converted to text. Stated: for a word of
/// `portable_program_path` the file name is what follows its last `/` (the
/// whole word when it has none). What other words give depends on the
/// platform's path rules and is left unstated.
#[verifier::external_body]
fn file_name_of(p: &str) -> (r: Option<String>)
    ensures
        plain_program_name(p@) ==> opt_view(r) == Some(p@),
        portable_program_path(p@) ==> opt_view(r) == Some(last_slash_segment(p@)),
{
    std::path::Path::new(p).file_name().and_then(|name| name.to_str()).map(|name| name.to_owned())
}

pub open spec fn opt_view(o: Option<String>) -> Option<Seq<char>> {
    match o {
        Some(s) => Some(s@),
        None => None,
    }
}

pub open spec fn string_views(v: Seq<String>) -> Seq<Seq<char>> {
    v.map_values(|s: String| s@)
}

/// The flags that make a POSIX shell run a command string.
pub open spec fn posix_command_flag(a: Seq<char>) -> bool {
    a == "-c"@ || a == "-ic"@ || a == "-lc"@ || a == "--command"@ || a == "--login"@ || a
        == "--interactive"@
}


/// Which family of shell a program base name is: POSIX (1), PowerShell
/// (2), cmd (3), none (0).
pub open spec fn shell_family_of(b: Seq<char>) -> u8 {
    if b == "sh"@ || b == "bash"@ || b == "zsh"@ || b == "fish"@ {
        1
    } else if b == "pwsh"@ || b == "powershell"@ || b == "powershell.exe"@ {
        2
    } else if b == "cmd"@ || b == "cmd.exe"@ {
        3
    } else {
        0
    }
}

/// The command runs a nested shell, its program having the file name
/// `name`: a POSIX shell with a command flag, PowerShell with
/// `-command`/`-c`, or `cmd` with `/c`/`/k` (the latter two flags and the
/// name in any ASCII case).
pub open spec fn uses_nested_shell_named(name: Seq<char>, words: Seq<Seq<char>>) -> bool {
    if words.len() == 0 {
        false
    } else {
        let f = shell_family_of(lower(name));
        let args = words.drop_first();
        if f == 1 {
            exists|i: int| 0 <= i < args.len() && posix_command_flag(#[trigger] args[i])
        } else if f == 2 {
            exists|i: int|
                0 <= i < args.len() && (lower(#[trigger] args[i]) == "-command"@ || lower(args[i])
                    == "-c"@)
        } else if f == 3 {
            exists|i: int|
                0 <= i < args.len() && (lower(#[trigger] args[i]) == "/c"@ || lower(args[i])
                    == "/k"@)
        } else {
            false
        }
    }
}

/// The command runs a nested shell, its program word taken as its name.
pub open spec fn uses_nested_shell(words: Seq<Seq<char>>) -> bool {
    words.len() > 0 && uses_nested_shell_named(words[0], words)
}

/// Which family of shell a program is: POSIX (1), PowerShell (2), cmd (3).
fn shell_family(b: &[char]) -> (f: u8)
    ensures
        f == shell_family_of(b@),
{
    if eq_str(b, "sh") || eq_str(b, "bash") || eq_str(b, "zsh") || eq_str(b, "fish") {
        1
    } else if eq_str(b, "pwsh") || eq_str(b, "powershell") || eq_str(b, "powershell.exe") {
        2
    } else if eq_str(b, "cmd") || eq_str(b, "cmd.exe") {
        3
    } else {
        0
    }
}

/// Whether `arg` makes a shell of family `family` run a command string.
fn is_command_flag(family: u8, arg: &str) -> (r: bool)
    ensures
        family == 1 ==> r == posix_command_flag(arg@),
        family == 2 ==> r == (lower(arg@) == "-command"@ || lower(arg@) == "-c"@),
        family == 3 ==> r == (lower(arg@) == "/c"@ || lower(arg@) == "/k"@),
{
    let a = chars_of(arg);
    if family == 1 {
        eq_str(&a, "-c") || eq_str(&a, "-ic") || eq_str(&a, "-lc") || eq_str(&a, "--command")
            || eq_str(&a, "--login") || eq_str(&a, "--interactive")
    } else if family == 2 {
        let l = to_ascii_lower(&a);
        eq_str(&l, "-command") || eq_str(&l, "-c")
    } else if family == 3 {
        let l = to_ascii_lower(&a);
        eq_str(&l, "/c") || eq_str(&l, "/k")
    } else {
        false
    }
}

/// Whether the command words run a nested shell with a command string,
/// given the file name of their program.
pub fn nested_shell_for_program(program_name: &str, command_words: &[String]) -> (b: bool)
    ensures
        b == uses_nested_shell_named(program_name@, string_views(command_words@)),
{
    if command_words.len() == 0 {
        return false;
    }
    let ghost ws = string_views(command_words@);
    let name_chars = chars_of(program_name);
    let basename = to_ascii_lower(&name_chars);
    let family = shell_family(&basename);
    if family == 0 {
        return false;
    }
    let mut i: usize = 1;
    while i < command_words.len()
        invariant
            1 <= i <= command_words@.len(),
            1 <= family <= 3,
            ws == string_views(command_words@),
            family == shell_family_of(lower(program_name@)),
            family == 1 ==> forall|j: int| 1 <= j < i ==> !posix_command_flag(#[trigger] ws[j]),
            family == 2 ==> forall|j: int|
                1 <= j < i ==> !(lower(#[trigger] ws[j]) == "-command"@ || lower(ws[j]) == "-c"@),
            family == 3 ==> forall|j: int|
                1 <= j < i ==> !(lower(#[trigger] ws[j]) == "/c"@ || lower(ws[j]) == "/k"@),
        decreases command_words.len() - i,
    {
        if is_command_flag(family, command_words[i].as_str()) {
            assert(ws.drop_first()[i - 1] == ws[i as int]);
            assert(ws[i as int] == command_words@[i as int]@);
            return true;
        }
        i += 1;
    }
    proof {
        let args = ws.drop_first();
        assert forall|k: int| 0 <= k < args.len() implies args[k] == ws[k + 1] by {}
    }
    false
}

/// Whether the command words run a nested shell with a command string. The
/// program's file name comes from `Path::file_name` (the program word when
/// it has none). For a program word of `portable_program_path` that is what
/// follows its last `/`, and the result is exact; for other words the name
/// depends on the platform, and the result is stated for the name that came
/// back.
pub fn shell_run_uses_nested_shell(command_words: &[String]) -> (b: bool)
    ensures
        command_words@.len() == 0 ==> !b,
        command_words@.len() > 0 && plain_program_name(command_words@[0]@) ==> b == uses_nested_shell(
            string_views(command_words@),
        ),
        command_words@.len() > 0 && portable_program_path(command_words@[0]@) ==> b
            == uses_nested_shell_named(last_slash_segment(command_words@[0]@), string_views(command_words@)),
        exists|name: Seq<char>| b == uses_nested_shell_named(name, string_views(command_words@)),
{
    if command_words.len() == 0 {
        proof {
            assert(!uses_nested_shell_named(seq![], string_views(command_words@)));
        }
        return false;
    }
    let program = command_words[0].as_str();
    let name = match file_name_of(program) {
        Some(n) => n,
        None => program.to_owned(),
    };
    let b = nested_shell_for_program(name.as_str(), command_words);
    proof {
        let ws = string_views(command_words@);
        assert(ws[0] == command_words@[0]@);
        assert(b == uses_nested_shell_named(name@, ws));
    }
    b
}

/// Whether a command word is a chain or pipe operator.
pub open spec fn operator_word(w: Seq<char>) -> bool {
    w == "|"@ || w == "||"@ || w == "&&"@ || w == ";"@
}

/// The segments of the words between operator words: the non-empty runs of
/// words that are not operators, with the run still open.
pub open spec fn segment_scan(ws: Seq<Seq<char>>) -> (Seq<Seq<Seq<char>>>, Seq<Seq<char>>)
    decreases ws.len(),
{
    if ws.len() == 0 {
        (seq![], seq![])
    } else {
        let (segs, cur) = segment_scan(ws.drop_last());
        let w = ws.last();
        if operator_word(w) {
            if cur.len() > 0 {
                (segs.push(cur), seq![])
            } else {
                (segs, cur)
            }
        } else {
            (segs, cur.push(w))
        }
    }
}

/// The command split at its operator words, or none when no command word
/// is left.
pub open spec fn operator_segments(ws: Seq<Seq<char>>) -> Option<Seq<Seq<Seq<char>>>> {
    let (segs, cur) = segment_scan(ws);
    let all = if cur.len() > 0 {
        segs.push(cur)
    } else {
        segs
    };
    if ws.len() == 0 || all.len() == 0 {
        None
    } else {
        Some(all)
    }
}

pub open spec fn segment_views(v: Seq<Vec<String>>) -> Seq<Seq<Seq<char>>> {
    v.map_values(|s: Vec<String>| string_views(s@))
}

pub open spec fn opt_segment_views(o: Option<Vec<Vec<String>>>) -> Option<Seq<Seq<Seq<char>>>> {
    match o {
        Some(v) => Some(segment_views(v@)),
        None => None,
    }
}

/// Split command words into the commands joined by `|`, `||`, `&&`, `;`.
pub fn split_command_words_on_operators(parts: &[String]) -> (r: Option<Vec<Vec<String>>>)
    ensures
        opt_segment_views(r) == operator_segments(string_views(parts@)),
{
    if parts.len() == 0 {
        return None;
    }
    let ghost ws = string_views(parts@);
    let mut segments: Vec<Vec<String>> = Vec::new();
    let mut current: Vec<String> = Vec::new();
    let mut i: usize = 0;
    proof {
        assert(ws.take(0).len() == 0);
        assert(segment_views(segments@) =~= Seq::<Seq<Seq<char>>>::empty());
        assert(string_views(current@) =~= Seq::<Seq<char>>::empty());
    }
    while i < parts.len()
        invariant
            i <= parts@.len(),
            ws == string_views(parts@),
            segment_scan(ws.take(i as int)) == (segment_views(segments@), string_views(current@)),
        decreases parts.len() - i,
    {
        proof {
            assert(ws.take(i + 1).drop_last() == ws.take(i as int));
            assert(ws.take(i + 1).last() == parts@[i as int]@);
            reveal_strlit("|");
            reveal_strlit("||");
            reveal_strlit("&&");
            reveal_strlit(";");
        }
        let word = parts[i].as_str();
        let w = chars_of(word);
        if eq_str(&w, "|") || eq_str(&w, "||") || eq_str(&w, "&&") || eq_str(&w, ";") {
            if current.len() > 0 {
                let ghost before = segments@;
                let taken = current;
                current = Vec::new();
                segments.push(taken);
                assert(segment_views(segments@) =~= segment_views(before).push(string_views(taken@)));
                assert(string_views(current@) =~= Seq::<Seq<char>>::empty());
            }
        } else {
            let ghost before = current@;
            current.push(word.to_owned());
            assert(string_views(current@) =~= string_views(before).push(word@));
        }
        i += 1;
    }
    proof {
        assert(ws.take(i as int) == ws);
    }
    if current.len() > 0 {
        let ghost before = segments@;
        let ghost cur = current@;
        segments.push(current);
        assert(segment_views(segments@) =~= segment_views(before).push(string_views(cur)));
    }
    if segments.len() == 0 {
        return None;
    }
    Some(segments)
}

/// Characters that make `shell_words` quote a word.
pub open spec fn shell_special(c: char) -> bool {
    c == '\n' || c == '\'' || c == '|' || c == '&' || c == ';' || c == '<' || c == '>' || c == '('
        || c == ')' || c == '$' || c == '`' || c == '\\' || c == '"' || c == ' ' || c == '\t' || c
        == '*' || c == '?' || c == '[' || c == '#' || c == '~' || c == '=' || c == '%'
}

/// A word that `shell_words::quote` leaves as it is.
pub open spec fn plain_shell_word(w: Seq<char>) -> bool {
    w.len() > 0 && forall|i: int| 0 <= i < w.len() ==> !shell_special(#[trigger] w[i])
}

/// A word that needs quoting: empty, or holding a character the crate
/// quotes.
pub open spec fn needs_quoting(w: Seq<char>) -> bool {
    w.len() == 0 || exists|i: int| 0 <= i < w.len() && shell_special(#[trigger] w[i])
}

/// The word with each single quote written `'\''`.
pub open spec fn quote_body(w: Seq<char>) -> Seq<char>
    decreases w.len(),
{
    if w.len() == 0 {
        seq![]
    } else {
        quote_body(w.drop_last()) + if w.last() == '\'' {
            seq!['\'', '\\', '\'', '\'']
        } else {
            seq![w.last()]
        }
    }
}

/// `shell_words::quote`: a word without special characters as it is; an
/// empty word, or one with a newline and no single quote, in single quotes;
/// any other in single quotes with its single quotes escaped.
pub open spec fn shell_quote(w: Seq<char>) -> Seq<char> {
    if w.len() == 0 {
        seq!['\'', '\'']
    } else if !needs_quoting(w) {
        w
    } else if w.contains('\n') && !w.contains('\'') {
        seq!['\''] + w + seq!['\'']
    } else {
        seq!['\''] + quote_body(w) + seq!['\'']
    }
}

/// `shell_words::join`: each word quoted, joined with single spaces.
pub open spec fn shell_join(words: Seq<Seq<char>>) -> Seq<char> {
    crate::text::joined_with(words.map_values(|w: Seq<char>| shell_quote(w)), seq![' '])
}

/// `words` with a single space between them.
pub open spec fn space_joined(words: Seq<Seq<char>>) -> Seq<char>
    decreases words.len(),
{
    if words.len() == 0 {
        seq![]
    } else if words.len() == 1 {
        words[0]
    } else {
        space_joined(words.drop_last()) + seq![' '] + words.last()
    }
}

/// `shell_words::join` (shell-words 1.1.1): each word quoted by `quote` as
/// its source does (`escape_style` picks no quoting, single quotes, or
/// single quotes with `'\''` for each single quote), the quoted words
/// joined with single spaces. Stated by `shell_join`; besides, plain words
/// are left as they are.
#[verifier::external_body]
fn shell_words_join(parts: &[String]) -> (r: String)
    ensures
        r@ == shell_join(string_views(parts@)),
{
    shell_words::join(parts.iter().map(|part| part.as_str()))
}

/// Plain words are joined as they are, with single spaces.
pub proof fn lemma_plain_words_join(words: Seq<Seq<char>>)
    requires
        forall|i: int| 0 <= i < words.len() ==> plain_shell_word(#[trigger] words[i]),
    ensures
        shell_join(words) == space_joined(words),
    decreases words.len(),
{
    let q = words.map_values(|w: Seq<char>| shell_quote(w));
    assert forall|i: int| 0 <= i < words.len() implies #[trigger] q[i] == words[i] by {
        assert(plain_shell_word(words[i]));
        assert(!needs_quoting(words[i]));
    }
    if words.len() > 1 {
        let d = words.drop_last();
        assert forall|i: int| 0 <= i < d.len() implies plain_shell_word(#[trigger] d[i]) by {
            assert(d[i] == words[i]);
        }
        lemma_plain_words_join(d);
        assert(q.drop_last() =~= d.map_values(|w: Seq<char>| shell_quote(w)));
        assert(q.last() == words.last());
    }
}

/// The command words as one line a shell would read back the same way.
pub fn render_shell_approval_command_words(parts: &[String]) -> (r: String)
    ensures
        r@ == shell_join(string_views(parts@)),
        (forall|i: int| 0 <= i < parts@.len() ==> plain_shell_word(#[trigger] parts@[i]@)) ==> r@
            == space_joined(string_views(parts@)),
{
    let r = shell_words_join(parts);
    proof {
        if forall|i: int| 0 <= i < parts@.len() ==> plain_shell_word(#[trigger] parts@[i]@) {
            let ws = string_views(parts@);
            assert forall|i: int| 0 <= i < ws.len() implies plain_shell_word(#[trigger] ws[i]) by {
                assert(ws[i] == parts@[i]@);
            }
            lemma_plain_words_join(ws);
        }
    }
    r
}

// ---------------------------------------------------------------------------
// Previews
// ---------------------------------------------------------------------------

/// At most 60 characters: the first 57 and `...` when longer.
pub open spec fn arg_preview(v: Seq<char>) -> Seq<char> {
    if v.len() > 60 {
        v.take(57) + "..."@
    } else {
        v
    }
}

/// Shorten an argument value for display.
pub fn truncate_arg_preview(value: &str) -> (r: String)
    ensures
        r@ == arg_preview(value@),
{
    let v = chars_of(value);
    if v.len() > 60 {
        let mut out = sub_vec(&v, 0, 57);
        extend_str(&mut out, "...");
        string_from(&out)
    } else {
        value.to_owned()
    }
}

/// `s` shortened to at most `max` characters by replacing its middle with
/// `…`: the first half (rounded up) and the last half (rounded down) of the
/// `max - 1` characters that remain are kept.
pub open spec fn middle_truncated(s: Seq<char>, max: nat) -> Seq<char> {
    if s.len() <= max {
        s
    } else if max == 0 {
        seq![]
    } else {
        let keep = (max - 1) as nat;
        let head = (keep + 1) / 2;
        let tail = keep / 2;
        s.take(head as int) + seq!['\u{2026}'] + s.skip(s.len() - tail)
    }
}

/// Shorten `s` to `max` characters, keeping its start and its end.
pub fn truncate_middle(s: &[char], max: usize) -> (r: Vec<char>)
    ensures
        r@ == middle_truncated(s@, max as nat),
        r@.len() <= max || r@ == s@,
{
    if s.len() <= max {
        return sub_vec(s, 0, s.len());
    }
    if max == 0 {
        return Vec::new();
    }
    let keep = max - 1;
    let head = (keep + 1) / 2;
    let tail = keep / 2;
    let mut out = sub_vec(s, 0, head);
    out.push('\u{2026}');
    let rest = sub_vec(s, s.len() - tail, s.len());
    extend_all(&mut out, &rest);
    out
}

/// Max logical rows shown for the approved command block.
pub const MAX_COMMAND_PREVIEW_LINES: usize = 8;
/// Max chars per command line.
pub const MAX_COMMAND_LINE_CHARS: usize = 120;
/// Max chars per context row.
pub const MAX_CONTEXT_LINE_CHARS: usize = 160;

/// A command line in backticks, shortened in the middle.
pub open spec fn command_preview_line(l: Seq<char>) -> Seq<char> {
    seq!['`'] + middle_truncated(l, MAX_COMMAND_LINE_CHARS as nat) + seq!['`']
}

pub open spec fn omission_line(hidden: nat) -> Seq<char> {
    "\u{2026} +"@ + dec(hidden) + " more lines (full command runs on approval)"@
}

/// Up to eight lines shown whole; longer commands show the first five,
/// a line counting the hidden ones, and the last two.
pub open spec fn command_preview(ls: Seq<Seq<char>>) -> Seq<Seq<char>> {
    if ls.len() <= MAX_COMMAND_PREVIEW_LINES {
        ls.map_values(|l: Seq<char>| command_preview_line(l))
    } else {
        ls.take(5).map_values(|l: Seq<char>| command_preview_line(l)) + seq![
            omission_line((ls.len() - 7) as nat),
        ] + ls.skip(ls.len() - 2).map_values(|l: Seq<char>| command_preview_line(l))
    }
}

fn format_command_preview_line(line: &str) -> (r: String)
    ensures
        r@ == command_preview_line(line@),
{
    let l = chars_of(line);
    let t = truncate_middle(&l, MAX_COMMAND_LINE_CHARS);
    let mut out: Vec<char> = vec!['`'];
    extend_all(&mut out, &t);
    out.push('`');
    string_from(&out)
}

/// Appends the previews of `lines[lo..hi]` to `out`.
fn push_preview_lines(out: &mut Vec<String>, lines: &Vec<String>, lo: usize, hi: usize)
    requires
        lo <= hi <= lines@.len(),
    ensures
        string_views(final(out)@) == string_views(old(out)@) + string_views(lines@).subrange(
            lo as int,
            hi as int,
        ).map_values(|l: Seq<char>| command_preview_line(l)),
{
    let ghost start = string_views(out@);
    let mut i = lo;
    while i < hi
        invariant
            lo <= i <= hi <= lines@.len(),
            string_views(out@) == start + string_views(lines@).subrange(lo as int, i as int).map_values(
                |l: Seq<char>| command_preview_line(l),
            ),
        decreases hi - i,
    {
        let ghost before = out@;
        let p = format_command_preview_line(lines[i].as_str());
        out.push(p);
        assert(string_views(out@) =~= string_views(before).push(p@));
        i += 1;
        assert(string_views(lines@).subrange(lo as int, i as int).map_values(
            |l: Seq<char>| command_preview_line(l),
        ) =~= string_views(lines@).subrange(lo as int, i - 1).map_values(
            |l: Seq<char>| command_preview_line(l),
        ).push(command_preview_line(lines@[i - 1]@)));
    }
}

/// Format command lines as bounded head + tail evidence. Keeping the tail is
/// required for informed approval because destructive flags and destinations
/// commonly occur at the end of an invocation.
pub fn format_command_preview_lines(command_lines: Vec<String>) -> (r: Vec<String>)
    ensures
        string_views(r@) == command_preview(string_views(command_lines@)),
{
    let ghost ls = string_views(command_lines@);
    let n = command_lines.len();
    let mut preview: Vec<String> = Vec::new();
    assert(string_views(preview@) =~= Seq::<Seq<char>>::empty());
    if n <= MAX_COMMAND_PREVIEW_LINES {
        push_preview_lines(&mut preview, &command_lines, 0, n);
        assert(ls.subrange(0, n as int) == ls);
        return preview;
    }
    let hidden = n - 7;
    push_preview_lines(&mut preview, &command_lines, 0, 5);
    assert(ls.subrange(0, 5) == ls.take(5));
    let mut omitted = chars_of("\u{2026} +");
    push_dec(&mut omitted, hidden);
    extend_str(&mut omitted, " more lines (full command runs on approval)");
    let ghost before = string_views(preview@);
    preview.push(string_from(&omitted));
    assert(string_views(preview@) =~= before.push(omitted@));
    push_preview_lines(&mut preview, &command_lines, n - 2, n);
    assert(ls.subrange(n - 2, n as int) == ls.skip(n - 2));
    proof {
        let a = ls.take(5).map_values(|l: Seq<char>| command_preview_line(l));
        let b = ls.skip(n - 2).map_values(|l: Seq<char>| command_preview_line(l));
        assert(string_views(preview@) == a.push(omission_line(hidden as nat)) + b);
        assert(a.push(omission_line(hidden as nat)) == a + seq![omission_line(hidden as nat)]);
    }
    preview
}

/// The first non-blank line of `value`, trimmed, or nothing.
pub open spec fn first_nonblank_line(ls: Seq<Seq<char>>) -> Seq<char>
    decreases ls.len(),
{
    if ls.len() == 0 {
        seq![]
    } else if trim(ls[0]).len() > 0 {
        trim(ls[0])
    } else {
        first_nonblank_line(ls.drop_first())
    }
}

pub open spec fn context_line(label: Seq<char>, value: Seq<char>, max: nat) -> Option<Seq<char>> {
    let first = first_nonblank_line(lines(value));
    if first.len() > 0 {
        Some(label + ": "@ + middle_truncated(first, max))
    } else {
        None
    }
}

/// The first non-blank line, trimmed.
fn first_nonblank(ls: &Vec<Vec<char>>) -> (r: Vec<char>)
    ensures
        r@ == first_nonblank_line(views(ls@)),
{
    let ghost lv = views(ls@);
    let mut i: usize = 0;
    assert(lv.skip(0) == lv);
    while i < ls.len()
        invariant
            i <= ls@.len(),
            lv == views(ls@),
            first_nonblank_line(lv) == first_nonblank_line(lv.skip(i as int)),
        decreases ls.len() - i,
    {
        let t = trimmed(&ls[i]);
        assert(lv.skip(i as int)[0] == ls@[i as int]@);
        assert(lv.skip(i as int).drop_first() == lv.skip(i + 1));
        if t.len() > 0 {
            return t;
        }
        i += 1;
    }
    assert(lv.skip(i as int).len() == 0);
    Vec::new()
}

/// Appends `label: value` for the first non-blank line of `value`,
/// shortened to `max_chars`; says whether a line was added.
pub fn push_capped_context_line(
    description_lines: &mut Vec<String>,
    label: &str,
    value: &str,
    max_chars: usize,
) -> (added: bool)
    ensures
        added == context_line(label@, value@, max_chars as nat) is Some,
        string_views(final(description_lines)@) == match context_line(label@, value@, max_chars as nat) {
            Some(l) => string_views(old(description_lines)@).push(l),
            None => string_views(old(description_lines)@),
        },
{
    let v = chars_of(value);
    let ls = split_lines(&v);
    let first = first_nonblank(&ls);
    if first.len() == 0 {
        return false;
    }
    let cut = truncate_middle(&first, max_chars);
    let mut line = chars_of(label);
    extend_str(&mut line, ": ");
    extend_all(&mut line, &cut);
    let ghost before = string_views(description_lines@);
    description_lines.push(string_from(&line));
    assert(string_views(description_lines@) =~= before.push(line@));
    true
}

/// `push_capped_context_line` at the standard context width.
pub fn push_context_line(description_lines: &mut Vec<String>, label: &str, value: &str) -> (added: bool)
    ensures
        added == context_line(label@, value@, MAX_CONTEXT_LINE_CHARS as nat) is Some,
        string_views(final(description_lines)@) == match context_line(
            label@,
            value@,
            MAX_CONTEXT_LINE_CHARS as nat,
        ) {
            Some(l) => string_views(old(description_lines)@).push(l),
            None => string_views(old(description_lines)@),
        },
{
    push_capped_context_line(description_lines, label, value, MAX_CONTEXT_LINE_CHARS)
}

// ---------------------------------------------------------------------------
// Header of the prompt
// ---------------------------------------------------------------------------

/// What `char::is_uppercase` says of a character.
pub uninterp spec fn unicode_is_uppercase(c: char) -> bool;

/// What `char::to_lowercase` gives for a character, as text.
pub uninterp spec fn unicode_lowercase(c: char) -> Seq<char>;

/// `char::is_uppercase` (the Unicode `Uppercase` property). The result is
/// named by `unicode_is_uppercase`; stated besides: among ASCII characters
/// exactly `A`-`Z` are uppercase. Other characters are left unstated.
#[verifier::external_body]
fn char_is_uppercase(c: char) -> (b: bool)
    ensures
        b == unicode_is_uppercase(c),
        (c as u32) < 128 ==> b == is_ascii_upper(c),
{
    c.is_uppercase()
}

/// `char::to_lowercase`, collected into a string. The result is named by
/// `unicode_lowercase`; stated besides: an ASCII character maps to its ASCII
/// lowercase. Other characters (which may map to several) are left unstated.
#[verifier::external_body]
fn char_to_lowercase(c: char) -> (r: String)
    ensures
        r@ == unicode_lowercase(c),
        (c as u32) < 128 ==> r@ == seq![crate::text::lower_char(c)],
{
    c.to_lowercase().collect::<String>()
}

/// Whether a character is uppercase: among ASCII characters exactly `A`-`Z`,
/// otherwise the Unicode `Uppercase` property.
pub open spec fn uppercase_char(c: char) -> bool {
    if (c as u32) < 128 {
        is_ascii_upper(c)
    } else {
        unicode_is_uppercase(c)
    }
}

/// The lowercase of a character, as text: the ASCII lowercase of an ASCII
/// character, otherwise its Unicode lowercase mapping.
pub open spec fn lowercase_text(c: char) -> Seq<char> {
    if (c as u32) < 128 {
        seq![crate::text::lower_char(c)]
    } else {
        unicode_lowercase(c)
    }
}

/// The action with its initial lowercased, unless it is not uppercase or
/// starts an acronym (the next character is uppercase too).
pub open spec fn lowercased_first(a: Seq<char>) -> Seq<char> {
    if a.len() == 0 {
        seq![]
    } else {
        let next_upper = a.len() > 1 && uppercase_char(a[1]);
        if uppercase_char(a[0]) && !next_upper {
            lowercase_text(a[0]) + a.drop_first()
        } else {
            a
        }
    }
}

/// Lowercase the initial of a Titlecase action ("Edit file" → "edit file") so
/// it fits mid-sentence. Leading acronyms ("MCP", "URL") are left alone so
/// they are never mangled into "mCP"/"uRL".
pub fn lowercase_first_action(action: &str) -> (r: String)
    ensures
        r@ == lowercased_first(action@),
{
    let a = chars_of(action);
    if a.len() == 0 {
        return String::new();
    }
    let first = a[0];
    let next_is_upper = a.len() > 1 && char_is_uppercase(a[1]);
    if char_is_uppercase(first) && !next_is_upper {
        let low = char_to_lowercase(first);
        let mut out = chars_of(low.as_str());
        let rest = sub_vec(&a, 1, a.len());
        extend_all(&mut out, &rest);
        assert(rest@ == action@.drop_first());
        string_from(&out)
    } else {
        action.to_owned()
    }
}

pub open spec fn opt_str_view(o: Option<&str>) -> Option<Seq<char>> {
    match o {
        Some(s) => Some(s@),
        None => None,
    }
}

/// The intro sentence of the prompt.
pub open spec fn intro_line(tool: Seq<char>, display: Seq<char>, has_command_preview: bool) -> Seq<
    char,
> {
    let t = trim(display);
    if has_command_preview {
        "The agent wants to run a shell command and needs your approval."@
    } else if t.len() > 0 {
        if crate::text::starts_with(t, "MCP "@) {
            "The agent wants to "@ + lowercased_first(t.skip(4)) + " via MCP and needs your approval."@
        } else {
            "The agent wants to "@ + lowercased_first(t) + " and needs your approval."@
        }
    } else {
        "The agent wants to use "@ + tool + " and needs your approval."@
    }
}

pub open spec fn header_lines(
    tool: Seq<char>,
    display: Seq<char>,
    has_command_preview: bool,
    source: Option<Seq<char>>,
) -> Seq<Seq<char>> {
    let first = intro_line(tool, display, has_command_preview);
    match source {
        Some(s) => seq![first, "Requested from: "@ + s],
        None => seq![first],
    }
}

/// Intro rows for the approval popup, written as plain permission language.
/// Shell commands get a dedicated command block below, so their truncated
/// action summary is omitted. Other tools reuse the human-friendly action
/// summary directly in the intro sentence.
pub fn tool_permission_header_lines(
    tool_name: &str,
    display_name: &str,
    has_command_preview: bool,
    source_thread_label: Option<&str>,
) -> (r: Vec<String>)
    ensures
        string_views(r@) == header_lines(
            tool_name@,
            display_name@,
            has_command_preview,
            opt_str_view(source_thread_label),
        ),
{
    let mut lines: Vec<String> = Vec::new();
    let d = chars_of(display_name);
    let t = trimmed(&d);
    let first: Vec<char>;
    if has_command_preview {
        first = chars_of("The agent wants to run a shell command and needs your approval.");
    } else if t.len() > 0 {
        if crate::text::has_prefix_str(&t, "MCP ") {
            proof {
                reveal_strlit("MCP ");
            }
            let rest = sub_vec(&t, 4, t.len());
            let rest_str = string_from(&rest);
            let low = lowercase_first_action(rest_str.as_str());
            let mut out = chars_of("The agent wants to ");
            extend_str(&mut out, low.as_str());
            extend_str(&mut out, " via MCP and needs your approval.");
            first = out;
        } else {
            let ts = string_from(&t);
            let low = lowercase_first_action(ts.as_str());
            let mut out = chars_of("The agent wants to ");
            extend_str(&mut out, low.as_str());
            extend_str(&mut out, " and needs your approval.");
            first = out;
        }
    } else {
        let mut out = chars_of("The agent wants to use ");
        extend_str(&mut out, tool_name);
        extend_str(&mut out, " and needs your approval.");
        first = out;
    }
    assert(first@ == intro_line(tool_name@, display_name@, has_command_preview));
    lines.push(string_from(&first));
    if let Some(source_label) = source_thread_label {
        let mut out = chars_of("Requested from: ");
        extend_str(&mut out, source_label);
        lines.push(string_from(&out));
    }
    assert(string_views(lines@) =~= header_lines(
        tool_name@,
        display_name@,
        has_command_preview,
        opt_str_view(source_thread_label),
    ));
    lines
}

// ---------------------------------------------------------------------------
// Context rows
// ---------------------------------------------------------------------------

/// Label of the row that says what the agent is trying to do.
pub const AGENT_GOAL_LABEL: &'static str = "What the agent is trying to do";
/// Max chars of the risk level.
pub const MAX_RISK_LINE_CHARS: usize = 32;

/// Why the agent says it calls a tool.
#[derive(Debug, Clone)]
pub struct ToolJustification {
    pub tool_name: String,
    pub reason: String,
    pub expected_outcome: Option<String>,
    pub risk_level: String,
    pub timestamp: String,
}

/// The goal row and the risk row of a justification, each when present.
pub open spec fn justification_lines(reason: Seq<char>, risk_level: Seq<char>) -> Seq<Seq<char>> {
    (match context_line(AGENT_GOAL_LABEL@, reason, MAX_CONTEXT_LINE_CHARS as nat) {
        Some(l) => seq![l],
        None => seq![],
    }) + (if trim(risk_level).len() > 0 {
        seq!["Risk: "@ + middle_truncated(trim(risk_level), MAX_RISK_LINE_CHARS as nat)]
    } else {
        seq![]
    })
}

/// Compact agent-justification lines for the approval dialog: agent goal +
/// `Risk` only so the popup stays minimal and scannable.
pub fn compact_justification_lines(just: &ToolJustification) -> (r: Vec<String>)
    ensures
        string_views(r@) == justification_lines(just.reason@, just.risk_level@),
{
    let mut lines: Vec<String> = Vec::new();
    assert(string_views(lines@) =~= Seq::<Seq<char>>::empty());
    push_context_line(&mut lines, AGENT_GOAL_LABEL, just.reason.as_str());
    let ghost after_goal = string_views(lines@);
    assert(after_goal =~= (match context_line(AGENT_GOAL_LABEL@, just.reason@, MAX_CONTEXT_LINE_CHARS as nat) {
        Some(l) => seq![l],
        None => Seq::<Seq<char>>::empty(),
    }));
    let rc = chars_of(just.risk_level.as_str());
    let risk = trimmed(&rc);
    if risk.len() > 0 {
        let cut = truncate_middle(&risk, MAX_RISK_LINE_CHARS);
        let mut out = chars_of("Risk: ");
        extend_all(&mut out, &cut);
        lines.push(string_from(&out));
        assert(string_views(lines@) =~= after_goal.push(out@));
    }
    assert(string_views(lines@) =~= justification_lines(just.reason@, just.risk_level@));
    lines
}

/// The rows kept from a justification: its goal row is dropped when a goal
/// row was already emitted.
pub open spec fn kept_justification_lines(ls: Seq<Seq<char>>, goal_emitted: bool) -> Seq<Seq<char>>
    decreases ls.len(),
{
    if ls.len() == 0 {
        seq![]
    } else {
        let rest = kept_justification_lines(ls.drop_last(), goal_emitted);
        if crate::text::starts_with(ls.last(), AGENT_GOAL_LABEL@) && goal_emitted {
            rest
        } else {
            rest.push(ls.last())
        }
    }
}

/// Context rows explaining what the agent is trying to do and the risk: at
/// most one goal row (an explicit reason wins over the shell justification,
/// and either over the ledger's), the risk when known, and a fallback
/// sentence when there is nothing else.
pub open spec fn permission_context(
    approval_reason: Option<Seq<char>>,
    shell_justification: Option<Seq<char>>,
    justification: Option<(Seq<char>, Seq<char>)>,
) -> Seq<Seq<char>> {
    let goal = match approval_reason {
        Some(r) => context_line(AGENT_GOAL_LABEL@, r, MAX_CONTEXT_LINE_CHARS as nat),
        None => match shell_justification {
            Some(r) => context_line(AGENT_GOAL_LABEL@, r, MAX_CONTEXT_LINE_CHARS as nat),
            None => None,
        },
    };
    let goal_rows = match goal {
        Some(l) => seq![l],
        None => seq![],
    };
    let rows = goal_rows + match justification {
        Some((reason, risk)) => kept_justification_lines(justification_lines(reason, risk), goal is Some),
        None => seq![],
    };
    if rows.len() == 0 {
        seq!["No additional details were provided. Review the action above before allowing."@]
    } else {
        rows
    }
}

pub open spec fn justification_view(j: Option<&ToolJustification>) -> Option<(Seq<char>, Seq<char>)> {
    match j {
        Some(j) => Some((j.reason@, j.risk_level@)),
        None => None,
    }
}

/// Context rows for the permission popup.
pub fn build_permission_context_lines(
    approval_reason: Option<&str>,
    shell_justification: Option<&str>,
    justification: Option<&ToolJustification>,
) -> (r: Vec<String>)
    ensures
        string_views(r@) == permission_context(
            opt_str_view(approval_reason),
            opt_str_view(shell_justification),
            justification_view(justification),
        ),
{
    let mut lines: Vec<String> = Vec::new();
    let mut goal_emitted = false;
    if let Some(reason) = approval_reason {
        goal_emitted = push_context_line(&mut lines, AGENT_GOAL_LABEL, reason);
    } else if let Some(shell_reason) = shell_justification {
        goal_emitted = push_context_line(&mut lines, AGENT_GOAL_LABEL, shell_reason);
    }
    let ghost goal_rows = string_views(lines@);
    if let Some(just) = justification {
        let extra = compact_justification_lines(just);
        let ghost ev = string_views(extra@);
        let mut i: usize = 0;
        proof {
            assert(ev.take(0).len() == 0);
            assert(string_views(lines@) =~= goal_rows + kept_justification_lines(ev.take(0), goal_emitted));
        }
        while i < extra.len()
            invariant
                i <= extra@.len(),
                ev == string_views(extra@),
                string_views(lines@) == goal_rows + kept_justification_lines(ev.take(i as int), goal_emitted),
            decreases extra.len() - i,
        {
            proof {
                assert(ev.take(i + 1).drop_last() == ev.take(i as int));
                assert(ev.take(i + 1).last() == extra@[i as int]@);
            }
            let lc = chars_of(extra[i].as_str());
            let ghost before = string_views(lines@);
            if !(crate::text::has_prefix_str(&lc, AGENT_GOAL_LABEL) && goal_emitted) {
                lines.push(extra[i].clone());
                assert(string_views(lines@) =~= before.push(extra@[i as int]@));
            }
            i += 1;
        }
        assert(ev.take(i as int) == ev);
    }
    if lines.len() == 0 {
        lines.push("No additional details were provided. Review the action above before allowing.".to_owned());
        assert(string_views(lines@) =~= seq![
            "No additional details were provided. Review the action above before allowing."@,
        ]);
    }
    lines
}


// ---------------------------------------------------------------------------
// Prompt options
// ---------------------------------------------------------------------------

/// What approving "always" would remember: the tool as a whole, or one
/// command shown by its label.
#[derive(Debug, Clone, PartialEq, Eq)]
pub enum PersistentApprovalTarget {
    ToolLevel,
    ExactInvocation { display_label: String },
    PrefixRule { display_label: String },
}

/// What choosing an option of the permission prompt answers.
#[derive(Debug, Clone, Copy, PartialEq, Eq, Structural)]
pub enum ApprovalSelection {
    ToolApproval(bool),
    ToolApprovalSession,
    ToolApprovalPermanent,
    ToolApprovalDenyOnce,
    ToolApprovalEnable,
}

/// One row of the permission prompt's option list.
#[derive(Debug, Clone, PartialEq, Eq)]
pub struct PromptOption {
    pub title: String,
    pub subtitle: Option<String>,
    pub badge: Option<String>,
    pub indent: u8,
    pub selection: Option<ApprovalSelection>,
    pub search_value: Option<String>,
}

pub struct PromptOptionView {
    pub title: Seq<char>,
    pub subtitle: Option<Seq<char>>,
    pub badge: Option<Seq<char>>,
    pub indent: u8,
    pub selection: Option<ApprovalSelection>,
    pub search_value: Option<Seq<char>>,
}

impl View for PromptOption {
    type V = PromptOptionView;

    open spec fn view(&self) -> PromptOptionView {
        PromptOptionView {
            title: self.title@,
            subtitle: opt_view(self.subtitle),
            badge: opt_view(self.badge),
            indent: self.indent,
            selection: self.selection,
            search_value: opt_view(self.search_value),
        }
    }
}

pub open spec fn option_views(v: Seq<PromptOption>) -> Seq<PromptOptionView> {
    v.map_values(|o: PromptOption| o@)
}

/// Longest label of a persistent approval shown in an option's subtitle.
pub const MAX_APPROVAL_LABEL_CHARS: usize = 60;

/// `s` cut to `max` characters, the last of them an ellipsis, when longer.
pub open spec fn end_truncated(s: Seq<char>, max: nat) -> Seq<char> {
    if s.len() <= max {
        s
    } else if max == 0 {
        seq![]
    } else {
        s.take(max - 1) + seq!['\u{2026}']
    }
}

/// Shorten modal text to `max` characters, ending it with an ellipsis.
pub fn truncate_modal_text(text: &str, max: usize) -> (r: String)
    ensures
        r@ == end_truncated(text@, max as nat),
        r@.len() <= max || r@ == text@,
{
    let c = chars_of(text);
    if c.len() <= max {
        return string_from(&c);
    }
    if max == 0 {
        return String::new();
    }
    let mut out = sub_vec(&c, 0, max - 1);
    out.push('\u{2026}');
    string_from(&out)
}

/// How the option that remembers the approval names what it remembers.
pub open spec fn approval_label(t: PersistentApprovalTarget) -> Seq<char> {
    match t {
        PersistentApprovalTarget::ToolLevel => "this tool"@,
        PersistentApprovalTarget::ExactInvocation { display_label } => end_truncated(
            display_label@,
            MAX_APPROVAL_LABEL_CHARS as nat,
        ),
        PersistentApprovalTarget::PrefixRule { display_label } => end_truncated(
            display_label@,
            MAX_APPROVAL_LABEL_CHARS as nat,
        ),
    }
}

pub open spec fn option_row(
    title: Seq<char>,
    subtitle: Option<Seq<char>>,
    badge: Option<Seq<char>>,
    selection: Option<ApprovalSelection>,
    search_value: Option<Seq<char>>,
) -> PromptOptionView {
    PromptOptionView { title, subtitle, badge, indent: 0, selection, search_value }
}

pub open spec fn approve_once_row() -> PromptOptionView {
    option_row(
        "Approve Once"@,
        Some("Allow this time only"@),
        None,
        Some(ApprovalSelection::ToolApproval(true)),
        Some("approve yes allow once y 1"@),
    )
}

pub open spec fn session_row(mcp: bool) -> PromptOptionView {
    option_row(
        if mcp {
            "Approve this session"@
        } else {
            "Allow for Session"@
        },
        Some(
            if mcp {
                "Remember for this session"@
            } else {
                "For the current session"@
            },
        ),
        Some("Session"@),
        Some(ApprovalSelection::ToolApprovalSession),
        Some("session temporary temp 2"@),
    )
}

pub open spec fn permanent_rows(target: Option<PersistentApprovalTarget>) -> Seq<PromptOptionView> {
    match target {
        Some(t) => seq![
            option_row(
                "Always approve and save to policy cache"@,
                Some("Remember "@ + approval_label(t) + " in this workspace"@),
                Some("Permanent"@),
                Some(ApprovalSelection::ToolApprovalPermanent),
                Some("always permanent forever save 3"@),
            ),
        ],
        None => seq![],
    }
}

pub open spec fn spacer_row() -> PromptOptionView {
    option_row(seq![], None, None, None, None)
}

pub open spec fn deny_once_row(mcp: bool) -> PromptOptionView {
    option_row(
        if mcp {
            "Cancel"@
        } else {
            "Deny Once"@
        },
        Some(
            if mcp {
                "Cancel this tool call"@
            } else {
                "Ask again next time"@
            },
        ),
        None,
        Some(ApprovalSelection::ToolApprovalDenyOnce),
        Some(
            if mcp {
                "cancel stop reject decline 4"@
            } else {
                "deny no reject once temporary 4"@
            },
        ),
    )
}

pub open spec fn always_deny_rows(mcp: bool, target: Option<PersistentApprovalTarget>) -> Seq<PromptOptionView> {
    if target == Some(PersistentApprovalTarget::ToolLevel) && !mcp {
        seq![
            option_row(
                "Always Deny"@,
                Some("Block this tool until policy is changed"@),
                Some("Persistent"@),
                Some(ApprovalSelection::ToolApproval(false)),
                Some("deny no reject cancel never always 5"@),
            ),
        ]
    } else {
        seq![]
    }
}

/// The prompt's options, in order: approve once; approve for the session;
/// remember the approval, when something can be remembered; a blank spacer;
/// deny (or, for MCP, cancel) this call; and deny for good, when the whole
/// tool can be remembered and the prompt is not for an MCP tool.
pub open spec fn permission_options(
    kind: ToolPermissionPromptKind,
    target: Option<PersistentApprovalTarget>,
) -> Seq<PromptOptionView> {
    let mcp = kind == ToolPermissionPromptKind::Mcp;
    seq![approve_once_row(), session_row(mcp)] + permanent_rows(target) + seq![
        spacer_row(),
        deny_once_row(mcp),
    ] + always_deny_rows(mcp, target)
}

fn some_text(s: &str) -> (r: Option<String>)
    ensures
        opt_view(r) == Some(s@),
{
    Some(s.to_owned())
}

fn make_option(
    title: &str,
    subtitle: Option<String>,
    badge: Option<String>,
    selection: Option<ApprovalSelection>,
    search_value: Option<String>,
) -> (o: PromptOption)
    ensures
        o@ == option_row(title@, opt_view(subtitle), opt_view(badge), selection, opt_view(search_value)),
{
    PromptOption { title: title.to_owned(), subtitle, badge, indent: 0, selection, search_value }
}

/// The options offered by the permission prompt.
pub fn build_tool_permission_options(
    prompt_kind: ToolPermissionPromptKind,
    persistent_approval_target: Option<&PersistentApprovalTarget>,
) -> (r: Vec<PromptOption>)
    ensures
        option_views(r@) == permission_options(
            prompt_kind,
            match persistent_approval_target {
                Some(t) => Some(*t),
                None => None,
            },
        ),
{
    let ghost target = match persistent_approval_target {
        Some(t) => Some(*t),
        None => None::<PersistentApprovalTarget>,
    };
    let mcp = prompt_kind == ToolPermissionPromptKind::Mcp;
    let mut options: Vec<PromptOption> = Vec::new();
    options.push(
        make_option(
            "Approve Once",
            some_text("Allow this time only"),
            None,
            Some(ApprovalSelection::ToolApproval(true)),
            some_text("approve yes allow once y 1"),
        ),
    );
    let session_title = if mcp {
        "Approve this session"
    } else {
        "Allow for Session"
    };
    let session_subtitle = if mcp {
        "Remember for this session"
    } else {
        "For the current session"
    };
    options.push(
        make_option(
            session_title,
            some_text(session_subtitle),
            some_text("Session"),
            Some(ApprovalSelection::ToolApprovalSession),
            some_text("session temporary temp 2"),
        ),
    );
    assert(option_views(options@) =~= seq![approve_once_row(), session_row(mcp)]);
    let ghost before = option_views(options@);
    if let Some(t) = persistent_approval_target {
        let short_label = match t {
            PersistentApprovalTarget::ToolLevel => "this tool".to_owned(),
            PersistentApprovalTarget::ExactInvocation { display_label } => truncate_modal_text(
                display_label.as_str(),
                MAX_APPROVAL_LABEL_CHARS,
            ),
            PersistentApprovalTarget::PrefixRule { display_label } => truncate_modal_text(
                display_label.as_str(),
                MAX_APPROVAL_LABEL_CHARS,
            ),
        };
        let mut subtitle = "Remember ".to_owned();
        crate::text::push_str(&mut subtitle, short_label.as_str());
        crate::text::push_str(&mut subtitle, " in this workspace");
        options.push(
            make_option(
                "Always approve and save to policy cache",
                Some(subtitle),
                some_text("Permanent"),
                Some(ApprovalSelection::ToolApprovalPermanent),
                some_text("always permanent forever save 3"),
            ),
        );
    }
    assert(option_views(options@) =~= before + permanent_rows(target));
    let ghost before2 = option_views(options@);
    options.push(
        PromptOption {
            title: String::new(),
            subtitle: None,
            badge: None,
            indent: 0,
            selection: None,
            search_value: None,
        },
    );
    let deny_title = if mcp {
        "Cancel"
    } else {
        "Deny Once"
    };
    let deny_subtitle = if mcp {
        "Cancel this tool call"
    } else {
        "Ask again next time"
    };
    let deny_search = if mcp {
        "cancel stop reject decline 4"
    } else {
        "deny no reject once temporary 4"
    };
    options.push(
        make_option(
            deny_title,
            some_text(deny_subtitle),
            None,
            Some(ApprovalSelection::ToolApprovalDenyOnce),
            some_text(deny_search),
        ),
    );
    assert(option_views(options@) =~= before2 + seq![spacer_row(), deny_once_row(mcp)]);
    let ghost before3 = option_views(options@);
    let tool_level = match persistent_approval_target {
        Some(PersistentApprovalTarget::ToolLevel) => true,
        _ => false,
    };
    if tool_level && !mcp {
        options.push(
            make_option(
                "Always Deny",
                some_text("Block this tool until policy is changed"),
                some_text("Persistent"),
                Some(ApprovalSelection::ToolApproval(false)),
                some_text("deny no reject cancel never always 5"),
            ),
        );
    }
    assert(option_views(options@) =~= before3 + always_deny_rows(mcp, target));
    options
}


// ---------------------------------------------------------------------------
// Diff previews of file edits
// ---------------------------------------------------------------------------

/// One argument of a tool call as the preview reads it: absent, a string,
/// or another JSON value.
#[derive(Debug, Clone)]
pub enum ArgField {
    Missing,
    Text(String),
    Other,
}

/// The arguments of a file-editing call that its diff preview reads.
#[derive(Debug, Clone)]
pub struct EditArgs {
    pub old_str: ArgField,
    pub old_string: ArgField,
    pub new_str: ArgField,
    pub new_string: ArgField,
    pub content: ArgField,
    pub action: ArgField,
    pub path: ArgField,
    pub file_path: ArgField,
    pub target_path: ArgField,
}

pub open spec fn present(f: ArgField) -> bool {
    !(f is Missing)
}

pub open spec fn text_of(f: ArgField) -> Option<Seq<char>> {
    match f {
        ArgField::Text(s) => Some(s@),
        _ => None,
    }
}

/// The first of two arguments that is present, as a string.
pub open spec fn first_present_text(a: ArgField, b: ArgField) -> Option<Seq<char>> {
    if present(a) {
        text_of(a)
    } else {
        text_of(b)
    }
}

/// The action of a `file_operation` call: its `action` string, else `edit`
/// when an old string is given, `write` when content is, else `read`.
pub open spec fn file_action(args: EditArgs) -> Seq<char> {
    match text_of(args.action) {
        Some(a) => a,
        None => if present(args.old_str) || present(args.old_string) {
            "edit"@
        } else if present(args.content) {
            "write"@
        } else {
            "read"@
        },
    }
}

/// What a diff preview compares: the file, the text before (none for a new
/// file) and the text after.
#[derive(Debug, Clone)]
pub struct DiffPreviewRequest {
    pub path: String,
    pub before: Option<String>,
    pub after: String,
}

pub enum EditKind {
    Edit,
    Write,
}

/// Whether a call edits or writes a file, by its tool and action.
pub open spec fn edit_kind(tool: Seq<char>, args: EditArgs) -> Option<EditKind> {
    if tool == "edit_file"@ {
        Some(EditKind::Edit)
    } else if tool == "write_file"@ || tool == "create_file"@ {
        Some(EditKind::Write)
    } else if tool == "file_operation"@ {
        let a = file_action(args);
        if a == "edit"@ {
            Some(EditKind::Edit)
        } else if a == "write"@ || a == "create"@ {
            Some(EditKind::Write)
        } else {
            None
        }
    } else {
        None
    }
}

/// The file of a call: its `path`, `file_path` or `target_path` argument
/// (the first present), or `(unknown file)`.
pub open spec fn edit_path(args: EditArgs) -> Seq<char> {
    let f = if present(args.path) {
        args.path
    } else if present(args.file_path) {
        args.file_path
    } else {
        args.target_path
    };
    match text_of(f) {
        Some(p) => p,
        None => "(unknown file)"@,
    }
}

/// What the preview of a call compares, or nothing for a call that is not
/// an edit or lacks its texts.
pub open spec fn preview_request_of(tool: Seq<char>, args: EditArgs) -> Option<(Seq<char>, Option<Seq<char>>, Seq<char>)> {
    match edit_kind(tool, args) {
        Some(EditKind::Edit) => match (first_present_text(args.old_str, args.old_string), first_present_text(
            args.new_str,
            args.new_string,
        )) {
            (Some(before), Some(after)) => Some((edit_path(args), Some(before), after)),
            _ => None,
        },
        Some(EditKind::Write) => match text_of(args.content) {
            Some(after) => Some((edit_path(args), None, after)),
            None => None,
        },
        None => None,
    }
}

pub open spec fn request_view(r: Option<DiffPreviewRequest>) -> Option<(Seq<char>, Option<Seq<char>>, Seq<char>)> {
    match r {
        Some(q) => Some((q.path@, opt_view(q.before), q.after@)),
        None => None,
    }
}

fn field_text(f: &ArgField) -> (r: Option<String>)
    ensures
        opt_view(r) == text_of(*f),
{
    match f {
        ArgField::Text(s) => Some(s.clone()),
        _ => None,
    }
}

fn first_present(a: &ArgField, b: &ArgField) -> (r: Option<String>)
    ensures
        opt_view(r) == first_present_text(*a, *b),
{
    match a {
        ArgField::Missing => field_text(b),
        _ => field_text(a),
    }
}

fn is_present(f: &ArgField) -> (b: bool)
    ensures
        b == present(*f),
{
    match f {
        ArgField::Missing => false,
        _ => true,
    }
}

/// What the diff preview of a call compares; nothing when the arguments
/// are not an object (`args` is `None`), the call is not an edit, or a
/// text is missing.
pub fn diff_preview_request(tool_name: &str, args: Option<&EditArgs>) -> (r: Option<DiffPreviewRequest>)
    ensures
        request_view(r) == match args {
            Some(a) => preview_request_of(tool_name@, *a),
            None => None,
        },
{
    let args = match args {
        Some(a) => a,
        None => {
            return None;
        },
    };
    let t = chars_of(tool_name);
    let edit = if eq_str(&t, "edit_file") {
        true
    } else if eq_str(&t, "write_file") || eq_str(&t, "create_file") {
        false
    } else if eq_str(&t, "file_operation") {
        let action: Vec<char> = match &args.action {
            ArgField::Text(a) => chars_of(a.as_str()),
            _ => if is_present(&args.old_str) || is_present(&args.old_string) {
                chars_of("edit")
            } else if is_present(&args.content) {
                chars_of("write")
            } else {
                chars_of("read")
            },
        };
        assert(action@ == file_action(*args));
        if eq_str(&action, "edit") {
            true
        } else if eq_str(&action, "write") || eq_str(&action, "create") {
            false
        } else {
            return None;
        }
    } else {
        return None;
    };
    let path_field = if is_present(&args.path) {
        &args.path
    } else if is_present(&args.file_path) {
        &args.file_path
    } else {
        &args.target_path
    };
    let path = match field_text(path_field) {
        Some(p) => p,
        None => "(unknown file)".to_owned(),
    };
    if edit {
        match (first_present(&args.old_str, &args.old_string), first_present(&args.new_str, &args.new_string)) {
            (Some(before), Some(after)) => Some(DiffPreviewRequest { path, before: Some(before), after }),
            _ => None,
        }
    } else {
        match field_text(&args.content) {
            Some(after) => Some(DiffPreviewRequest { path, before: None, after }),
            None => None,
        }
    }
}

/// What building the diff preview gave: skipped (with the reason, if
/// any), no changes, or the formatted diff lines.
#[derive(Debug, Clone)]
pub enum DiffPreviewOutcome {
    Skipped(Option<String>),
    NoChanges,
    Lines(Vec<String>),
}

/// Longest diff shown whole; longer ones show their first forty and last
/// twenty lines.
pub const MAX_DIFF_PREVIEW_LINES: usize = 80;

/// The rows of a diff preview.
pub open spec fn diff_preview_rows(outcome: DiffPreviewOutcome) -> Seq<Seq<char>> {
    match outcome {
        DiffPreviewOutcome::Skipped(reason) => seq![
            "diff: "@ + match reason {
                Some(r) => r@,
                None => "preview unavailable"@,
            },
        ],
        DiffPreviewOutcome::NoChanges => seq!["(no changes)"@],
        DiffPreviewOutcome::Lines(v) => {
            let ls = string_views(v@);
            if ls.len() <= MAX_DIFF_PREVIEW_LINES {
                ls
            } else {
                ls.take(40) + seq!["\u{2026} +"@ + dec((ls.len() - 60) as nat) + " lines"@] + ls.skip(ls.len() - 20)
            }
        },
    }
}

/// The rows shown for a diff preview.
pub fn diff_preview_lines(outcome: DiffPreviewOutcome) -> (r: Vec<String>)
    ensures
        string_views(r@) == diff_preview_rows(outcome),
{
    let ghost o = outcome;
    match outcome {
        DiffPreviewOutcome::Skipped(reason) => {
            let mut out = chars_of("diff: ");
            match &reason {
                Some(r) => extend_str(&mut out, r.as_str()),
                None => extend_str(&mut out, "preview unavailable"),
            }
            let mut rows: Vec<String> = Vec::new();
            rows.push(string_from(&out));
            assert(string_views(rows@) =~= diff_preview_rows(o));
            rows
        },
        DiffPreviewOutcome::NoChanges => {
            let mut rows: Vec<String> = Vec::new();
            rows.push("(no changes)".to_owned());
            assert(string_views(rows@) =~= diff_preview_rows(o));
            rows
        },
        DiffPreviewOutcome::Lines(lines) => {
            let ghost ls = string_views(lines@);
            if lines.len() <= MAX_DIFF_PREVIEW_LINES {
                return lines;
            }
            let mut rows: Vec<String> = Vec::new();
            let mut i: usize = 0;
            while i < 40
                invariant
                    i <= 40,
                    ls == string_views(lines@),
                    ls.len() > MAX_DIFF_PREVIEW_LINES,
                    string_views(rows@) == ls.take(i as int),
                decreases 40 - i,
            {
                let ghost before = string_views(rows@);
                rows.push(lines[i].clone());
                assert(string_views(rows@) =~= before.push(ls[i as int]));
                assert(ls.take(i + 1) =~= ls.take(i as int).push(ls[i as int]));
                i += 1;
            }
            let mut notice = chars_of("\u{2026} +");
            push_dec(&mut notice, lines.len() - 60);
            extend_str(&mut notice, " lines");
            let ghost head = string_views(rows@);
            rows.push(string_from(&notice));
            let ghost mid = string_views(rows@);
            assert(mid =~= head.push(notice@));
            let start = lines.len() - 20;
            let mut k = start;
            while k < lines.len()
                invariant
                    start <= k <= lines@.len(),
                    start == lines@.len() - 20,
                    ls == string_views(lines@),
                    string_views(rows@) == mid + ls.subrange(start as int, k as int),
                decreases lines.len() - k,
            {
                let ghost before = string_views(rows@);
                rows.push(lines[k].clone());
                assert(string_views(rows@) =~= before.push(ls[k as int]));
                assert(ls.subrange(start as int, k + 1) =~= ls.subrange(start as int, k as int).push(ls[k as int]));
                k += 1;
            }
            assert(ls.subrange(start as int, k as int) =~= ls.skip(ls.len() - 20));
            assert(string_views(rows@) =~= diff_preview_rows(o));
            rows
        },
    }
}


// ---------------------------------------------------------------------------
// Persistent shell approvals
// ---------------------------------------------------------------------------

/// The `command` argument of a shell run after normalisation: absent, a
/// command string, a word array, or another JSON value.
#[derive(Debug, Clone)]
pub enum ShellCommandValue {
    Missing,
    Text(String),
    Words,
    Other,
}

/// A command can be approved for good when it is a non-blank string with no
/// control operators, or a word array, and it does not start a nested
/// shell (its program having the file name `name`).
pub open spec fn supports_named(command: ShellCommandValue, name: Seq<char>, words: Seq<Seq<char>>) -> bool {
    match command {
        ShellCommandValue::Text(c) => trim(c@).len() > 0 && !has_control_operator(trim(c@))
            && !uses_nested_shell_named(name, words),
        ShellCommandValue::Words => !uses_nested_shell_named(name, words),
        _ => false,
    }
}

/// `supports_named` with the program word taken as its file name.
pub open spec fn supports_persistent_approval(command: ShellCommandValue, words: Seq<Seq<char>>) -> bool {
    supports_named(
        command,
        if words.len() > 0 {
            words[0]
        } else {
            seq![]
        },
        words,
    )
}

/// Whether a shell run may be remembered as always allowed (or denied). As
/// for `shell_run_uses_nested_shell`, the program's file name is the
/// platform's: the result is exact for a program word of
/// `portable_program_path` and otherwise stated for the name that came back.
pub fn shell_command_supports_persistent_approval(command: &ShellCommandValue, command_words: &[String]) -> (b:
    bool)
    ensures
        command_words@.len() == 0 || plain_program_name(command_words@[0]@) ==> b
            == supports_persistent_approval(*command, string_views(command_words@)),
        command_words@.len() > 0 && portable_program_path(command_words@[0]@) ==> b == supports_named(
            *command,
            last_slash_segment(command_words@[0]@),
            string_views(command_words@),
        ),
        exists|name: Seq<char>| b == supports_named(*command, name, string_views(command_words@)),
{
    let ghost ws = string_views(command_words@);
    proof {
        if command_words@.len() > 0 {
            assert(ws[0] == command_words@[0]@);
        }
    }
    match command {
        ShellCommandValue::Text(c) => {
            let t = trimmed(&chars_of(c.as_str()));
            if t.len() == 0 {
                assert(!supports_named(*command, seq![], ws));
                return false;
            }
            let ts = string_from(&t);
            if shell_command_contains_control_operators(ts.as_str()) {
                assert(!supports_named(*command, seq![], ws));
                return false;
            }
            let nested = shell_run_uses_nested_shell(command_words);
            proof {
                let name = choose|n: Seq<char>| nested == uses_nested_shell_named(n, ws);
                assert(!nested == supports_named(*command, name, ws));
                if command_words@.len() > 0 && plain_program_name(command_words@[0]@) {
                    assert(nested == uses_nested_shell_named(ws[0], ws));
                }
                if command_words@.len() > 0 && portable_program_path(command_words@[0]@) {
                    assert(nested == uses_nested_shell_named(last_slash_segment(ws[0]), ws));
                }
            }
            !nested
        },
        ShellCommandValue::Words => {
            let nested = shell_run_uses_nested_shell(command_words);
            proof {
                let name = choose|n: Seq<char>| nested == uses_nested_shell_named(n, ws);
                assert(!nested == supports_named(*command, name, ws));
                if command_words@.len() > 0 && plain_program_name(command_words@[0]@) {
                    assert(nested == uses_nested_shell_named(ws[0], ws));
                }
                if command_words@.len() > 0 && portable_program_path(command_words@[0]@) {
                    assert(nested == uses_nested_shell_named(last_slash_segment(ws[0]), ws));
                }
            }
            !nested
        },
        _ => {
            assert(!supports_named(*command, seq![], ws));
            false
        },
    }
}

/// The prefix rule the model proposed, kept when the command supports a
/// persistent approval and the rule is a non-empty prefix of its words.
pub open spec fn prefix_rule_spec(supported: bool, words: Seq<Seq<char>>, rule: Option<Seq<Seq<char>>>) -> Option<
    Seq<Seq<char>>,
> {
    match rule {
        Some(r) => if supported && r.len() > 0 && r.len() <= words.len() && words.take(r.len() as int) == r {
            Some(r)
        } else {
            None
        },
        None => None,
    }
}

pub open spec fn opt_words_view(o: Option<Vec<String>>) -> Option<Seq<Seq<char>>> {
    match o {
        Some(v) => Some(string_views(v@)),
        None => None,
    }
}

/// The persistent-approval prefix rule of a shell run. `supported` is
/// whether the run supports a persistent approval
/// (`shell_command_supports_persistent_approval`); `prefix_rule` is the
/// call's `prefix_rule` argument when it is an array of strings, else `None`.
pub fn shell_persistent_approval_prefix_rule(
    supported: bool,
    command_words: &[String],
    prefix_rule: Option<Vec<String>>,
) -> (r: Option<Vec<String>>)
    ensures
        opt_words_view(r) == prefix_rule_spec(supported, string_views(command_words@), opt_words_view(prefix_rule)),
{
    let rule = match prefix_rule {
        Some(r) => r,
        None => {
            return None;
        },
    };
    if !supported {
        return None;
    }
    if rule.len() == 0 || rule.len() > command_words.len() {
        return None;
    }
    let ghost ws = string_views(command_words@);
    let ghost rs = string_views(rule@);
    let mut i: usize = 0;
    while i < rule.len()
        invariant
            i <= rule.len() <= command_words.len(),
            ws == string_views(command_words@),
            rs == string_views(rule@),
            opt_words_view(prefix_rule) == Some(rs),
            forall|j: int| 0 <= j < i ==> rs[j] == ws[j],
        decreases rule.len() - i,
    {
        let a = chars_of(rule[i].as_str());
        let eq = eq_str(&a, command_words[i].as_str());
        if !eq {
            assert(ws.take(rs.len() as int)[i as int] != rs[i as int]);
            return None;
        }
        i = i + 1;
    }
    assert(ws.take(rs.len() as int) =~= rs);
    Some(rule)
}

/// The stored entry of a persistent prefix approval: the rule's words as a
/// shell line, `|`, and the permission scope of the call.
pub fn render_shell_persistent_approval_prefix_entry(prefix_rule: &[String], scope_signature: &str) -> (r: String)
    ensures
        r@ == shell_join(string_views(prefix_rule@)) + "|"@ + scope_signature@,
{
    let joined = shell_words_join(prefix_rule);
    let mut out = chars_of(joined.as_str());
    extend_str(&mut out, "|");
    extend_str(&mut out, scope_signature);
    string_from(&out)
}

/// The permission scope of a shell run: its sandbox permissions and its
/// additional permissions (both as JSON text; `null` when none are given).
pub fn shell_permission_scope_suffix(sandbox_permissions: &str, additional_permissions: Option<&str>) -> (r: String)
    ensures
        r@ == "sandbox_permissions="@ + sandbox_permissions@ + "|additional_permissions="@ + match additional_permissions {
            Some(a) => a@,
            None => "null"@,
        },
{
    let mut out = chars_of("sandbox_permissions=");
    extend_str(&mut out, sandbox_permissions);
    extend_str(&mut out, "|additional_permissions=");
    match additional_permissions {
        Some(a) => extend_str(&mut out, a),
        None => extend_str(&mut out, "null"),
    }
    string_from(&out)
}

/// The cache key suffix of a shell run: its command alone under the default
/// sandbox with no additional permissions, else the command, `|` and its
/// permission scope.
pub fn shell_permission_cache_suffix(
    command: &str,
    default_sandbox: bool,
    additional_present: bool,
    scope_suffix: &str,
) -> (r: String)
    ensures
        r@ == if default_sandbox && !additional_present {
            command@
        } else {
            command@ + "|"@ + scope_suffix@
        },
{
    let mut out = chars_of(command);
    if default_sandbox && !additional_present {
        return string_from(&out);
    }
    extend_str(&mut out, "|");
    extend_str(&mut out, scope_suffix);
    string_from(&out)
}

/// The justification a shell run gives for itself, trimmed; none when it is
/// absent or blank.
pub fn shell_approval_justification(justification: Option<&str>) -> (r: Option<String>)
    ensures
        opt_view(r) == match justification {
            Some(j) => if trim(j@).len() > 0 {
                Some(trim(j@))
            } else {
                None
            },
            None => None,
        },
{
    match justification {
        Some(j) => {
            let t = trimmed(&chars_of(j));
            if t.len() == 0 {
                None
            } else {
                Some(string_from(&t))
            }
        },
        None => None,
    }
}

// ---------------------------------------------------------------------------
// The prompts' text and answers
// ---------------------------------------------------------------------------

/// What the user submitted in a permission prompt: a choice, the hotkey
/// that opens the calling thread, or anything else.
#[derive(Debug, Clone, Copy, PartialEq, Eq, Structural)]
pub enum PromptSubmission {
    Selection(ApprovalSelection),
    OpenSourceThread,
    Other,
}

/// What a submission in the tool permission prompt decides: each choice
/// its decision, opening the source thread denies this call, and any other
/// selection denies; a submission that is no selection decides nothing.
pub open spec fn permission_submission_spec(s: PromptSubmission) -> Option<HitlDecision> {
    match s {
        PromptSubmission::OpenSourceThread => Some(HitlDecision::DeniedOnce),
        PromptSubmission::Selection(ApprovalSelection::ToolApproval(true)) => Some(HitlDecision::Approved),
        PromptSubmission::Selection(ApprovalSelection::ToolApprovalSession) => Some(HitlDecision::ApprovedSession),
        PromptSubmission::Selection(ApprovalSelection::ToolApprovalPermanent) => Some(
            HitlDecision::ApprovedPermanent,
        ),
        PromptSubmission::Selection(ApprovalSelection::ToolApprovalDenyOnce) => Some(HitlDecision::DeniedOnce),
        PromptSubmission::Selection(_) => Some(HitlDecision::Denied),
        PromptSubmission::Other => None,
    }
}

/// The decision a submission in the tool permission prompt makes.
pub fn tool_permission_submission(s: PromptSubmission) -> (r: Option<HitlDecision>)
    ensures
        r == permission_submission_spec(s),
{
    match s {
        PromptSubmission::OpenSourceThread => Some(HitlDecision::DeniedOnce),
        PromptSubmission::Selection(ApprovalSelection::ToolApproval(true)) => Some(HitlDecision::Approved),
        PromptSubmission::Selection(ApprovalSelection::ToolApprovalSession) => Some(HitlDecision::ApprovedSession),
        PromptSubmission::Selection(ApprovalSelection::ToolApprovalPermanent) => Some(HitlDecision::ApprovedPermanent),
        PromptSubmission::Selection(ApprovalSelection::ToolApprovalDenyOnce) => Some(HitlDecision::DeniedOnce),
        PromptSubmission::Selection(_) => Some(HitlDecision::Denied),
        PromptSubmission::Other => None,
    }
}

/// What a submission in the policy prompt decides: enabling the tool
/// enables it, any other selection denies this call.
pub fn policy_denied_submission(s: PromptSubmission) -> (r: Option<HitlDecision>)
    ensures
        r == match s {
            PromptSubmission::Selection(ApprovalSelection::ToolApprovalEnable) => Some(HitlDecision::Enable),
            PromptSubmission::Selection(_) => Some(HitlDecision::DeniedOnce),
            _ => None,
        },
{
    match s {
        PromptSubmission::Selection(ApprovalSelection::ToolApprovalEnable) => Some(HitlDecision::Enable),
        PromptSubmission::Selection(_) => Some(HitlDecision::DeniedOnce),
        _ => None,
    }
}

/// How a permission prompt ended, as a decision: the submitted decision;
/// `on_cancel` when it was cancelled or deferred; an interrupt or exit as
/// such.
pub open spec fn prompt_decision_spec(
    outcome: crate::overlay::OverlayOutcome,
    submitted: Option<HitlDecision>,
    on_cancel: HitlDecision,
) -> HitlDecision {
    match outcome {
        crate::overlay::OverlayOutcome::Submitted => submitted->0,
        crate::overlay::OverlayOutcome::Cancelled | crate::overlay::OverlayOutcome::Deferred => on_cancel,
        crate::overlay::OverlayOutcome::Interrupted => HitlDecision::Interrupt,
        crate::overlay::OverlayOutcome::Exit => HitlDecision::Exit,
    }
}

/// The decision of a permission prompt from how its overlay ended.
/// `on_cancel` is `cancelled_prompt_decision` of the prompt's kind for the
/// tool permission prompt, and `DeniedOnce` for the policy prompt.
pub fn prompt_outcome_decision(
    outcome: crate::overlay::OverlayOutcome,
    submitted: Option<HitlDecision>,
    on_cancel: HitlDecision,
) -> (r: HitlDecision)
    requires
        outcome == crate::overlay::OverlayOutcome::Submitted ==> submitted is Some,
    ensures
        r == prompt_decision_spec(outcome, submitted, on_cancel),
{
    match outcome {
        crate::overlay::OverlayOutcome::Submitted => match submitted {
            Some(d) => d,
            None => on_cancel,
        },
        crate::overlay::OverlayOutcome::Cancelled | crate::overlay::OverlayOutcome::Deferred => on_cancel,
        crate::overlay::OverlayOutcome::Interrupted => HitlDecision::Interrupt,
        crate::overlay::OverlayOutcome::Exit => HitlDecision::Exit,
    }
}

/// The footer hint of the tool permission prompt: the cancel hint for MCP
/// tools, the deny hint otherwise, and the source-thread hotkey when the
/// call came from another thread.
pub fn permission_navigation_hint(
    prompt_kind: ToolPermissionPromptKind,
    deny_hint: &str,
    cancel_hint: &str,
    has_source_thread: bool,
) -> (r: String)
    ensures
        r@ == (if prompt_kind == ToolPermissionPromptKind::Mcp {
            cancel_hint@
        } else {
            deny_hint@
        }) + (if has_source_thread {
            " \u{2022} o inspect source thread"@
        } else {
            seq![]
        }),
{
    let mut out = if prompt_kind == ToolPermissionPromptKind::Mcp {
        chars_of(cancel_hint)
    } else {
        chars_of(deny_hint)
    };
    let ghost base = out@;
    if has_source_thread {
        extend_str(&mut out, " \u{2022} o inspect source thread");
    } else {
        assert(out@ =~= base + Seq::<char>::empty());
    }
    string_from(&out)
}

/// Whether some line contains `needle`.
pub open spec fn any_line_contains(ls: Seq<Seq<char>>, needle: Seq<char>) -> bool {
    exists|i: int| 0 <= i < ls.len() && contains_seq(#[trigger] ls[i], needle)
}

/// The description of the tool permission prompt: the header, the URL of a
/// web fetch (unless the header already shows it), the command preview,
/// the diff preview, the context lines and the line on how to choose.
pub open spec fn permission_description(
    header: Seq<Seq<char>>,
    url: Option<Seq<char>>,
    command: Option<Seq<Seq<char>>>,
    diff: Option<Seq<Seq<char>>>,
    context: Seq<Seq<char>>,
    handling_line: Seq<char>,
) -> Seq<Seq<char>> {
    header + match url {
        Some(u) => if any_line_contains(header, u) {
            seq![]
        } else {
            seq!["URL: "@ + u]
        },
        None => seq![],
    } + match command {
        Some(c) => command_preview(c),
        None => seq![],
    } + match diff {
        Some(d) => d,
        None => seq![],
    } + context + seq![handling_line]
}

fn append_lines(dst: &mut Vec<String>, src: Vec<String>)
    ensures
        string_views(final(dst)@) == string_views(old(dst)@) + string_views(src@),
{
    let ghost start = string_views(dst@);
    let mut i: usize = 0;
    while i < src.len()
        invariant
            i <= src@.len(),
            string_views(dst@) == start + string_views(src@).take(i as int),
        decreases src.len() - i,
    {
        let ghost before = string_views(dst@);
        dst.push(src[i].clone());
        assert(string_views(src@).take(i + 1) =~= string_views(src@).take(i as int).push(src@[i as int]@));
        assert(string_views(dst@) =~= before.push(src@[i as int]@));
        i += 1;
    }
    assert(string_views(src@).take(i as int) =~= string_views(src@));
}

/// Assembles the description lines of the tool permission prompt from its
/// parts: the header lines, the web-fetch URL, the raw command lines, the
/// diff preview rows, the context lines and the line on how to choose.
pub fn permission_description_lines(
    header: Vec<String>,
    url: Option<&str>,
    command_lines: Option<Vec<String>>,
    diff_lines: Option<Vec<String>>,
    context_lines: Vec<String>,
    handling_line: &str,
) -> (r: Vec<String>)
    ensures
        string_views(r@) == permission_description(
            string_views(header@),
            match url {
                Some(u) => Some(u@),
                None => None,
            },
            match command_lines {
                Some(c) => Some(string_views(c@)),
                None => None,
            },
            match diff_lines {
                Some(d) => Some(string_views(d@)),
                None => None,
            },
            string_views(context_lines@),
            handling_line@,
        ),
{
    let ghost hv = string_views(header@);
    let mut lines = header;
    let ghost a = string_views(lines@);
    match url {
        Some(u) => {
            let mut shown = false;
            let mut i: usize = 0;
            while i < lines.len()
                invariant
                    i <= lines@.len(),
                    string_views(lines@) == hv,
                    shown == exists|j: int| 0 <= j < i && contains_seq(#[trigger] hv[j], u@),
                decreases lines.len() - i,
            {
                let l = chars_of(lines[i].as_str());
                if contains_str(&l, u) {
                    shown = true;
                }
                proof {
                    assert(hv[i as int] == l@);
                    if shown {
                        if contains_seq(l@, u@) {
                            assert(contains_seq(hv[i as int], u@));
                        }
                    }
                }
                i += 1;
            }
            if !shown {
                let mut line = chars_of("URL: ");
                extend_str(&mut line, u);
                lines.push(string_from(&line));
                assert(string_views(lines@) =~= hv + seq!["URL: "@ + u@]);
            } else {
                assert(string_views(lines@) =~= hv + Seq::<Seq<char>>::empty());
            }
        },
        None => {
            assert(string_views(lines@) =~= hv + Seq::<Seq<char>>::empty());
        },
    }
    let ghost b = string_views(lines@);
    match command_lines {
        Some(c) => {
            let formatted = format_command_preview_lines(c);
            append_lines(&mut lines, formatted);
        },
        None => {
            assert(string_views(lines@) =~= b + Seq::<Seq<char>>::empty());
        },
    }
    let ghost c = string_views(lines@);
    match diff_lines {
        Some(d) => append_lines(&mut lines, d),
        None => {
            assert(string_views(lines@) =~= c + Seq::<Seq<char>>::empty());
        },
    }
    append_lines(&mut lines, context_lines);
    let ghost e = string_views(lines@);
    lines.push(handling_line.to_owned());
    assert(string_views(lines@) =~= e.push(handling_line@));
    lines
}

/// The description of the policy prompt: the tool, why it is denied, the
/// URL of a web fetch, the diagnostic's impact and fix (as context lines)
/// and the files the fix names, then the line on how to choose.
pub open spec fn policy_description(
    tool: Seq<char>,
    url: Option<Seq<char>>,
    impact: Option<Seq<char>>,
    fix_action: Option<Seq<char>>,
    files: Seq<Seq<char>>,
    handling_line: Seq<char>,
) -> Seq<Seq<char>> {
    seq!["Tool: "@ + tool, "## Policy"@, "This tool is currently denied by tool policy configuration."@] + match url {
        Some(u) => seq!["URL: "@ + u],
        None => seq![],
    } + match impact {
        Some(i) => match context_line("Impact"@, i, MAX_CONTEXT_LINE_CHARS as nat) {
            Some(l) => seq![l],
            None => seq![],
        },
        None => seq![],
    } + match fix_action {
        Some(f) => match context_line("Fix"@, f, MAX_CONTEXT_LINE_CHARS as nat) {
            Some(l) => seq![l],
            None => seq![],
        },
        None => seq![],
    } + files.map_values(|f: Seq<char>| "  - "@ + f) + seq![handling_line]
}

/// The description lines of the policy prompt; `fix_files` are the string
/// entries of the diagnostic's fix files.
pub fn policy_denied_lines(
    tool_name: &str,
    url: Option<&str>,
    impact: Option<&str>,
    fix_action: Option<&str>,
    fix_files: &[String],
    handling_line: &str,
) -> (r: Vec<String>)
    ensures
        string_views(r@) == policy_description(
            tool_name@,
            match url {
                Some(u) => Some(u@),
                None => None,
            },
            match impact {
                Some(i) => Some(i@),
                None => None,
            },
            match fix_action {
                Some(f) => Some(f@),
                None => None,
            },
            string_views(fix_files@),
            handling_line@,
        ),
{
    let mut lines: Vec<String> = Vec::new();
    let mut first = chars_of("Tool: ");
    extend_str(&mut first, tool_name);
    lines.push(string_from(&first));
    lines.push("## Policy".to_owned());
    lines.push("This tool is currently denied by tool policy configuration.".to_owned());
    let ghost a = string_views(lines@);
    match url {
        Some(u) => {
            let mut l = chars_of("URL: ");
            extend_str(&mut l, u);
            lines.push(string_from(&l));
        },
        None => {},
    }
    let ghost b = string_views(lines@);
    match impact {
        Some(i) => {
            push_context_line(&mut lines, "Impact", i);
        },
        None => {},
    }
    let ghost c = string_views(lines@);
    match fix_action {
        Some(f) => {
            push_context_line(&mut lines, "Fix", f);
        },
        None => {},
    }
    let ghost d = string_views(lines@);
    let ghost fv = string_views(fix_files@);
    let mut i: usize = 0;
    while i < fix_files.len()
        invariant
            i <= fix_files@.len(),
            fv == string_views(fix_files@),
            string_views(lines@) == d + fv.take(i as int).map_values(|f: Seq<char>| "  - "@ + f),
        decreases fix_files.len() - i,
    {
        let mut l = chars_of("  - ");
        extend_str(&mut l, fix_files[i].as_str());
        let ghost before = string_views(lines@);
        lines.push(string_from(&l));
        assert(fv.take(i + 1).map_values(|f: Seq<char>| "  - "@ + f) =~= fv.take(i as int).map_values(
            |f: Seq<char>| "  - "@ + f,
        ).push(l@));
        assert(string_views(lines@) =~= before.push(l@));
        i += 1;
    }
    assert(fv.take(i as int) =~= fv);
    let ghost e = string_views(lines@);
    lines.push(handling_line.to_owned());
    assert(string_views(lines@) =~= e.push(handling_line@));
    proof {
        let expected = policy_description(
            tool_name@,
            match url {
                Some(u) => Some(u@),
                None => None,
            },
            match impact {
                Some(i) => Some(i@),
                None => None,
            },
            match fix_action {
                Some(f) => Some(f@),
                None => None,
            },
            fv,
            handling_line@,
        );
        assert(string_views(lines@) =~= expected);
    }
    lines
}

/// The choices of the policy prompt: enable the tool, a spacer, or deny
/// this call.
pub open spec fn policy_options() -> Seq<PromptOptionView> {
    seq![
        PromptOptionView {
            title: "Enable tool"@,
            subtitle: Some("Allow and continue execution"@),
            badge: Some("Fix Policy"@),
            indent: 0,
            selection: Some(ApprovalSelection::ToolApprovalEnable),
            search_value: Some("enable allow fix policy continue yes 1"@),
        },
        spacer_row(),
        PromptOptionView {
            title: "Deny Once"@,
            subtitle: Some("Ask again next time"@),
            badge: None,
            indent: 0,
            selection: Some(ApprovalSelection::ToolApprovalDenyOnce),
            search_value: Some("deny no reject skip once 2"@),
        },
    ]
}

/// The choices of the prompt for a tool that policy denies.
pub fn policy_denied_options() -> (r: Vec<PromptOption>)
    ensures
        option_views(r@) == policy_options(),
{
    proof {
        reveal_strlit("");
    }
    let r = vec![
        PromptOption {
            title: "Enable tool".to_owned(),
            subtitle: Some("Allow and continue execution".to_owned()),
            badge: Some("Fix Policy".to_owned()),
            indent: 0,
            selection: Some(ApprovalSelection::ToolApprovalEnable),
            search_value: Some("enable allow fix policy continue yes 1".to_owned()),
        },
        PromptOption {
            title: String::new(),
            subtitle: None,
            badge: None,
            indent: 0,
            selection: None,
            search_value: None,
        },
        PromptOption {
            title: "Deny Once".to_owned(),
            subtitle: Some("Ask again next time".to_owned()),
            badge: None,
            indent: 0,
            selection: Some(ApprovalSelection::ToolApprovalDenyOnce),
            search_value: Some("deny no reject skip once 2".to_owned()),
        },
    ];
    proof {
        let v = option_views(r@);
        assert(v.len() == 3);
        assert(v[0] == policy_options()[0]);
        assert(v[1] == policy_options()[1]);
        assert(v[2] == policy_options()[2]);
        assert(v =~= policy_options());
    }
    r
}

} // verus!
