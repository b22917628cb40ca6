//! Display preparation for proposed-plan markdown: wrapper removal that
//! respects fenced and inline code, and structural normalisation so the
//! markdown renderer keeps headings and lists apart.

use vstd::prelude::*;
use crate::plan_stream::{alt_close, alt_open, proposed_close, proposed_open, PLAN_PERSISTENCE_POLICY_LINE};
use crate::text::{
    chars_of, eq_ignore_case, extend_all, extend_range, incl_lines, lower, lower_char,
    char_to_ascii_lower, run_length, run_of, split_inclusive_lines, starts_with, strip_nl, sub_vec,
    trim, trim_start, trimmed, trimmed_start, views, without_newline, has_prefix_str,
};

verus! {

/// The four plan wrappers, as matched case-insensitively on display.
#[derive(Debug, Clone, Copy, PartialEq, Eq, Structural)]
pub enum Wrapper {
    Open,
    Close,
    AltOpen,
    AltClose,
}

impl Wrapper {
    pub open spec fn seq(self) -> Seq<char> {
        match self {
            Wrapper::Open => proposed_open(),
            Wrapper::Close => proposed_close(),
            Wrapper::AltOpen => alt_open(),
            Wrapper::AltClose => alt_close(),
        }
    }

    pub fn text(self) -> (r: Vec<char>)
        ensures
            r@ == self.seq(),
    {
        match self {
            Wrapper::Open => {
                let r = vec!['<', 'p', 'r', 'o', 'p', 'o', 's', 'e', 'd', '_', 'p', 'l', 'a', 'n', '>'];
                assert(r@ =~= proposed_open());
                r
            },
            Wrapper::Close => {
                let r = vec!['<', '/', 'p', 'r', 'o', 'p', 'o', 's', 'e', 'd', '_', 'p', 'l', 'a', 'n', '>'];
                assert(r@ =~= proposed_close());
                r
            },
            Wrapper::AltOpen => {
                let r = vec!['<', 'p', 'l', 'a', 'n', '>'];
                assert(r@ =~= alt_open());
                r
            },
            Wrapper::AltClose => {
                let r = vec!['<', '/', 'p', 'l', 'a', 'n', '>'];
                assert(r@ =~= alt_close());
                r
            },
        }
    }
}

pub proof fn lemma_wrapper_len(w: Wrapper)
    ensures
        w.seq().len() > 0,
{
}

// ---------------------------------------------------------------------------
// Fences
// ---------------------------------------------------------------------------

pub open spec fn backtick_fence() -> Seq<char> {
    seq!['`', '`', '`']
}

pub open spec fn tilde_fence() -> Seq<char> {
    seq!['~', '~', '~']
}

/// A markdown fence delimiter line: after leading whitespace it starts with
/// three backticks or three tildes.
pub open spec fn is_fence_line(line: Seq<char>) -> bool {
    starts_with(trim_start(line), backtick_fence()) || starts_with(trim_start(line), tilde_fence())
}

pub fn is_fence_delimiter(line: &[char]) -> (b: bool)
    ensures
        b == is_fence_line(line@),
{
    let t = trimmed_start(line);
    let tick = vec!['`', '`', '`'];
    let tilde = vec!['~', '~', '~'];
    assert(tick@ =~= backtick_fence());
    assert(tilde@ =~= tilde_fence());
    crate::text::has_prefix(&t, &tick) || crate::text::has_prefix(&t, &tilde)
}

// ---------------------------------------------------------------------------
// Wrapper search outside inline code
// ---------------------------------------------------------------------------

/// `w` occurs at `i` in `text`, ignoring ASCII case.
pub open spec fn wrapper_at(text: Seq<char>, i: int, w: Wrapper) -> bool {
    0 <= i && i + w.seq().len() <= text.len() && eq_ignore_case(text.subrange(i, i + w.seq().len()), w.seq())
}

/// The first wrapper of `tags` (in list order) that occurs at `i`.
pub open spec fn first_match(text: Seq<char>, i: int, tags: Seq<Wrapper>) -> Option<Wrapper>
    decreases tags.len(),
{
    if tags.len() == 0 {
        None
    } else if wrapper_at(text, i, tags[0]) {
        Some(tags[0])
    } else {
        first_match(text, i, tags.drop_first())
    }
}

pub proof fn lemma_first_match_at(text: Seq<char>, i: int, tags: Seq<Wrapper>)
    ensures
        first_match(text, i, tags) matches Some(w) ==> wrapper_at(text, i, w),
    decreases tags.len(),
{
    if tags.len() > 0 && !wrapper_at(text, i, tags[0]) {
        lemma_first_match_at(text, i, tags.drop_first());
    }
}

/// Inline-code state after a run of `run` backticks: a run of the same length
/// closes the span, any run opens one when none is open.
pub open spec fn tick_state(ticks: Option<nat>, run: nat) -> Option<nat> {
    match ticks {
        Some(t) => if t == run {
            None
        } else {
            ticks
        },
        None => Some(run),
    }
}

/// Scan `text` from `i` for a wrapper of `tags` outside inline-code spans,
/// carrying the span state. Returns the match (position and wrapper) and the
/// span state where the scan stopped.
pub open spec fn scan_tags(text: Seq<char>, tags: Seq<Wrapper>, ticks: Option<nat>, i: int) -> (
    Option<(int, Wrapper)>,
    Option<nat>,
)
    decreases text.len() - i,
{
    if i < 0 || i >= text.len() {
        (None, ticks)
    } else if text[i] == '`' {
        let run = run_of(text, '`', i);
        if run > 0 && i + run <= text.len() {
            scan_tags(text, tags, tick_state(ticks, run), i + run)
        } else {
            (None, ticks)
        }
    } else if ticks is None && first_match(text, i, tags) is Some {
        (Some((i, first_match(text, i, tags)->0)), ticks)
    } else {
        scan_tags(text, tags, ticks, i + 1)
    }
}

/// `text[i..]` starts with `pat`, ignoring ASCII case.
fn ci_matches_at(text: &[char], i: usize, pat: &[char]) -> (b: bool)
    requires
        i <= text@.len(),
    ensures
        b == (i + pat@.len() <= text@.len() && eq_ignore_case(
            text@.subrange(i as int, i + pat@.len()),
            pat@,
        )),
{
    if pat.len() > text.len() - i {
        return false;
    }
    let ghost sub = text@.subrange(i as int, i + pat@.len());
    let mut k: usize = 0;
    while k < pat.len()
        invariant
            text@.len() <= usize::MAX,
            i + pat@.len() <= text@.len(),
            sub == text@.subrange(i as int, i + pat@.len()),
            k <= pat@.len(),
            forall|j: int| 0 <= j < k ==> lower_char(sub[j]) == lower_char(pat@[j]),
        decreases pat.len() - k,
    {
        if char_to_ascii_lower(text[i + k]) != char_to_ascii_lower(pat[k]) {
            proof {
                assert(lower(sub)[k as int] == lower_char(sub[k as int]));
                assert(lower(pat@)[k as int] == lower_char(pat@[k as int]));
            }
            return false;
        }
        k += 1;
    }
    assert(lower(sub) =~= lower(pat@));
    true
}

fn first_match_exec(text: &[char], i: usize, tags: &[Wrapper]) -> (r: Option<Wrapper>)
    requires
        i <= text@.len(),
    ensures
        r == first_match(text@, i as int, tags@),
{
    let mut k: usize = 0;
    assert(tags@.skip(0) == tags@);
    while k < tags.len()
        invariant
            i <= text@.len(),
            k <= tags@.len(),
            first_match(text@, i as int, tags@) == first_match(text@, i as int, tags@.skip(k as int)),
        decreases tags.len() - k,
    {
        let w = tags[k];
        let wt = w.text();
        proof {
            assert(tags@.skip(k as int)[0] == w);
            assert(tags@.skip(k as int).drop_first() == tags@.skip(k + 1));
        }
        if ci_matches_at(text, i, &wt) {
            return Some(w);
        }
        k += 1;
    }
    None
}

/// Find a plan wrapper outside inline-code spans, carrying the span state
/// across calls (and across lines). Returns the char position and wrapper.
fn find_plan_tag_outside_inline_code(
    text: &[char],
    tags: &[Wrapper],
    inline_code_ticks: &mut Option<usize>,
) -> (r: Option<(usize, Wrapper)>)
    ensures
        ({
            let (m, t) = scan_tags(text@, tags@, opt_nat(*old(inline_code_ticks)), 0);
            opt_match(r) == m && opt_nat(*final(inline_code_ticks)) == t
        }),
        r matches Some((i, w)) ==> i + w.seq().len() <= text@.len(),
{
    let mut cursor: usize = 0;
    while cursor < text.len()
        invariant
            cursor <= text@.len(),
            scan_tags(text@, tags@, opt_nat(*old(inline_code_ticks)), 0) == scan_tags(
                text@,
                tags@,
                opt_nat(*inline_code_ticks),
                cursor as int,
            ),
        decreases text.len() - cursor,
    {
        if text[cursor] == '`' {
            let run = run_length(text, '`', cursor);
            let next = match *inline_code_ticks {
                Some(t) => if t == run {
                    None
                } else {
                    Some(t)
                },
                None => Some(run),
            };
            assert(opt_nat(next) == tick_state(opt_nat(*inline_code_ticks), run as nat));
            *inline_code_ticks = next;
            cursor += run;
            continue;
        }
        if inline_code_ticks.is_none() {
            if let Some(w) = first_match_exec(text, cursor, tags) {
                proof {
                    lemma_first_match_at(text@, cursor as int, tags@);
                }
                return Some((cursor, w));
            }
        }
        cursor += 1;
    }
    None
}


pub open spec fn all_wrappers() -> Seq<Wrapper> {
    seq![Wrapper::Open, Wrapper::Close, Wrapper::AltOpen, Wrapper::AltClose]
}

pub open spec fn opening_wrappers() -> Seq<Wrapper> {
    seq![Wrapper::Open, Wrapper::AltOpen]
}

pub open spec fn closing_wrappers() -> Seq<Wrapper> {
    seq![Wrapper::Close, Wrapper::AltClose]
}

/// `strip_plan_tags` from `cursor`: copy text, dropping every wrapper found
/// outside inline code. Returns the output and the span state at the end.
pub open spec fn strip_tags_from(text: Seq<char>, ticks: Option<nat>, cursor: int, out: Seq<char>) -> (
    Seq<char>,
    Option<nat>,
)
    decreases text.len() - cursor,
{
    if cursor < 0 || cursor >= text.len() {
        (out, ticks)
    } else {
        let rest = text.skip(cursor);
        let (m, t2) = scan_tags(rest, all_wrappers(), ticks, 0);
        match m {
            None => (out + rest, t2),
            Some((idx, w)) => {
                if 0 <= idx && idx + w.seq().len() <= rest.len() && w.seq().len() > 0 {
                    strip_tags_from(text, t2, cursor + idx + w.seq().len(), out + rest.take(idx))
                } else {
                    (out, t2)
                }
            },
        }
    }
}

fn strip_plan_tags(text: &[char], inline_code_ticks: &mut Option<usize>) -> (out: Vec<char>)
    ensures
        ({
            let (o, t) = strip_tags_from(text@, opt_nat(*old(inline_code_ticks)), 0, seq![]);
            out@ == o && opt_nat(*final(inline_code_ticks)) == t
        }),
{
    let mut out: Vec<char> = Vec::new();
    let mut cursor: usize = 0;
    let tags = [Wrapper::Open, Wrapper::Close, Wrapper::AltOpen, Wrapper::AltClose];
    assert(tags@ == all_wrappers());
    while cursor < text.len()
        invariant
            cursor <= text@.len(),
            tags@ == all_wrappers(),
            strip_tags_from(text@, opt_nat(*old(inline_code_ticks)), 0, seq![]) == strip_tags_from(
                text@,
                opt_nat(*inline_code_ticks),
                cursor as int,
                out@,
            ),
        decreases text.len() - cursor,
    {
        let rest = sub_vec(text, cursor, text.len());
        assert(rest@ == text@.skip(cursor as int));
        match find_plan_tag_outside_inline_code(&rest, &tags, inline_code_ticks) {
            None => {
                extend_all(&mut out, &rest);
                proof {
                    assert(text@.skip(text@.len() as int).len() == 0);
                }
                cursor = text.len();
            },
            Some((index, w)) => {
                let wt = w.text();
                proof {
                    lemma_wrapper_len(w);
                    assert(rest@.subrange(0, index as int) == rest@.take(index as int));
                }
                extend_range(&mut out, &rest, 0, index);
                cursor = cursor + index + wt.len();
            },
        }
    }
    out
}

/// Strip every plan wrapper tag outside fenced code for display purposes,
/// regardless of pairing. Literal tags in code examples remain untouched.
pub open spec fn strip_all_from(
    lines: Seq<Seq<char>>,
    k: int,
    in_fence: bool,
    ticks: Option<nat>,
    out: Seq<char>,
) -> Seq<char>
    decreases lines.len() - k,
{
    if k < 0 || k >= lines.len() {
        out
    } else {
        let raw = lines[k];
        let fence = is_fence_line(strip_nl(raw));
        let out1 = if k > 0 && out.len() > 0 && out.last() != '\n' {
            out.push('\n')
        } else {
            out
        };
        let (piece, t1) = if in_fence || fence {
            (raw, ticks)
        } else {
            strip_tags_from(raw, ticks, 0, seq![])
        };
        let (f2, t2) = if fence {
            (!in_fence, None)
        } else {
            (in_fence, t1)
        };
        strip_all_from(lines, k + 1, f2, t2, out1 + piece)
    }
}

pub open spec fn strip_all_spec(text: Seq<char>) -> Seq<char> {
    trim(strip_all_from(incl_lines(text), 0, false, None, seq![]))
}

pub fn strip_all_plan_tags(text: &str) -> (out: String)
    ensures
        out@ == strip_all_spec(text@),
{
    let t = chars_of(text);
    let v = strip_all_chars(&t);
    crate::text::string_from(&v)
}

fn strip_all_chars(text: &[char]) -> (out: Vec<char>)
    ensures
        out@ == strip_all_spec(text@),
{
    let lines = split_inclusive_lines(text);
    let mut out: Vec<char> = Vec::new();
    let mut in_fenced_code = false;
    let mut inline_code_ticks: Option<usize> = None;
    let mut index: usize = 0;
    while index < lines.len()
        invariant
            index <= lines@.len(),
            views(lines@) == incl_lines(text@),
            strip_all_from(incl_lines(text@), 0, false, None, seq![]) == strip_all_from(
                incl_lines(text@),
                index as int,
                in_fenced_code,
                opt_nat(inline_code_ticks),
                out@,
            ),
        decreases lines.len() - index,
    {
        let raw_line = &lines[index];
        assert(raw_line@ == incl_lines(text@)[index as int]);
        if index > 0 && out.len() > 0 && out[out.len() - 1] != '\n' {
            out.push('\n');
        }
        let line = without_newline(raw_line);
        let is_fence = is_fence_delimiter(&line);
        if in_fenced_code || is_fence {
            extend_all(&mut out, raw_line);
        } else {
            let piece = strip_plan_tags(raw_line, &mut inline_code_ticks);
            extend_all(&mut out, &piece);
        }
        if is_fence {
            in_fenced_code = !in_fenced_code;
            inline_code_ticks = None;
        }
        index += 1;
    }
    trimmed(&out)
}

pub open spec fn contains_from(
    lines: Seq<Seq<char>>,
    k: int,
    tags: Seq<Wrapper>,
    in_fence: bool,
    ticks: Option<nat>,
) -> bool
    decreases lines.len() - k,
{
    if k < 0 || k >= lines.len() {
        false
    } else {
        let line = strip_nl(lines[k]);
        let fence = is_fence_line(line);
        if !in_fence && !fence {
            let (m, t1) = scan_tags(line, tags, ticks, 0);
            if m is Some {
                true
            } else {
                contains_from(lines, k + 1, tags, in_fence, t1)
            }
        } else if fence {
            contains_from(lines, k + 1, tags, !in_fence, None)
        } else {
            contains_from(lines, k + 1, tags, in_fence, ticks)
        }
    }
}

/// Some wrapper of `tags` occurs outside fenced and inline code.
pub open spec fn contains_outside_fences(text: Seq<char>, tags: Seq<Wrapper>) -> bool {
    contains_from(incl_lines(text), 0, tags, false, None)
}

fn contains_plan_tag_outside_fences(text: &[char], tags: &[Wrapper]) -> (b: bool)
    ensures
        b == contains_outside_fences(text@, tags@),
{
    let lines = split_inclusive_lines(text);
    let mut in_fenced_code = false;
    let mut inline_code_ticks: Option<usize> = None;
    let mut index: usize = 0;
    while index < lines.len()
        invariant
            index <= lines@.len(),
            views(lines@) == incl_lines(text@),
            contains_outside_fences(text@, tags@) == contains_from(
                incl_lines(text@),
                index as int,
                tags@,
                in_fenced_code,
                opt_nat(inline_code_ticks),
            ),
        decreases lines.len() - index,
    {
        let raw_line = &lines[index];
        assert(raw_line@ == incl_lines(text@)[index as int]);
        let line = without_newline(raw_line);
        let is_fence = is_fence_delimiter(&line);
        if !in_fenced_code && !is_fence && find_plan_tag_outside_inline_code(
            &line,
            tags,
            &mut inline_code_ticks,
        ).is_some() {
            return true;
        }
        if is_fence {
            in_fenced_code = !in_fenced_code;
            inline_code_ticks = None;
        }
        index += 1;
    }
    false
}


pub open spec fn closing_for(w: Wrapper) -> Wrapper {
    if w == Wrapper::Open {
        Wrapper::Close
    } else {
        Wrapper::AltClose
    }
}

/// One line of body extraction: alternate between looking for an opening
/// wrapper and for the closing wrapper it calls for, collecting the text in
/// between. Returns (awaited close, span state, saw a plan, body).
pub open spec fn body_scan(
    rem: Seq<char>,
    close: Option<Wrapper>,
    ticks: Option<nat>,
    saw: bool,
    body: Seq<char>,
) -> (Option<Wrapper>, Option<nat>, bool, Seq<char>)
    decreases rem.len(),
{
    match close {
        Some(c) => {
            let (m, t) = scan_tags(rem, seq![c], ticks, 0);
            match m {
                Some((idx, w)) => if 0 <= idx && idx + w.seq().len() <= rem.len() && w.seq().len() > 0 {
                    body_scan(rem.skip(idx + w.seq().len()), None, t, saw, body + rem.take(idx))
                } else {
                    (close, t, saw, body)
                },
                None => (close, t, saw, body + rem),
            }
        },
        None => {
            let (m, t) = scan_tags(rem, opening_wrappers(), ticks, 0);
            match m {
                None => (None, t, saw, body),
                Some((idx, w)) => if 0 <= idx && idx + w.seq().len() <= rem.len() && w.seq().len() > 0 {
                    body_scan(rem.skip(idx + w.seq().len()), Some(closing_for(w)), t, true, body)
                } else {
                    (close, t, saw, body)
                },
            }
        },
    }
}

pub open spec fn body_lines(
    lines: Seq<Seq<char>>,
    k: int,
    close: Option<Wrapper>,
    in_fence: bool,
    ticks: Option<nat>,
    saw: bool,
    body: Seq<char>,
) -> (bool, Seq<char>)
    decreases lines.len() - k,
{
    if k < 0 || k >= lines.len() {
        (saw, body)
    } else {
        let raw = lines[k];
        let fence = is_fence_line(strip_nl(raw));
        if in_fence || fence {
            let body1 = if saw {
                body + raw
            } else {
                body
            };
            if fence {
                body_lines(lines, k + 1, close, !in_fence, None, saw, body1)
            } else {
                body_lines(lines, k + 1, close, in_fence, ticks, saw, body1)
            }
        } else {
            let (c2, t2, s2, b2) = body_scan(raw, close, ticks, saw, body);
            body_lines(lines, k + 1, c2, in_fence, t2, s2, b2)
        }
    }
}

/// The plan body for display: text between wrappers (fenced code kept
/// verbatim, wrapper-looking text inside code ignored), trimmed; `None` when
/// no opening wrapper occurs outside code.
pub open spec fn extract_body_spec(text: Seq<char>) -> Option<Seq<char>> {
    let (saw, body) = body_lines(incl_lines(text), 0, None, false, None, false, seq![]);
    if saw {
        Some(trim(body))
    } else {
        None
    }
}

fn scan_plan_line(
    raw_line: &[char],
    close_tag: &mut Option<Wrapper>,
    inline_code_ticks: &mut Option<usize>,
    saw_plan: &mut bool,
    body: &mut Vec<char>,
)
    ensures
        body_scan(raw_line@, *old(close_tag), opt_nat(*old(inline_code_ticks)), *old(saw_plan), old(body)@)
            == (*final(close_tag), opt_nat(*final(inline_code_ticks)), *final(saw_plan), final(body)@),
{
    let mut remaining = sub_vec(raw_line, 0, raw_line.len());
    assert(remaining@ == raw_line@);
    let openers = [Wrapper::Open, Wrapper::AltOpen];
    assert(openers@ == opening_wrappers());
    loop
        invariant
            openers@ == opening_wrappers(),
            body_scan(raw_line@, *old(close_tag), opt_nat(*old(inline_code_ticks)), *old(saw_plan), old(body)@)
                == body_scan(remaining@, *close_tag, opt_nat(*inline_code_ticks), *saw_plan, body@),
        decreases remaining@.len(),
    {
        if let Some(expected_close) = *close_tag {
            let awaited = [expected_close];
            assert(awaited@ == seq![expected_close]);
            match find_plan_tag_outside_inline_code(&remaining, &awaited, inline_code_ticks) {
                Some((index, w)) => {
                    let wt = w.text();
                    proof {
                        lemma_wrapper_len(w);
                        assert(remaining@.subrange(0, index as int) == remaining@.take(index as int));
                    }
                    let rlen = remaining.len();
                    assert(index + wt@.len() <= rlen);
                    extend_range(body, &remaining, 0, index);
                    remaining = sub_vec(&remaining, index + wt.len(), remaining.len());
                    *close_tag = None;
                    continue;
                },
                None => {
                    extend_all(body, &remaining);
                    return;
                },
            }
        }
        match find_plan_tag_outside_inline_code(&remaining, &openers, inline_code_ticks) {
            None => {
                return;
            },
            Some((index, w)) => {
                let wt = w.text();
                proof {
                    lemma_wrapper_len(w);
                }
                let rlen = remaining.len();
                assert(index + wt@.len() <= rlen);
                *saw_plan = true;
                *close_tag = Some(if w == Wrapper::Open { Wrapper::Close } else { Wrapper::AltClose });
                remaining = sub_vec(&remaining, index + wt.len(), remaining.len());
            },
        }
    }
}

/// Extract a plan body while ignoring wrapper-looking text inside fenced code.
fn extract_plan_body_for_display(text: &[char]) -> (r: Option<Vec<char>>)
    ensures
        match r {
            Some(b) => extract_body_spec(text@) == Some(b@),
            None => extract_body_spec(text@) is None,
        },
{
    let lines = split_inclusive_lines(text);
    let mut close_tag: Option<Wrapper> = None;
    let mut body: Vec<char> = Vec::new();
    let mut in_fenced_code = false;
    let mut inline_code_ticks: Option<usize> = None;
    let mut saw_plan = false;
    let mut index: usize = 0;
    while index < lines.len()
        invariant
            index <= lines@.len(),
            views(lines@) == incl_lines(text@),
            body_lines(incl_lines(text@), 0, None, false, None, false, seq![]) == body_lines(
                incl_lines(text@),
                index as int,
                close_tag,
                in_fenced_code,
                opt_nat(inline_code_ticks),
                saw_plan,
                body@,
            ),
        decreases lines.len() - index,
    {
        let raw_line = &lines[index];
        assert(raw_line@ == incl_lines(text@)[index as int]);
        let line = without_newline(raw_line);
        let is_fence = is_fence_delimiter(&line);
        if in_fenced_code || is_fence {
            if saw_plan {
                extend_all(&mut body, raw_line);
            }
            if is_fence {
                in_fenced_code = !in_fenced_code;
                inline_code_ticks = None;
            }
        } else {
            scan_plan_line(raw_line, &mut close_tag, &mut inline_code_ticks, &mut saw_plan, &mut body);
        }
        index += 1;
    }
    if saw_plan {
        Some(trimmed(&body))
    } else {
        None
    }
}


// ---------------------------------------------------------------------------
// Ordered-list steps
// ---------------------------------------------------------------------------

/// Number of leading ASCII digits.
pub open spec fn digit_run(t: Seq<char>) -> nat
    decreases t.len(),
{
    if t.len() > 0 && crate::text::is_ascii_digit(t[0]) {
        1 + digit_run(t.drop_first())
    } else {
        0
    }
}

/// `1. item` / `12) item`: leading digits, then `. ` or `) `.
pub open spec fn is_ordered_item(t: Seq<char>) -> bool {
    let d = digit_run(t) as int;
    d > 0 && (starts_with(t.skip(d), seq!['.', ' ']) || starts_with(t.skip(d), seq![')', ' ']))
}

fn leading_digits(t: &[char]) -> (n: usize)
    ensures
        n == digit_run(t@),
        n <= t@.len(),
        t@.skip(n as int) == t@.skip(digit_run(t@) as int),
{
    let mut n: usize = 0;
    assert(t@.skip(0) == t@);
    while n < t.len() && crate::text::char_is_ascii_digit(t[n])
        invariant
            n <= t@.len(),
            digit_run(t@) == n + digit_run(t@.skip(n as int)),
        decreases t.len() - n,
    {
        proof {
            assert(t@.skip(n as int)[0] == t@[n as int]);
            assert(t@.skip(n as int).drop_first() == t@.skip(n + 1));
        }
        n += 1;
    }
    proof {
        if n < t.len() {
            assert(t@.skip(n as int)[0] == t@[n as int]);
        }
    }
    n
}

fn is_ordered_list_item(trimmed: &[char]) -> (b: bool)
    ensures
        b == is_ordered_item(trimmed@),
{
    let d = leading_digits(trimmed);
    if d == 0 {
        return false;
    }
    let rest = sub_vec(trimmed, d, trimmed.len());
    assert(rest@ == trimmed@.skip(d as int));
    let dot = vec!['.', ' '];
    let paren = vec![')', ' '];
    assert(dot@ =~= seq!['.', ' ']);
    assert(paren@ =~= seq![')', ' ']);
    crate::text::has_prefix(&rest, &dot) || crate::text::has_prefix(&rest, &paren)
}

/// Width of the ordered marker (`1. ` -> 3, `10. ` -> 4).
fn ordered_marker_width(trimmed: &[char]) -> (w: usize)
    requires
        is_ordered_item(trimmed@),
    ensures
        w == digit_run(trimmed@) + 2,
{
    let d = leading_digits(trimmed);
    assert(trimmed@.skip(d as int).len() >= 2);
    let n = trimmed.len();
    assert(d + 2 <= n);
    d + 2
}

pub open spec fn files_marker() -> Seq<char> {
    seq![' ', '-', '>', ' ', 'f', 'i', 'l', 'e', 's', ':']
}

pub open spec fn verify_marker() -> Seq<char> {
    seq![' ', '-', '>', ' ', 'v', 'e', 'r', 'i', 'f', 'y', ':']
}

/// Positions of ` -> files:` / ` -> verify:` outside inline code, scanning
/// from `i` with span state `ticks`.
pub open spec fn meta_splits(t: Seq<char>, ticks: Option<nat>, i: int, acc: Seq<int>) -> Seq<int>
    decreases t.len() - i,
{
    if i < 0 || i >= t.len() {
        acc
    } else if t[i] == '`' {
        let run = run_of(t, '`', i);
        if run > 0 && i + run <= t.len() {
            meta_splits(t, tick_state(ticks, run), i + run, acc)
        } else {
            acc
        }
    } else if ticks is None && (starts_with(t.skip(i), files_marker()) || starts_with(t.skip(i), verify_marker())) {
        meta_splits(t, ticks, i + 4, acc.push(i))
    } else {
        meta_splits(t, ticks, i + 1, acc)
    }
}

/// Pieces of `t` between the split points, each split swallowing ` -> `.
pub open spec fn parts_between(t: Seq<char>, splits: Seq<int>, start: int) -> Seq<Seq<char>>
    decreases splits.len(),
{
    if splits.len() == 0 {
        seq![t.subrange(start, t.len() as int)]
    } else {
        seq![t.subrange(start, splits[0])] + parts_between(t, splits.drop_first(), splits[0] + 4)
    }
}

pub open spec fn split_meta_spec(t: Seq<char>) -> Option<Seq<Seq<char>>> {
    let splits = meta_splits(t, None, 0, seq![]);
    if splits.len() == 0 {
        None
    } else {
        Some(parts_between(t, splits, 0))
    }
}

/// Split points are increasing, at least four apart, and within `t`.
pub open spec fn splits_ok(t: Seq<char>, splits: Seq<int>, lo: int) -> bool {
    &&& forall|j: int| 0 <= j < splits.len() ==> lo <= #[trigger] splits[j] && splits[j] + 4 <= t.len()
    &&& forall|j: int, k: int| 0 <= j < k < splits.len() ==> #[trigger] splits[j] + 4 <= #[trigger] splits[k]
}

/// Split `1. Action -> files: […] -> verify: […]` at metadata boundaries
/// outside inline-code spans.
fn split_ordered_step_metadata(trimmed: &[char]) -> (r: Option<Vec<Vec<char>>>)
    ensures
        match r {
            Some(parts) => split_meta_spec(trimmed@) == Some(views(parts@)),
            None => split_meta_spec(trimmed@) is None,
        },
{
    let files = vec![' ', '-', '>', ' ', 'f', 'i', 'l', 'e', 's', ':'];
    let verify = vec![' ', '-', '>', ' ', 'v', 'e', 'r', 'i', 'f', 'y', ':'];
    assert(files@ =~= files_marker());
    assert(verify@ =~= verify_marker());
    let mut splits: Vec<usize> = Vec::new();
    let mut inline_ticks: Option<usize> = None;
    let mut cursor: usize = 0;
    assert(splits@.map_values(|x: usize| x as int) =~= seq![]);
    while cursor < trimmed.len()
        invariant
            cursor <= trimmed@.len(),
            files@ == files_marker(),
            verify@ == verify_marker(),
            meta_splits(trimmed@, None, 0, seq![]) == meta_splits(
                trimmed@,
                opt_nat(inline_ticks),
                cursor as int,
                splits@.map_values(|x: usize| x as int),
            ),
            splits_ok(trimmed@, splits@.map_values(|x: usize| x as int), 0),
            forall|j: int| 0 <= j < splits@.len() ==> splits@[j] + 4 <= cursor,
        decreases trimmed.len() - cursor,
    {
        if trimmed[cursor] == '`' {
            let run = run_length(trimmed, '`', cursor);
            let next = match inline_ticks {
                Some(t) => if t == run {
                    None
                } else {
                    Some(t)
                },
                None => Some(run),
            };
            assert(opt_nat(next) == tick_state(opt_nat(inline_ticks), run as nat));
            inline_ticks = next;
            cursor += run;
            continue;
        }
        proof {
            crate::text::lemma_occurs_at_starts_with(trimmed@, files@, cursor as int);
            crate::text::lemma_occurs_at_starts_with(trimmed@, verify@, cursor as int);
        }
        if inline_ticks.is_none() && (crate::text::matches_at(trimmed, cursor, &files)
            || crate::text::matches_at(trimmed, cursor, &verify)) {
            let ghost old_splits = splits@.map_values(|x: usize| x as int);
            splits.push(cursor);
            assert(splits@.map_values(|x: usize| x as int) =~= old_splits.push(cursor as int));
            cursor += 4;
            continue;
        }
        cursor += 1;
    }
    if splits.len() == 0 {
        return None;
    }
    let ghost sp = splits@.map_values(|x: usize| x as int);
    let mut parts: Vec<Vec<char>> = Vec::new();
    let mut start: usize = 0;
    let mut k: usize = 0;
    assert(sp.skip(0) == sp);
    assert(views(parts@) + parts_between(trimmed@, sp, 0) =~= parts_between(trimmed@, sp, 0));
    while k < splits.len()
        invariant
            k <= splits@.len(),
            sp == splits@.map_values(|x: usize| x as int),
            splits_ok(trimmed@, sp, 0),
            k == 0 ==> start == 0,
            k > 0 ==> start == sp[k - 1] + 4,
            start <= trimmed@.len(),
            forall|j: int| k <= j < sp.len() ==> start <= sp[j],
            parts_between(trimmed@, sp, 0) == views(parts@) + parts_between(trimmed@, sp.skip(k as int), start as int),
        decreases splits.len() - k,
    {
        let split = splits[k];
        assert(split as int == sp[k as int]);
        let n = trimmed.len();
        assert(split + 4 <= n);
        let piece = sub_vec(trimmed, start, split);
        proof {
            assert(sp.skip(k as int)[0] == split as int);
            assert(sp.skip(k as int).drop_first() == sp.skip(k + 1));
        }
        let ghost old_parts = parts@;
        parts.push(piece);
        assert(views(parts@) =~= views(old_parts) + seq![piece@]);
        start = split + 4;
        k += 1;
    }
    let last = sub_vec(trimmed, start, trimmed.len());
    let ghost old_parts = parts@;
    parts.push(last);
    assert(views(parts@) =~= views(old_parts) + seq![last@]);
    assert(sp.skip(k as int).len() == 0);
    Some(parts)
}


// ---------------------------------------------------------------------------
// Markdown normalisation
// ---------------------------------------------------------------------------

pub open spec fn alias_key(k: int) -> Seq<char> {
    if k == 0 {
        "summary"@
    } else if k == 1 {
        "implementation steps"@
    } else if k == 2 {
        "test cases and validation"@
    } else if k == 3 {
        "validation"@
    } else if k == 4 {
        "assumptions and defaults"@
    } else if k == 5 {
        "assumptions"@
    } else {
        "open questions"@
    }
}

pub open spec fn alias_heading(k: int) -> Seq<char> {
    if k == 0 {
        "## Summary"@
    } else if k == 1 {
        "## Implementation Steps"@
    } else if k == 2 || k == 3 {
        "## Test Cases and Validation"@
    } else if k == 4 || k == 5 {
        "## Assumptions and Defaults"@
    } else {
        "## Open Questions"@
    }
}

fn alias_entry(k: usize) -> (r: (&'static str, &'static str))
    requires
        k < 7,
    ensures
        r.0@ == alias_key(k as int),
        r.1@ == alias_heading(k as int),
{
    if k == 0 {
        ("summary", "## Summary")
    } else if k == 1 {
        ("implementation steps", "## Implementation Steps")
    } else if k == 2 {
        ("test cases and validation", "## Test Cases and Validation")
    } else if k == 3 {
        ("validation", "## Test Cases and Validation")
    } else if k == 4 {
        ("assumptions and defaults", "## Assumptions and Defaults")
    } else if k == 5 {
        ("assumptions", "## Assumptions and Defaults")
    } else {
        ("open questions", "## Open Questions")
    }
}

/// First heading alias (in table order) equal to `lowered`.
pub open spec fn first_alias_exact(lowered: Seq<char>, k: int) -> Option<int>
    decreases 7 - k,
{
    if k < 0 || k >= 7 {
        None
    } else if alias_key(k) == lowered {
        Some(k)
    } else {
        first_alias_exact(lowered, k + 1)
    }
}

/// First heading alias `a` (in table order) such that `lt` starts with `a:`.
pub open spec fn first_alias_prefix(lt: Seq<char>, k: int) -> Option<int>
    decreases 7 - k,
{
    if k < 0 || k >= 7 {
        None
    } else if starts_with(lt, alias_key(k).push(':')) {
        Some(k)
    } else {
        first_alias_prefix(lt, k + 1)
    }
}

fn find_alias_exact(lowered: &[char]) -> (r: Option<usize>)
    ensures
        match r {
            Some(k) => first_alias_exact(lowered@, 0) == Some(k as int) && k < 7,
            None => first_alias_exact(lowered@, 0) is None,
        },
{
    let mut k: usize = 0;
    while k < 7
        invariant
            k <= 7,
            first_alias_exact(lowered@, 0) == first_alias_exact(lowered@, k as int),
        decreases 7 - k,
    {
        let (key, _) = alias_entry(k);
        if crate::text::eq_str(lowered, key) {
            return Some(k);
        }
        k += 1;
    }
    None
}

fn find_alias_prefix(lt: &[char]) -> (r: Option<usize>)
    ensures
        match r {
            Some(k) => first_alias_prefix(lt@, 0) == Some(k as int) && k < 7,
            None => first_alias_prefix(lt@, 0) is None,
        },
{
    let mut k: usize = 0;
    while k < 7
        invariant
            k <= 7,
            first_alias_prefix(lt@, 0) == first_alias_prefix(lt@, k as int),
        decreases 7 - k,
    {
        let (key, _) = alias_entry(k);
        let mut pat = chars_of(key);
        pat.push(':');
        if crate::text::has_prefix(lt, &pat) {
            return Some(k);
        }
        k += 1;
    }
    None
}

/// `byte_len(s) <= limit`, computed without building the full length.
fn byte_len_at_most(s: &[char], limit: usize) -> (b: bool)
    requires
        limit <= 4096,
    ensures
        b == (crate::text::byte_len(s@) <= limit),
{
    let mut i: usize = 0;
    let mut acc: usize = 0;
    assert(s@.skip(0) == s@);
    while i < s.len()
        invariant
            limit <= 4096,
            i <= s@.len(),
            acc <= limit,
            crate::text::byte_len(s@) == acc + crate::text::byte_len(s@.skip(i as int)),
        decreases s.len() - i,
    {
        let w = crate::text::utf8_width(s[i]);
        proof {
            assert(s@.skip(i as int)[0] == s@[i as int]);
            assert(s@.skip(i as int).drop_first() == s@.skip(i + 1));
        }
        if acc + w > limit {
            return false;
        }
        acc = acc + w;
        i += 1;
    }
    assert(s@.skip(i as int).len() == 0);
    true
}

pub open spec fn bullet_prefix() -> Seq<char> {
    seq!['\u{2022}', ' ']
}

pub open spec fn indent_of(line: Seq<char>) -> Seq<char> {
    line.take(line.len() - trim_start(line).len())
}

/// `• item` bullets become `- item`; a lone `•` becomes `-`.
pub open spec fn bullet_norm(line: Seq<char>) -> Seq<char> {
    let ts = trim_start(line);
    if starts_with(ts, bullet_prefix()) {
        indent_of(line) + seq!['-', ' '] + ts.skip(2)
    } else if ts == seq!['\u{2022}'] {
        indent_of(line) + seq!['-']
    } else {
        line
    }
}

pub open spec fn label_of(trimmed: Seq<char>) -> Seq<char> {
    trim(
        if crate::text::ends_with(trimmed, seq![':']) {
            trimmed.drop_last()
        } else {
            trimmed
        },
    )
}

pub open spec fn spaces(n: nat) -> Seq<char> {
    Seq::new(n, |i: int| ' ')
}

/// A line of normalised output; `structural` lines take part in spacing.
pub struct DisplayLineView {
    pub text: Seq<char>,
    pub structural: bool,
}

pub open spec fn dl(text: Seq<char>, structural: bool) -> DisplayLineView {
    DisplayLineView { text, structural }
}

pub open spec fn nested_items(parts: Seq<Seq<char>>, prefix: Seq<char>) -> Seq<DisplayLineView>
    decreases parts.len(),
{
    if parts.len() == 0 {
        seq![]
    } else {
        let p = trim(parts[0]);
        (if p.len() == 0 {
            seq![]
        } else {
            seq![dl(prefix + p, true)]
        }) + nested_items(parts.drop_first(), prefix)
    }
}

/// The `Label:` rule: a bare known section label ending in `:` becomes its
/// heading.
pub open spec fn exact_rule(tr: Seq<char>, cur0: Seq<char>) -> Seq<char> {
    let label = label_of(tr);
    let exact = first_alias_exact(lower(label), 0);
    if label.len() > 0 && crate::text::byte_len(label) <= 64 && exact is Some && crate::text::ends_with(
        tr,
        seq![':'],
    ) {
        alias_heading(exact->0)
    } else {
        cur0
    }
}

/// The `Label: prose` rule: which section label the line starts with.
pub open spec fn prefix_rule(tr: Seq<char>) -> Option<int> {
    if crate::text::byte_len(tr) <= 256 {
        first_alias_prefix(lower(tr), 0)
    } else {
        None
    }
}

pub open spec fn after_colon(tr: Seq<char>) -> Seq<char> {
    trim(tr.skip(crate::text::index_of(tr, ':') + 1))
}

/// Long ordered steps split at their metadata; any other line kept as is.
pub open spec fn ordered_or_plain(ind: Seq<char>, cur2: Seq<char>) -> Seq<DisplayLineView> {
    let ct = trim(cur2);
    if is_ordered_item(ct) && split_meta_spec(ct) is Some {
        let parts = split_meta_spec(ct)->0;
        seq![dl(ind + crate::text::trim_end(parts[0]), true)] + nested_items(
            parts.drop_first(),
            ind + spaces(digit_run(ct) + 2) + seq!['-', ' '],
        )
    } else {
        seq![dl(cur2, true)]
    }
}

/// The output lines for one line outside fenced code.
pub open spec fn line_items(line: Seq<char>) -> Seq<DisplayLineView> {
    let cur0 = bullet_norm(line);
    let tr = trim(cur0);
    let cur1 = exact_rule(tr, cur0);
    let pre = prefix_rule(tr);
    if pre is Some && after_colon(tr).len() > 0 {
        seq![dl(alias_heading(pre->0), true), dl(seq![], true), dl(after_colon(tr), true)]
    } else {
        ordered_or_plain(
            indent_of(line),
            if pre is Some {
                alias_heading(pre->0)
            } else {
                cur1
            },
        )
    }
}

pub open spec fn display_from(ls: Seq<Seq<char>>, k: int, in_fence: bool, acc: Seq<DisplayLineView>) -> Seq<
    DisplayLineView,
>
    decreases ls.len() - k,
{
    if k < 0 || k >= ls.len() {
        acc
    } else {
        let line = ls[k];
        let fence = is_fence_line(line);
        if in_fence || fence {
            display_from(
                ls,
                k + 1,
                if fence {
                    !in_fence
                } else {
                    in_fence
                },
                acc.push(dl(line, false)),
            )
        } else {
            display_from(ls, k + 1, in_fence, acc + line_items(line))
        }
    }
}

pub open spec fn is_heading_line(d: DisplayLineView) -> bool {
    d.structural && starts_with(trim(d.text), "## "@)
}

pub open spec fn is_list_line(d: DisplayLineView) -> bool {
    let t = trim(d.text);
    d.structural && (starts_with(t, "- "@) || starts_with(t, "* "@) || starts_with(t, "+ "@)
        || is_ordered_item(t))
}

pub open spec fn next_is_list_or_heading(d: DisplayLineView) -> bool {
    let t = trim(d.text);
    d.structural && (starts_with(t, "## "@) || starts_with(t, "- "@) || starts_with(t, "* "@)
        || is_ordered_item(t))
}

/// Blank lines around headings and lists so the markdown parser keeps them
/// as separate blocks.
pub open spec fn spaced_from(d: Seq<DisplayLineView>, idx: int, acc: Seq<Seq<char>>) -> Seq<Seq<char>>
    decreases d.len() - idx,
{
    if idx < 0 || idx >= d.len() {
        acc
    } else {
        let line = d[idx];
        let hl = is_heading_line(line) || is_list_line(line);
        let prev_blank = acc.len() > 0 && trim(acc.last()).len() == 0;
        let a1 = if hl && idx > 0 && !prev_blank {
            acc.push(seq![])
        } else {
            acc
        };
        let a2 = a1.push(line.text);
        let a3 = if hl && idx + 1 < d.len() && !next_is_list_or_heading(d[idx + 1]) && trim(
            d[idx + 1].text,
        ).len() > 0 {
            a2.push(seq![])
        } else {
            a2
        };
        spaced_from(d, idx + 1, a3)
    }
}

/// Lines joined with `\n`.
pub open spec fn join_lines(v: Seq<Seq<char>>) -> Seq<char>
    decreases v.len(),
{
    if v.len() == 0 {
        seq![]
    } else if v.len() == 1 {
        v[0]
    } else {
        join_lines(v.drop_last()) + seq!['\n'] + v.last()
    }
}

pub open spec fn normalize_spec(body: Seq<char>) -> Seq<char> {
    trim(join_lines(spaced_from(display_from(crate::text::lines(body), 0, false, seq![]), 0, seq![])))
}

/// Exec line of normalised output.
struct DisplayLine {
    text: Vec<char>,
    structural: bool,
}

spec fn dviews(v: Seq<DisplayLine>) -> Seq<DisplayLineView> {
    v.map_values(|d: DisplayLine| dl(d.text@, d.structural))
}

fn push_line(out: &mut Vec<DisplayLine>, text: Vec<char>, structural: bool)
    ensures
        dviews(final(out)@) == dviews(old(out)@).push(dl(text@, structural)),
{
    let ghost t = text@;
    out.push(DisplayLine { text, structural });
    assert(dviews(out@) =~= dviews(old(out)@).push(dl(t, structural)));
}

fn push_nested_items(out: &mut Vec<DisplayLine>, parts: &Vec<Vec<char>>, from: usize, prefix: &[char])
    requires
        from <= parts@.len(),
    ensures
        dviews(final(out)@) == dviews(old(out)@) + nested_items(views(parts@).skip(from as int), prefix@),
{
    let mut k = from;
    assert(dviews(out@) + nested_items(views(parts@).skip(from as int), prefix@) == dviews(old(out)@)
        + nested_items(views(parts@).skip(from as int), prefix@));
    while k < parts.len()
        invariant
            from <= k <= parts@.len(),
            dviews(old(out)@) + nested_items(views(parts@).skip(from as int), prefix@) == dviews(out@)
                + nested_items(views(parts@).skip(k as int), prefix@),
        decreases parts.len() - k,
    {
        let part = trimmed(&parts[k]);
        let ghost before = dviews(out@);
        proof {
            assert(views(parts@).skip(k as int)[0] == parts@[k as int]@);
            assert(views(parts@).skip(k as int).drop_first() == views(parts@).skip(k + 1));
        }
        if part.len() > 0 {
            let mut text = crate::text::sub_vec(prefix, 0, prefix.len());
            assert(text@ == prefix@);
            extend_all(&mut text, &part);
            push_line(out, text, true);
            assert(dviews(out@) =~= before + seq![dl(prefix@ + trim(parts@[k as int]@), true)]);
        } else {
            assert(seq![] + nested_items(views(parts@).skip(k + 1), prefix@) =~= nested_items(
                views(parts@).skip(k + 1),
                prefix@,
            ));
        }
        k += 1;
    }
    assert(views(parts@).skip(k as int).len() == 0);
    assert(dviews(out@) + nested_items(views(parts@).skip(k as int), prefix@) =~= dviews(out@));
}


pub proof fn lemma_prefix_alias_has_colon(tr: Seq<char>, k: int)
    requires
        first_alias_prefix(lower(tr), 0) == Some(k),
    ensures
        crate::text::index_of(tr, ':') < tr.len(),
{
    lemma_first_alias_prefix(lower(tr), 0);
    let key = alias_key(k);
    let lt = lower(tr);
    assert(lt.take(key.len() + 1int)[key.len() as int] == ':');
    assert(lt[key.len() as int] == ':');
    assert(lower_char(tr[key.len() as int]) == ':');
    assert(tr[key.len() as int] == ':');
    crate::text::lemma_index_of_bounds(tr, ':');
}

pub proof fn lemma_first_alias_prefix(lt: Seq<char>, k: int)
    requires
        0 <= k,
    ensures
        first_alias_prefix(lt, k) matches Some(j) ==> 0 <= j < 7 && starts_with(lt, alias_key(j).push(':')),
    decreases 7 - k,
{
    if k < 7 && !starts_with(lt, alias_key(k).push(':')) {
        lemma_first_alias_prefix(lt, k + 1);
    }
}

pub proof fn lemma_parts_nonempty(t: Seq<char>, splits: Seq<int>, start: int)
    ensures
        parts_between(t, splits, start).len() >= 1,
    decreases splits.len(),
{
    if splits.len() > 0 {
        lemma_parts_nonempty(t, splits.drop_first(), splits[0] + 4);
    }
}

fn copy_of(v: &[char]) -> (out: Vec<char>)
    ensures
        out@ == v@,
{
    let out = sub_vec(v, 0, v.len());
    assert(out@ == v@);
    out
}

fn bullet_and_indent(line: &[char]) -> (r: (Vec<char>, Vec<char>))
    ensures
        r.0@ == bullet_norm(line@),
        r.1@ == indent_of(line@),
{
    let (lo, _hi) = crate::text::trim_bounds(line);
    let ts = sub_vec(line, lo, line.len());
    let indent = sub_vec(line, 0, lo);
    assert(ts@ == trim_start(line@));
    assert(indent@ == indent_of(line@));
    let bullet: Vec<char> = vec!['\u{2022}', ' '];
    assert(bullet@ =~= bullet_prefix());
    let mut current: Vec<char>;
    if crate::text::has_prefix(&ts, &bullet) {
        current = copy_of(&indent);
        current.push('-');
        current.push(' ');
        extend_range(&mut current, &ts, 2, ts.len());
        assert(current@ =~= indent_of(line@) + seq!['-', ' '] + ts@.skip(2));
    } else if ts.len() == 1 && ts[0] == '\u{2022}' {
        current = copy_of(&indent);
        current.push('-');
        assert(ts@ =~= seq!['\u{2022}']);
        assert(current@ =~= indent_of(line@) + seq!['-']);
    } else {
        current = copy_of(line);
        proof {
            if ts@ == seq!['\u{2022}'] {
                assert(ts@.len() == 1 && ts@[0] == '\u{2022}');
            }
        }
    }
    (current, indent)
}

/// A section label on a line of its own — at most 64 bytes, followed by a
/// colon, in any ASCII letter case — becomes the heading of its own
/// section: `Summary` gives `## Summary`, `Implementation Steps` gives
/// `## Implementation Steps`, `Test Cases and Validation` and `Validation`
/// give `## Test Cases and Validation`, `Assumptions and Defaults` and
/// `Assumptions` give `## Assumptions and Defaults`, and `Open Questions`
/// gives `## Open Questions`. Any other label leaves the line as it was.
pub proof fn lemma_section_label_headings(tr: Seq<char>, cur: Seq<char>)
    requires
        label_of(tr).len() > 0,
        crate::text::byte_len(label_of(tr)) <= 64,
        crate::text::ends_with(tr, seq![':']),
    ensures
        lower(label_of(tr)) == "summary"@ ==> exact_rule(tr, cur) == "## Summary"@,
        lower(label_of(tr)) == "implementation steps"@ ==> exact_rule(tr, cur) == "## Implementation Steps"@,
        lower(label_of(tr)) == "test cases and validation"@ ==> exact_rule(tr, cur)
            == "## Test Cases and Validation"@,
        lower(label_of(tr)) == "validation"@ ==> exact_rule(tr, cur) == "## Test Cases and Validation"@,
        lower(label_of(tr)) == "assumptions and defaults"@ ==> exact_rule(tr, cur)
            == "## Assumptions and Defaults"@,
        lower(label_of(tr)) == "assumptions"@ ==> exact_rule(tr, cur) == "## Assumptions and Defaults"@,
        lower(label_of(tr)) == "open questions"@ ==> exact_rule(tr, cur) == "## Open Questions"@,
        lower(label_of(tr)) != "summary"@ && lower(label_of(tr)) != "implementation steps"@ && lower(label_of(tr))
            != "test cases and validation"@ && lower(label_of(tr)) != "validation"@ && lower(label_of(tr))
            != "assumptions and defaults"@ && lower(label_of(tr)) != "assumptions"@ && lower(label_of(tr))
            != "open questions"@ ==> exact_rule(tr, cur) == cur,
{
    reveal_strlit("summary");
    reveal_strlit("implementation steps");
    reveal_strlit("test cases and validation");
    reveal_strlit("validation");
    reveal_strlit("assumptions and defaults");
    reveal_strlit("assumptions");
    reveal_strlit("open questions");
    reveal_with_fuel(first_alias_exact, 8);
    let l = lower(label_of(tr));
    assert(first_alias_exact(l, 7) is None);
    assert forall|k: int| 0 <= k < 7 implies (#[trigger] alias_key(k)).len() == (if k == 0 {
        7int
    } else if k == 1 {
        20int
    } else if k == 2 {
        25int
    } else if k == 3 {
        10int
    } else if k == 4 {
        24int
    } else if k == 5 {
        11int
    } else {
        14int
    }) by {}
    if exists|k: int| 0 <= k < 7 && alias_key(k) == l {
        let k = choose|k: int| 0 <= k < 7 && alias_key(k) == l;
        assert forall|j: int| 0 <= j < k implies alias_key(j) != l by {
            assert(alias_key(j).len() != alias_key(k).len());
        }
        lemma_first_alias_exact_at(l, 0, k);
    }
}

proof fn lemma_first_alias_exact_at(l: Seq<char>, from: int, k: int)
    requires
        0 <= from <= k < 7,
        alias_key(k) == l,
        forall|j: int| from <= j < k ==> alias_key(j) != l,
    ensures
        first_alias_exact(l, from) == Some(k),
    decreases k - from,
{
    if from < k {
        lemma_first_alias_exact_at(l, from + 1, k);
    }
}

fn apply_exact_rule(tr: &[char], cur0: Vec<char>) -> (cur1: Vec<char>)
    ensures
        cur1@ == exact_rule(tr@, cur0@),
{
    let colon_suffix: Vec<char> = vec![':'];
    assert(colon_suffix@ =~= seq![':']);
    let ends_colon = crate::text::has_suffix(tr, &colon_suffix);
    let label_src = if ends_colon {
        sub_vec(tr, 0, tr.len() - 1)
    } else {
        copy_of(tr)
    };
    let label = trimmed(&label_src);
    assert(label@ == label_of(tr@));
    let lowered = crate::text::to_ascii_lower(&label);
    if label.len() > 0 && byte_len_at_most(&label, 64) && ends_colon {
        if let Some(k) = find_alias_exact(&lowered) {
            let (_, heading) = alias_entry(k);
            return chars_of(heading);
        }
    }
    cur0
}

fn apply_prefix_rule(tr: &[char]) -> (r: Option<(Vec<char>, Vec<char>)>)
    ensures
        match r {
            Some((heading, after)) => prefix_rule(tr@) matches Some(k) && heading@ == alias_heading(k)
                && after@ == after_colon(tr@),
            None => prefix_rule(tr@) is None,
        },
{
    let lower_tr = crate::text::to_ascii_lower(tr);
    if !byte_len_at_most(tr, 256) {
        return None;
    }
    match find_alias_prefix(&lower_tr) {
        None => None,
        Some(k) => {
            proof {
                lemma_prefix_alias_has_colon(tr@, k as int);
            }
            let colon = crate::text::index_of_char_from(tr, ':', 0);
            proof {
                crate::text::lemma_index_of(tr@, ':', colon as int);
            }
            let n = tr.len();
            assert(colon < n);
            let rest = sub_vec(tr, colon + 1, tr.len());
            assert(rest@ == tr@.skip(colon + 1));
            let after = trimmed(&rest);
            let (_, heading) = alias_entry(k);
            Some((chars_of(heading), after))
        },
    }
}

fn push_ordered_or_plain(out: &mut Vec<DisplayLine>, indent: &[char], current: Vec<char>)
    ensures
        dviews(final(out)@) == dviews(old(out)@) + ordered_or_plain(indent@, current@),
{
    let ct = trimmed(&current);
    if is_ordered_list_item(&ct) {
        if let Some(parts) = split_ordered_step_metadata(&ct) {
            let ghost before = dviews(out@);
            proof {
                lemma_parts_nonempty(ct@, meta_splits(ct@, None, 0, seq![]), 0);
                assert(views(parts@)[0] == parts@[0]@);
            }
            let width = ordered_marker_width(&ct);
            let mut first = copy_of(indent);
            let head = crate::text::trimmed_end(&parts[0]);
            extend_all(&mut first, &head);
            push_line(out, first, true);
            let mut prefix = copy_of(indent);
            let mut i: usize = 0;
            while i < width
                invariant
                    i <= width,
                    prefix@ == indent@ + spaces(i as nat),
                decreases width - i,
            {
                prefix.push(' ');
                i += 1;
                assert(prefix@ =~= indent@ + spaces(i as nat));
            }
            prefix.push('-');
            prefix.push(' ');
            assert(prefix@ =~= indent@ + spaces(width as nat) + seq!['-', ' ']);
            push_nested_items(out, &parts, 1, &prefix);
            assert(views(parts@).skip(1) == views(parts@).drop_first());
            assert(dviews(out@) =~= before + ordered_or_plain(indent@, current@));
            return;
        }
    }
    let ghost before = dviews(out@);
    let ghost cur = current@;
    push_line(out, current, true);
    assert(dviews(out@) =~= before + ordered_or_plain(indent@, cur));
}

fn line_display_items(line: &[char], out: &mut Vec<DisplayLine>)
    ensures
        dviews(final(out)@) == dviews(old(out)@) + line_items(line@),
{
    let (cur0, indent) = bullet_and_indent(line);
    let tr = trimmed(&cur0);
    let cur1 = apply_exact_rule(&tr, cur0);
    let current = match apply_prefix_rule(&tr) {
        Some((heading, after)) => {
            if after.len() > 0 {
                let ghost before = dviews(out@);
                let ghost h = heading@;
                let ghost a = after@;
                push_line(out, heading, true);
                push_line(out, Vec::new(), true);
                push_line(out, after, true);
                assert(dviews(out@) =~= before + seq![dl(h, true), dl(seq![], true), dl(a, true)]);
                return;
            }
            heading
        },
        None => cur1,
    };
    push_ordered_or_plain(out, &indent, current);
}

fn heading_or_list(d: &DisplayLine) -> (r: (bool, bool))
    ensures
        r.0 == is_heading_line(dl(d.text@, d.structural)),
        r.1 == is_list_line(dl(d.text@, d.structural)),
{
    let t = trimmed(&d.text);
    let heading = d.structural && crate::text::has_prefix_str(&t, "## ");
    let list = d.structural && (crate::text::has_prefix_str(&t, "- ") || crate::text::has_prefix_str(&t, "* ")
        || crate::text::has_prefix_str(&t, "+ ") || is_ordered_list_item(&t));
    (heading, list)
}

fn next_list_or_heading(d: &DisplayLine) -> (r: bool)
    ensures
        r == next_is_list_or_heading(dl(d.text@, d.structural)),
{
    let t = trimmed(&d.text);
    d.structural && (crate::text::has_prefix_str(&t, "## ") || crate::text::has_prefix_str(&t, "- ")
        || crate::text::has_prefix_str(&t, "* ") || is_ordered_list_item(&t))
}

fn join_with_newlines(v: &Vec<Vec<char>>) -> (out: Vec<char>)
    ensures
        out@ == join_lines(views(v@)),
{
    let mut out: Vec<char> = Vec::new();
    let mut k: usize = 0;
    while k < v.len()
        invariant
            k <= v@.len(),
            out@ == join_lines(views(v@).take(k as int)),
        decreases v.len() - k,
    {
        let ghost prev = views(v@).take(k as int);
        if k > 0 {
            out.push('\n');
        }
        extend_all(&mut out, &v[k]);
        proof {
            let next = views(v@).take(k + 1);
            assert(next.drop_last() == prev);
            assert(next.last() == v@[k as int]@);
            if k == 0 {
                assert(next.len() == 1);
            }
        }
        k += 1;
    }
    assert(views(v@).take(v@.len() as int) == views(v@));
    out
}

/// Normalise plan prose so the markdown renderer preserves structure: `•`
/// bullets become `-`, bare section labels become `##` headings, long
/// `1. step -> files: … -> verify: …` steps are split into nested bullets,
/// and blank lines separate headings and lists from surrounding text.
fn normalize_plan_display_markdown(body: &[char]) -> (out: Vec<char>)
    ensures
        out@ == normalize_spec(body@),
{
    let ls = crate::text::split_lines(body);
    let mut lines: Vec<DisplayLine> = Vec::new();
    let mut in_fenced_code = false;
    let mut k: usize = 0;
    assert(dviews(lines@) =~= seq![]);
    while k < ls.len()
        invariant
            k <= ls@.len(),
            views(ls@) == crate::text::lines(body@),
            display_from(crate::text::lines(body@), 0, false, seq![]) == display_from(
                crate::text::lines(body@),
                k as int,
                in_fenced_code,
                dviews(lines@),
            ),
        decreases ls.len() - k,
    {
        let line = &ls[k];
        assert(line@ == crate::text::lines(body@)[k as int]);
        let is_fence = is_fence_delimiter(line);
        if in_fenced_code || is_fence {
            push_line(&mut lines, copy_of(line), false);
            if is_fence {
                in_fenced_code = !in_fenced_code;
            }
        } else {
            line_display_items(line, &mut lines);
        }
        k += 1;
    }
    let ghost d = dviews(lines@);
    let mut spaced: Vec<Vec<char>> = Vec::new();
    let mut idx: usize = 0;
    assert(views(spaced@) =~= seq![]);
    while idx < lines.len()
        invariant
            idx <= lines@.len(),
            d == dviews(lines@),
            spaced_from(d, 0, seq![]) == spaced_from(d, idx as int, views(spaced@)),
        decreases lines.len() - idx,
    {
        let ghost acc = views(spaced@);
        let (is_heading, is_list) = heading_or_list(&lines[idx]);
        assert(d[idx as int] == dl(lines@[idx as int].text@, lines@[idx as int].structural));
        let prev_blank = spaced.len() > 0 && crate::text::is_blank(&spaced[spaced.len() - 1]);
        proof {
            if spaced@.len() > 0 {
                assert(acc.last() == spaced@[spaced@.len() - 1]@);
            }
        }
        if (is_heading || is_list) && idx > 0 && !prev_blank {
            spaced.push(Vec::new());
        }
        spaced.push(copy_of(&lines[idx].text));
        if (is_heading || is_list) && idx + 1 < lines.len() {
            assert(d[idx + 1] == dl(lines@[idx + 1].text@, lines@[idx + 1].structural));
            let next_lh = next_list_or_heading(&lines[idx + 1]);
            if !next_lh && !crate::text::is_blank(&lines[idx + 1].text) {
                spaced.push(Vec::new());
            }
        }
        proof {
            let line = d[idx as int];
            let hl = is_heading_line(line) || is_list_line(line);
            let prev_b = acc.len() > 0 && trim(acc.last()).len() == 0;
            let a1 = if hl && idx > 0 && !prev_b { acc.push(seq![]) } else { acc };
            let a2 = a1.push(line.text);
            let a3 = if hl && idx + 1 < d.len() && !next_is_list_or_heading(d[idx + 1]) && trim(
                d[idx + 1].text,
            ).len() > 0 {
                a2.push(seq![])
            } else {
                a2
            };
            assert(views(spaced@) =~= a3);
        }
        idx += 1;
    }
    let joined = join_with_newlines(&spaced);
    trimmed(&joined)
}


// ---------------------------------------------------------------------------
// Policy echoes, recovery shape and the display contract
// ---------------------------------------------------------------------------

/// `str::replace(p, "")` for a non-empty `p`: every non-overlapping
/// occurrence, left to right, removed.
pub open spec fn remove_all(s: Seq<char>, p: Seq<char>) -> Seq<char>
    decreases s.len(),
{
    match crate::text::first_occurrence(s, p) {
        Some(i) => if p.len() > 0 && 0 <= i && i + p.len() <= s.len() {
            s.take(i) + remove_all(s.skip(i + p.len()), p)
        } else {
            s
        },
        None => s,
    }
}

/// `str::matches(p).count()` for a non-empty `p`.
pub open spec fn count_occ(s: Seq<char>, p: Seq<char>) -> nat
    decreases s.len(),
{
    match crate::text::first_occurrence(s, p) {
        Some(i) => if p.len() > 0 && 0 <= i && i + p.len() <= s.len() {
            1 + count_occ(s.skip(i + p.len()), p)
        } else {
            0
        },
        None => 0,
    }
}

fn remove_all_exec(s: &[char], p: &[char]) -> (r: (Vec<char>, usize))
    requires
        p@.len() > 0,
    ensures
        r.0@ == remove_all(s@, p@),
        r.1 == count_occ(s@, p@),
{
    let mut rest = copy_of(s);
    let mut out: Vec<char> = Vec::new();
    let mut count: usize = 0;
    let slen = s.len();
    while rest.len() > 0
        invariant
            p@.len() > 0,
            s@.len() == slen,
            remove_all(s@, p@) == out@ + remove_all(rest@, p@),
            count_occ(s@, p@) == count + count_occ(rest@, p@),
            count <= s@.len() - rest@.len(),
            rest@.len() <= s@.len(),
        decreases rest@.len(),
    {
        match crate::text::find_first(&rest, p) {
            Some(i) => {
                let ghost before = out@;
                extend_range(&mut out, &rest, 0, i);
                assert(rest@.subrange(0, i as int) == rest@.take(i as int));
                rest = sub_vec(&rest, i + p.len(), rest.len());
                count = count + 1;
            },
            None => {
                extend_all(&mut out, &rest);
                assert(remove_all(rest@, p@) == rest@);
                assert(count_occ(rest@, p@) == 0);
                return (out, count);
            },
        }
    }
    proof {
        reveal(crate::text::first_occurrence);
        assert(!crate::text::contains_seq(rest@, p@)) by {
            if crate::text::contains_seq(rest@, p@) {
                let i = choose|i: int| crate::text::occurs_at(rest@, p@, i);
                assert(crate::text::occurs_at(rest@, p@, i));
            }
        }
    }
    assert(out@ + seq![] =~= out@);
    (out, count)
}

pub open spec fn strip_policy_spec(text: Seq<char>, policy: Seq<char>) -> Seq<char> {
    let r = remove_all(text, policy);
    if r == text {
        text
    } else {
        trim(r)
    }
}

fn strip_policy_chars(text: &[char]) -> (out: Vec<char>)
    ensures
        out@ == strip_policy_spec(text@, PLAN_PERSISTENCE_POLICY_LINE@),
{
    let policy = chars_of(PLAN_PERSISTENCE_POLICY_LINE);
    proof {
        reveal_strlit(
            "Emit exactly one final <proposed_plan> block when the plan is ready; the runtime persists it for approval.",
        );
    }
    let (stripped, _) = remove_all_exec(text, &policy);
    if crate::text::seq_eq(&stripped, text) {
        copy_of(text)
    } else {
        trimmed(&stripped)
    }
}

/// Remove the runtime-owned persistence policy when a provider repeats it as
/// assistant prose around a plan block; other text is returned unchanged.
pub fn strip_plan_persistence_policy_line(text: &str) -> (out: String)
    ensures
        out@ == strip_policy_spec(text@, PLAN_PERSISTENCE_POLICY_LINE@),
{
    let t = chars_of(text);
    let v = strip_policy_chars(&t);
    crate::text::string_from(&v)
}

/// Exactly one `<proposed_plan>` block, well ordered, and no `<plan>` form.
pub open spec fn exactly_one_spec(text: Seq<char>) -> bool {
    let t = strip_policy_spec(text, PLAN_PERSISTENCE_POLICY_LINE@);
    match (crate::text::first_occurrence(t, proposed_open()), crate::text::first_occurrence(t, proposed_close())) {
        (Some(o), Some(c)) => o < c && count_occ(t, proposed_open()) == 1 && count_occ(t, proposed_close()) == 1
            && !crate::text::contains_seq(t, alt_open()) && !crate::text::contains_seq(t, alt_close()),
        _ => false,
    }
}

/// Recovery synthesis accepts one canonical plan block only.
pub fn has_exactly_one_proposed_plan_block(text: &str) -> (b: bool)
    ensures
        b == exactly_one_spec(text@),
{
    let raw = chars_of(text);
    let t = strip_policy_chars(&raw);
    let open = Wrapper::Open.text();
    let close = Wrapper::Close.text();
    let alt_open_v = Wrapper::AltOpen.text();
    let alt_close_v = Wrapper::AltClose.text();
    let open_index = match crate::text::find_first(&t, &open) {
        Some(i) => i,
        None => {
            return false;
        },
    };
    let close_index = match crate::text::find_first(&t, &close) {
        Some(i) => i,
        None => {
            return false;
        },
    };
    let (_, open_count) = remove_all_exec(&t, &open);
    let (_, close_count) = remove_all_exec(&t, &close);
    open_index < close_index && open_count == 1 && close_count == 1 && crate::text::find(&t, &alt_open_v).is_none()
        && crate::text::find(&t, &alt_close_v).is_none()
}

pub open spec fn warn_empty() -> Seq<char> {
    "Plan content was empty; nothing to render."@
}

pub open spec fn warn_unclosed() -> Seq<char> {
    "Plan block was missing its closing tag; showing the partial draft."@
}

pub open spec fn warn_empty_body() -> Seq<char> {
    "Plan block was empty after removing markup; check the model output."@
}

pub open spec fn warn_stray() -> Seq<char> {
    "Stray plan markup remained after cleanup and was left as-is."@
}

/// The display contract: the markdown shown and the warnings about what had
/// to be repaired.
pub open spec fn prepare_spec(raw: Seq<char>) -> (Seq<char>, Seq<Seq<char>>) {
    if trim(raw).len() == 0 {
        (seq![], seq![warn_empty()])
    } else {
        let had_open = contains_outside_fences(raw, opening_wrappers());
        let had_close = contains_outside_fences(raw, closing_wrappers());
        let w1: Seq<Seq<char>> = if had_open && !had_close {
            seq![warn_unclosed()]
        } else {
            seq![]
        };
        let body0 = match extract_body_spec(raw) {
            Some(b) => b,
            None => strip_all_spec(raw),
        };
        let body = strip_policy_spec(body0, PLAN_PERSISTENCE_POLICY_LINE@);
        if trim(body).len() == 0 {
            (seq![], w1.push(warn_empty_body()))
        } else {
            let normalized = normalize_spec(body);
            if contains_outside_fences(normalized, all_wrappers()) {
                (normalized, w1.push(warn_stray()))
            } else {
                (normalized, w1)
            }
        }
    }
}

pub open spec fn string_views(v: Seq<String>) -> Seq<Seq<char>> {
    v.map_values(|s: String| s@)
}

fn push_warning(warnings: &mut Vec<String>, w: &str)
    ensures
        string_views(final(warnings)@) == string_views(old(warnings)@).push(w@),
{
    warnings.push(w.to_owned());
    assert(string_views(warnings@) =~= string_views(old(warnings)@).push(w@));
}

/// Harness display contract for propose-plan markdown: plan wrappers are
/// removed, headings and lists keep their structure, and anything that had
/// to be repaired is reported as a warning instead of raw wrapper text.
pub fn prepare_plan_markdown_for_display(raw: &str) -> (r: (String, Vec<String>))
    ensures
        (r.0@, string_views(r.1@)) == prepare_spec(raw@),
{
    let raw_chars = chars_of(raw);
    let mut warnings: Vec<String> = Vec::new();
    assert(string_views(warnings@) =~= seq![]);
    if crate::text::is_blank(&raw_chars) {
        push_warning(&mut warnings, "Plan content was empty; nothing to render.");
        return (String::new(), warnings);
    }
    let openers = [Wrapper::Open, Wrapper::AltOpen];
    let closers = [Wrapper::Close, Wrapper::AltClose];
    let all = [Wrapper::Open, Wrapper::Close, Wrapper::AltOpen, Wrapper::AltClose];
    assert(openers@ == opening_wrappers());
    assert(closers@ == closing_wrappers());
    assert(all@ == all_wrappers());
    let had_open = contains_plan_tag_outside_fences(&raw_chars, &openers);
    let had_close = contains_plan_tag_outside_fences(&raw_chars, &closers);
    if had_open && !had_close {
        push_warning(&mut warnings, "Plan block was missing its closing tag; showing the partial draft.");
    }
    let body0 = match extract_plan_body_for_display(&raw_chars) {
        Some(b) => b,
        None => strip_all_chars(&raw_chars),
    };
    let body = strip_policy_chars(&body0);
    if crate::text::is_blank(&body) {
        push_warning(&mut warnings, "Plan block was empty after removing markup; check the model output.");
        return (String::new(), warnings);
    }
    let normalized = normalize_plan_display_markdown(&body);
    if contains_plan_tag_outside_fences(&normalized, &all) {
        push_warning(&mut warnings, "Stray plan markup remained after cleanup and was left as-is.");
    }
    (crate::text::string_from(&normalized), warnings)
}

pub open spec fn opt_nat(o: Option<usize>) -> Option<nat> {
    match o {
        Some(t) => Some(t as nat),
        None => None,
    }
}

pub open spec fn opt_match(o: Option<(usize, Wrapper)>) -> Option<(int, Wrapper)> {
    match o {
        Some((i, w)) => Some((i as int, w)),
        None => None,
    }
}

} // verus!
