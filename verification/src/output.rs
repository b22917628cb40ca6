//! Plain-text views of captured command output: terminal control sequences
//! applied or dropped, duplicate streams detected, and viewer lines laid out.

use vstd::prelude::*;
use crate::text::{
    chars_of, dec, eq_str, is_blank, extend_str, first_occurrence, lines, push_dec, push_signed_dec, starts_with, signed_dec, split_lines, string_from, trim, trim_end,
    views,
};
use crate::status::{dedup_key, normalize_for_dedup};

verus! {

// ---------------------------------------------------------------------------
// Terminal captures
// ---------------------------------------------------------------------------

/// Where the reader of a terminal capture is: in text, after an escape,
/// inside a control sequence (with its parameters so far), inside an
/// operating-system command (or right after an escape inside one), or
/// right after a carriage return.
pub enum TermMode {
    Text,
    Escape,
    Control(Seq<char>),
    Command,
    CommandEscape,
    CarriageReturn,
}

/// The finished lines, the line being written, and the reader's mode.
pub struct TermState {
    pub lines: Seq<Seq<char>>,
    pub current: Seq<char>,
    pub mode: TermMode,
}

/// A character read as text: a newline ends the line, a backspace removes
/// the last character, an escape or carriage return changes mode, and
/// anything else is written.
pub open spec fn text_step(st: TermState, c: char) -> TermState {
    if c == '\x1b' {
        TermState { mode: TermMode::Escape, ..st }
    } else if c == '\r' {
        TermState { mode: TermMode::CarriageReturn, ..st }
    } else if c == '\n' {
        TermState { lines: st.lines.push(st.current), current: seq![], mode: TermMode::Text }
    } else if c == '\u{8}' {
        TermState {
            current: if st.current.len() > 0 {
                st.current.drop_last()
            } else {
                st.current
            },
            ..st
        }
    } else {
        TermState { current: st.current.push(c), ..st }
    }
}

pub open spec fn starts_with_char(s: Seq<char>, c: char) -> bool {
    s.len() > 0 && s[0] == c
}

/// One character of a capture. A control sequence ends at its final byte
/// (`@` to `~`): `J` with a parameter starting `2` or `3` clears everything
/// so far, `K` with one starting `2` clears the current line, others do
/// nothing. An operating-system command runs to BEL or ESC `\`. A carriage
/// return followed by a newline ends the line; otherwise it clears the line.
pub open spec fn term_step(st: TermState, c: char) -> TermState {
    match st.mode {
        TermMode::Text => text_step(st, c),
        TermMode::Escape => if c == '[' {
            TermState { mode: TermMode::Control(seq![]), ..st }
        } else if c == ']' {
            TermState { mode: TermMode::Command, ..st }
        } else {
            TermState { mode: TermMode::Text, ..st }
        },
        TermMode::Control(params) => if '@' <= c <= '~' {
            if c == 'J' && (starts_with_char(params, '2') || starts_with_char(params, '3')) {
                TermState { lines: seq![], current: seq![], mode: TermMode::Text }
            } else if c == 'K' && starts_with_char(params, '2') {
                TermState { current: seq![], mode: TermMode::Text, ..st }
            } else {
                TermState { mode: TermMode::Text, ..st }
            }
        } else {
            TermState { mode: TermMode::Control(params.push(c)), ..st }
        },
        TermMode::Command => if c == '\x07' {
            TermState { mode: TermMode::Text, ..st }
        } else if c == '\x1b' {
            TermState { mode: TermMode::CommandEscape, ..st }
        } else {
            st
        },
        TermMode::CommandEscape => if c == '\\' || c == '\x07' {
            TermState { mode: TermMode::Text, ..st }
        } else if c == '\x1b' {
            st
        } else {
            TermState { mode: TermMode::Command, ..st }
        },
        TermMode::CarriageReturn => if c == '\n' {
            TermState { lines: st.lines.push(st.current), current: seq![], mode: TermMode::Text }
        } else {
            text_step(TermState { current: seq![], mode: TermMode::Text, ..st }, c)
        },
    }
}

pub open spec fn term_scan(s: Seq<char>) -> TermState
    decreases s.len(),
{
    if s.len() == 0 {
        TermState { lines: seq![], current: seq![], mode: TermMode::Text }
    } else {
        term_step(term_scan(s.drop_last()), s.last())
    }
}

/// The readable lines of a terminal capture: a carriage return left
/// pending at the end clears the line, and a non-empty last line is kept.
pub open spec fn terminal_lines(s: Seq<char>) -> Seq<Seq<char>> {
    let st = term_scan(s);
    let current = if st.mode is CarriageReturn {
        seq![]
    } else {
        st.current
    };
    if current.len() > 0 {
        st.lines.push(current)
    } else {
        st.lines
    }
}

/// A control character that never reaches a readable line.
pub open spec fn line_control(c: char) -> bool {
    c == '\n' || c == '\r' || c == '\x1b' || c == '\u{8}'
}

/// Text without control characters.
pub open spec fn clean_text(t: Seq<char>) -> bool {
    forall|j: int| 0 <= j < t.len() ==> !line_control(#[trigger] t[j])
}

pub open spec fn clean_lines(ls: Seq<Seq<char>>) -> bool {
    forall|i: int| 0 <= i < ls.len() ==> clean_text(#[trigger] ls[i])
}

proof fn lemma_clean_push_line(ls: Seq<Seq<char>>, l: Seq<char>)
    requires
        clean_lines(ls),
        clean_text(l),
    ensures
        clean_lines(ls.push(l)),
{
    assert forall|i: int| 0 <= i < ls.push(l).len() implies clean_text(#[trigger] ls.push(l)[i]) by {
        if i < ls.len() {
            assert(ls.push(l)[i] == ls[i]);
        }
    }
}

proof fn lemma_clean_text_step(st: TermState, c: char)
    requires
        clean_lines(st.lines),
        clean_text(st.current),
    ensures
        clean_lines(text_step(st, c).lines),
        clean_text(text_step(st, c).current),
{
    if c == '\n' {
        lemma_clean_push_line(st.lines, st.current);
    } else if c == '\u{8}' && st.current.len() > 0 {
        assert forall|j: int| 0 <= j < st.current.drop_last().len() implies !line_control(
            #[trigger] st.current.drop_last()[j],
        ) by {
            assert(st.current.drop_last()[j] == st.current[j]);
        }
    } else if !line_control(c) {
        assert forall|j: int| 0 <= j < st.current.push(c).len() implies !line_control(
            #[trigger] st.current.push(c)[j],
        ) by {
            if j < st.current.len() {
                assert(st.current.push(c)[j] == st.current[j]);
            }
        }
    }
}

proof fn lemma_term_scan_clean(s: Seq<char>)
    ensures
        clean_lines(term_scan(s).lines),
        clean_text(term_scan(s).current),
    decreases s.len(),
{
    if s.len() > 0 {
        lemma_term_scan_clean(s.drop_last());
        let st = term_scan(s.drop_last());
        let c = s.last();
        match st.mode {
            TermMode::Text => lemma_clean_text_step(st, c),
            TermMode::CarriageReturn => {
                if c == '\n' {
                    lemma_clean_push_line(st.lines, st.current);
                } else {
                    lemma_clean_text_step(TermState { current: seq![], mode: TermMode::Text, ..st }, c);
                }
            },
            _ => {},
        }
    }
}

/// No readable line of a terminal capture holds a newline, a carriage
/// return, an escape or a backspace.
pub proof fn lemma_terminal_lines_clean(s: Seq<char>)
    ensures
        clean_lines(terminal_lines(s)),
{
    lemma_term_scan_clean(s);
    let st = term_scan(s);
    if !(st.mode is CarriageReturn) && st.current.len() > 0 {
        lemma_clean_push_line(st.lines, st.current);
    }
}

/// Text with no escape, carriage return or backspace.
pub open spec fn plain_capture(t: Seq<char>) -> bool {
    forall|j: int| 0 <= j < t.len() ==> !(#[trigger] t[j] == '\x1b' || t[j] == '\r' || t[j] == '\u{8}')
}

pub open spec fn scan_from(st: TermState, s: Seq<char>) -> TermState
    decreases s.len(),
{
    if s.len() == 0 {
        st
    } else {
        term_step(scan_from(st, s.drop_last()), s.last())
    }
}

pub open spec fn initial_term() -> TermState {
    TermState { lines: seq![], current: seq![], mode: TermMode::Text }
}

proof fn lemma_scan_from_initial(s: Seq<char>)
    ensures
        term_scan(s) == scan_from(initial_term(), s),
    decreases s.len(),
{
    if s.len() > 0 {
        lemma_scan_from_initial(s.drop_last());
    }
}

proof fn lemma_scan_from_append(st: TermState, a: Seq<char>, b: Seq<char>)
    ensures
        scan_from(st, a + b) == scan_from(scan_from(st, a), b),
    decreases b.len(),
{
    if b.len() == 0 {
        assert(a + b =~= a);
    } else {
        assert((a + b).drop_last() =~= a + b.drop_last());
        assert((a + b).last() == b.last());
        lemma_scan_from_append(st, a, b.drop_last());
    }
}

proof fn lemma_plain_prefix(s: Seq<char>, k: int)
    requires
        plain_capture(s),
        0 <= k <= s.len(),
    ensures
        plain_capture(s.take(k)),
        plain_capture(s.skip(k)),
{
    assert forall|j: int| 0 <= j < s.take(k).len() implies !(#[trigger] s.take(k)[j] == '\x1b' || s.take(k)[j]
        == '\r' || s.take(k)[j] == '\u{8}') by {
        assert(s.take(k)[j] == s[j]);
    }
    assert forall|j: int| 0 <= j < s.skip(k).len() implies !(#[trigger] s.skip(k)[j] == '\x1b' || s.skip(k)[j]
        == '\r' || s.skip(k)[j] == '\u{8}') by {
        assert(s.skip(k)[j] == s[j + k]);
    }
}

/// Scanning plain text from a text state keeps the finished lines in front
/// of those the scan adds.
proof fn lemma_scan_plain_prepend(lines0: Seq<Seq<char>>, cur: Seq<char>, s: Seq<char>)
    requires
        plain_capture(s),
    ensures
        scan_from(TermState { lines: lines0, current: cur, mode: TermMode::Text }, s).mode == TermMode::Text,
        scan_from(TermState { lines: lines0, current: cur, mode: TermMode::Text }, s).lines == lines0 + scan_from(
            TermState { lines: seq![], current: cur, mode: TermMode::Text },
            s,
        ).lines,
        scan_from(TermState { lines: lines0, current: cur, mode: TermMode::Text }, s).current == scan_from(
            TermState { lines: seq![], current: cur, mode: TermMode::Text },
            s,
        ).current,
    decreases s.len(),
{
    if s.len() == 0 {
        assert(lines0 + Seq::<Seq<char>>::empty() =~= lines0);
    } else {
        lemma_plain_prefix(s, s.len() - 1);
        assert(s.take(s.len() - 1) =~= s.drop_last());
        lemma_scan_plain_prepend(lines0, cur, s.drop_last());
        lemma_scan_plain_prepend(seq![], cur, s.drop_last());
        let c = s.last();
        assert(!(s[s.len() - 1] == '\x1b' || s[s.len() - 1] == '\r' || s[s.len() - 1] == '\u{8}'));
        let x = scan_from(TermState { lines: seq![], current: cur, mode: TermMode::Text }, s.drop_last());
        let y = scan_from(TermState { lines: lines0, current: cur, mode: TermMode::Text }, s.drop_last());
        assert(y == TermState { lines: lines0 + x.lines, current: x.current, mode: TermMode::Text });
        let xs = scan_from(TermState { lines: seq![], current: cur, mode: TermMode::Text }, s);
        let ys = scan_from(TermState { lines: lines0, current: cur, mode: TermMode::Text }, s);
        assert(xs == text_step(x, c));
        assert(ys == text_step(y, c));
        if c == '\n' {
            assert((lines0 + x.lines).push(x.current) =~= lines0 + x.lines.push(x.current));
        } else {
            assert(ys.lines == y.lines);
            assert(xs.lines == x.lines);
        }
    }
}

/// Plain text without a newline only extends the line being written.
proof fn lemma_scan_plain_no_newline(cur: Seq<char>, s: Seq<char>)
    requires
        plain_capture(s),
        !s.contains('\n'),
    ensures
        scan_from(TermState { lines: seq![], current: cur, mode: TermMode::Text }, s) == (TermState {
            lines: seq![],
            current: cur + s,
            mode: TermMode::Text,
        }),
    decreases s.len(),
{
    if s.len() == 0 {
        assert(cur + s =~= cur);
    } else {
        lemma_plain_prefix(s, s.len() - 1);
        assert(s.take(s.len() - 1) =~= s.drop_last());
        assert(!s.drop_last().contains('\n')) by {
            if s.drop_last().contains('\n') {
                let j = choose|j: int| 0 <= j < s.drop_last().len() && s.drop_last()[j] == '\n';
                assert(s[j] == '\n');
            }
        }
        lemma_scan_plain_no_newline(cur, s.drop_last());
        let c = s.last();
        assert(!(s[s.len() - 1] == '\x1b' || s[s.len() - 1] == '\r' || s[s.len() - 1] == '\u{8}'));
        assert(c != '\n') by {
            if c == '\n' {
                assert(s[s.len() - 1] == '\n');
            }
        }
        assert((cur + s.drop_last()).push(c) =~= cur + s);
    }
}

/// On text with no escape, carriage return or backspace, the readable
/// lines are exactly what `str::lines` gives.
pub proof fn lemma_plain_capture_lines(s: Seq<char>)
    requires
        plain_capture(s),
    ensures
        terminal_lines(s) == lines(s),
    decreases s.len(),
{
    lemma_scan_from_initial(s);
    if s.len() == 0 {
        return;
    }
    crate::text::lemma_index_of_bounds(s, '\n');
    let i = crate::text::index_of(s, '\n');
    if i == s.len() {
        assert(!s.contains('\n')) by {
            if s.contains('\n') {
                let j = choose|j: int| 0 <= j < s.len() && s[j] == '\n';
                assert(s[j] != '\n');
            }
        }
        lemma_scan_plain_no_newline(seq![], s);
        assert(Seq::<char>::empty() + s =~= s);
    } else {
        let a = s.take(i);
        let r = s.skip(i + 1);
        lemma_plain_prefix(s, i);
        lemma_plain_prefix(s, i + 1);
        assert(!a.contains('\n')) by {
            if a.contains('\n') {
                let j = choose|j: int| 0 <= j < a.len() && a[j] == '\n';
                assert(s[j] == '\n');
            }
        }
        assert(s =~= (a + seq!['\n']) + r);
        lemma_scan_from_append(initial_term(), a + seq!['\n'], r);
        lemma_scan_from_append(initial_term(), a, seq!['\n']);
        lemma_scan_plain_no_newline(seq![], a);
        assert(Seq::<char>::empty() + a =~= a);
        let after = scan_from(initial_term(), a + seq!['\n']);
        assert(seq!['\n'].drop_last() =~= Seq::<char>::empty());
        let mid = scan_from(initial_term(), a);
        assert(mid == TermState { lines: seq![], current: a, mode: TermMode::Text });
        assert(scan_from(mid, seq!['\n']) == term_step(scan_from(mid, Seq::<char>::empty()), '\n'));
        assert(Seq::<Seq<char>>::empty().push(a) =~= seq![a]);
        assert(after == TermState { lines: seq![a], current: seq![], mode: TermMode::Text });
        lemma_scan_plain_prepend(seq![a], seq![], r);
        lemma_scan_from_initial(r);
        lemma_plain_capture_lines(r);
        // `a` ends in no carriage return.
        if a.len() > 0 {
            assert(a.last() == s[i - 1]);
        }
        assert(crate::text::strip_cr(a) == a);
        let x = term_scan(r);
        let cur = if x.current.len() > 0 {
            seq![x.current]
        } else {
            seq![]
        };
        assert(seq![a] + x.lines + cur =~= seq![a] + (x.lines + cur));
        assert(x.lines + cur == terminal_lines(r));
        assert(lines(s) == seq![crate::text::strip_cr(a)] + lines(r));
        if x.current.len() > 0 {
            assert((seq![a] + x.lines).push(x.current) =~= seq![a] + x.lines.push(x.current));
        }
    }
}

pub open spec fn string_views(v: Seq<String>) -> Seq<Seq<char>> {
    v.map_values(|s: String| s@)
}

/// The reader's mode in executable form; the control parameters are kept
/// apart.
#[derive(Clone, Copy, PartialEq, Eq, Structural)]
enum Mode {
    Text,
    Escape,
    Control,
    Command,
    CommandEscape,
    CarriageReturn,
}

spec fn mode_view(m: Mode, params: Seq<char>) -> TermMode {
    match m {
        Mode::Text => TermMode::Text,
        Mode::Escape => TermMode::Escape,
        Mode::Control => TermMode::Control(params),
        Mode::Command => TermMode::Command,
        Mode::CommandEscape => TermMode::CommandEscape,
        Mode::CarriageReturn => TermMode::CarriageReturn,
    }
}

/// Applies a character read as text.
fn text_char(lines: &mut Vec<String>, current: &mut Vec<char>, mode: &mut Mode, c: char)
    requires
        *old(mode) == Mode::Text,
    ensures
        (TermState {
            lines: string_views(final(lines)@),
            current: final(current)@,
            mode: mode_view(*final(mode), seq![]),
        }) == text_step(
            TermState {
                lines: string_views(old(lines)@),
                current: old(current)@,
                mode: TermMode::Text,
            },
            c,
        ),
{
    if c == '\x1b' {
        *mode = Mode::Escape;
    } else if c == '\r' {
        *mode = Mode::CarriageReturn;
    } else if c == '\n' {
        let ghost before = string_views(lines@);
        lines.push(string_from(current));
        assert(string_views(lines@) =~= before.push(old(current)@));
        *current = Vec::new();
    } else if c == '\u{8}' {
        if current.len() > 0 {
            current.pop();
        }
    } else {
        current.push(c);
    }
}

/// Turn a terminal capture into readable lines, applying line rewrites and
/// screen clears and dropping other control sequences.
pub fn normalize_terminal_output_lines(capture: &str) -> (r: Vec<String>)
    ensures
        string_views(r@) == terminal_lines(capture@),
{
    let s = chars_of(capture);
    let mut lines: Vec<String> = Vec::new();
    let mut current: Vec<char> = Vec::new();
    let mut mode = Mode::Text;
    let mut params: Vec<char> = Vec::new();
    let mut i: usize = 0;
    proof {
        assert(s@.take(0).len() == 0);
        assert(string_views(lines@) =~= Seq::<Seq<char>>::empty());
    }
    while i < s.len()
        invariant
            i <= s@.len(),
            s@ == capture@,
            term_scan(s@.take(i as int)) == (TermState {
                lines: string_views(lines@),
                current: current@,
                mode: mode_view(mode, params@),
            }),
        decreases s.len() - i,
    {
        let c = s[i];
        proof {
            assert(s@.take(i + 1).drop_last() == s@.take(i as int));
            assert(s@.take(i + 1).last() == c);
        }
        match mode {
            Mode::Text => {
                text_char(&mut lines, &mut current, &mut mode, c);
                params = Vec::new();
            },
            Mode::Escape => {
                if c == '[' {
                    mode = Mode::Control;
                    params = Vec::new();
                } else if c == ']' {
                    mode = Mode::Command;
                } else {
                    mode = Mode::Text;
                }
            },
            Mode::Control => {
                if '@' <= c && c <= '~' {
                    let starts2 = params.len() > 0 && params[0] == '2';
                    let starts3 = params.len() > 0 && params[0] == '3';
                    if c == 'J' && (starts2 || starts3) {
                        lines = Vec::new();
                        current = Vec::new();
                        assert(string_views(lines@) =~= Seq::<Seq<char>>::empty());
                    } else if c == 'K' && starts2 {
                        current = Vec::new();
                    }
                    mode = Mode::Text;
                } else {
                    params.push(c);
                }
            },
            Mode::Command => {
                if c == '\x07' {
                    mode = Mode::Text;
                } else if c == '\x1b' {
                    mode = Mode::CommandEscape;
                }
            },
            Mode::CommandEscape => {
                if c == '\\' || c == '\x07' {
                    mode = Mode::Text;
                } else if c != '\x1b' {
                    mode = Mode::Command;
                }
            },
            Mode::CarriageReturn => {
                if c == '\n' {
                    let ghost before = string_views(lines@);
                    lines.push(string_from(&current));
                    assert(string_views(lines@) =~= before.push(current@));
                    current = Vec::new();
                    mode = Mode::Text;
                } else {
                    current = Vec::new();
                    mode = Mode::Text;
                    text_char(&mut lines, &mut current, &mut mode, c);
                }
            },
        }
        i += 1;
    }
    proof {
        assert(s@.take(i as int) == s@);
    }
    if mode == Mode::CarriageReturn {
        current = Vec::new();
    }
    if current.len() > 0 {
        let ghost before = string_views(lines@);
        lines.push(string_from(&current));
        assert(string_views(lines@) =~= before.push(current@));
    }
    lines
}

// ---------------------------------------------------------------------------
// Duplicate streams
// ---------------------------------------------------------------------------

/// The lines of `candidate` appear, in a row, among the lines of
/// `container`.
pub open spec fn has_line_block(container: Seq<char>, candidate: Seq<char>) -> bool {
    let a = lines(container);
    let b = lines(candidate);
    b.len() > 0 && b.len() <= a.len() && exists|i: int|
        0 <= i <= a.len() - b.len() && #[trigger] a.subrange(i, i + b.len()) == b
}

fn lines_equal(a: &Vec<Vec<char>>, lo: usize, b: &Vec<Vec<char>>) -> (r: bool)
    requires
        lo + b@.len() <= a@.len(),
    ensures
        r == (views(a@).subrange(lo as int, lo + b@.len()) == views(b@)),
{
    let mut k: usize = 0;
    let alen = a.len();
    while k < b.len()
        invariant
            k <= b@.len(),
            alen == a@.len(),
            lo + b@.len() <= a@.len(),
            forall|j: int| 0 <= j < k ==> a@[lo + j]@ == b@[j]@,
        decreases b.len() - k,
    {
        if !crate::text::seq_eq(&a[lo + k], &b[k]) {
            assert(views(a@).subrange(lo as int, lo + b@.len())[k as int] != views(b@)[k as int]);
            return false;
        }
        k += 1;
    }
    assert(views(a@).subrange(lo as int, lo + b@.len()) =~= views(b@));
    true
}

/// Whether the lines of `candidate` appear as a block within `container`.
pub fn contains_line_block(container: &str, candidate: &str) -> (b: bool)
    ensures
        b == has_line_block(container@, candidate@),
{
    let cc = chars_of(container);
    let dc = chars_of(candidate);
    let a = split_lines(&cc);
    let b = split_lines(&dc);
    if b.len() == 0 || b.len() > a.len() {
        return false;
    }
    let ghost av = views(a@);
    let ghost bv = views(b@);
    let mut i: usize = 0;
    while i <= a.len() - b.len()
        invariant
            av == views(a@),
            bv == views(b@),
            av == lines(container@),
            bv == lines(candidate@),
            0 < bv.len() <= av.len(),
            forall|j: int| 0 <= j < i ==> #[trigger] av.subrange(j, j + bv.len()) != bv,
        decreases a.len() - b.len() + 1 - i,
    {
        if lines_equal(&a, i, &b) {
            return true;
        }
        i += 1;
    }
    false
}

/// Whether either stream's lines appear as a block within the other's.
pub fn streams_are_aliases(left: &str, right: &str) -> (b: bool)
    ensures
        b == (has_line_block(left@, right@) || has_line_block(right@, left@)),
{
    contains_line_block(left, right) || contains_line_block(right, left)
}

/// A stream with at least one line is an alias of itself, and being an
/// alias does not depend on the order of the two streams.
pub proof fn lemma_aliases_reflexive_symmetric(a: Seq<char>, b: Seq<char>)
    ensures
        lines(a).len() > 0 ==> has_line_block(a, a),
        (has_line_block(a, b) || has_line_block(b, a)) == (has_line_block(b, a) || has_line_block(
            a,
            b,
        )),
{
    let l = lines(a);
    if l.len() > 0 {
        assert(l.subrange(0int, 0int + l.len()) == l);
    }
}

// ---------------------------------------------------------------------------
// Viewer lines
// ---------------------------------------------------------------------------

/// The first output line after `  └ `, the others indented by four spaces.
pub open spec fn merged_lines(ls: Seq<Seq<char>>) -> Seq<Seq<char>> {
    Seq::new(
        ls.len(),
        |i: int|
            if i == 0 {
                "  \u{2514} "@ + ls[i]
            } else {
                "    "@ + ls[i]
            },
    )
}

/// Appends output lines under a command header.
pub fn append_merged_output_lines(lines: &mut Vec<String>, output_lines: Vec<String>)
    ensures
        string_views(final(lines)@) == string_views(old(lines)@) + merged_lines(string_views(output_lines@)),
{
    let ghost start = string_views(lines@);
    let ghost ov = string_views(output_lines@);
    let mut i: usize = 0;
    while i < output_lines.len()
        invariant
            i <= output_lines@.len(),
            ov == string_views(output_lines@),
            string_views(lines@) == start + merged_lines(ov).take(i as int),
        decreases output_lines.len() - i,
    {
        let mut out = if i == 0 {
            chars_of("  \u{2514} ")
        } else {
            chars_of("    ")
        };
        extend_str(&mut out, output_lines[i].as_str());
        let ghost before = string_views(lines@);
        lines.push(string_from(&out));
        assert(string_views(lines@) =~= before.push(out@));
        assert(merged_lines(ov).take(i + 1) =~= merged_lines(ov).take(i as int).push(out@));
        i += 1;
    }
    assert(merged_lines(ov).take(i as int) == merged_lines(ov));
}

/// A label line `  label:`, then the output lines indented by four spaces.
pub open spec fn labeled_lines(label: Seq<char>, ls: Seq<Seq<char>>) -> Seq<Seq<char>> {
    seq!["  "@ + label + ":"@] + ls.map_values(|l: Seq<char>| "    "@ + l)
}

/// Appends output lines under a stream label.
pub fn append_labeled_output_lines(lines: &mut Vec<String>, label: &str, output_lines: Vec<String>)
    ensures
        string_views(final(lines)@) == string_views(old(lines)@) + labeled_lines(
            label@,
            string_views(output_lines@),
        ),
{
    let ghost start = string_views(lines@);
    let ghost ov = string_views(output_lines@);
    let mut head = chars_of("  ");
    extend_str(&mut head, label);
    extend_str(&mut head, ":");
    lines.push(string_from(&head));
    let ghost after_head = string_views(lines@);
    assert(after_head =~= start.push(head@));
    let mut i: usize = 0;
    while i < output_lines.len()
        invariant
            i <= output_lines@.len(),
            ov == string_views(output_lines@),
            string_views(lines@) == start.push(head@) + ov.take(i as int).map_values(
                |l: Seq<char>| "    "@ + l,
            ),
        decreases output_lines.len() - i,
    {
        let mut out = chars_of("    ");
        extend_str(&mut out, output_lines[i].as_str());
        let ghost before = string_views(lines@);
        lines.push(string_from(&out));
        assert(string_views(lines@) =~= before.push(out@));
        assert(ov.take(i + 1).map_values(|l: Seq<char>| "    "@ + l) =~= ov.take(i as int).map_values(
            |l: Seq<char>| "    "@ + l,
        ).push(out@));
        i += 1;
    }
    assert(ov.take(i as int) == ov);
    assert(start.push(head@) + ov.map_values(|l: Seq<char>| "    "@ + l) =~= start + labeled_lines(
        label@,
        ov,
    ));
}

/// Argument and output keys whose values name files or directories.
pub open spec fn path_key(key: Seq<char>) -> bool {
    key == "path"@ || key == "paths"@ || key == "file"@ || key == "files"@ || key == "file_path"@
        || key == "file_paths"@ || key == "cwd"@ || key == "workdir"@ || key == "directory"@ || key
        == "directories"@ || key == "root"@ || key == "workspace"@
}

/// Whether a JSON key names a path.
pub fn path_like_key(key: &str) -> (b: bool)
    ensures
        b == path_key(key@),
{
    let k = chars_of(key);
    eq_str(&k, "path") || eq_str(&k, "paths") || eq_str(&k, "file") || eq_str(&k, "files")
        || eq_str(&k, "file_path") || eq_str(&k, "file_paths") || eq_str(&k, "cwd") || eq_str(
        &k,
        "workdir",
    ) || eq_str(&k, "directory") || eq_str(&k, "directories") || eq_str(&k, "root") || eq_str(
        &k,
        "workspace",
    )
}

// ---------------------------------------------------------------------------
// Output streams of a command
// ---------------------------------------------------------------------------

/// A stream's text as shown: without trailing whitespace, and nothing when
/// it is blank.
pub open spec fn shown_text(raw: Option<Seq<char>>) -> Option<Seq<char>> {
    match raw {
        Some(t) => if trim(t).len() > 0 {
            Some(trim_end(t))
        } else {
            None
        },
        None => None,
    }
}

pub open spec fn opt_str_view(o: Option<&str>) -> Option<Seq<char>> {
    match o {
        Some(s) => Some(s@),
        None => None,
    }
}

pub open spec fn opt_view(o: Option<String>) -> Option<Seq<char>> {
    match o {
        Some(s) => Some(s@),
        None => None,
    }
}

/// The text of an output field as shown, from the field's string value.
pub fn output_text(raw: Option<&str>) -> (r: Option<String>)
    ensures
        opt_view(r) == shown_text(opt_str_view(raw)),
{
    match raw {
        Some(t) => {
            let c = chars_of(t);
            if crate::text::is_blank(&c) {
                None
            } else {
                Some(string_from(&crate::text::trimmed_end(&c)))
            }
        },
        None => None,
    }
}

/// The string values of a tool output's `output`, `stdout` and `stderr`
/// fields, where they are strings.
#[derive(Debug, Clone, Default)]
pub struct StreamFields {
    pub output: Option<String>,
    pub stdout: Option<String>,
    pub stderr: Option<String>,
}

/// The first text in `texts` whose lines appear within `t`'s, or the length.
pub open spec fn first_contained(texts: Seq<Seq<char>>, t: Seq<char>) -> int
    decreases texts.len(),
{
    if texts.len() == 0 {
        0
    } else if has_line_block(t, texts[0]) {
        0
    } else {
        1 + first_contained(texts.drop_first(), t)
    }
}

/// Adds a stream's text unless an earlier one already holds it; a text
/// that holds an earlier one takes its place.
pub open spec fn add_stream_text(texts: Seq<Seq<char>>, t: Option<Seq<char>>) -> Seq<Seq<char>> {
    match t {
        None => texts,
        Some(t) => if exists|i: int| 0 <= i < texts.len() && has_line_block(#[trigger] texts[i], t) {
            texts
        } else if first_contained(texts, t) < texts.len() {
            texts.update(first_contained(texts, t), t)
        } else {
            texts.push(t)
        },
    }
}

/// The distinct stream texts of an output in the order `output`, `stdout`,
/// `stderr`.
pub open spec fn ordered_texts(
    output: Option<Seq<char>>,
    stdout: Option<Seq<char>>,
    stderr: Option<Seq<char>>,
) -> Seq<Seq<char>> {
    add_stream_text(
        add_stream_text(add_stream_text(seq![], shown_text(output)), shown_text(stdout)),
        shown_text(stderr),
    )
}

proof fn lemma_first_contained_bounds(texts: Seq<Seq<char>>, t: Seq<char>)
    ensures
        0 <= first_contained(texts, t) <= texts.len(),
        first_contained(texts, t) < texts.len() ==> has_line_block(t, texts[first_contained(texts, t)]),
        forall|j: int| 0 <= j < first_contained(texts, t) ==> !has_line_block(t, #[trigger] texts[j]),
    decreases texts.len(),
{
    if texts.len() > 0 && !has_line_block(t, texts[0]) {
        lemma_first_contained_bounds(texts.drop_first(), t);
        assert forall|j: int| 0 <= j < first_contained(texts, t) implies !has_line_block(
            t,
            #[trigger] texts[j],
        ) by {
            if j > 0 {
                assert(texts[j] == texts.drop_first()[j - 1]);
            }
        }
    }
}

fn add_text(texts: &mut Vec<String>, t: Option<String>)
    ensures
        string_views(final(texts)@) == add_stream_text(string_views(old(texts)@), opt_view(t)),
{
    match t {
        Some(text) => add_some_text(texts, text),
        None => {},
    }
}

fn add_some_text(texts: &mut Vec<String>, text: String)
    ensures
        string_views(final(texts)@) == add_stream_text(string_views(old(texts)@), Some(text@)),
{
    let ghost tv = string_views(texts@);
    let mut i: usize = 0;
    while i < texts.len()
        invariant
            i <= texts@.len(),
            tv == string_views(texts@),
            texts@ == old(texts)@,
            forall|j: int| 0 <= j < i ==> !has_line_block(#[trigger] tv[j], text@),
        decreases texts.len() - i,
    {
        if contains_line_block(texts[i].as_str(), text.as_str()) {
            assert(has_line_block(tv[i as int], text@));
            return;
        }
        i += 1;
    }
    proof {
        lemma_first_contained_bounds(tv, text@);
    }
    let mut k: usize = 0;
    while k < texts.len()
        invariant
            k <= texts@.len(),
            tv == string_views(texts@),
            texts@ == old(texts)@,
            forall|j: int| 0 <= j < tv.len() ==> !has_line_block(#[trigger] tv[j], text@),
            0 <= first_contained(tv, text@) <= tv.len(),
            first_contained(tv, text@) < tv.len() ==> has_line_block(text@, tv[first_contained(tv, text@)]),
            forall|j: int| 0 <= j < first_contained(tv, text@) ==> !has_line_block(text@, #[trigger] tv[j]),
            forall|j: int| 0 <= j < k ==> !has_line_block(text@, #[trigger] tv[j]),
        decreases texts.len() - k,
    {
        if contains_line_block(text.as_str(), texts[k].as_str()) {
            proof {
                if first_contained(tv, text@) > k {
                    assert(!has_line_block(text@, tv[k as int]));
                }
            }
            let ghost tt = text@;
            texts.set(k, text);
            assert(string_views(texts@) =~= tv.update(k as int, tt));
            return;
        }
        k += 1;
    }
    let ghost tt = text@;
    texts.push(text);
    assert(string_views(texts@) =~= tv.push(tt));
}

/// The distinct stream texts of an output, merged text first.
pub fn ordered_stream_texts(fields: &StreamFields) -> (r: Vec<String>)
    ensures
        string_views(r@) == ordered_texts(
            opt_view(fields.output),
            opt_view(fields.stdout),
            opt_view(fields.stderr),
        ),
{
    let mut texts: Vec<String> = Vec::new();
    assert(string_views(texts@) =~= Seq::<Seq<char>>::empty());
    add_text(&mut texts, output_text(as_opt_str(&fields.output)));
    add_text(&mut texts, output_text(as_opt_str(&fields.stdout)));
    add_text(&mut texts, output_text(as_opt_str(&fields.stderr)));
    texts
}

fn as_opt_str(o: &Option<String>) -> (r: Option<&str>)
    ensures
        opt_str_view(r) == opt_view(*o),
{
    match o {
        Some(s) => Some(s.as_str()),
        None => None,
    }
}

/// A stream to show: its label (`stdout`, `stderr`, or none for merged
/// output) and text.
#[derive(Debug, Clone)]
pub struct CanonicalOutputStream {
    pub label: Option<&'static str>,
    pub text: String,
}

pub open spec fn stream_view(s: CanonicalOutputStream) -> (Option<Seq<char>>, Seq<char>) {
    (
        match s.label {
            Some(l) => Some(l@),
            None => None,
        },
        s.text@,
    )
}

pub open spec fn stream_views(v: Seq<CanonicalOutputStream>) -> Seq<(Option<Seq<char>>, Seq<char>)> {
    v.map_values(|s: CanonicalOutputStream| stream_view(s))
}

pub open spec fn holds(container: Option<Seq<char>>, candidate: Option<Seq<char>>) -> bool {
    match (container, candidate) {
        (Some(a), Some(b)) => has_line_block(a, b),
        _ => false,
    }
}

pub open spec fn aliases(a: Option<Seq<char>>, b: Option<Seq<char>>) -> bool {
    holds(a, b) || holds(b, a)
}

pub open spec fn named(label: Seq<char>, t: Option<Seq<char>>) -> Seq<(Option<Seq<char>>, Seq<char>)> {
    match t {
        Some(x) => seq![(Some(label), x)],
        None => seq![],
    }
}

/// The streams to show for an output with merged text `m` and named
/// streams `o` (stdout) and `e` (stderr): the merged text alone when it
/// holds both; otherwise the merged text (under the name of a stream it
/// mirrors, keeping the longer of the two) followed by the named streams
/// that it does not mirror; without merged text, the named streams.
pub open spec fn pipe_streams(
    m: Option<Seq<char>>,
    o: Option<Seq<char>>,
    e: Option<Seq<char>>,
) -> Seq<(Option<Seq<char>>, Seq<char>)> {
    match m {
        Some(mt) => if holds(m, o) && holds(m, e) {
            seq![(None, mt)]
        } else {
            let o_alias = aliases(m, o);
            let e_alias = aliases(m, e);
            let first = if o_alias {
                (Some("stdout"@), if holds(o, m) { o.unwrap() } else { mt })
            } else if e_alias {
                (Some("stderr"@), if holds(e, m) { e.unwrap() } else { mt })
            } else {
                (None, mt)
            };
            seq![first] + (if !o_alias && !aliases(o, m) {
                named("stdout"@, o)
            } else {
                seq![]
            }) + (if !e_alias && !aliases(e, m) {
                named("stderr"@, e)
            } else {
                seq![]
            })
        },
        None => named("stdout"@, o) + named("stderr"@, e),
    }
}

fn holds_exec(container: &Option<String>, candidate: &Option<String>) -> (b: bool)
    ensures
        b == holds(opt_view(*container), opt_view(*candidate)),
{
    match (container, candidate) {
        (Some(a), Some(b)) => contains_line_block(a.as_str(), b.as_str()),
        _ => false,
    }
}

fn push_stream(streams: &mut Vec<CanonicalOutputStream>, label: Option<&'static str>, text: String)
    ensures
        stream_views(final(streams)@) == stream_views(old(streams)@).push(
            stream_view(CanonicalOutputStream { label, text }),
        ),
{
    let ghost before = stream_views(streams@);
    let s = CanonicalOutputStream { label, text };
    let ghost sv = stream_view(s);
    streams.push(s);
    assert(stream_views(streams@) =~= before.push(sv));
}

/// The streams of an output to show, each once, with their labels.
pub fn canonical_pipe_streams(fields: &StreamFields) -> (r: Vec<CanonicalOutputStream>)
    ensures
        stream_views(r@) == pipe_streams(
            shown_text(opt_view(fields.output)),
            shown_text(opt_view(fields.stdout)),
            shown_text(opt_view(fields.stderr)),
        ),
{
    proof {
        reveal_strlit("stdout");
        reveal_strlit("stderr");
    }
    let merged = output_text(as_opt_str(&fields.output));
    let stdout = output_text(as_opt_str(&fields.stdout));
    let stderr = output_text(as_opt_str(&fields.stderr));
    let ghost m = opt_view(merged);
    let ghost o = opt_view(stdout);
    let ghost e = opt_view(stderr);
    let mut streams: Vec<CanonicalOutputStream> = Vec::new();
    assert(stream_views(streams@) =~= Seq::<(Option<Seq<char>>, Seq<char>)>::empty());
    match &merged {
        Some(mt) => {
            let stdout_in = holds_exec(&merged, &stdout);
            let stderr_in = holds_exec(&merged, &stderr);
            if stdout_in && stderr_in {
                push_stream(&mut streams, None, mt.clone());
                assert(stream_views(streams@) =~= pipe_streams(m, o, e));
                return streams;
            }
            let stdout_is_alias = stdout_in || holds_exec(&stdout, &merged);
            let stderr_is_alias = stderr_in || holds_exec(&stderr, &merged);
            if stdout_is_alias {
                let text = if holds_exec(&stdout, &merged) {
                    match &stdout {
                        Some(t) => t.clone(),
                        None => mt.clone(),
                    }
                } else {
                    mt.clone()
                };
                push_stream(&mut streams, Some("stdout"), text);
            } else if stderr_is_alias {
                let text = if holds_exec(&stderr, &merged) {
                    match &stderr {
                        Some(t) => t.clone(),
                        None => mt.clone(),
                    }
                } else {
                    mt.clone()
                };
                push_stream(&mut streams, Some("stderr"), text);
            } else {
                push_stream(&mut streams, None, mt.clone());
            }
            let ghost first = stream_views(streams@);
            if let Some(out) = &stdout {
                if !stdout_is_alias && !(holds_exec(&stdout, &merged) || holds_exec(&merged, &stdout)) {
                    push_stream(&mut streams, Some("stdout"), out.clone());
                }
            }
            let ghost second = stream_views(streams@);
            assert(second =~= first + (if !aliases(m, o) && !aliases(o, m) {
                named("stdout"@, o)
            } else {
                seq![]
            }));
            if let Some(err) = &stderr {
                if !stderr_is_alias && !(holds_exec(&stderr, &merged) || holds_exec(&merged, &stderr)) {
                    push_stream(&mut streams, Some("stderr"), err.clone());
                }
            }
            assert(stream_views(streams@) =~= second + (if !aliases(m, e) && !aliases(e, m) {
                named("stderr"@, e)
            } else {
                seq![]
            }));
            assert(stream_views(streams@) =~= pipe_streams(m, o, e));
            streams
        },
        None => {
            if let Some(out) = &stdout {
                push_stream(&mut streams, Some("stdout"), out.clone());
            }
            if let Some(err) = &stderr {
                push_stream(&mut streams, Some("stderr"), err.clone());
            }
            assert(stream_views(streams@) =~= pipe_streams(m, o, e));
            streams
        },
    }
}


// ---------------------------------------------------------------------------
// Command viewer blocks
// ---------------------------------------------------------------------------

/// How a finished tool call is shown.
#[derive(Debug, Clone, Copy, PartialEq, Eq, Structural)]
pub enum ToolDisplayStatus {
    Success,
    Failure,
    Warning,
}

/// The closing line of a command run: how it ended, by its exit code when
/// there is one, else by whether the process exited, else by the status
/// alone (nothing for a plain success).
pub open spec fn completion_line(
    exit_code: Option<i64>,
    is_exited: Option<bool>,
    status: ToolDisplayStatus,
) -> Option<Seq<char>> {
    match exit_code {
        Some(code) => if status == ToolDisplayStatus::Success && code == 0 {
            Some("\u{2713} run completed (exit code: 0)"@)
        } else if status == ToolDisplayStatus::Warning && code == 0 {
            Some("\u{26a0} run completed with warnings (exit code: 0)"@)
        } else {
            Some("\u{2717} run error, exit code: "@ + signed_dec(code as int))
        },
        None => if is_exited == Some(true) {
            match status {
                ToolDisplayStatus::Success => Some("\u{2713} done"@),
                ToolDisplayStatus::Warning => Some("\u{26a0} done with warnings"@),
                ToolDisplayStatus::Failure => Some("\u{2717} failed"@),
            }
        } else {
            match status {
                ToolDisplayStatus::Failure => Some("\u{2717} failed"@),
                ToolDisplayStatus::Warning => Some("\u{26a0} completed with warnings"@),
                ToolDisplayStatus::Success => None,
            }
        },
    }
}

/// The closing line of a command run from its `exit_code` and `is_exited`
/// output fields.
pub fn compact_run_completion_line(
    exit_code: Option<i64>,
    is_exited: Option<bool>,
    status: ToolDisplayStatus,
) -> (r: Option<String>)
    ensures
        opt_view(r) == completion_line(exit_code, is_exited, status),
{
    match exit_code {
        Some(code) => {
            if status == ToolDisplayStatus::Success && code == 0 {
                return Some("\u{2713} run completed (exit code: 0)".to_owned());
            }
            if status == ToolDisplayStatus::Warning && code == 0 {
                return Some("\u{26a0} run completed with warnings (exit code: 0)".to_owned());
            }
            let mut out = chars_of("\u{2717} run error, exit code: ");
            push_signed_dec(&mut out, code);
            Some(string_from(&out))
        },
        None => {
            if is_exited == Some(true) {
                match status {
                    ToolDisplayStatus::Success => Some("\u{2713} done".to_owned()),
                    ToolDisplayStatus::Warning => Some("\u{26a0} done with warnings".to_owned()),
                    ToolDisplayStatus::Failure => Some("\u{2717} failed".to_owned()),
                }
            } else {
                match status {
                    ToolDisplayStatus::Failure => Some("\u{2717} failed".to_owned()),
                    ToolDisplayStatus::Warning => Some("\u{26a0} completed with warnings".to_owned()),
                    ToolDisplayStatus::Success => None,
                }
            }
        },
    }
}

/// The command of a run: its `command`, else `raw_command`, else `cmd`
/// argument.
pub open spec fn command_line_of(
    command: Option<Seq<char>>,
    raw_command: Option<Seq<char>>,
    cmd: Option<Seq<char>>,
) -> Option<Seq<char>> {
    if command is Some {
        command
    } else if raw_command is Some {
        raw_command
    } else {
        cmd
    }
}

/// The command string of a run from its string arguments.
pub fn extract_command_line(command: Option<&str>, raw_command: Option<&str>, cmd: Option<&str>) -> (r: Option<
    String,
>)
    ensures
        opt_view(r) == command_line_of(opt_str_view(command), opt_str_view(raw_command), opt_str_view(cmd)),
{
    match command {
        Some(c) => Some(c.to_owned()),
        None => match raw_command {
            Some(c) => Some(c.to_owned()),
            None => match cmd {
                Some(c) => Some(c.to_owned()),
                None => None,
            },
        },
    }
}

/// The transcript summary of a tool call: `Ran` and its command (`Ran
/// command` without one) for a command run, else `•` and the tool's name.
pub open spec fn summary_headline_spec(name: Seq<char>, is_command_run: bool, command: Option<Seq<char>>) -> Seq<
    char,
> {
    if is_command_run || name == "Run command"@ {
        match command {
            Some(c) => "Ran "@ + c,
            None => "Ran command"@,
        }
    } else {
        "\u{2022} "@ + name
    }
}

/// The summary line a tool call leaves in the transcript; `command` is the
/// run's command string as `extract_command_line` finds it.
pub fn summary_headline(name: &str, is_command_run: bool, command: Option<&str>) -> (r: String)
    ensures
        r@ == summary_headline_spec(name@, is_command_run, opt_str_view(command)),
{
    let n = chars_of(name);
    if is_command_run || eq_str(&n, "Run command") {
        match command {
            Some(c) => {
                let mut out = chars_of("Ran ");
                extend_str(&mut out, c);
                string_from(&out)
            },
            None => "Ran command".to_owned(),
        }
    } else {
        let mut out = chars_of("\u{2022} ");
        extend_str(&mut out, name);
        string_from(&out)
    }
}

/// Whether a tool output is a git diff: its `content_type` is `git_diff`.
pub fn is_git_diff_payload(content_type: Option<&str>) -> (b: bool)
    ensures
        b == (opt_str_view(content_type) == Some("git_diff"@)),
{
    match content_type {
        Some(t) => {
            let v = chars_of(t);
            eq_str(&v, "git_diff")
        },
        None => false,
    }
}

pub open spec fn nonblank_field(f: Option<String>) -> bool {
    match f {
        Some(t) => trim(t@).len() > 0,
        None => false,
    }
}

/// Whether any of the output's streams has non-blank text.
pub fn has_renderable_stream_content(fields: &StreamFields) -> (b: bool)
    ensures
        b == (nonblank_field(fields.output) || nonblank_field(fields.stdout) || nonblank_field(fields.stderr)),
{
    nonblank(&fields.output) || nonblank(&fields.stdout) || nonblank(&fields.stderr)
}

fn nonblank(f: &Option<String>) -> (b: bool)
    ensures
        b == nonblank_field(*f),
{
    match f {
        Some(t) => !is_blank(&chars_of(t.as_str())),
        None => false,
    }
}

/// `• Ran` and the command with its whitespace collapsed, or the tool's
/// name when there is no command or it is blank.
pub open spec fn header_line(name: Seq<char>, command: Option<Seq<char>>) -> Seq<char> {
    match command {
        Some(c) => if dedup_key(c).len() > 0 {
            "\u{2022} Ran "@ + dedup_key(c)
        } else {
            "\u{2022} Ran "@ + name
        },
        None => "\u{2022} Ran "@ + name,
    }
}

/// The first row of a command's viewer block.
pub fn command_output_header(name: &str, command: Option<&str>) -> (r: String)
    ensures
        r@ == header_line(name@, opt_str_view(command)),
{
    let mut out = chars_of("\u{2022} Ran ");
    match command {
        Some(c) => {
            let collapsed = normalize_for_dedup(c);
            if collapsed.as_str().unicode_len() > 0 {
                extend_str(&mut out, collapsed.as_str());
            } else {
                extend_str(&mut out, name);
            }
        },
        None => extend_str(&mut out, name),
    }
    string_from(&out)
}

/// What the viewer reads of a finished command's output besides its
/// streams: the exit code, whether the process exited, and a note to show.
#[derive(Debug, Clone, Default)]
pub struct CommandOutcome {
    pub exit_code: Option<i64>,
    pub is_exited: Option<bool>,
    pub critical_note: Option<String>,
}

/// The note row, when the output carries a note that is not blank.
pub open spec fn note_rows(note: Option<Seq<char>>) -> Seq<Seq<char>> {
    match shown_text(note) {
        Some(n) => seq!["    "@ + n],
        None => seq![],
    }
}

/// The closing row, shown unless the call succeeded.
pub open spec fn status_rows(o: CommandOutcome, status: ToolDisplayStatus) -> Seq<Seq<char>> {
    if status != ToolDisplayStatus::Success {
        match completion_line(o.exit_code, o.is_exited, status) {
            Some(l) => seq!["    "@ + l],
            None => seq![],
        }
    } else {
        seq![]
    }
}

fn append_note_and_status(lines: &mut Vec<String>, outcome: &CommandOutcome, status: ToolDisplayStatus)
    ensures
        string_views(final(lines)@) == string_views(old(lines)@) + note_rows(opt_view(outcome.critical_note))
            + status_rows(*outcome, status),
{
    let ghost start = string_views(lines@);
    let note = match &outcome.critical_note {
        Some(n) => output_text(Some(n.as_str())),
        None => None,
    };
    if let Some(n) = note {
        let mut row = chars_of("    ");
        extend_str(&mut row, n.as_str());
        lines.push(string_from(&row));
    }
    let ghost mid = string_views(lines@);
    assert(mid =~= start + note_rows(opt_view(outcome.critical_note)));
    if status != ToolDisplayStatus::Success {
        if let Some(done) = compact_run_completion_line(outcome.exit_code, outcome.is_exited, status) {
            let mut row = chars_of("    ");
            extend_str(&mut row, done.as_str());
            lines.push(string_from(&row));
        }
    }
    assert(string_views(lines@) =~= mid + status_rows(*outcome, status));
}

/// The viewer block of a command whose streams were captured together:
/// the header, the capture's lines, the note and the closing row.
pub fn build_merged_command_output_lines(
    name: &str,
    command: Option<&str>,
    capture: &str,
    outcome: &CommandOutcome,
    status: ToolDisplayStatus,
) -> (r: Vec<String>)
    ensures
        string_views(r@) == seq![header_line(name@, opt_str_view(command))] + merged_lines(
            terminal_lines(capture@),
        ) + note_rows(opt_view(outcome.critical_note)) + status_rows(*outcome, status),
{
    let output_lines = normalize_terminal_output_lines(capture);
    let mut lines: Vec<String> = Vec::new();
    lines.push(command_output_header(name, command));
    append_merged_output_lines(&mut lines, output_lines);
    append_note_and_status(&mut lines, outcome, status);
    lines
}

/// The rows of the streams to show: each stream's lines, under its label
/// when it has one; streams with no lines show nothing.
pub open spec fn stream_rows(streams: Seq<(Option<Seq<char>>, Seq<char>)>) -> Seq<Seq<char>>
    decreases streams.len(),
{
    if streams.len() == 0 {
        seq![]
    } else {
        let (label, text) = streams.last();
        let ls = terminal_lines(text);
        stream_rows(streams.drop_last()) + if ls.len() == 0 {
            seq![]
        } else {
            match label {
                Some(l) => labeled_lines(l, ls),
                None => merged_lines(ls),
            }
        }
    }
}

/// The viewer block of a command whose streams were captured apart: the
/// header, each distinct stream, the note and the closing row.
pub fn build_pipe_command_output_lines(
    name: &str,
    command: Option<&str>,
    fields: &StreamFields,
    outcome: &CommandOutcome,
    status: ToolDisplayStatus,
) -> (r: Vec<String>)
    ensures
        string_views(r@) == seq![header_line(name@, opt_str_view(command))] + stream_rows(
            pipe_streams(
                shown_text(opt_view(fields.output)),
                shown_text(opt_view(fields.stdout)),
                shown_text(opt_view(fields.stderr)),
            ),
        ) + note_rows(opt_view(outcome.critical_note)) + status_rows(*outcome, status),
{
    let streams = canonical_pipe_streams(fields);
    let ghost sv = stream_views(streams@);
    let mut lines: Vec<String> = Vec::new();
    lines.push(command_output_header(name, command));
    let ghost head = string_views(lines@);
    let mut i: usize = 0;
    while i < streams.len()
        invariant
            i <= streams@.len(),
            sv == stream_views(streams@),
            string_views(lines@) == head + stream_rows(sv.take(i as int)),
        decreases streams.len() - i,
    {
        proof {
            assert(sv.take(i + 1).drop_last() == sv.take(i as int));
            assert(sv.take(i + 1).last() == stream_view(streams@[i as int]));
        }
        let output_lines = normalize_terminal_output_lines(streams[i].text.as_str());
        let ghost before = string_views(lines@);
        if output_lines.len() > 0 {
            match streams[i].label {
                Some(label) => append_labeled_output_lines(&mut lines, label, output_lines),
                None => append_merged_output_lines(&mut lines, output_lines),
            }
        }
        assert(string_views(lines@) =~= head + stream_rows(sv.take(i + 1)));
        i += 1;
    }
    assert(sv.take(i as int) == sv);
    append_note_and_status(&mut lines, outcome, status);
    lines
}


// ---------------------------------------------------------------------------
// Run-command previews
// ---------------------------------------------------------------------------

/// Lines shown from the start and from the end of a command's output.
pub const RUN_COMMAND_HEAD_PREVIEW_LINES: usize = 3;
pub const RUN_COMMAND_TAIL_PREVIEW_LINES: usize = 3;

/// The lines of `ls` to show, keeping `head` from the start and `tail`
/// from the end, and how many are left out between them.
pub open spec fn excerpt(ls: Seq<Seq<char>>, head: nat, tail: nat) -> (Seq<Seq<char>>, nat) {
    if ls.len() <= head + tail {
        (ls, 0)
    } else {
        (ls.take(head as int) + ls.skip(ls.len() - tail), (ls.len() - head - tail) as nat)
    }
}

/// The preview of a command's output: its first and last three lines,
/// the total count of lines, and how many lines the preview leaves out.
pub fn collect_run_command_preview(content: &str) -> (r: (Vec<String>, usize, usize))
    ensures
        string_views(r.0@) == excerpt(
            lines(content@),
            RUN_COMMAND_HEAD_PREVIEW_LINES as nat,
            RUN_COMMAND_TAIL_PREVIEW_LINES as nat,
        ).0,
        r.1 == lines(content@).len(),
        r.2 == excerpt(
            lines(content@),
            RUN_COMMAND_HEAD_PREVIEW_LINES as nat,
            RUN_COMMAND_TAIL_PREVIEW_LINES as nat,
        ).1,
{
    let c = chars_of(content);
    let all = split_lines(&c);
    let ghost ls = views(all@);
    let total = all.len();
    let keep_all = total <= RUN_COMMAND_HEAD_PREVIEW_LINES + RUN_COMMAND_TAIL_PREVIEW_LINES;
    let ghost shown = excerpt(ls, RUN_COMMAND_HEAD_PREVIEW_LINES as nat, RUN_COMMAND_TAIL_PREVIEW_LINES as nat).0;
    let mut out: Vec<String> = Vec::new();
    let mut i: usize = 0;
    while i < total
        invariant
            i <= total == all@.len(),
            ls == views(all@),
            keep_all == (total <= RUN_COMMAND_HEAD_PREVIEW_LINES + RUN_COMMAND_TAIL_PREVIEW_LINES),
            string_views(out@) == if keep_all {
                ls.take(i as int)
            } else if i <= RUN_COMMAND_HEAD_PREVIEW_LINES {
                ls.take(i as int)
            } else if i <= total - RUN_COMMAND_TAIL_PREVIEW_LINES {
                ls.take(RUN_COMMAND_HEAD_PREVIEW_LINES as int)
            } else {
                ls.take(RUN_COMMAND_HEAD_PREVIEW_LINES as int) + ls.subrange(
                    total - RUN_COMMAND_TAIL_PREVIEW_LINES,
                    i as int,
                )
            },
        decreases total - i,
    {
        let ghost before = string_views(out@);
        if keep_all || i < RUN_COMMAND_HEAD_PREVIEW_LINES || i >= total - RUN_COMMAND_TAIL_PREVIEW_LINES {
            out.push(string_from(&all[i]));
            assert(string_views(out@) =~= before.push(ls[i as int]));
        }
        proof {
            if keep_all || i < RUN_COMMAND_HEAD_PREVIEW_LINES {
                assert(ls.take(i + 1) =~= ls.take(i as int).push(ls[i as int]));
            } else if i >= total - RUN_COMMAND_TAIL_PREVIEW_LINES {
                if i == total - RUN_COMMAND_TAIL_PREVIEW_LINES {
                    assert(ls.subrange(total - RUN_COMMAND_TAIL_PREVIEW_LINES, i + 1) =~= seq![ls[i as int]]);
                } else {
                    assert(ls.subrange(total - RUN_COMMAND_TAIL_PREVIEW_LINES, i + 1) =~= ls.subrange(
                        total - RUN_COMMAND_TAIL_PREVIEW_LINES,
                        i as int,
                    ).push(ls[i as int]));
                }
            }
        }
        i += 1;
    }
    proof {
        if keep_all {
            assert(ls.take(total as int) =~= ls);
        } else {
            assert(ls.subrange(total - RUN_COMMAND_TAIL_PREVIEW_LINES, total as int) =~= ls.skip(
                total - RUN_COMMAND_TAIL_PREVIEW_LINES,
            ));
        }
    }
    let hidden = if keep_all {
        0
    } else {
        total - RUN_COMMAND_HEAD_PREVIEW_LINES - RUN_COMMAND_TAIL_PREVIEW_LINES
    };
    (out, total, hidden)
}

/// Which wording a notice of hidden lines uses.
#[derive(Debug, Clone, Copy, PartialEq, Eq, Structural)]
pub enum HiddenLinesNoticeKind {
    CommandPreview,
    Generic,
    TokenBudget,
}

/// `… +N lines`: the count of hidden lines.
pub open spec fn hidden_lines_summary(hidden: nat) -> Seq<char> {
    "\u{2026} +"@ + dec(hidden) + " lines"@
}

/// The notice shown in place of `hidden` left-out lines.
pub open spec fn hidden_notice(hidden: nat, kind: HiddenLinesNoticeKind) -> Seq<char> {
    match kind {
        HiddenLinesNoticeKind::CommandPreview => "    "@ + hidden_lines_summary(hidden)
            + " (/share html for full transcript)"@,
        HiddenLinesNoticeKind::Generic => "[... "@ + dec(hidden) + (if hidden == 1 {
            " line"@
        } else {
            " lines"@
        }) + " truncated ...]"@,
        HiddenLinesNoticeKind::TokenBudget => "[... content truncated by token budget ...]"@,
    }
}

/// The notice for left-out lines, in the wording of `kind`.
pub fn hidden_lines_notice(hidden: usize, kind: HiddenLinesNoticeKind) -> (r: String)
    ensures
        r@ == hidden_notice(hidden as nat, kind),
{
    match kind {
        HiddenLinesNoticeKind::CommandPreview => {
            let mut out = chars_of("    ");
            extend_str(&mut out, "\u{2026} +");
            push_dec(&mut out, hidden);
            extend_str(&mut out, " lines");
            extend_str(&mut out, " (/share html for full transcript)");
            assert(out@ =~= hidden_notice(hidden as nat, kind));
            string_from(&out)
        },
        HiddenLinesNoticeKind::Generic => {
            let mut out = chars_of("[... ");
            push_dec(&mut out, hidden);
            if hidden == 1 {
                extend_str(&mut out, " line");
            } else {
                extend_str(&mut out, " lines");
            }
            extend_str(&mut out, " truncated ...]");
            string_from(&out)
        },
        HiddenLinesNoticeKind::TokenBudget => "[... content truncated by token budget ...]".to_owned(),
    }
}


// ---------------------------------------------------------------------------
// Finished tool calls
// ---------------------------------------------------------------------------

/// How a tool call that did not succeed ended.
#[derive(Debug, Clone, Copy, PartialEq, Eq, Structural)]
pub enum NonSuccess {
    Failure,
    Timeout,
    Cancelled,
}

/// What is shown for a tool call that did not succeed: the rows for the
/// output viewer (for a command shown inline), the label of the expanded
/// summary (unless a PTY block already shows the call) with its status, and
/// the message line, an error or a notice.
#[derive(Debug, Clone)]
pub struct NonSuccessReport {
    pub viewer_lines: Option<Vec<String>>,
    pub summary_label: Option<&'static str>,
    pub summary_status: ToolDisplayStatus,
    pub message: String,
    pub message_is_error: bool,
}

/// The viewer rows of a command that did not succeed.
pub open spec fn non_success_rows(name: Seq<char>, command: Option<Seq<char>>, kind: NonSuccess, msg: Seq<char>) -> Seq<
    Seq<char>,
> {
    seq![
        header_line(name, command),
        match kind {
            NonSuccess::Timeout => "    timed out: "@ + msg,
            NonSuccess::Failure => "    failed: "@ + msg,
            NonSuccess::Cancelled => "    warning: tool execution cancelled"@,
        },
    ]
}

/// The message line of a tool call that did not succeed.
pub open spec fn non_success_message(name: Seq<char>, kind: NonSuccess, msg: Seq<char>) -> Seq<char> {
    match kind {
        NonSuccess::Timeout => "Tool '"@ + name + "' timed out: "@ + msg,
        NonSuccess::Failure => "Tool '"@ + name + "' failure: "@ + msg,
        NonSuccess::Cancelled => "Tool execution cancelled"@,
    }
}

/// The report of a tool call that failed, timed out or was cancelled.
/// `inline_ui` tells whether the terminal shows inline blocks,
/// `command_output_call` whether the call runs a command, `pty_call` whether
/// it runs in a PTY (whose block already names the call).
pub fn non_success_report(
    name: &str,
    command: Option<&str>,
    kind: NonSuccess,
    user_message: &str,
    inline_ui: bool,
    command_output_call: bool,
    pty_call: bool,
) -> (r: NonSuccessReport)
    ensures
        match r.viewer_lines {
            Some(v) => inline_ui && command_output_call && string_views(v@) == non_success_rows(
                name@,
                opt_str_view(command),
                kind,
                user_message@,
            ),
            None => !(inline_ui && command_output_call),
        },
        match r.summary_label {
            Some(l) => !(inline_ui && pty_call) && l@ == (if kind == NonSuccess::Cancelled {
                "cancelled"@
            } else {
                "error"@
            }),
            None => inline_ui && pty_call,
        },
        r.summary_status == (if kind == NonSuccess::Cancelled {
            ToolDisplayStatus::Warning
        } else {
            ToolDisplayStatus::Failure
        }),
        r.message@ == non_success_message(name@, kind, user_message@),
        r.message_is_error == (kind != NonSuccess::Cancelled),
{
    let viewer_lines = if inline_ui && command_output_call {
        let mut rows: Vec<String> = Vec::new();
        rows.push(command_output_header(name, command));
        let second = match kind {
            NonSuccess::Timeout => {
                let mut out = chars_of("    timed out: ");
                extend_str(&mut out, user_message);
                string_from(&out)
            },
            NonSuccess::Failure => {
                let mut out = chars_of("    failed: ");
                extend_str(&mut out, user_message);
                string_from(&out)
            },
            NonSuccess::Cancelled => "    warning: tool execution cancelled".to_owned(),
        };
        rows.push(second);
        assert(string_views(rows@) =~= non_success_rows(name@, opt_str_view(command), kind, user_message@));
        Some(rows)
    } else {
        None
    };
    let summary_label: Option<&'static str> = if inline_ui && pty_call {
        None
    } else if kind == NonSuccess::Cancelled {
        Some("cancelled")
    } else {
        Some("error")
    };
    let summary_status = if kind == NonSuccess::Cancelled {
        ToolDisplayStatus::Warning
    } else {
        ToolDisplayStatus::Failure
    };
    let message = match kind {
        NonSuccess::Cancelled => "Tool execution cancelled".to_owned(),
        _ => {
            let mut out = chars_of("Tool '");
            extend_str(&mut out, name);
            if kind == NonSuccess::Timeout {
                extend_str(&mut out, "' timed out: ");
            } else {
                extend_str(&mut out, "' failure: ");
            }
            extend_str(&mut out, user_message);
            string_from(&out)
        },
    };
    NonSuccessReport { viewer_lines, summary_label, summary_status, message, message_is_error: kind != NonSuccess::Cancelled }
}

/// The part of `s` after the last `__` met scanning from the left (as
/// `split("__").last()` gives it).
pub open spec fn after_last_separator(s: Seq<char>) -> Seq<char>
    decreases s.len(),
{
    match first_occurrence(s, "__"@) {
        Some(i) => if 0 <= i && i + 2 <= s.len() {
            after_last_separator(s.skip(i + 2))
        } else {
            s
        },
        None => s,
    }
}

/// The leading `_`s of `s` removed.
pub open spec fn trim_underscores(s: Seq<char>) -> Seq<char>
    decreases s.len(),
{
    if s.len() > 0 && s[0] == '_' {
        trim_underscores(s.drop_first())
    } else {
        s
    }
}

/// The tool an MCP call named `mcp_...` ran: the name without `mcp_` and
/// leading `_`s, after its last `__`.
pub open spec fn mcp_tool_of(name: Seq<char>) -> Option<Seq<char>> {
    if starts_with(name, "mcp_"@) {
        Some(after_last_separator(trim_underscores(name.skip(4))))
    } else {
        None
    }
}

/// The MCP tool of a successful call, for the MCP activity panel.
pub fn mcp_success_tool_name(name: &str) -> (r: Option<String>)
    ensures
        opt_view(r) == mcp_tool_of(name@),
{
    proof {
        reveal_strlit("mcp_");
        reveal_strlit("__");
    }
    let c = chars_of(name);
    if !crate::text::has_prefix_str(&c, "mcp_") {
        return None;
    }
    let mut i: usize = 4;
    assert(c@.skip(4).skip(0) == c@.skip(4));
    while i < c.len() && c[i] == '_'
        invariant
            4 <= i <= c@.len(),
            trim_underscores(c@.skip(4)) == trim_underscores(c@.skip(i as int)),
        decreases c.len() - i,
    {
        assert(c@.skip(i as int)[0] == c@[i as int]);
        assert(c@.skip(i as int).drop_first() =~= c@.skip(i + 1));
        i += 1;
    }
    proof {
        if i < c.len() {
            assert(c@.skip(i as int)[0] == c@[i as int]);
        }
    }
    let sep = chars_of("__");
    assert(sep@.len() == 2);
    let mut rest = sub_vec_from(&c, i);
    assert(rest@ == trim_underscores(c@.skip(4)));
    let ghost target = after_last_separator(trim_underscores(c@.skip(4)));
    loop
        invariant
            after_last_separator(rest@) == target,
            sep@ == "__"@,
            sep@.len() == 2,
        ensures
            after_last_separator(rest@) == target,
            first_occurrence(rest@, "__"@) is None,
        decreases rest@.len(),
    {
        match crate::text::find_first(&rest, &sep) {
            Some(k) => {
                assert(k + 2 <= rest.len());
                let next = sub_vec_from(&rest, k + 2);
                rest = next;
            },
            None => {
                break;
            },
        }
    }
    Some(string_from(&rest))
}

fn sub_vec_from(s: &Vec<char>, from: usize) -> (r: Vec<char>)
    requires
        from <= s@.len(),
    ensures
        r@ == s@.skip(from as int),
{
    let r = crate::text::sub_vec(s, from, s.len());
    assert(r@ =~= s@.skip(from as int));
    r
}

/// Where the result of a successful call goes: the MCP activity panel, the
/// task panel (for the task tracker in an inline terminal), or the output
/// renderer.
#[derive(Debug, Clone)]
pub enum SuccessRoute {
    Mcp(String),
    TaskTracker,
    Render,
}

/// The route of a successful call of `name`.
pub fn success_route(name: &str, task_tracker_tool: bool, inline_ui: bool) -> (r: SuccessRoute)
    ensures
        match r {
            SuccessRoute::Mcp(t) => mcp_tool_of(name@) == Some(t@),
            SuccessRoute::TaskTracker => mcp_tool_of(name@) is None && task_tracker_tool && inline_ui,
            SuccessRoute::Render => mcp_tool_of(name@) is None && !(task_tracker_tool && inline_ui),
        },
{
    match mcp_success_tool_name(name) {
        Some(t) => SuccessRoute::Mcp(t),
        None => if task_tracker_tool && inline_ui {
            SuccessRoute::TaskTracker
        } else {
            SuccessRoute::Render
        },
    }
}

/// Most lines a stream section shows inline when the renderer prefers
/// untruncated output.
pub const INLINE_STREAM_MAX_LINES: usize = 30;

/// The lines a stream section shows and the notice above them: with
/// `prefer_full`, only the last thirty lines are kept; when anything was
/// left out, a notice counts the hidden lines of `total`. Nothing is shown,
/// not even a notice, when no line is kept.
pub open spec fn stream_window(lines: Seq<Seq<char>>, total: nat, truncated: bool, prefer_full: bool) -> (
    Seq<Seq<char>>,
    Option<Seq<char>>,
) {
    let cut = prefer_full && lines.len() > INLINE_STREAM_MAX_LINES;
    let kept = if cut {
        lines.skip(lines.len() - INLINE_STREAM_MAX_LINES)
    } else {
        lines
    };
    let hidden: int = if (truncated || cut) && total > kept.len() {
        total - kept.len()
    } else {
        0
    };
    (kept, if kept.len() > 0 && hidden > 0 {
        Some(hidden_notice(hidden as nat, HiddenLinesNoticeKind::Generic))
    } else {
        None
    })
}

/// Chooses the shown lines of a stream section and its hidden-lines notice.
pub fn stream_lines_window(lines: Vec<String>, total: usize, truncated: bool, prefer_full: bool) -> (r: (
    Vec<String>,
    Option<String>,
))
    ensures
        string_views(r.0@) == stream_window(string_views(lines@), total as nat, truncated, prefer_full).0,
        opt_view(r.1) == stream_window(string_views(lines@), total as nat, truncated, prefer_full).1,
{
    let ghost ls = string_views(lines@);
    let cut = prefer_full && lines.len() > INLINE_STREAM_MAX_LINES;
    let kept = if cut {
        let start = lines.len() - INLINE_STREAM_MAX_LINES;
        let mut out: Vec<String> = Vec::new();
        let mut i: usize = start;
        while i < lines.len()
            invariant
                start <= i <= lines@.len(),
                ls == string_views(lines@),
                string_views(out@) == ls.subrange(start as int, i as int),
            decreases lines.len() - i,
        {
            out.push(lines[i].clone());
            assert(ls.subrange(start as int, i + 1) =~= ls.subrange(start as int, i as int).push(lines@[i as int]@));
            assert(string_views(out@) =~= ls.subrange(start as int, i + 1));
            i += 1;
        }
        assert(ls.subrange(start as int, i as int) =~= ls.skip(start as int));
        out
    } else {
        lines
    };
    let n = kept.len();
    let hidden: usize = if (truncated || cut) && total > n {
        total - n
    } else {
        0
    };
    let notice = if n > 0 && hidden > 0 {
        Some(hidden_lines_notice(hidden, HiddenLinesNoticeKind::Generic))
    } else {
        None
    };
    (kept, notice)
}

// ---------------------------------------------------------------------------
// Display width
// ---------------------------------------------------------------------------

/// What `UnicodeWidthChar::width` gives for a character.
pub uninterp spec fn unicode_char_width(c: char) -> Option<usize>;

/// `unicode_width::UnicodeWidthChar::width`: the columns a character takes,
/// or nothing for a control character. The result is named by
/// `unicode_char_width`; stated besides, as the crate's source gives it:
/// printable ASCII takes one column, the C0 and C1 control codes (and DEL)
/// have no width, and every character from U+00A0 on has one. The widths of
/// the characters from U+00A0 on come from the crate's Unicode tables and
/// are left unstated.
#[verifier::external_body]
fn char_width(c: char) -> (r: Option<usize>)
    ensures
        r == unicode_char_width(c),
        0x20 <= (c as u32) < 0x7F ==> r == Some(1usize),
        (c as u32) < 0x20 || 0x7F <= (c as u32) < 0xA0 ==> r is None,
        0xA0 <= (c as u32) ==> r is Some,
{
    unicode_width::UnicodeWidthChar::width(c)
}

/// The columns a character takes in a diff pane: its width, one for a
/// control character. Every character below U+00A0 (printable ASCII, or a
/// control code) takes one column; the others take their Unicode width.
pub open spec fn cell_width(c: char) -> nat {
    if (c as u32) < 0xA0 {
        1
    } else {
        match unicode_char_width(c) {
            Some(w) => w as nat,
            None => 1,
        }
    }
}

/// The longest start of `s` whose characters fit in `budget` columns,
/// stopping at the first character that does not fit.
pub open spec fn fitting_prefix(s: Seq<char>, budget: int) -> Seq<char>
    decreases s.len(),
{
    if s.len() == 0 || cell_width(s[0]) > budget {
        seq![]
    } else {
        seq![s[0]] + fitting_prefix(s.drop_first(), budget - cell_width(s[0]))
    }
}

/// `text` cut to at most `max_width` columns, without an ellipsis.
pub open spec fn truncated_to_width(text: Seq<char>, max_width: nat) -> Seq<char> {
    if max_width == 0 {
        seq![]
    } else {
        fitting_prefix(text, max_width as int)
    }
}

/// Truncates `text` to at most `max_width` display columns, with no marker.
pub fn truncate_chars_to_width(text: &str, max_width: usize) -> (r: String)
    ensures
        r@ == truncated_to_width(text@, max_width as nat),
{
    if max_width == 0 {
        return String::new();
    }
    let s = chars_of(text);
    let mut out: Vec<char> = Vec::new();
    let mut used: usize = 0;
    let mut i: usize = 0;
    assert(s@.skip(0) =~= s@);
    while i < s.len()
        invariant_except_break
            i <= s@.len(),
            used <= max_width,
            fitting_prefix(s@, max_width as int) == out@ + fitting_prefix(s@.skip(i as int), max_width - used),
        ensures
            fitting_prefix(s@, max_width as int) == out@,
        decreases s.len() - i,
    {
        let c = s[i];
        let w: usize = match char_width(c) {
            Some(w) => w,
            None => 1,
        };
        let ghost rest = s@.skip(i as int);
        assert(rest[0] == c);
        assert(rest.drop_first() =~= s@.skip(i + 1));
        if w > max_width - used {
            assert(out@ + Seq::<char>::empty() =~= out@);
            break;
        }
        out.push(c);
        used += w;
        assert(out@ =~= out@.drop_last() + seq![c]);
        i += 1;
    }
    proof {
        if i == s.len() {
            assert(s@.skip(i as int).len() == 0);
            assert(out@ + Seq::<char>::empty() =~= out@);
        }
    }
    string_from(&out)
}

// ---------------------------------------------------------------------------
// Diff rows
// ---------------------------------------------------------------------------

/// The widest a previewed line may be, in columns.
pub const MAX_LINE_LENGTH: usize = 150;

/// What a line of a rendered diff is.
#[derive(Debug, Clone, Copy, PartialEq, Eq, Structural)]
pub enum DiffRowKind {
    Addition,
    Deletion,
    Context,
    Metadata,
    HunkHeader,
}

/// How a diff line is laid out.
#[derive(Debug, Clone, Copy, PartialEq, Eq, Structural)]
pub enum DiffRowPlan {
    /// Metadata or a hunk header: its numbered text, cut with `...` to
    /// `max_width` columns when it is wider.
    Banner { max_width: usize },
    /// An added, deleted or context line: the gutter's marker and line
    /// number, the columns the gutter takes, the columns left for the
    /// content, whether the content is cut with `...` to them, and whether
    /// the changed words are highlighted.
    Body {
        marker: char,
        line_number: usize,
        prefix_width: usize,
        content_width: usize,
        truncate: bool,
        word_chips: bool,
    },
}

/// The columns a row may take: the measured width when there is one, never
/// more than `MAX_LINE_LENGTH`.
pub open spec fn row_max_width(target_width: Option<usize>) -> nat {
    match target_width {
        Some(w) => if w < MAX_LINE_LENGTH {
            w as nat
        } else {
            MAX_LINE_LENGTH as nat
        },
        None => MAX_LINE_LENGTH as nat,
    }
}

/// The layout of a diff line. `text_width` is the display width of its
/// text and `text_empty` whether the text is empty (an empty line is shown
/// as one blank). The gutter is the marker, the line number right-aligned
/// in `line_number_width` columns and ` │ `; a compact row has one blank
/// cell instead. The number is the new line's for an addition, the old
/// line's for a deletion, and either (the new first) for context, zero when
/// there is none. Changed words are highlighted only on an added or deleted
/// line that was not cut.
pub open spec fn diff_row_plan_of(
    kind: DiffRowKind,
    old_line: Option<usize>,
    new_line: Option<usize>,
    text_width: nat,
    text_empty: bool,
    line_number_width: nat,
    target_width: Option<usize>,
    show_gutter: bool,
) -> DiffRowPlan {
    let max_width = row_max_width(target_width);
    match kind {
        DiffRowKind::Metadata | DiffRowKind::HunkHeader => DiffRowPlan::Banner { max_width: max_width as usize },
        _ => {
            let marker = match kind {
                DiffRowKind::Addition => '+',
                DiffRowKind::Deletion => '-',
                _ => ' ',
            };
            let number = match kind {
                DiffRowKind::Addition => new_line,
                DiffRowKind::Deletion => old_line,
                _ => if new_line is Some {
                    new_line
                } else {
                    old_line
                },
            };
            let prefix_width: nat = if show_gutter {
                4 + line_number_width
            } else {
                1
            };
            let content_width: nat = if max_width > prefix_width {
                (max_width - prefix_width) as nat
            } else {
                0
            };
            let content_cols: nat = if text_empty {
                1
            } else {
                text_width
            };
            let truncate = content_cols > content_width;
            DiffRowPlan::Body {
                marker,
                line_number: match number {
                    Some(n) => n,
                    None => 0,
                },
                prefix_width: prefix_width as usize,
                content_width: content_width as usize,
                truncate,
                word_chips: kind != DiffRowKind::Context && !truncate,
            }
        },
    }
}

/// Lay out a line of a rendered diff: the banner width of a metadata or
/// hunk-header line, or the gutter and content widths of a body line.
pub fn diff_row_plan(
    kind: DiffRowKind,
    old_line: Option<usize>,
    new_line: Option<usize>,
    text_width: usize,
    text_empty: bool,
    line_number_width: usize,
    target_width: Option<usize>,
    show_gutter: bool,
) -> (r: DiffRowPlan)
    requires
        line_number_width <= usize::MAX - 4,
    ensures
        r == diff_row_plan_of(
            kind,
            old_line,
            new_line,
            text_width as nat,
            text_empty,
            line_number_width as nat,
            target_width,
            show_gutter,
        ),
{
    let max_width: usize = match target_width {
        Some(w) => if w < MAX_LINE_LENGTH {
            w
        } else {
            MAX_LINE_LENGTH
        },
        None => MAX_LINE_LENGTH,
    };
    match kind {
        DiffRowKind::Metadata | DiffRowKind::HunkHeader => {
            return DiffRowPlan::Banner { max_width };
        },
        _ => {},
    }
    let marker = match kind {
        DiffRowKind::Addition => '+',
        DiffRowKind::Deletion => '-',
        _ => ' ',
    };
    let number = match kind {
        DiffRowKind::Addition => new_line,
        DiffRowKind::Deletion => old_line,
        _ => if new_line.is_some() {
            new_line
        } else {
            old_line
        },
    };
    let prefix_width: usize = if show_gutter {
        4 + line_number_width
    } else {
        1
    };
    let content_width: usize = if max_width > prefix_width {
        max_width - prefix_width
    } else {
        0
    };
    let content_cols: usize = if text_empty {
        1
    } else {
        text_width
    };
    let truncate = content_cols > content_width;
    let is_context = match kind {
        DiffRowKind::Context => true,
        _ => false,
    };
    DiffRowPlan::Body {
        marker,
        line_number: match number {
            Some(n) => n,
            None => 0,
        },
        prefix_width,
        content_width,
        truncate,
        word_chips: !is_context && !truncate,
    }
}

// ---------------------------------------------------------------------------
// Routing a tool's output
// ---------------------------------------------------------------------------

/// What a finished tool call looks like to the renderer.
#[derive(Debug, Clone, Copy, PartialEq, Eq, Structural)]
pub struct ToolOutputFacts {
    /// The renderer has the inline UI.
    pub inline_ui: bool,
    /// The tool streamed its output into a live PTY block.
    pub streams_pty: bool,
    /// The call runs a command.
    pub command_output_call: bool,
    /// The output is a git diff.
    pub git_diff_payload: bool,
    /// The output names a spool file.
    pub has_spool_path: bool,
    /// Some output stream has non-blank text.
    pub has_renderable_content: bool,
    /// Tools are shown compactly.
    pub compact_display: bool,
}

/// Whether the complete capture of a command is loaded for the viewer: on
/// the inline UI, for a command that streamed live or was spooled.
pub open spec fn needs_complete_capture_spec(f: ToolOutputFacts) -> bool {
    f.inline_ui && f.command_output_call && ((f.inline_ui && f.streams_pty) || f.has_spool_path)
}

/// Whether to load the complete capture of a command's output.
pub fn needs_complete_capture(f: ToolOutputFacts) -> (b: bool)
    ensures
        b == needs_complete_capture_spec(f),
{
    f.inline_ui && f.command_output_call && ((f.inline_ui && f.streams_pty) || f.has_spool_path)
}

/// Which lines the tool-output viewer records.
#[derive(Debug, Clone, Copy, PartialEq, Eq, Structural)]
pub enum ViewerLines {
    /// Nothing.
    Nothing,
    /// The merged block built from the complete capture.
    MergedCapture,
    /// The merged block with no captured text (the capture is unavailable).
    MergedEmpty,
    /// The pipe view of the output's streams.
    Pipe,
}

/// What to do with a finished tool call's output.
#[derive(Debug, Clone, Copy, PartialEq, Eq, Structural)]
pub struct ToolOutputPlan {
    pub record_summary_line: bool,
    pub viewer: ViewerLines,
    pub show_critical_note: bool,
    pub show_no_output: bool,
    pub show_completion: bool,
    pub render_summary_header: bool,
    pub render_full_output: bool,
}

/// The plan for a tool's output. A command that streamed live (and is no
/// git diff) only gets its transcript summary, its viewer lines, its
/// critical note, and either `(no output)` (a silent success, unless
/// compact) or, when it needs attention, its completion line. Any other
/// output records the viewer lines of a command on the inline UI, shows the
/// summary header (not for a streamed git diff) and is rendered in full.
pub open spec fn tool_output_plan_spec(f: ToolOutputFacts, capture_loaded: bool, status: ToolDisplayStatus) -> ToolOutputPlan {
    let inline_run = f.inline_ui && f.streams_pty;
    let merged = if capture_loaded {
        ViewerLines::MergedCapture
    } else {
        ViewerLines::MergedEmpty
    };
    if inline_run && !f.git_diff_payload {
        let silent = !f.has_renderable_content && status == ToolDisplayStatus::Success;
        ToolOutputPlan {
            record_summary_line: true,
            viewer: if capture_loaded {
                ViewerLines::MergedCapture
            } else if f.has_spool_path {
                ViewerLines::MergedEmpty
            } else {
                ViewerLines::Pipe
            },
            show_critical_note: true,
            show_no_output: silent && !f.compact_display,
            show_completion: !silent && status != ToolDisplayStatus::Success,
            render_summary_header: false,
            render_full_output: false,
        }
    } else {
        ToolOutputPlan {
            record_summary_line: false,
            viewer: if f.inline_ui && f.command_output_call {
                if inline_run || f.has_spool_path {
                    merged
                } else {
                    ViewerLines::Pipe
                }
            } else {
                ViewerLines::Nothing
            },
            show_critical_note: false,
            show_no_output: false,
            show_completion: false,
            render_summary_header: !(inline_run && f.git_diff_payload),
            render_full_output: true,
        }
    }
}

/// Decides how a finished tool call's output is shown; `capture_loaded`
/// tells whether the complete capture was loaded.
pub fn tool_output_plan(f: ToolOutputFacts, capture_loaded: bool, status: ToolDisplayStatus) -> (r: ToolOutputPlan)
    ensures
        r == tool_output_plan_spec(f, capture_loaded, status),
{
    let inline_run = f.inline_ui && f.streams_pty;
    let success = match status {
        ToolDisplayStatus::Success => true,
        _ => false,
    };
    if inline_run && !f.git_diff_payload {
        let silent = !f.has_renderable_content && success;
        ToolOutputPlan {
            record_summary_line: true,
            viewer: if capture_loaded {
                ViewerLines::MergedCapture
            } else if f.has_spool_path {
                ViewerLines::MergedEmpty
            } else {
                ViewerLines::Pipe
            },
            show_critical_note: true,
            show_no_output: silent && !f.compact_display,
            show_completion: !silent && !success,
            render_summary_header: false,
            render_full_output: false,
        }
    } else {
        let viewer = if f.inline_ui && f.command_output_call {
            if inline_run || f.has_spool_path {
                if capture_loaded {
                    ViewerLines::MergedCapture
                } else {
                    ViewerLines::MergedEmpty
                }
            } else {
                ViewerLines::Pipe
            }
        } else {
            ViewerLines::Nothing
        };
        ToolOutputPlan {
            record_summary_line: false,
            viewer,
            show_critical_note: false,
            show_no_output: false,
            show_completion: false,
            render_summary_header: !(inline_run && f.git_diff_payload),
            render_full_output: true,
        }
    }
}

/// A completion line is shown only for a live-streamed command that needs
/// attention: never on success, and never beside `(no output)`; every
/// live-streamed command (no git diff) that did not succeed shows one.
/// `(no output)` is shown only for a successful command without output.
pub proof fn lemma_completion_only_when_attention(f: ToolOutputFacts, capture_loaded: bool, status: ToolDisplayStatus)
    ensures
        tool_output_plan_spec(f, capture_loaded, status).show_completion ==> status != ToolDisplayStatus::Success,
        tool_output_plan_spec(f, capture_loaded, status).show_completion ==> !tool_output_plan_spec(
            f,
            capture_loaded,
            status,
        ).show_no_output,
        f.inline_ui && f.streams_pty && !f.git_diff_payload && status != ToolDisplayStatus::Success
            ==> tool_output_plan_spec(f, capture_loaded, status).show_completion,
        tool_output_plan_spec(f, capture_loaded, status).show_no_output ==> status == ToolDisplayStatus::Success
            && !f.has_renderable_content,
{
}

/// How a stream section is rendered.
#[derive(Debug, Clone, Copy, PartialEq, Eq, Structural)]
pub enum StreamRoute {
    /// The head and tail preview of a command run.
    RunCommandPreview,
    /// Spooled output too large to preview: only where it went.
    SpooledTooLarge,
    /// Spooled output: where it went, with a head and tail preview.
    SpooledPreview,
    /// A diff block.
    Diff,
    /// The section's lines.
    Lines,
}

/// The route of a stream section: a command run gets its preview; spooled
/// output its notice (without preview above the size limit); a diff its
/// diff block; anything else its lines.
pub open spec fn stream_route_spec(is_run_command: bool, spooled: bool, byte_len: nat, looks_like_diff: bool) -> StreamRoute {
    if is_run_command {
        StreamRoute::RunCommandPreview
    } else if spooled {
        if byte_len > crate::spool::EXTREME_OUTPUT_THRESHOLD_MB {
            StreamRoute::SpooledTooLarge
        } else {
            StreamRoute::SpooledPreview
        }
    } else if looks_like_diff {
        StreamRoute::Diff
    } else {
        StreamRoute::Lines
    }
}

/// Chooses how a stream section is rendered; `spooled` tells whether the
/// output went to a spool file, `byte_len` is its size and `looks_like_diff`
/// whether its text (without escapes) reads as a diff.
pub fn stream_route(is_run_command: bool, spooled: bool, byte_len: usize, looks_like_diff: bool) -> (r: StreamRoute)
    ensures
        r == stream_route_spec(is_run_command, spooled, byte_len as nat, looks_like_diff),
{
    if is_run_command {
        StreamRoute::RunCommandPreview
    } else if spooled {
        if byte_len > crate::spool::EXTREME_OUTPUT_THRESHOLD_MB {
            StreamRoute::SpooledTooLarge
        } else {
            StreamRoute::SpooledPreview
        }
    } else if looks_like_diff {
        StreamRoute::Diff
    } else {
        StreamRoute::Lines
    }
}

} // verus!
