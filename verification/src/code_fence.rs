//! Fenced code blocks in model text: which byte ranges lie outside them,
//! searching only there, and extracting the blocks themselves.
//!
//! Offsets are byte offsets into the UTF-8 text, as `str` indexing uses.

use std::ops::Range;
use vstd::prelude::*;
use crate::text::{
    first_word, first_word_of, has_prefix, lower, split_lines, starts_with, string_from,
    to_ascii_lower, trim_end_in, trim_in, trim_start, trimmed_end_in, trimmed_in, trimmed_start,
    boundary_index, byte_len, chars_of, first_occurrence, find_first, incl_lines, join,
    lemma_byte_len_append, lemma_byte_len_prefix, lemma_incl_lines_join, lemma_join_split,
    run_length, run_of, split_inclusive_lines, sub_vec, trim, trimmed, utf8_len, views,
    char_index_at_byte, opt_nat,
};

verus! {

// ---------------------------------------------------------------------------
// Fence delimiter lines
// ---------------------------------------------------------------------------

pub open spec fn is_fence_char(c: char) -> bool {
    c == '`' || c == '~'
}

/// How `line` reads as a fence delimiter while `open` is the open fence's
/// character (if a fence is open): `Some((c, true))` closes the fence,
/// `Some((c, false))` opens one. An opener is three or more backticks or
/// tildes, optionally followed by an info string; a closer is three or more
/// of the open fence's character and nothing else. While a fence is open, a
/// line with an info string is body text.
pub open spec fn fence_kind(line: Seq<char>, open: Option<char>) -> Option<(char, bool)> {
    let t = trim(line);
    if t.len() == 0 || !is_fence_char(t[0]) {
        None
    } else {
        let first = t[0];
        let n = run_of(t, first, 0);
        if n < 3 {
            None
        } else if n < t.len() {
            if open is Some {
                None
            } else {
                Some((first, false))
            }
        } else {
            match open {
                Some(o) => if o == first {
                    Some((first, true))
                } else {
                    None
                },
                None => Some((first, false)),
            }
        }
    }
}

proof fn lemma_run_is_all_of(s: Seq<char>, c: char, i: int)
    requires
        0 <= i,
    ensures
        i + run_of(s, c, i) <= s.len() || run_of(s, c, i) == 0,
        forall|k: int| i <= k < i + run_of(s, c, i) ==> s[k] == c,
    decreases s.len() - i,
{
    if 0 <= i < s.len() && s[i] == c {
        lemma_run_is_all_of(s, c, i + 1);
    }
}

/// What a fence line may be. A line closes the open fence only when, apart
/// from surrounding whitespace, it is nothing but three or more of the open
/// fence's character; a line that opens a fence starts (after whitespace)
/// with three or more backticks or tildes, and opens one only while no
/// fence is open. So a line with an info string inside an open fence is
/// body text.
pub proof fn lemma_fence_lines(line: Seq<char>, open: Option<char>)
    ensures
        fence_kind(line, open) matches Some((c, true)) ==> {
            &&& open == Some(c)
            &&& is_fence_char(c)
            &&& trim(line).len() >= 3
            &&& forall|k: int| 0 <= k < trim(line).len() ==> #[trigger] trim(line)[k] == c
        },
        fence_kind(line, open) matches Some((c, false)) ==> {
            &&& open is None
            &&& is_fence_char(c)
            &&& trim(line).len() >= 3
            &&& forall|k: int| 0 <= k < 3 ==> #[trigger] trim(line)[k] == c
        },
{
    let t = trim(line);
    if t.len() > 0 && is_fence_char(t[0]) {
        lemma_run_is_all_of(t, t[0], 0);
    }
}

/// Classify a line as a fenced-code-block delimiter.
fn fence_delimiter_line(line: &[char], open_char: Option<char>) -> (r: Option<(char, bool)>)
    ensures
        r == fence_kind(line@, open_char),
{
    let t = trimmed(line);
    if t.len() == 0 {
        return None;
    }
    let first = t[0];
    if first != '`' && first != '~' {
        return None;
    }
    let count = run_length(&t, first, 0);
    if count < 3 {
        return None;
    }
    if count < t.len() {
        // Info string present: only valid as an opener.
        return match open_char {
            Some(_) => None,
            None => Some((first, false)),
        };
    }
    match open_char {
        Some(open) => if open == first {
            Some((first, true))
        } else {
            None
        },
        None => Some((first, false)),
    }
}

// ---------------------------------------------------------------------------
// Ranges outside fences
// ---------------------------------------------------------------------------

/// State of the scan over the lines: the open fence, where the current
/// unfenced segment began, the byte offset reached, and the ranges so far.
#[verifier::ext_equal]
pub struct FenceScan {
    pub open: Option<char>,
    pub seg: nat,
    pub cursor: nat,
    pub ranges: Seq<(nat, nat)>,
}

pub open spec fn push_nonempty(rs: Seq<(nat, nat)>, lo: nat, hi: nat) -> Seq<(nat, nat)> {
    if lo < hi {
        rs.push((lo, hi))
    } else {
        rs
    }
}

pub open spec fn fence_step(st: FenceScan, line: Seq<char>) -> FenceScan {
    let line_start = st.cursor;
    let cursor = st.cursor + byte_len(line);
    match fence_kind(line, st.open) {
        None => FenceScan { cursor, ..st },
        Some((c, closing)) => if closing {
            FenceScan { open: None, seg: cursor, cursor, ranges: st.ranges }
        } else if st.open is None {
            FenceScan {
                open: Some(c),
                seg: cursor,
                cursor,
                ranges: push_nonempty(st.ranges, st.seg, line_start),
            }
        } else {
            FenceScan { seg: cursor, cursor, ..st }
        },
    }
}

pub open spec fn fence_scan(ls: Seq<Seq<char>>) -> FenceScan
    decreases ls.len(),
{
    if ls.len() == 0 {
        FenceScan { open: None, seg: 0, cursor: 0, ranges: seq![] }
    } else {
        fence_step(fence_scan(ls.drop_last()), ls.last())
    }
}

/// The non-empty byte ranges of `text` outside fenced code blocks, in order.
/// Text after an unclosed fence is inside it.
pub open spec fn unfenced_ranges(text: Seq<char>) -> Seq<(nat, nat)> {
    let st = fence_scan(incl_lines(text));
    if st.open is None {
        push_nonempty(st.ranges, st.seg, byte_len(text))
    } else {
        st.ranges
    }
}

/// Non-empty ranges, in ascending order and disjoint.
pub open spec fn ordered_ranges(rs: Seq<(nat, nat)>) -> bool {
    &&& forall|i: int| 0 <= i < rs.len() ==> (#[trigger] rs[i]).0 < rs[i].1
    &&& forall|i: int, j: int| 0 <= i < j < rs.len() ==> (#[trigger] rs[i]).1 <= (#[trigger] rs[j]).0
}

pub open spec fn ranges_end_by(rs: Seq<(nat, nat)>, bound: nat) -> bool {
    forall|i: int| 0 <= i < rs.len() ==> (#[trigger] rs[i]).1 <= bound
}

proof fn lemma_push_ordered(rs: Seq<(nat, nat)>, lo: nat, hi: nat)
    requires
        ordered_ranges(rs),
        ranges_end_by(rs, lo),
    ensures
        ordered_ranges(push_nonempty(rs, lo, hi)),
        ranges_end_by(push_nonempty(rs, lo, hi), if lo < hi { hi } else { lo }),
{
    if lo < hi {
        let r = rs.push((lo, hi));
        assert forall|i: int| 0 <= i < r.len() implies (#[trigger] r[i]).0 < r[i].1 by {
            if i < rs.len() {
                assert(r[i] == rs[i]);
            }
        }
        assert forall|i: int, j: int| 0 <= i < j < r.len() implies (#[trigger] r[i]).1 <= (#[trigger] r[j]).0 by {
            assert(r[i] == rs[i]);
            if j < rs.len() {
                assert(r[j] == rs[j]);
            }
        }
        assert forall|i: int| 0 <= i < r.len() implies (#[trigger] r[i]).1 <= hi by {
            if i < rs.len() {
                assert(r[i] == rs[i]);
            }
        }
    }
}

proof fn lemma_fence_scan_ordered(ls: Seq<Seq<char>>)
    ensures
        ordered_ranges(fence_scan(ls).ranges),
        ranges_end_by(fence_scan(ls).ranges, fence_scan(ls).seg),
        fence_scan(ls).seg <= fence_scan(ls).cursor,
    decreases ls.len(),
{
    if ls.len() > 0 {
        lemma_fence_scan_ordered(ls.drop_last());
        let st = fence_scan(ls.drop_last());
        let line = ls.last();
        let cursor = st.cursor + byte_len(line);
        match fence_kind(line, st.open) {
            None => {},
            Some((c, closing)) => {
                if !closing && st.open is None {
                    lemma_push_ordered(st.ranges, st.seg, st.cursor);
                }
                let r = fence_scan(ls).ranges;
                assert forall|i: int| 0 <= i < r.len() implies (#[trigger] r[i]).1 <= cursor by {
                    if !closing && st.open is None {
                    } else {
                        assert(r[i] == st.ranges[i]);
                    }
                }
            },
        }
    }
}

/// The unfenced ranges of a text are non-empty, in ascending order and
/// disjoint, so the first match found in them is the least one.
pub proof fn lemma_unfenced_ranges_ordered(text: Seq<char>)
    ensures
        ordered_ranges(unfenced_ranges(text)),
{
    let st = fence_scan(incl_lines(text));
    lemma_fence_scan_ordered(incl_lines(text));
    if st.open is None {
        lemma_push_ordered(st.ranges, st.seg, byte_len(text));
    }
}

pub open spec fn range_views(v: Seq<Range<usize>>) -> Seq<(nat, nat)> {
    v.map_values(|r: Range<usize>| (r.start as nat, r.end as nat))
}

/// Byte ranges of `text` outside fenced code blocks.
///
/// Markup inside a fence is quoted documentation (skill docs, test fixtures,
/// echoed file content), not an executable call. Textual tool parsers only
/// consider unfenced regions.
pub fn unfenced_byte_ranges(text: &str) -> (ranges: Vec<Range<usize>>)
    requires
        byte_len(text@) <= usize::MAX,
    ensures
        range_views(ranges@) == unfenced_ranges(text@),
{
    let chars = chars_of(text);
    let lines = split_inclusive_lines(&chars);
    let ghost ls = views(lines@);
    let mut ranges: Vec<Range<usize>> = Vec::new();
    let mut open_char: Option<char> = None;
    let mut segment_start: usize = 0;
    let mut cursor: usize = 0;
    let mut k: usize = 0;
    proof {
        lemma_incl_lines_join(text@);
        assert(ls.take(0).len() == 0);
        assert(range_views(ranges@) =~= Seq::<(nat, nat)>::empty());
    }
    while k < lines.len()
        invariant
            ls == views(lines@),
            ls == incl_lines(text@),
            join(ls) == text@,
            byte_len(text@) <= usize::MAX,
            k <= lines@.len(),
            fence_scan(ls.take(k as int)) == (FenceScan {
                open: open_char,
                seg: segment_start as nat,
                cursor: cursor as nat,
                ranges: range_views(ranges@),
            }),
            cursor == byte_len(join(ls.take(k as int))),
        decreases lines.len() - k,
    {
        let line = &lines[k];
        let line_start = cursor;
        proof {
            lemma_join_split(ls, k + 1);
            lemma_byte_len_append(join(ls.take(k + 1)), join(ls.skip(k + 1)));
            assert(ls.take(k + 1).drop_last() == ls.take(k as int));
            assert(ls.take(k + 1).last() == line@);
            lemma_byte_len_append(join(ls.take(k as int)), line@);
            lemma_byte_len_prefix(line@, line@.len() as int);
            assert(line@.take(line@.len() as int) == line@);
        }
        let w = utf8_len(line);
        cursor = cursor + w;
        let ghost before = ranges@;
        match fence_delimiter_line(line, open_char) {
            None => {},
            Some((c, closing)) => {
                if closing {
                    open_char = None;
                } else if open_char.is_none() {
                    if segment_start < line_start {
                        ranges.push(segment_start..line_start);
                        assert(range_views(ranges@) =~= range_views(before).push(
                            (segment_start as nat, line_start as nat),
                        ));
                    }
                    open_char = Some(c);
                }
                segment_start = cursor;
            },
        }
        k += 1;
    }
    proof {
        assert(ls.take(k as int) == ls);
    }
    let ghost before = ranges@;
    if open_char.is_none() && segment_start < cursor {
        ranges.push(segment_start..cursor);
        assert(range_views(ranges@) =~= range_views(before).push(
            (segment_start as nat, cursor as nat),
        ));
    }
    ranges
}

// ---------------------------------------------------------------------------
// Searching outside fences
// ---------------------------------------------------------------------------

/// What `text[lo..hi].find(needle)` gives, as an offset into `text`: nothing
/// when the range is empty or does not fall on character boundaries.
pub open spec fn find_in_range(text: Seq<char>, needle: Seq<char>, lo: nat, hi: nat) -> Option<
    nat,
> {
    if lo >= hi {
        None
    } else {
        match (boundary_index(text, lo), boundary_index(text, hi)) {
            (Some(a), Some(b)) => if a <= b {
                match first_occurrence(text.subrange(a as int, b as int), needle) {
                    Some(j) => Some(lo + byte_len(text.subrange(a as int, a + j))),
                    None => None,
                }
            } else {
                None
            },
            _ => None,
        }
    }
}

pub open spec fn max_nat(a: nat, b: nat) -> nat {
    if a >= b {
        a
    } else {
        b
    }
}

/// The first range, in order, whose part at or after `from` holds `needle`.
pub open spec fn find_in_ranges(text: Seq<char>, needle: Seq<char>, from: nat, rs: Seq<(nat, nat)>) -> Option<
    nat,
>
    decreases rs.len(),
{
    if rs.len() == 0 {
        None
    } else {
        match find_in_range(text, needle, max_nat(rs[0].0, from), rs[0].1) {
            Some(x) => Some(x),
            None => find_in_ranges(text, needle, from, rs.drop_first()),
        }
    }
}

/// Next byte offset of `needle` at or after `from`, outside fenced code blocks.
pub fn find_unfenced_from(text: &str, needle: &str, from: usize) -> (r: Option<usize>)
    requires
        byte_len(text@) <= usize::MAX,
    ensures
        opt_nat(r) == find_in_ranges(text@, needle@, from as nat, unfenced_ranges(text@)),
{
    let ranges = unfenced_byte_ranges(text);
    let chars = chars_of(text);
    let needle_chars = chars_of(needle);
    let ghost rs = unfenced_ranges(text@);
    let mut i: usize = 0;
    assert(rs.skip(0) == rs);
    while i < ranges.len()
        invariant
            i <= ranges@.len(),
            range_views(ranges@) == rs,
            rs == unfenced_ranges(text@),
            chars@ == text@,
            needle_chars@ == needle@,
            byte_len(text@) <= usize::MAX,
            find_in_ranges(text@, needle@, from as nat, rs) == find_in_ranges(
                text@,
                needle@,
                from as nat,
                rs.skip(i as int),
            ),
        decreases ranges.len() - i,
    {
        let lo = if ranges[i].start >= from {
            ranges[i].start
        } else {
            from
        };
        let hi = ranges[i].end;
        let ghost tail = rs.skip(i as int);
        proof {
            assert(tail[0] == rs[i as int]);
            assert(tail.drop_first() == rs.skip(i + 1));
            assert(rs[i as int] == (ranges@[i as int].start as nat, ranges@[i as int].end as nat));
            assert(lo as nat == max_nat(tail[0].0, from as nat));
            assert(hi as nat == tail[0].1);
        }
        let found = find_in_byte_range(&chars, &needle_chars, lo, hi);
        if found.is_some() {
            assert(tail.len() > 0);
            assert(find_in_ranges(text@, needle@, from as nat, tail) == opt_nat(found));
            return found;
        }
        i += 1;
    }
    proof {
        assert(rs.skip(i as int).len() == 0);
    }
    None
}

/// `text[lo..hi].find(needle)`, as an offset into `text`.
fn find_in_byte_range(text: &[char], needle: &[char], lo: usize, hi: usize) -> (r: Option<usize>)
    requires
        byte_len(text@) <= usize::MAX,
    ensures
        opt_nat(r) == find_in_range(text@, needle@, lo as nat, hi as nat),
{
    if lo >= hi {
        return None;
    }
    let a = match char_index_at_byte(text, lo) {
        Some(a) => a,
        None => return None,
    };
    let b = match char_index_at_byte(text, hi) {
        Some(b) => b,
        None => return None,
    };
    if a > b {
        return None;
    }
    let slice = sub_vec(text, a, b);
    match find_first(&slice, needle) {
        Some(j) => {
            proof {
                assert(text@.subrange(a as int, a + j) == slice@.take(j as int));
                assert(text@.take(b as int) == text@.take(a as int) + slice@);
                lemma_byte_len_append(text@.take(a as int), slice@);
                lemma_byte_len_prefix(slice@, j as int);
                lemma_byte_len_prefix(text@, b as int);
            }
            let pre = sub_vec(&slice, 0, j);
            let off = utf8_len(&pre);
            Some(lo + off)
        },
        None => None,
    }
}

// ---------------------------------------------------------------------------
// Extracting fenced blocks
// ---------------------------------------------------------------------------

/// A fenced code block: its language tag, if any, and its body lines.
#[derive(Debug, Clone)]
pub struct CodeFenceBlock {
    pub language: Option<String>,
    pub lines: Vec<String>,
}

pub struct FenceBlockView {
    pub language: Option<Seq<char>>,
    pub lines: Seq<Seq<char>>,
}

pub open spec fn opt_string_view(o: Option<String>) -> Option<Seq<char>> {
    match o {
        Some(s) => Some(s@),
        None => None,
    }
}

pub open spec fn string_views(v: Seq<String>) -> Seq<Seq<char>> {
    v.map_values(|s: String| s@)
}

impl View for CodeFenceBlock {
    type V = FenceBlockView;

    open spec fn view(&self) -> FenceBlockView {
        FenceBlockView { language: opt_string_view(self.language), lines: string_views(self.lines@) }
    }
}

pub open spec fn block_views(v: Seq<CodeFenceBlock>) -> Seq<FenceBlockView> {
    v.map_values(|b: CodeFenceBlock| b@)
}

pub open spec fn quote_chars() -> Seq<char> {
    seq!['"', '\'', '`']
}

pub open spec fn cr_chars() -> Seq<char> {
    seq!['\r']
}

/// The language of a closed block: the tag without surrounding quotes or
/// whitespace, or none when nothing is left.
pub open spec fn closed_language(tag: Seq<char>) -> Option<Seq<char>> {
    let cleaned = trim(trim_in(tag, quote_chars()));
    if cleaned.len() == 0 {
        None
    } else {
        Some(cleaned)
    }
}

/// The tag an opening fence line records: its first word without quotes or
/// surrounding whitespace, in ASCII lowercase.
pub open spec fn opening_tag(rest: Seq<char>) -> Seq<char> {
    lower(trim(trim_in(first_word(rest), quote_chars())))
}

/// State of the block extraction: the open block's tag, its lines so far,
/// and the blocks closed so far.
#[verifier::ext_equal]
pub struct BlockScan {
    pub lang: Option<Seq<char>>,
    pub cur: Seq<Seq<char>>,
    pub blocks: Seq<FenceBlockView>,
}

pub open spec fn block_step(st: BlockScan, raw: Seq<char>) -> BlockScan {
    let ts = trim_start(raw);
    let body = BlockScan { cur: st.cur.push(trim_end_in(raw, cr_chars())), ..st };
    if starts_with(ts, "```"@) {
        let rest = trim(trim_in(ts.skip(3), cr_chars()));
        match st.lang {
            Some(tag) => if rest.len() == 0 {
                BlockScan {
                    lang: None,
                    cur: seq![],
                    blocks: st.blocks.push(FenceBlockView { language: closed_language(tag), lines: st.cur }),
                }
            } else {
                body
            },
            None => BlockScan { lang: Some(opening_tag(rest)), cur: seq![], blocks: st.blocks },
        }
    } else if st.lang is Some {
        body
    } else {
        st
    }
}

pub open spec fn block_scan(ls: Seq<Seq<char>>) -> BlockScan
    decreases ls.len(),
{
    if ls.len() == 0 {
        BlockScan { lang: None, cur: seq![], blocks: seq![] }
    } else {
        block_step(block_scan(ls.drop_last()), ls.last())
    }
}

/// The closed ```` ``` ```` blocks of `text`, in order; a block left open at
/// the end is dropped.
pub open spec fn code_fence_blocks(text: Seq<char>) -> Seq<FenceBlockView> {
    block_scan(crate::text::lines(text)).blocks
}

fn quote_set() -> (v: Vec<char>)
    ensures
        v@ == quote_chars(),
{
    vec!['"', '\'', '`']
}

fn cr_set() -> (v: Vec<char>)
    ensures
        v@ == cr_chars(),
{
    vec!['\r']
}

/// Extract the closed ```` ``` ```` code blocks of `text`, each with its
/// language tag and body lines.
pub fn extract_code_fence_blocks(text: &str) -> (blocks: Vec<CodeFenceBlock>)
    ensures
        block_views(blocks@) == code_fence_blocks(text@),
{
    let chars = chars_of(text);
    let lines = split_lines(&chars);
    let ghost ls = views(lines@);
    let quotes = quote_set();
    let crs = cr_set();
    let ticks = vec!['`', '`', '`'];
    let mut blocks: Vec<CodeFenceBlock> = Vec::new();
    let mut current_language: Option<Vec<char>> = None;
    let mut current_lines: Vec<String> = Vec::new();
    let mut k: usize = 0;
    proof {
        reveal_strlit("```");
        assert(ticks@ == "```"@);
        assert(ls.take(0).len() == 0);
        assert(block_views(blocks@) =~= Seq::<FenceBlockView>::empty());
        assert(string_views(current_lines@) =~= Seq::<Seq<char>>::empty());
    }
    while k < lines.len()
        invariant
            ls == views(lines@),
            ls == crate::text::lines(text@),
            k <= lines@.len(),
            quotes@ == quote_chars(),
            crs@ == cr_chars(),
            ticks@ == "```"@,
            ticks@.len() == 3,
            block_scan(ls.take(k as int)) == (BlockScan {
                lang: match current_language {
                    Some(v) => Some(v@),
                    None => None,
                },
                cur: string_views(current_lines@),
                blocks: block_views(blocks@),
            }),
        decreases lines.len() - k,
    {
        let raw_line = &lines[k];
        proof {
            assert(ls.take(k + 1).drop_last() == ls.take(k as int));
            assert(ls.take(k + 1).last() == raw_line@);
        }
        let ghost st = block_scan(ls.take(k as int));
        let trimmed_start_line = trimmed_start(raw_line);
        let mut handled = false;
        if has_prefix(&trimmed_start_line, &ticks) {
            let rest = sub_vec(&trimmed_start_line, 3, trimmed_start_line.len());
            let rest_clean = trimmed_in(&rest, &crs);
            let rest_trimmed = trimmed(&rest_clean);
            if current_language.is_some() {
                if rest_trimmed.len() == 0 {
                    let tag = match current_language {
                        Some(v) => v,
                        None => Vec::new(),
                    };
                    current_language = None;
                    let unquoted = trimmed_in(&tag, &quotes);
                    let cleaned = trimmed(&unquoted);
                    let language = if cleaned.len() == 0 {
                        None
                    } else {
                        Some(string_from(&cleaned))
                    };
                    let block_lines = current_lines;
                    current_lines = Vec::new();
                    let ghost before = blocks@;
                    blocks.push(CodeFenceBlock { language, lines: block_lines });
                    proof {
                        assert(block_views(blocks@) =~= block_views(before).push(blocks@.last()@));
                        assert(string_views(current_lines@) =~= Seq::<Seq<char>>::empty());
                    }
                    handled = true;
                }
            } else {
                let token = first_word_of(&rest_trimmed);
                let unquoted = trimmed_in(&token, &quotes);
                let normalized = trimmed(&unquoted);
                current_language = Some(to_ascii_lower(&normalized));
                current_lines = Vec::new();
                proof {
                    assert(string_views(current_lines@) =~= Seq::<Seq<char>>::empty());
                }
                handled = true;
            }
        }
        if !handled && current_language.is_some() {
            let body = trimmed_end_in(raw_line, &crs);
            let ghost before = current_lines@;
            current_lines.push(string_from(&body));
            proof {
                assert(string_views(current_lines@) =~= string_views(before).push(body@));
            }
        }
        k += 1;
    }
    proof {
        assert(ls.take(k as int) == ls);
    }
    blocks
}

} // verus!
