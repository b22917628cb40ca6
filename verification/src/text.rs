//! Character-level helpers shared by the text-processing modules.
//!
//! Text is modelled as `Seq<char>`, the view vstd gives to `str` and
//! `String`. The spec functions here state the std behaviour the modules
//! rely on (`char::is_whitespace`, `str::trim`, `str::lines`, ...); the exec
//! functions implement them and are proved against those statements.

use vstd::prelude::*;

verus! {

// ---------------------------------------------------------------------------
// Character classes
// ---------------------------------------------------------------------------

/// Unicode `White_Space`, the property `char::is_whitespace` tests.
pub open spec fn is_ws(c: char) -> bool {
    let v = c as u32;
    ||| 0x09 <= v <= 0x0D
    ||| v == 0x20
    ||| v == 0x85
    ||| v == 0xA0
    ||| v == 0x1680
    ||| 0x2000 <= v <= 0x200A
    ||| v == 0x2028
    ||| v == 0x2029
    ||| v == 0x202F
    ||| v == 0x205F
    ||| v == 0x3000
}

pub fn is_whitespace(c: char) -> (b: bool)
    ensures
        b == is_ws(c),
{
    let v = c as u32;
    (0x09 <= v && v <= 0x0D) || v == 0x20 || v == 0x85 || v == 0xA0 || v == 0x1680 || (0x2000 <= v
        && v <= 0x200A) || v == 0x2028 || v == 0x2029 || v == 0x202F || v == 0x205F || v == 0x3000
}

pub open spec fn is_ascii_digit(c: char) -> bool {
    '0' <= c <= '9'
}

pub open spec fn is_ascii_upper(c: char) -> bool {
    'A' <= c <= 'Z'
}

pub open spec fn is_ascii_lower(c: char) -> bool {
    'a' <= c <= 'z'
}

pub open spec fn is_ascii_alpha(c: char) -> bool {
    is_ascii_upper(c) || is_ascii_lower(c)
}

pub open spec fn is_ascii_alnum(c: char) -> bool {
    is_ascii_alpha(c) || is_ascii_digit(c)
}

/// `char::to_ascii_lowercase`.
pub open spec fn lower_char(c: char) -> char {
    if is_ascii_upper(c) {
        ((c as u32) + 32) as char
    } else {
        c
    }
}

/// `str::to_ascii_lowercase`.
pub open spec fn lower(s: Seq<char>) -> Seq<char> {
    s.map_values(|c: char| lower_char(c))
}

/// `str::eq_ignore_ascii_case`.
pub open spec fn eq_ignore_case(a: Seq<char>, b: Seq<char>) -> bool {
    lower(a) == lower(b)
}

pub fn char_is_ascii_digit(c: char) -> (b: bool)
    ensures
        b == is_ascii_digit(c),
{
    '0' <= c && c <= '9'
}

pub fn char_is_ascii_alpha(c: char) -> (b: bool)
    ensures
        b == is_ascii_alpha(c),
{
    ('A' <= c && c <= 'Z') || ('a' <= c && c <= 'z')
}

pub fn char_is_ascii_alnum(c: char) -> (b: bool)
    ensures
        b == is_ascii_alnum(c),
{
    char_is_ascii_alpha(c) || char_is_ascii_digit(c)
}

pub fn char_to_ascii_lower(c: char) -> (r: char)
    ensures
        r == lower_char(c),
{
    if 'A' <= c && c <= 'Z' {
        let v = (c as u32) + 32;
        assert(0x61 <= v <= 0x7A);
        char_from_ascii_code(v)
    } else {
        c
    }
}

/// A char from a code that is known to be ASCII.
pub fn char_from_ascii_code(v: u32) -> (c: char)
    requires
        v < 0x80,
    ensures
        c == v as char,
        c as u32 == v,
{
    let b = v as u8;
    b as char
}

// ---------------------------------------------------------------------------
// Owned copies and building
// ---------------------------------------------------------------------------

/// The characters of `s`, in order.
pub fn chars_of(s: &str) -> (out: Vec<char>)
    ensures
        out@ == s@,
{
    let mut out: Vec<char> = Vec::new();
    for c in it: s.chars()
        invariant
            out@ == it.seq().take(it.index() as int),
            it.seq() == s@,
    {
        out.push(c);
    }
    out
}

/// Appends one character (`String::push`).
#[verifier::external_body]
pub fn push_char(s: &mut String, c: char)
    ensures
        final(s)@ == old(s)@.push(c),
{
    s.push(c);
}

/// Appends a string slice (`String::push_str`).
#[verifier::external_body]
pub fn push_str(s: &mut String, t: &str)
    ensures
        final(s)@ == old(s)@ + t@,
{
    s.push_str(t);
}

/// A `String` holding exactly the given characters.
pub fn string_from(v: &[char]) -> (s: String)
    ensures
        s@ == v@,
{
    let mut s = String::new();
    let mut i: usize = 0;
    while i < v.len()
        invariant
            i <= v.len(),
            s@ == v@.take(i as int),
        decreases v.len() - i,
    {
        push_char(&mut s, v[i]);
        i += 1;
        assert(s@ == v@.take(i as int));
    }
    assert(v@.take(v.len() as int) == v@);
    s
}

/// Appends `src[lo..hi]` to `dst`.
pub fn extend_range(dst: &mut Vec<char>, src: &[char], lo: usize, hi: usize)
    requires
        lo <= hi <= src@.len(),
    ensures
        final(dst)@ == old(dst)@ + src@.subrange(lo as int, hi as int),
{
    let ghost start = dst@;
    let mut i = lo;
    while i < hi
        invariant
            lo <= i <= hi <= src@.len(),
            dst@ == start + src@.subrange(lo as int, i as int),
        decreases hi - i,
    {
        dst.push(src[i]);
        i += 1;
        assert(dst@ == start + src@.subrange(lo as int, i as int));
    }
}

/// `src[lo..hi]` as an owned vector.
pub fn sub_vec(src: &[char], lo: usize, hi: usize) -> (out: Vec<char>)
    requires
        lo <= hi <= src@.len(),
    ensures
        out@ == src@.subrange(lo as int, hi as int),
{
    let mut out: Vec<char> = Vec::new();
    extend_range(&mut out, src, lo, hi);
    assert(out@ == src@.subrange(lo as int, hi as int));
    out
}

/// Appends all of `src` to `dst`.
pub fn extend_all(dst: &mut Vec<char>, src: &[char])
    ensures
        final(dst)@ == old(dst)@ + src@,
{
    extend_range(dst, src, 0, src.len());
    assert(src@.subrange(0, src@.len() as int) == src@);
}

/// Appends the characters of a string slice to `dst`.
pub fn extend_str(dst: &mut Vec<char>, s: &str)
    ensures
        final(dst)@ == old(dst)@ + s@,
{
    let v = chars_of(s);
    extend_all(dst, &v);
}

/// The characters of `a` followed by those of `b`.
pub fn concat_str(a: &[char], b: &str) -> (out: Vec<char>)
    ensures
        out@ == a@ + b@,
{
    let mut out = sub_vec(a, 0, a.len());
    assert(a@.subrange(0, a@.len() as int) == a@);
    extend_str(&mut out, b);
    out
}

// ---------------------------------------------------------------------------
// Equality and prefixes
// ---------------------------------------------------------------------------

pub open spec fn starts_with(s: Seq<char>, p: Seq<char>) -> bool {
    p.len() <= s.len() && s.take(p.len() as int) == p
}

pub open spec fn ends_with(s: Seq<char>, p: Seq<char>) -> bool {
    p.len() <= s.len() && s.skip(s.len() - p.len()) == p
}

/// `p` occurs in `s` starting at position `i`.
pub open spec fn occurs_at(s: Seq<char>, p: Seq<char>, i: int) -> bool {
    0 <= i && i + p.len() <= s.len() && s.subrange(i, i + p.len()) == p
}

pub proof fn lemma_occurs_at_starts_with(s: Seq<char>, p: Seq<char>, i: int)
    requires
        0 <= i <= s.len(),
    ensures
        occurs_at(s, p, i) == starts_with(s.skip(i), p),
{
    if i + p.len() <= s.len() {
        assert(s.subrange(i, i + p.len()) == s.skip(i).take(p.len() as int));
    }
}

pub open spec fn contains_seq(s: Seq<char>, p: Seq<char>) -> bool {
    exists|i: int| occurs_at(s, p, i)
}

/// `s[i..]` starts with `p`.
pub fn matches_at(s: &[char], i: usize, p: &[char]) -> (b: bool)
    requires
        i <= s@.len(),
    ensures
        b == occurs_at(s@, p@, i as int),
{
    if p.len() > s.len() - i {
        return false;
    }
    let mut k: usize = 0;
    while k < p.len()
        invariant
            s@.len() <= usize::MAX,
            i + p@.len() <= s@.len(),
            k <= p@.len(),
            forall|j: int| 0 <= j < k ==> s@[i + j] == p@[j],
        decreases p.len() - k,
    {
        if s[i + k] != p[k] {
            assert(s@.subrange(i as int, i + p@.len())[k as int] != p@[k as int]);
            return false;
        }
        k += 1;
    }
    assert(s@.subrange(i as int, i + p@.len()) =~= p@);
    true
}

pub fn seq_eq(a: &[char], b: &[char]) -> (r: bool)
    ensures
        r == (a@ == b@),
{
    if a.len() != b.len() {
        return false;
    }
    let r = matches_at(a, 0, b);
    proof {
        if r {
            assert(a@.subrange(0, b@.len() as int) == a@);
        } else {
            assert(a@.subrange(0, b@.len() as int) == a@);
        }
    }
    r
}

/// `a` equals the string slice `b`.
pub fn eq_str(a: &[char], b: &str) -> (r: bool)
    ensures
        r == (a@ == b@),
{
    let bv = chars_of(b);
    seq_eq(a, &bv)
}

pub fn has_prefix(s: &[char], p: &[char]) -> (b: bool)
    ensures
        b == starts_with(s@, p@),
{
    matches_at(s, 0, p)
}

pub fn has_prefix_str(s: &[char], p: &str) -> (b: bool)
    ensures
        b == starts_with(s@, p@),
{
    let pv = chars_of(p);
    has_prefix(s, &pv)
}

pub fn has_suffix(s: &[char], p: &[char]) -> (b: bool)
    ensures
        b == ends_with(s@, p@),
{
    if p.len() > s.len() {
        return false;
    }
    let r = matches_at(s, s.len() - p.len(), p);
    proof {
        assert(s@.subrange(s@.len() - p@.len(), s@.len() as int) == s@.skip(s@.len() - p@.len()));
    }
    r
}

pub fn has_suffix_str(s: &[char], p: &str) -> (b: bool)
    ensures
        b == ends_with(s@, p@),
{
    let pv = chars_of(p);
    has_suffix(s, &pv)
}

/// The first position at or after `from` where `p` occurs in `s`.
pub fn find_from(s: &[char], p: &[char], from: usize) -> (r: Option<usize>)
    requires
        from <= s@.len(),
    ensures
        match r {
            Some(i) => from <= i && occurs_at(s@, p@, i as int) && forall|j: int|
                from <= j < i ==> !occurs_at(s@, p@, j),
            None => forall|j: int| from <= j ==> !occurs_at(s@, p@, j),
        },
{
    let mut i = from;
    while i <= s.len()
        invariant
            from <= i,
            forall|j: int| from <= j < i ==> !occurs_at(s@, p@, j),
        decreases s.len() + 1 - i,
    {
        if matches_at(s, i, p) {
            return Some(i);
        }
        if i == s.len() {
            assert forall|j: int| from <= j implies !occurs_at(s@, p@, j) by {
                if j > i {
                    assert(!(j + p@.len() <= s@.len()));
                }
            }
            return None;
        }
        i += 1;
    }
    None
}

/// The first position where `p` occurs in `s` (`str::find`).
pub fn find(s: &[char], p: &[char]) -> (r: Option<usize>)
    ensures
        match r {
            Some(i) => occurs_at(s@, p@, i as int) && forall|j: int|
                0 <= j < i ==> !occurs_at(s@, p@, j),
            None => !contains_seq(s@, p@),
        },
{
    find_from(s, p, 0)
}

pub fn find_str(s: &[char], p: &str) -> (r: Option<usize>)
    ensures
        match r {
            Some(i) => occurs_at(s@, p@, i as int) && forall|j: int|
                0 <= j < i ==> !occurs_at(s@, p@, j),
            None => !contains_seq(s@, p@),
        },
{
    let pv = chars_of(p);
    find(s, &pv)
}

pub fn contains_str(s: &[char], p: &str) -> (b: bool)
    ensures
        b == contains_seq(s@, p@),
{
    find_str(s, p).is_some()
}

/// The position of the first `c` in `s[from..]`, or `s.len()` when there is none.
pub fn index_of_char_from(s: &[char], c: char, from: usize) -> (r: usize)
    requires
        from <= s@.len(),
    ensures
        from <= r <= s@.len(),
        r < s@.len() ==> s@[r as int] == c,
        forall|j: int| from <= j < r ==> s@[j] != c,
{
    let mut i = from;
    while i < s.len()
        invariant
            from <= i <= s@.len(),
            forall|j: int| from <= j < i ==> s@[j] != c,
        decreases s.len() - i,
    {
        if s[i] == c {
            return i;
        }
        i += 1;
    }
    i
}

pub fn contains_char(s: &[char], c: char) -> (b: bool)
    ensures
        b == s@.contains(c),
{
    let i = index_of_char_from(s, c, 0);
    i < s.len()
}


/// The first position where `p` occurs in `s`, if any.
#[verifier::opaque]
pub open spec fn first_occurrence(s: Seq<char>, p: Seq<char>) -> Option<int> {
    if contains_seq(s, p) {
        Some(choose|i: int| occurs_at(s, p, i) && forall|j: int| 0 <= j < i ==> !occurs_at(s, p, j))
    } else {
        None
    }
}

pub proof fn lemma_first_occurrence(s: Seq<char>, p: Seq<char>, i: int)
    requires
        occurs_at(s, p, i),
        forall|j: int| 0 <= j < i ==> !occurs_at(s, p, j),
    ensures
        first_occurrence(s, p) == Some(i),
{
    reveal(first_occurrence);
    assert(contains_seq(s, p));
    let k = choose|k: int| occurs_at(s, p, k) && forall|j: int| 0 <= j < k ==> !occurs_at(s, p, j);
    assert(occurs_at(s, p, k) && forall|j: int| 0 <= j < k ==> !occurs_at(s, p, j));
    if k < i {
        assert(!occurs_at(s, p, k));
    }
    if i < k {
        assert(!occurs_at(s, p, i));
    }
}

/// `str::find`, stated through `first_occurrence`.
pub fn find_first(s: &[char], p: &[char]) -> (r: Option<usize>)
    ensures
        match r {
            Some(i) => first_occurrence(s@, p@) == Some(i as int) && i + p@.len() <= s@.len(),
            None => first_occurrence(s@, p@) is None,
        },
{
    let r = find(s, p);
    proof {
        if let Some(i) = r {
            lemma_first_occurrence(s@, p@, i as int);
        } else {
            reveal(first_occurrence);
        }
    }
    r
}

/// Removes the first `k` characters.
pub fn drop_front(v: &mut Vec<char>, k: usize)
    requires
        k <= old(v)@.len(),
    ensures
        final(v)@ == old(v)@.skip(k as int),
{
    let rest = sub_vec(v, k, v.len());
    *v = rest;
}

/// Where to cut `p` so that at least `keep` bytes stay behind: the largest
/// char count whose UTF-8 prefix ends at or before `byte_len(p) - keep`
/// (all of `p` when `keep` is 0, none of it when `p` is shorter than `keep`).
pub open spec fn holdback(p: Seq<char>, keep: nat) -> nat
    decreases p.len(),
{
    if p.len() == 0 || keep == 0 {
        p.len()
    } else if char_width(p.last()) >= keep {
        (p.len() - 1) as nat
    } else {
        holdback(p.drop_last(), (keep - char_width(p.last())) as nat)
    }
}

pub proof fn lemma_holdback_bound(p: Seq<char>, keep: nat)
    ensures
        holdback(p, keep) <= p.len(),
    decreases p.len(),
{
    if p.len() > 0 && keep > 0 && char_width(p.last()) < keep {
        lemma_holdback_bound(p.drop_last(), (keep - char_width(p.last())) as nat);
    }
}

// ---------------------------------------------------------------------------
// ASCII case
// ---------------------------------------------------------------------------

pub fn to_ascii_lower(s: &[char]) -> (out: Vec<char>)
    ensures
        out@ == lower(s@),
{
    let mut out: Vec<char> = Vec::new();
    let mut i: usize = 0;
    while i < s.len()
        invariant
            i <= s@.len(),
            out@ == lower(s@.take(i as int)),
        decreases s.len() - i,
    {
        let c = char_to_ascii_lower(s[i]);
        out.push(c);
        i += 1;
        assert(lower(s@.take(i as int)) =~= lower(s@.take(i - 1)).push(lower_char(s@[i - 1])));
    }
    assert(s@.take(s@.len() as int) == s@);
    out
}

pub fn eq_ignore_ascii_case(a: &[char], b: &[char]) -> (r: bool)
    ensures
        r == eq_ignore_case(a@, b@),
{
    let la = to_ascii_lower(a);
    let lb = to_ascii_lower(b);
    seq_eq(&la, &lb)
}

// ---------------------------------------------------------------------------
// Trimming (`str::trim`, `str::trim_start`, `str::trim_end`)
// ---------------------------------------------------------------------------

pub open spec fn trim_start(s: Seq<char>) -> Seq<char>
    decreases s.len(),
{
    if s.len() > 0 && is_ws(s[0]) {
        trim_start(s.drop_first())
    } else {
        s
    }
}

pub open spec fn trim_end(s: Seq<char>) -> Seq<char>
    decreases s.len(),
{
    if s.len() > 0 && is_ws(s.last()) {
        trim_end(s.drop_last())
    } else {
        s
    }
}

pub open spec fn trim(s: Seq<char>) -> Seq<char> {
    trim_end(trim_start(s))
}

pub proof fn lemma_trim_start_at(s: Seq<char>, i: int)
    requires
        0 <= i <= s.len(),
        forall|j: int| 0 <= j < i ==> is_ws(#[trigger] s[j]),
        i == s.len() || !is_ws(s[i]),
    ensures
        trim_start(s) == s.skip(i),
    decreases i,
{
    if i == 0 {
        assert(s.skip(0) == s);
    } else {
        let t = s.drop_first();
        assert forall|j: int| 0 <= j < i - 1 implies is_ws(#[trigger] t[j]) by {
            assert(t[j] == s[j + 1]);
        }
        lemma_trim_start_at(t, i - 1);
        assert(t.skip(i - 1) == s.skip(i));
    }
}

pub proof fn lemma_trim_end_at(s: Seq<char>, k: int)
    requires
        0 <= k <= s.len(),
        forall|j: int| k <= j < s.len() ==> is_ws(#[trigger] s[j]),
        k == 0 || !is_ws(s[k - 1]),
    ensures
        trim_end(s) == s.take(k),
    decreases s.len() - k,
{
    if k == s.len() {
        assert(s.take(k) == s);
    } else {
        let t = s.drop_last();
        assert forall|j: int| k <= j < t.len() implies is_ws(#[trigger] t[j]) by {
            assert(t[j] == s[j]);
        }
        lemma_trim_end_at(t, k);
        assert(t.take(k) == s.take(k));
    }
}

/// Bounds `(lo, hi)` such that `s[lo..hi]` is `s` with surrounding whitespace removed.
pub fn trim_bounds(s: &[char]) -> (r: (usize, usize))
    ensures
        r.0 <= r.1 <= s@.len(),
        s@.subrange(r.0 as int, r.1 as int) == trim(s@),
        s@.skip(r.0 as int) == trim_start(s@),
        s@.take(r.1 as int) == trim_end(s@) || r.0 == r.1,
{
    let mut lo: usize = 0;
    while lo < s.len() && is_whitespace(s[lo])
        invariant
            lo <= s@.len(),
            forall|j: int| 0 <= j < lo ==> is_ws(#[trigger] s@[j]),
        decreases s.len() - lo,
    {
        lo += 1;
    }
    proof {
        lemma_trim_start_at(s@, lo as int);
    }
    let mut hi: usize = s.len();
    while hi > lo && is_whitespace(s[hi - 1])
        invariant
            lo <= hi <= s@.len(),
            forall|j: int| hi <= j < s@.len() ==> is_ws(#[trigger] s@[j]),
        decreases hi,
    {
        hi -= 1;
    }
    proof {
        let t = s@.skip(lo as int);
        assert forall|j: int| hi - lo <= j < t.len() implies is_ws(#[trigger] t[j]) by {
            assert(t[j] == s@[lo + j]);
        }
        if hi > lo {
            assert(t[hi - lo - 1] == s@[hi - 1]);
        }
        lemma_trim_end_at(t, hi - lo);
        assert(t.take(hi - lo) == s@.subrange(lo as int, hi as int));
        if hi > lo {
            assert(!is_ws(s@[hi - 1]));
            lemma_trim_end_at(s@, hi as int);
        }
    }
    (lo, hi)
}

/// `str::trim`.
pub fn trimmed(s: &[char]) -> (out: Vec<char>)
    ensures
        out@ == trim(s@),
{
    let (lo, hi) = trim_bounds(s);
    sub_vec(s, lo, hi)
}

pub fn is_blank(s: &[char]) -> (b: bool)
    ensures
        b == (trim(s@).len() == 0),
{
    let (lo, hi) = trim_bounds(s);
    lo == hi
}

/// `str::trim_start`.
pub fn trimmed_start(s: &[char]) -> (out: Vec<char>)
    ensures
        out@ == trim_start(s@),
{
    let (lo, _hi) = trim_bounds(s);
    let out = sub_vec(s, lo, s.len());
    assert(out@ == s@.skip(lo as int));
    out
}

/// `str::trim_end`.
pub fn trimmed_end(s: &[char]) -> (out: Vec<char>)
    ensures
        out@ == trim_end(s@),
{
    let mut hi: usize = s.len();
    while hi > 0 && is_whitespace(s[hi - 1])
        invariant
            hi <= s@.len(),
            forall|j: int| hi <= j < s@.len() ==> is_ws(#[trigger] s@[j]),
        decreases hi,
    {
        hi -= 1;
    }
    proof {
        lemma_trim_end_at(s@, hi as int);
    }
    sub_vec(s, 0, hi)
}

// ---------------------------------------------------------------------------
// Lines (`str::lines`)
// ---------------------------------------------------------------------------

/// Position of the first `c` in `s`, or `s.len()` when absent.
pub open spec fn index_of(s: Seq<char>, c: char) -> int
    decreases s.len(),
{
    if s.len() == 0 {
        0
    } else if s[0] == c {
        0
    } else {
        1 + index_of(s.drop_first(), c)
    }
}

pub proof fn lemma_index_of(s: Seq<char>, c: char, i: int)
    requires
        0 <= i <= s.len(),
        forall|j: int| 0 <= j < i ==> s[j] != c,
        i == s.len() || s[i] == c,
    ensures
        index_of(s, c) == i,
    decreases i,
{
    if i > 0 {
        let t = s.drop_first();
        assert forall|j: int| 0 <= j < i - 1 implies t[j] != c by {
            assert(t[j] == s[j + 1]);
        }
        lemma_index_of(t, c, i - 1);
    }
}

/// A line without its `\r` terminator half.
pub open spec fn strip_cr(s: Seq<char>) -> Seq<char> {
    if s.len() > 0 && s.last() == '\r' {
        s.drop_last()
    } else {
        s
    }
}

/// `str::lines`: split at `\n` (dropping a `\r` right before it); no empty
/// final line after a terminating newline.
pub open spec fn lines(s: Seq<char>) -> Seq<Seq<char>>
    decreases s.len(),
{
    if s.len() == 0 {
        seq![]
    } else {
        let i = index_of(s, '\n');
        if i < s.len() {
            if 0 <= i {
                seq![strip_cr(s.take(i))] + lines(s.skip(i + 1))
            } else {
                seq![]
            }
        } else {
            seq![s]
        }
    }
}

pub proof fn lemma_index_of_bounds(s: Seq<char>, c: char)
    ensures
        0 <= index_of(s, c) <= s.len(),
        index_of(s, c) < s.len() ==> s[index_of(s, c)] == c,
        forall|j: int| 0 <= j < index_of(s, c) ==> s[j] != c,
    decreases s.len(),
{
    if s.len() > 0 && s[0] != c {
        let t = s.drop_first();
        lemma_index_of_bounds(t, c);
        assert forall|j: int| 0 <= j < index_of(s, c) implies s[j] != c by {
            if j > 0 {
                assert(s[j] == t[j - 1]);
            }
        }
    }
}

pub open spec fn views(v: Seq<Vec<char>>) -> Seq<Seq<char>> {
    v.map_values(|x: Vec<char>| x@)
}

/// `str::lines`, each line an owned vector.
pub fn split_lines(s: &[char]) -> (out: Vec<Vec<char>>)
    ensures
        views(out@) == lines(s@),
{
    let mut out: Vec<Vec<char>> = Vec::new();
    let mut pos: usize = 0;
    assert(s@.skip(0) == s@);
    assert(views(out@) + lines(s@) =~= lines(s@));
    while pos < s.len()
        invariant
            pos <= s@.len(),
            lines(s@) == views(out@) + lines(s@.skip(pos as int)),
        decreases s.len() - pos,
    {
        let ghost rest = s@.skip(pos as int);
        let nl = index_of_char_from(s, '\n', pos);
        proof {
            assert forall|j: int| 0 <= j < nl - pos implies rest[j] != '\n' by {
                assert(rest[j] == s@[pos + j]);
            }
            if nl < s.len() {
                assert(rest[nl - pos] == s@[nl as int]);
            }
            lemma_index_of(rest, '\n', nl - pos);
        }
        let old_out = Ghost(out@);
        if nl < s.len() {
            let mut end = nl;
            if end > pos && s[end - 1] == '\r' {
                end -= 1;
            }
            let line = sub_vec(s, pos, end);
            proof {
                assert(rest.take(nl - pos) == s@.subrange(pos as int, nl as int));
                assert(line@ == strip_cr(rest.take(nl - pos)));
                assert(rest.skip(nl - pos + 1) == s@.skip(nl + 1));
            }
            out.push(line);
            pos = nl + 1;
            assert(views(out@) == views(old_out@).push(line@));
            assert(views(out@) =~= views(old_out@) + seq![line@]);
        } else {
            let line = sub_vec(s, pos, s.len());
            proof {
                assert(line@ == rest);
                assert(s@.skip(s@.len() as int).len() == 0);
            }
            out.push(line);
            pos = s.len();
            assert(views(out@) =~= views(old_out@) + seq![line@]);
        }
    }
    proof {
        assert(s@.skip(pos as int).len() == 0);
        assert(views(out@) + lines(s@.skip(pos as int)) =~= views(out@));
    }
    out
}

/// `str::lines().count()`.
pub fn line_count(s: &[char]) -> (n: usize)
    ensures
        n == lines(s@).len(),
{
    let v = split_lines(s);
    v.len()
}


// ---------------------------------------------------------------------------
// UTF-8 lengths
// ---------------------------------------------------------------------------

/// Bytes `c` takes in UTF-8 (`char::len_utf8`).
pub open spec fn char_width(c: char) -> nat {
    let v = c as u32;
    if v <= 0x7F {
        1
    } else if v <= 0x7FF {
        2
    } else if v <= 0xFFFF {
        3
    } else {
        4
    }
}

/// Bytes `s` takes in UTF-8 (`str::len` of the text).
pub open spec fn byte_len(s: Seq<char>) -> nat
    decreases s.len(),
{
    if s.len() == 0 {
        0
    } else {
        char_width(s[0]) + byte_len(s.drop_first())
    }
}

pub fn utf8_width(c: char) -> (w: usize)
    ensures
        w == char_width(c),
        1 <= w <= 4,
{
    let v = c as u32;
    if v <= 0x7F {
        1
    } else if v <= 0x7FF {
        2
    } else if v <= 0xFFFF {
        3
    } else {
        4
    }
}

pub proof fn lemma_byte_len_append(a: Seq<char>, b: Seq<char>)
    ensures
        byte_len(a + b) == byte_len(a) + byte_len(b),
    decreases a.len(),
{
    if a.len() > 0 {
        assert((a + b).drop_first() == a.drop_first() + b);
        lemma_byte_len_append(a.drop_first(), b);
    } else {
        assert(a + b == b);
    }
}

pub proof fn lemma_byte_len_push(a: Seq<char>, c: char)
    ensures
        byte_len(a.push(c)) == byte_len(a) + char_width(c),
{
    assert(a.push(c) == a + seq![c]);
    lemma_byte_len_append(a, seq![c]);
    assert(seq![c].drop_first().len() == 0);
    assert(byte_len(seq![c].drop_first()) == 0);
    assert(byte_len(seq![c]) == char_width(c));
}

/// The UTF-8 length here is the length of vstd's encoding, so it is the
/// `len()` of a `str` whose view is `s`.
pub proof fn lemma_byte_len_encoded(s: Seq<char>)
    ensures
        byte_len(s) == vstd::utf8::encode_utf8(s).len(),
    decreases s.len(),
{
    if s.len() > 0 {
        lemma_byte_len_encoded(s.drop_first());
        let v = s[0] as u32;
        vstd::utf8::char_is_scalar(s[0]);
        if v <= 0x7F {
            assert(vstd::utf8::has_width_1_encoding(v));
        } else if v <= 0x7FF {
            assert(vstd::utf8::has_width_2_encoding(v));
        } else if v <= 0xFFFF {
            assert(vstd::utf8::has_width_3_encoding(v));
        } else {
            assert(vstd::utf8::has_width_4_encoding(v));
        }
        assert(vstd::utf8::encode_scalar(v).len() == char_width(s[0]));
    }
}



/// `str::split_inclusive('\n')`: pieces ending in `\n` (the last may not).
pub open spec fn incl_lines(s: Seq<char>) -> Seq<Seq<char>>
    decreases s.len(),
{
    if s.len() == 0 {
        seq![]
    } else {
        let i = index_of(s, '\n');
        if 0 <= i < s.len() {
            seq![s.take(i + 1)] + incl_lines(s.skip(i + 1))
        } else {
            seq![s]
        }
    }
}

/// `str::split_inclusive('\n')`, each piece an owned vector.
pub fn split_inclusive_lines(s: &[char]) -> (out: Vec<Vec<char>>)
    ensures
        views(out@) == incl_lines(s@),
{
    let mut out: Vec<Vec<char>> = Vec::new();
    let mut pos: usize = 0;
    assert(s@.skip(0) == s@);
    assert(views(out@) + incl_lines(s@) =~= incl_lines(s@));
    while pos < s.len()
        invariant
            pos <= s@.len(),
            incl_lines(s@) == views(out@) + incl_lines(s@.skip(pos as int)),
        decreases s.len() - pos,
    {
        let ghost rest = s@.skip(pos as int);
        let nl = index_of_char_from(s, '\n', pos);
        proof {
            assert forall|j: int| 0 <= j < nl - pos implies rest[j] != '\n' by {
                assert(rest[j] == s@[pos + j]);
            }
            if nl < s.len() {
                assert(rest[nl - pos] == s@[nl as int]);
            }
            lemma_index_of(rest, '\n', nl - pos);
        }
        let old_out = Ghost(out@);
        let end = if nl < s.len() { nl + 1 } else { s.len() };
        let line = sub_vec(s, pos, end);
        proof {
            if nl < s.len() {
                assert(rest.take(nl - pos + 1) == s@.subrange(pos as int, end as int));
                assert(rest.skip(nl - pos + 1) == s@.skip(end as int));
            } else {
                assert(line@ == rest);
                assert(s@.skip(s@.len() as int).len() == 0);
            }
        }
        out.push(line);
        pos = end;
        assert(views(out@) =~= views(old_out@) + seq![line@]);
    }
    proof {
        assert(s@.skip(pos as int).len() == 0);
        assert(views(out@) + incl_lines(s@.skip(pos as int)) =~= views(out@));
    }
    out
}

/// A piece of `split_inclusive` without its `\n`.
pub open spec fn strip_nl(s: Seq<char>) -> Seq<char> {
    if s.len() > 0 && s.last() == '\n' {
        s.drop_last()
    } else {
        s
    }
}

pub fn without_newline(s: &[char]) -> (out: Vec<char>)
    ensures
        out@ == strip_nl(s@),
{
    if s.len() > 0 && s[s.len() - 1] == '\n' {
        sub_vec(s, 0, s.len() - 1)
    } else {
        let out = sub_vec(s, 0, s.len());
        assert(out@ == s@);
        out
    }
}

/// Length of the run of `c` starting at `i`.
pub open spec fn run_of(s: Seq<char>, c: char, i: int) -> nat
    decreases s.len() - i,
{
    if 0 <= i < s.len() && s[i] == c {
        1 + run_of(s, c, i + 1)
    } else {
        0
    }
}

pub fn run_length(s: &[char], c: char, i: usize) -> (n: usize)
    requires
        i <= s@.len(),
    ensures
        n == run_of(s@, c, i as int),
        i + n <= s@.len(),
{
    let mut j = i;
    while j < s.len() && s[j] == c
        invariant
            i <= j <= s@.len(),
            run_of(s@, c, i as int) == (j - i) + run_of(s@, c, j as int),
        decreases s.len() - j,
    {
        j += 1;
    }
    j - i
}

// ---------------------------------------------------------------------------
// Decimal numbers
// ---------------------------------------------------------------------------

pub open spec fn digit_char(d: nat) -> char
    recommends
        d < 10,
{
    ((d + 48) as u32) as char
}

/// Decimal digits of `n` (what `{}` prints for an unsigned integer).
pub open spec fn dec(n: nat) -> Seq<char>
    decreases n,
{
    if n < 10 {
        seq![digit_char(n)]
    } else {
        dec(n / 10).push(digit_char(n % 10))
    }
}

fn digit(d: usize) -> (c: char)
    requires
        d < 10,
    ensures
        c == digit_char(d as nat),
{
    char_from_ascii_code((d as u32) + 48)
}

/// Appends the decimal digits of `n`.
pub fn push_dec(out: &mut Vec<char>, n: usize)
    ensures
        final(out)@ == old(out)@ + dec(n as nat),
    decreases n,
{
    if n >= 10 {
        push_dec(out, n / 10);
    }
    out.push(digit(n % 10));
    proof {
        if n >= 10 {
            assert(dec(n as nat) == dec((n / 10) as nat).push(digit_char((n % 10) as nat)));
        } else {
            assert(dec(n as nat) == seq![digit_char(n as nat)]);
        }
    }
}

/// Appends the decimal digits of a 64-bit `n`.
pub fn push_dec_u64(out: &mut Vec<char>, n: u64)
    ensures
        final(out)@ == old(out)@ + dec(n as nat),
    decreases n,
{
    if n >= 10 {
        push_dec_u64(out, n / 10);
    }
    out.push(char_from_ascii_code(((n % 10) as u32) + 48));
    proof {
        if n >= 10 {
            assert(dec(n as nat) == dec((n / 10) as nat).push(digit_char((n % 10) as nat)));
        } else {
            assert(dec(n as nat) == seq![digit_char(n as nat)]);
        }
    }
}

/// Appends the decimal digits of a 128-bit `n`.
pub fn push_dec_u128(out: &mut Vec<char>, n: u128)
    ensures
        final(out)@ == old(out)@ + dec(n as nat),
    decreases n,
{
    if n >= 10 {
        push_dec_u128(out, n / 10);
    }
    out.push(char_from_ascii_code(((n % 10) as u32) + 48));
    proof {
        if n >= 10 {
            assert(dec(n as nat) == dec((n / 10) as nat).push(digit_char((n % 10) as nat)));
        } else {
            assert(dec(n as nat) == seq![digit_char(n as nat)]);
        }
    }
}

/// Decimal digits of `n` with a leading `-` when negative (what `{}`
/// prints for a signed integer).
pub open spec fn signed_dec(n: int) -> Seq<char> {
    if n < 0 {
        seq!['-'] + dec((-n) as nat)
    } else {
        dec(n as nat)
    }
}

/// Appends the decimal form of a signed 64-bit `n`.
pub fn push_signed_dec(out: &mut Vec<char>, n: i64)
    ensures
        final(out)@ == old(out)@ + signed_dec(n as int),
{
    if n < 0 {
        out.push('-');
        let m: u64 = if n == i64::MIN {
            9223372036854775808u64
        } else {
            (-n) as u64
        };
        let ghost mid = out@;
        push_dec_u64(out, m);
        assert(out@ =~= old(out)@ + signed_dec(n as int));
    } else {
        push_dec_u64(out, n as u64);
    }
}

/// Appends the decimal digits of `n` to a `String`.
pub fn push_dec_string(out: &mut String, n: usize)
    ensures
        final(out)@ == old(out)@ + dec(n as nat),
{
    let mut v: Vec<char> = Vec::new();
    push_dec(&mut v, n);
    let s = string_from(&v);
    push_str(out, s.as_str());
}

// ---------------------------------------------------------------------------
// Joining pieces, and UTF-8 lengths of char vectors
// ---------------------------------------------------------------------------

/// The pieces of `ls` written one after another.
pub open spec fn join(ls: Seq<Seq<char>>) -> Seq<char>
    decreases ls.len(),
{
    if ls.len() == 0 {
        seq![]
    } else {
        join(ls.drop_last()) + ls.last()
    }
}

pub proof fn lemma_join_prepend(a: Seq<char>, r: Seq<Seq<char>>)
    ensures
        join(seq![a] + r) == a + join(r),
    decreases r.len(),
{
    if r.len() == 0 {
        assert(seq![a] + r == seq![a]);
        assert(seq![a].drop_last().len() == 0);
        assert(join(seq![a]) == join(seq![a].drop_last()) + a);
        assert(join(seq![a].drop_last()) == Seq::<char>::empty());
        assert(join(r) == Seq::<char>::empty());
        assert(a + Seq::<char>::empty() == a);
        assert(Seq::<char>::empty() + a == a);
    } else {
        let t = seq![a] + r;
        assert(t.drop_last() == seq![a] + r.drop_last());
        assert(t.last() == r.last());
        lemma_join_prepend(a, r.drop_last());
        assert(a + join(r.drop_last()) + r.last() == a + (join(r.drop_last()) + r.last()));
    }
}

/// The pieces before `k` followed by those from `k` make up the whole.
pub proof fn lemma_join_split(ls: Seq<Seq<char>>, k: int)
    requires
        0 <= k <= ls.len(),
    ensures
        join(ls) == join(ls.take(k)) + join(ls.skip(k)),
    decreases ls.len(),
{
    if k == ls.len() {
        assert(ls.take(k) == ls);
        assert(ls.skip(k).len() == 0);
        assert(join(ls) + Seq::<char>::empty() == join(ls));
    } else {
        let d = ls.drop_last();
        lemma_join_split(d, k);
        assert(d.take(k) == ls.take(k));
        assert(ls.skip(k).drop_last() == d.skip(k));
        assert(ls.skip(k).last() == ls.last());
        assert(join(ls.take(k)) + join(d.skip(k)) + ls.last() == join(ls.take(k)) + (join(
            d.skip(k),
        ) + ls.last()));
    }
}

/// The pieces of `split_inclusive('\n')` make up the text.
pub proof fn lemma_incl_lines_join(s: Seq<char>)
    ensures
        join(incl_lines(s)) == s,
    decreases s.len(),
{
    if s.len() == 0 {
        assert(incl_lines(s).len() == 0);
        assert(s == Seq::<char>::empty());
    } else {
        let i = index_of(s, '\n');
        lemma_index_of_bounds(s, '\n');
        if i < s.len() {
            let rest = s.skip(i + 1);
            lemma_incl_lines_join(rest);
            lemma_join_prepend(s.take(i + 1), incl_lines(rest));
            assert(s.take(i + 1) + rest == s);
        } else {
            assert(incl_lines(s) == seq![s]);
            lemma_join_prepend(s, Seq::<Seq<char>>::empty());
            assert(seq![s] + Seq::<Seq<char>>::empty() == seq![s]);
            assert(s + Seq::<char>::empty() == s);
        }
    }
}

/// The UTF-8 length of a prefix is at most that of the whole.
pub proof fn lemma_byte_len_prefix(s: Seq<char>, k: int)
    requires
        0 <= k <= s.len(),
    ensures
        byte_len(s.take(k)) + byte_len(s.skip(k)) == byte_len(s),
        byte_len(s.take(k)) <= byte_len(s),
{
    assert(s.take(k) + s.skip(k) == s);
    lemma_byte_len_append(s.take(k), s.skip(k));
}

/// Bytes the characters take in UTF-8.
pub fn utf8_len(s: &[char]) -> (n: usize)
    requires
        byte_len(s@) <= usize::MAX,
    ensures
        n == byte_len(s@),
{
    let mut n: usize = 0;
    let mut i: usize = 0;
    while i < s.len()
        invariant
            i <= s@.len(),
            byte_len(s@) <= usize::MAX,
            n == byte_len(s@.take(i as int)),
        decreases s.len() - i,
    {
        proof {
            assert(s@.take(i + 1) == s@.take(i as int).push(s@[i as int]));
            lemma_byte_len_push(s@.take(i as int), s@[i as int]);
            lemma_byte_len_prefix(s@, i + 1);
        }
        n = n + utf8_width(s[i]);
        i += 1;
    }
    assert(s@.take(i as int) == s@);
    n
}

/// The character index at which the UTF-8 prefix of `s` is `b` bytes long:
/// `b` is a character boundary of the text exactly when there is one.
pub open spec fn boundary_index(s: Seq<char>, b: nat) -> Option<nat>
    decreases s.len(),
{
    if b == 0 {
        Some(0)
    } else if s.len() == 0 || b < char_width(s[0]) {
        None
    } else {
        match boundary_index(s.drop_first(), (b - char_width(s[0])) as nat) {
            Some(k) => Some(k + 1),
            None => None,
        }
    }
}

pub open spec fn shift_index(o: Option<nat>, i: nat) -> Option<nat> {
    match o {
        Some(k) => Some(k + i),
        None => None,
    }
}

pub open spec fn opt_nat(o: Option<usize>) -> Option<nat> {
    match o {
        Some(k) => Some(k as nat),
        None => None,
    }
}

/// The character index of byte offset `b`, if `b` is a character boundary.
pub fn char_index_at_byte(s: &[char], b: usize) -> (r: Option<usize>)
    ensures
        opt_nat(r) == boundary_index(s@, b as nat),
        r matches Some(k) ==> k <= s@.len() && byte_len(s@.take(k as int)) == b,
{
    let mut i: usize = 0;
    let mut acc: usize = 0;
    assert(s@.skip(0) == s@);
    while i <= s.len()
        invariant
            i <= s@.len(),
            acc <= b,
            acc == byte_len(s@.take(i as int)),
            boundary_index(s@, b as nat) == shift_index(
                boundary_index(s@.skip(i as int), (b - acc) as nat),
                i as nat,
            ),
        decreases s.len() - i,
    {
        if acc == b {
            return Some(i);
        }
        if i == s.len() {
            assert(s@.skip(i as int).len() == 0);
            return None;
        }
        let w = utf8_width(s[i]);
        let ghost t = s@.skip(i as int);
        proof {
            assert(t[0] == s@[i as int]);
            assert(t.drop_first() == s@.skip(i + 1));
            assert(s@.take(i + 1) == s@.take(i as int).push(s@[i as int]));
            lemma_byte_len_push(s@.take(i as int), s@[i as int]);
        }
        if b - acc < w {
            return None;
        }
        acc = acc + w;
        i += 1;
    }
    None
}

// ---------------------------------------------------------------------------
// Trimming a set of characters (`str::trim_matches` and relatives)
// ---------------------------------------------------------------------------

/// `s` without its leading characters that are in `set`.
pub open spec fn trim_start_in(s: Seq<char>, set: Seq<char>) -> Seq<char>
    decreases s.len(),
{
    if s.len() > 0 && set.contains(s[0]) {
        trim_start_in(s.drop_first(), set)
    } else {
        s
    }
}

/// `s` without its trailing characters that are in `set`.
pub open spec fn trim_end_in(s: Seq<char>, set: Seq<char>) -> Seq<char>
    decreases s.len(),
{
    if s.len() > 0 && set.contains(s.last()) {
        trim_end_in(s.drop_last(), set)
    } else {
        s
    }
}

/// `str::trim_matches` with a set of characters.
pub open spec fn trim_in(s: Seq<char>, set: Seq<char>) -> Seq<char> {
    trim_end_in(trim_start_in(s, set), set)
}

/// `str::trim_start_matches` with a set of characters.
pub fn trimmed_start_in(s: &[char], set: &[char]) -> (out: Vec<char>)
    ensures
        out@ == trim_start_in(s@, set@),
{
    let mut lo: usize = 0;
    assert(s@.skip(0) == s@);
    while lo < s.len() && contains_char(set, s[lo])
        invariant
            lo <= s@.len(),
            trim_start_in(s@, set@) == trim_start_in(s@.skip(lo as int), set@),
        decreases s.len() - lo,
    {
        assert(s@.skip(lo as int).drop_first() == s@.skip(lo + 1));
        lo += 1;
    }
    sub_vec(s, lo, s.len())
}

/// `str::trim_end_matches` with a set of characters.
pub fn trimmed_end_in(s: &[char], set: &[char]) -> (out: Vec<char>)
    ensures
        out@ == trim_end_in(s@, set@),
{
    let mut hi: usize = s.len();
    assert(s@.take(s@.len() as int) == s@);
    while hi > 0 && contains_char(set, s[hi - 1])
        invariant
            hi <= s@.len(),
            trim_end_in(s@, set@) == trim_end_in(s@.take(hi as int), set@),
        decreases hi,
    {
        assert(s@.take(hi as int).drop_last() == s@.take(hi - 1));
        hi -= 1;
    }
    sub_vec(s, 0, hi)
}

/// `str::trim_matches` with a set of characters.
pub fn trimmed_in(s: &[char], set: &[char]) -> (out: Vec<char>)
    ensures
        out@ == trim_in(s@, set@),
{
    let a = trimmed_start_in(s, set);
    trimmed_end_in(&a, set)
}

/// Position of the first whitespace character in `s`, or `s.len()`.
pub open spec fn ws_index(s: Seq<char>) -> nat
    decreases s.len(),
{
    if s.len() == 0 || is_ws(s[0]) {
        0
    } else {
        1 + ws_index(s.drop_first())
    }
}

/// `str::split_whitespace().next().unwrap_or_default()`: the first word.
pub open spec fn first_word(s: Seq<char>) -> Seq<char> {
    let t = trim_start(s);
    t.take(ws_index(t) as int)
}

pub fn first_word_of(s: &[char]) -> (out: Vec<char>)
    ensures
        out@ == first_word(s@),
{
    let t = trimmed_start(s);
    let mut i: usize = 0;
    assert(t@.skip(0) == t@);
    while i < t.len() && !is_whitespace(t[i])
        invariant
            i <= t@.len(),
            ws_index(t@) == i + ws_index(t@.skip(i as int)),
        decreases t.len() - i,
    {
        assert(t@.skip(i as int).drop_first() == t@.skip(i + 1));
        i += 1;
    }
    proof {
        if i < t.len() {
            assert(t@.skip(i as int)[0] == t@[i as int]);
        } else {
            assert(t@.skip(i as int).len() == 0);
        }
    }
    sub_vec(&t, 0, i)
}

/// `str::split_whitespace`: the maximal runs of non-whitespace characters.
pub open spec fn words(s: Seq<char>) -> Seq<Seq<char>>
    decreases s.len(),
{
    let t = trim_start(s);
    if t.len() == 0 {
        seq![]
    } else {
        let n = ws_index(t);
        if 0 < n <= t.len() && t.len() <= s.len() {
            seq![t.take(n as int)] + words(t.skip(n as int))
        } else {
            seq![t]
        }
    }
}

pub proof fn lemma_ws_index_bounds(s: Seq<char>)
    ensures
        ws_index(s) <= s.len(),
        ws_index(s) < s.len() ==> is_ws(s[ws_index(s) as int]),
        forall|j: int| 0 <= j < ws_index(s) ==> !is_ws(#[trigger] s[j]),
    decreases s.len(),
{
    if s.len() > 0 && !is_ws(s[0]) {
        lemma_ws_index_bounds(s.drop_first());
        assert forall|j: int| 0 <= j < ws_index(s) implies !is_ws(#[trigger] s[j]) by {
            if j > 0 {
                assert(s[j] == s.drop_first()[j - 1]);
            }
        }
    }
}

pub proof fn lemma_trim_start_len(s: Seq<char>)
    ensures
        trim_start(s).len() <= s.len(),
        trim_start(s).len() > 0 ==> !is_ws(trim_start(s)[0]),
        trim_start(s) == s.skip(s.len() - trim_start(s).len()),
    decreases s.len(),
{
    if s.len() > 0 && is_ws(s[0]) {
        lemma_trim_start_len(s.drop_first());
        assert(s.drop_first().skip(s.drop_first().len() - trim_start(s).len()) == s.skip(
            s.len() - trim_start(s).len(),
        ));
    } else {
        assert(s.skip(0) == s);
    }
}

pub proof fn lemma_trim_end_len(s: Seq<char>)
    ensures
        trim_end(s).len() <= s.len(),
        trim_end(s) == s.take(trim_end(s).len() as int),
        trim_end(s).len() > 0 ==> !is_ws(trim_end(s).last()),
    decreases s.len(),
{
    if s.len() > 0 && is_ws(s.last()) {
        lemma_trim_end_len(s.drop_last());
        assert(s.drop_last().take(trim_end(s).len() as int) =~= s.take(trim_end(s).len() as int));
    } else {
        assert(s.take(s.len() as int) == s);
    }
}

/// Trimming a trimmed text changes nothing.
pub proof fn lemma_trim_idempotent(s: Seq<char>)
    ensures
        trim(trim(s)) == trim(s),
{
    let u = trim_start(s);
    let t = trim_end(u);
    lemma_trim_start_len(s);
    lemma_trim_end_len(u);
    if t.len() > 0 {
        assert(t[0] == u[0]);
        assert(trim_start(t) == t);
        assert(trim_end(t) == t);
    }
}

/// `str::split_whitespace`, each word an owned vector.
pub fn split_words(s: &[char]) -> (out: Vec<Vec<char>>)
    ensures
        views(out@) == words(s@),
{
    let mut out: Vec<Vec<char>> = Vec::new();
    let mut pos: usize = 0;
    proof {
        assert(s@.skip(0) == s@);
        assert(views(out@) + words(s@) =~= words(s@));
    }
    while pos < s.len()
        invariant
            pos <= s@.len(),
            words(s@) == views(out@) + words(s@.skip(pos as int)),
        ensures
            pos == s@.len(),
            words(s@) == views(out@) + words(s@.skip(pos as int)),
        decreases s.len() - pos,
    {
        let ghost rest = s@.skip(pos as int);
        let mut start = pos;
        while start < s.len() && is_whitespace(s[start])
            invariant
                pos <= start <= s@.len(),
                forall|j: int| pos <= j < start ==> is_ws(#[trigger] s@[j]),
            decreases s.len() - start,
        {
            start += 1;
        }
        proof {
            assert forall|j: int| 0 <= j < start - pos implies is_ws(#[trigger] rest[j]) by {
                assert(rest[j] == s@[pos + j]);
            }
            if start < s.len() {
                assert(rest[start - pos] == s@[start as int]);
            }
            lemma_trim_start_at(rest, start - pos);
            assert(rest.skip(start - pos) == s@.skip(start as int));
        }
        if start == s.len() {
            proof {
                assert(s@.skip(start as int).len() == 0);
                assert(views(out@) + words(rest) =~= views(out@));
            }
            pos = start;
            break;
        }
        let mut end = start;
        while end < s.len() && !is_whitespace(s[end])
            invariant
                start <= end <= s@.len(),
                forall|j: int| start <= j < end ==> !is_ws(#[trigger] s@[j]),
            decreases s.len() - end,
        {
            end += 1;
        }
        let ghost t = s@.skip(start as int);
        proof {
            lemma_ws_index_bounds(t);
            assert forall|j: int| 0 <= j < end - start implies !is_ws(#[trigger] t[j]) by {
                assert(t[j] == s@[start + j]);
            }
            if end < s.len() {
                assert(t[end - start] == s@[end as int]);
            }
            if ws_index(t) < end - start {
                assert(!is_ws(t[ws_index(t) as int]));
            }
            if ws_index(t) > end - start {
                assert(!is_ws(t[end - start]));
            }
            assert(ws_index(t) == end - start);
            assert(t.skip(end - start) == s@.skip(end as int));
            assert(t.take(end - start) == s@.subrange(start as int, end as int));
        }
        let word = sub_vec(s, start, end);
        let ghost before = out@;
        out.push(word);
        proof {
            assert(views(out@) =~= views(before).push(word@));
            assert(views(before) + (seq![word@] + words(s@.skip(end as int))) =~= views(out@) + words(
                s@.skip(end as int),
            ));
        }
        pos = end;
    }
    proof {
        assert(s@.skip(pos as int).len() == 0);
        assert(trim_start(s@.skip(pos as int)).len() == 0);
        assert(words(s@.skip(pos as int)) == Seq::<Seq<char>>::empty());
        assert(views(out@) + words(s@.skip(pos as int)) =~= views(out@));
    }
    out
}

/// The UTF-8 length of `s`, or `cap` when it is at least `cap`.
pub fn byte_len_capped(s: &[char], cap: u128) -> (n: u128)
    ensures
        n == (if byte_len(s@) < cap {
            byte_len(s@)
        } else {
            cap as nat
        }),
{
    if cap == 0 {
        return 0;
    }
    let mut acc: u128 = 0;
    let mut i: usize = 0;
    while i < s.len()
        invariant
            i <= s@.len(),
            acc < cap,
            acc == byte_len(s@.take(i as int)),
        decreases s.len() - i,
    {
        proof {
            assert(s@.take(i + 1) == s@.take(i as int).push(s@[i as int]));
            lemma_byte_len_push(s@.take(i as int), s@[i as int]);
            lemma_byte_len_prefix(s@, i + 1);
        }
        let w = utf8_width(s[i]) as u128;
        if w >= cap - acc {
            return cap;
        }
        acc = acc + w;
        i += 1;
    }
    assert(s@.take(i as int) == s@);
    if acc < cap { acc } else { cap }
}

/// `items` with `sep` between them (`[T]::join`).
pub open spec fn joined_with(items: Seq<Seq<char>>, sep: Seq<char>) -> Seq<char>
    decreases items.len(),
{
    if items.len() == 0 {
        seq![]
    } else if items.len() == 1 {
        items[0]
    } else {
        joined_with(items.drop_last(), sep) + sep + items.last()
    }
}

/// Joins the strings with `sep` between them.
pub fn join_strings(items: &Vec<String>, sep: &str) -> (r: String)
    ensures
        r@ == joined_with(items@.map_values(|s: String| s@), sep@),
{
    let ghost iv = items@.map_values(|s: String| s@);
    let mut out: Vec<char> = Vec::new();
    let mut i: usize = 0;
    proof {
        assert(iv.take(0).len() == 0);
    }
    while i < items.len()
        invariant
            i <= items@.len(),
            iv == items@.map_values(|s: String| s@),
            out@ == joined_with(iv.take(i as int), sep@),
        decreases items.len() - i,
    {
        proof {
            assert(iv.take(i + 1).drop_last() == iv.take(i as int));
            assert(iv.take(i + 1).last() == items@[i as int]@);
        }
        if i > 0 {
            extend_str(&mut out, sep);
        } else {
            assert(iv.take(1)[0] == items@[0]@);
            assert(out@ == Seq::<char>::empty());
        }
        extend_str(&mut out, items[i].as_str());
        i += 1;
    }
    assert(iv.take(i as int) == iv);
    string_from(&out)
}

} // verus!
