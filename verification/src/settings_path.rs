//! Paths into the settings document: `agent.provider`,
//! `commands.allow_list[1]`, `profiles["gpt-5.4"].temperature`.
//!
//! A path is a list of tokens, each a table key or an array index. Keys made
//! of ASCII letters, digits, `_` and `-` are written bare and joined by `.`;
//! other keys are written quoted in brackets with `\` and `"` escaped; an
//! index is written `[n]`.

use vstd::prelude::*;
use crate::text::{
    chars_of, dec, digit_char, extend_all, extend_str, index_of, is_ascii_alnum, is_ascii_digit,
    join, lemma_join_prepend, starts_with, string_from,
    sub_vec, char_is_ascii_alnum, char_is_ascii_digit, has_prefix_str, index_of_char_from,
    lemma_index_of,
};

verus! {

/// One step of a settings path.
#[derive(Debug, Clone)]
pub enum PathToken {
    Key(String),
    Index(usize),
}

pub enum PathTokenView {
    Key(Seq<char>),
    Index(nat),
}

impl View for PathToken {
    type V = PathTokenView;

    open spec fn view(&self) -> PathTokenView {
        match self {
            PathToken::Key(k) => PathTokenView::Key(k@),
            PathToken::Index(i) => PathTokenView::Index(*i as nat),
        }
    }
}

pub open spec fn token_views(v: Seq<PathToken>) -> Seq<PathTokenView> {
    v.map_values(|t: PathToken| t@)
}

/// Why a settings path does not parse.
#[derive(Debug, Clone)]
pub enum PathError {
    /// A quoted key's closing quote is not followed by `]`.
    QuotedKeyMissingBracket,
    /// A quoted key ends right after a `\`.
    DanglingEscape,
    /// A quoted key has no closing quote.
    MissingClosingQuote,
    /// A `[` has no matching `]`.
    MissingClosingBracket,
    /// The text between brackets is not an array index.
    InvalidArrayIndex(String),
}

pub enum PathErrorView {
    QuotedKeyMissingBracket,
    DanglingEscape,
    MissingClosingQuote,
    MissingClosingBracket,
    InvalidArrayIndex(Seq<char>),
}

impl View for PathError {
    type V = PathErrorView;

    open spec fn view(&self) -> PathErrorView {
        match self {
            PathError::QuotedKeyMissingBracket => PathErrorView::QuotedKeyMissingBracket,
            PathError::DanglingEscape => PathErrorView::DanglingEscape,
            PathError::MissingClosingQuote => PathErrorView::MissingClosingQuote,
            PathError::MissingClosingBracket => PathErrorView::MissingClosingBracket,
            PathError::InvalidArrayIndex(t) => PathErrorView::InvalidArrayIndex(t@),
        }
    }
}

pub open spec fn path_error_message(e: PathErrorView) -> Seq<char> {
    match e {
        PathErrorView::QuotedKeyMissingBracket => "Invalid quoted path key: missing closing bracket"@,
        PathErrorView::DanglingEscape => "Invalid quoted path key: dangling escape"@,
        PathErrorView::MissingClosingQuote => "Invalid quoted path key: missing closing quote"@,
        PathErrorView::MissingClosingBracket => "Invalid path: missing closing bracket"@,
        PathErrorView::InvalidArrayIndex(t) => "Invalid array index '"@ + t + "'"@,
    }
}

impl PathError {
    /// The error as shown to the user.
    pub fn message(&self) -> (m: String)
        ensures
            m@ == path_error_message(self@),
    {
        match self {
            PathError::QuotedKeyMissingBracket => "Invalid quoted path key: missing closing bracket".to_owned(),
            PathError::DanglingEscape => "Invalid quoted path key: dangling escape".to_owned(),
            PathError::MissingClosingQuote => "Invalid quoted path key: missing closing quote".to_owned(),
            PathError::MissingClosingBracket => "Invalid path: missing closing bracket".to_owned(),
            PathError::InvalidArrayIndex(t) => {
                let mut out = chars_of("Invalid array index '");
                extend_str(&mut out, t.as_str());
                extend_str(&mut out, "'");
                string_from(&out)
            },
        }
    }
}

// ---------------------------------------------------------------------------
// Array indices
// ---------------------------------------------------------------------------

pub open spec fn all_digits(d: Seq<char>) -> bool {
    forall|i: int| 0 <= i < d.len() ==> is_ascii_digit(#[trigger] d[i])
}

/// The number a string of decimal digits denotes.
pub open spec fn dec_value(d: Seq<char>) -> nat
    decreases d.len(),
{
    if d.len() == 0 {
        0
    } else {
        dec_value(d.drop_last()) * 10 + ((d.last() as u32) - 48) as nat
    }
}

/// `str::parse::<usize>`: an optional `+`, then one or more decimal digits
/// whose value fits in `usize`.
pub open spec fn parse_index(t: Seq<char>) -> Option<nat> {
    let d = if t.len() > 0 && t[0] == '+' {
        t.drop_first()
    } else {
        t
    };
    if d.len() > 0 && all_digits(d) && dec_value(d) <= usize::MAX {
        Some(dec_value(d))
    } else {
        None
    }
}

proof fn lemma_dec_value_prefix(d: Seq<char>, i: int)
    requires
        0 <= i <= d.len(),
        all_digits(d),
    ensures
        dec_value(d.take(i)) <= dec_value(d),
    decreases d.len() - i,
{
    if i < d.len() {
        assert(d.take(i + 1).drop_last() == d.take(i));
        lemma_dec_value_prefix(d, i + 1);
    } else {
        assert(d.take(i) == d);
    }
}

fn parse_index_text(t: &[char]) -> (r: Option<usize>)
    ensures
        opt_index(r) == parse_index(t@),
{
    let start: usize = if t.len() > 0 && t[0] == '+' {
        1
    } else {
        0
    };
    let d = sub_vec(t, start, t.len());
    proof {
        if start == 1 {
            assert(d@ == t@.drop_first());
        } else {
            assert(d@ == t@);
        }
    }
    if d.len() == 0 {
        return None;
    }
    let mut value: usize = 0;
    let mut i: usize = 0;
    while i < d.len()
        invariant
            i <= d@.len(),
            d@.len() > 0,
            d@ == (if t@.len() > 0 && t@[0] == '+' {
                t@.drop_first()
            } else {
                t@
            }),
            all_digits(d@.take(i as int)),
            value == dec_value(d@.take(i as int)),
        decreases d.len() - i,
    {
        let c = d[i];
        proof {
            assert(d@.take(i + 1).drop_last() == d@.take(i as int));
            assert(d@.take(i + 1).last() == c);
        }
        if !char_is_ascii_digit(c) {
            assert(!is_ascii_digit(d@[i as int]));
            assert(!all_digits(d@));
            return None;
        }
        let digit = (c as u32 - 48) as usize;
        if value > (usize::MAX - digit) / 10 {
            proof {
                assert(value * 10 + digit > usize::MAX) by (nonlinear_arith)
                    requires
                        value > (usize::MAX - digit) / 10,
                        digit <= 9,
                ;
                if all_digits(d@) {
                    lemma_dec_value_prefix(d@, i + 1);
                }
            }
            return None;
        }
        proof {
            assert(value * 10 + digit <= usize::MAX) by (nonlinear_arith)
                requires
                    value <= (usize::MAX - digit) / 10,
                    digit <= 9,
            ;
            assert(all_digits(d@.take(i + 1)));
        }
        value = value * 10 + digit;
        i += 1;
    }
    assert(d@.take(i as int) == d@);
    Some(value)
}

pub open spec fn opt_index(o: Option<usize>) -> Option<nat> {
    match o {
        Some(v) => Some(v as nat),
        None => None,
    }
}

// ---------------------------------------------------------------------------
// Parsing
// ---------------------------------------------------------------------------

/// Inside a quoted key (after the opening quote): the key, and how many
/// characters it took up to and including the closing `"]`.
pub open spec fn parse_quoted(s: Seq<char>) -> Result<(Seq<char>, nat), PathErrorView>
    decreases s.len(),
{
    if s.len() == 0 {
        Err(PathErrorView::MissingClosingQuote)
    } else if s[0] == '"' {
        if s.len() > 1 && s[1] == ']' {
            Ok((seq![], 2))
        } else {
            Err(PathErrorView::QuotedKeyMissingBracket)
        }
    } else if s[0] == '\\' {
        if s.len() < 2 {
            Err(PathErrorView::DanglingEscape)
        } else {
            match parse_quoted(s.skip(2)) {
                Ok((k, n)) => Ok((seq![s[1]] + k, n + 2)),
                Err(e) => Err(e),
            }
        }
    } else {
        match parse_quoted(s.drop_first()) {
            Ok((k, n)) => Ok((seq![s[0]] + k, n + 1)),
            Err(e) => Err(e),
        }
    }
}

/// After a `[`: the token, and how many characters it took up to and
/// including the closing `]`.
pub open spec fn parse_bracket(s: Seq<char>) -> Result<(PathTokenView, nat), PathErrorView> {
    if s.len() > 0 && s[0] == '"' {
        match parse_quoted(s.drop_first()) {
            Ok((k, n)) => Ok((PathTokenView::Key(k), n + 1)),
            Err(e) => Err(e),
        }
    } else {
        let j = index_of(s, ']');
        if j >= s.len() {
            Err(PathErrorView::MissingClosingBracket)
        } else {
            match parse_index(s.take(j)) {
                Some(v) => Ok((PathTokenView::Index(v), (j + 1) as nat)),
                None => Err(PathErrorView::InvalidArrayIndex(s.take(j))),
            }
        }
    }
}

/// Length of the bare key at the start of `s`: up to the first `.` or `[`.
pub open spec fn key_run(s: Seq<char>) -> nat
    decreases s.len(),
{
    if s.len() == 0 || s[0] == '.' || s[0] == '[' {
        0
    } else {
        1 + key_run(s.drop_first())
    }
}

pub open spec fn prepend_token(
    t: PathTokenView,
    r: Result<Seq<PathTokenView>, PathErrorView>,
) -> Result<Seq<PathTokenView>, PathErrorView> {
    match r {
        Ok(ts) => Ok(seq![t] + ts),
        Err(e) => Err(e),
    }
}

pub open spec fn prepend_tokens(
    pre: Seq<PathTokenView>,
    r: Result<Seq<PathTokenView>, PathErrorView>,
) -> Result<Seq<PathTokenView>, PathErrorView> {
    match r {
        Ok(ts) => Ok(pre + ts),
        Err(e) => Err(e),
    }
}

/// The tokens of a settings path: `.` separates, `[` opens a bracketed
/// token, and anything else runs to the next `.` or `[` as a key.
pub open spec fn parse_path(s: Seq<char>) -> Result<Seq<PathTokenView>, PathErrorView>
    decreases s.len(),
{
    if s.len() == 0 {
        Ok(seq![])
    } else if s[0] == '.' {
        parse_path(s.drop_first())
    } else if s[0] == '[' {
        match parse_bracket(s.drop_first()) {
            Ok((t, n)) => if n < s.len() {
                prepend_token(t, parse_path(s.skip(1 + n as int)))
            } else {
                Ok(seq![t])
            },
            Err(e) => Err(e),
        }
    } else {
        let n = key_run(s);
        if 0 < n <= s.len() {
            prepend_token(PathTokenView::Key(s.take(n as int)), parse_path(s.skip(n as int)))
        } else {
            Ok(seq![])
        }
    }
}

pub open spec fn result_view(r: Result<Vec<PathToken>, PathError>) -> Result<
    Seq<PathTokenView>,
    PathErrorView,
> {
    match r {
        Ok(v) => Ok(token_views(v@)),
        Err(e) => Err(e@),
    }
}

pub open spec fn add_key_prefix(
    pre: Seq<char>,
    m: nat,
    r: Result<(Seq<char>, nat), PathErrorView>,
) -> Result<(Seq<char>, nat), PathErrorView> {
    match r {
        Ok((k, n)) => Ok((pre + k, m + n)),
        Err(e) => Err(e),
    }
}

/// Reads a quoted key starting after its opening quote at `start`; on
/// success, the key and the position after the closing `"]`.
fn parse_quoted_key(s: &[char], start: usize) -> (r: Result<(Vec<char>, usize), PathError>)
    requires
        start <= s@.len(),
    ensures
        match (r, parse_quoted(s@.skip(start as int))) {
            (Ok((k, next)), Ok((k2, n))) => k@ == k2 && next == start + n && next <= s@.len(),
            (Err(e), Err(e2)) => e@ == e2,
            _ => false,
        },
{
    let mut key: Vec<char> = Vec::new();
    let mut pos = start;
    proof {
        assert(key@ + seq![] == key@);
        assert(parse_quoted(s@.skip(start as int)) == add_key_prefix(key@, 0, parse_quoted(s@.skip(start as int)))) by {
            match parse_quoted(s@.skip(start as int)) {
                Ok((k, n)) => { assert(Seq::<char>::empty() + k == k); },
                Err(_) => {},
            }
        }
    }
    while pos < s.len()
        invariant
            start <= pos <= s@.len(),
            parse_quoted(s@.skip(start as int)) == add_key_prefix(
                key@,
                (pos - start) as nat,
                parse_quoted(s@.skip(pos as int)),
            ),
        decreases s.len() - pos,
    {
        let c = s[pos];
        let ghost t = s@.skip(pos as int);
        assert(t[0] == c);
        if c == '"' {
            if pos + 1 < s.len() && s[pos + 1] == ']' {
                assert(t[1] == ']');
                assert(key@ + Seq::<char>::empty() == key@);
                return Ok((key, pos + 2));
            }
            proof {
                if t.len() > 1 {
                    assert(t[1] == s@[pos + 1]);
                }
            }
            return Err(PathError::QuotedKeyMissingBracket);
        }
        if c == '\\' {
            if pos + 1 >= s.len() {
                return Err(PathError::DanglingEscape);
            }
            let escaped = s[pos + 1];
            proof {
                assert(t[1] == escaped);
                assert(t.skip(2) == s@.skip(pos + 2));
                match parse_quoted(t.skip(2)) {
                    Ok((k, n)) => {
                        assert(key@.push(escaped) + k == key@ + (seq![escaped] + k));
                    },
                    Err(_) => {},
                }
            }
            key.push(escaped);
            pos += 2;
        } else {
            proof {
                assert(t.drop_first() == s@.skip(pos + 1));
                match parse_quoted(t.drop_first()) {
                    Ok((k, n)) => {
                        assert(key@.push(c) + k == key@ + (seq![c] + k));
                    },
                    Err(_) => {},
                }
            }
            key.push(c);
            pos += 1;
        }
    }
    assert(s@.skip(pos as int).len() == 0);
    Err(PathError::MissingClosingQuote)
}

pub open spec fn bracket_matches(
    r: Result<(PathToken, usize), PathError>,
    at: usize,
    spec_r: Result<(PathTokenView, nat), PathErrorView>,
    len: nat,
) -> bool {
    match (r, spec_r) {
        (Ok((t, next)), Ok((t2, n))) => t@ == t2 && next == at + n && next <= len,
        (Err(e), Err(e2)) => e@ == e2,
        _ => false,
    }
}

/// Reads the token of a bracket whose `[` ends right before `at`; on
/// success, the token and the position after the closing `]`.
fn parse_bracket_token(s: &[char], at: usize) -> (r: Result<(PathToken, usize), PathError>)
    requires
        at <= s@.len(),
    ensures
        bracket_matches(r, at, parse_bracket(s@.skip(at as int)), s@.len()),
{
    let ghost t = s@.skip(at as int);
    if at < s.len() && s[at] == '"' {
        assert(t[0] == '"');
        assert(t.drop_first() == s@.skip(at + 1));
        return match parse_quoted_key(s, at + 1) {
            Ok((k, next)) => Ok((PathToken::Key(string_from(&k)), next)),
            Err(e) => Err(e),
        };
    }
    proof {
        if at < s.len() {
            assert(t[0] == s@[at as int]);
        }
    }
    let j = index_of_char_from(s, ']', at);
    proof {
        assert forall|i: int| 0 <= i < j - at implies t[i] != ']' by {
            assert(t[i] == s@[at + i]);
        }
        if j < s.len() {
            assert(t[j - at] == s@[j as int]);
        }
        lemma_index_of(t, ']', j - at);
    }
    if j == s.len() {
        return Err(PathError::MissingClosingBracket);
    }
    let text = sub_vec(s, at, j);
    assert(text@ == t.take(j - at));
    match parse_index_text(&text) {
        Some(v) => Ok((PathToken::Index(v), j + 1)),
        None => Err(PathError::InvalidArrayIndex(string_from(&text))),
    }
}

/// Split a settings path into its tokens.
pub fn parse_path_tokens(path: &str) -> (r: Result<Vec<PathToken>, PathError>)
    ensures
        result_view(r) == parse_path(path@),
{
    let s = chars_of(path);
    let mut tokens: Vec<PathToken> = Vec::new();
    let mut pos: usize = 0;
    proof {
        assert(s@.skip(0) == s@);
        assert(token_views(tokens@) =~= Seq::<PathTokenView>::empty());
        match parse_path(s@) {
            Ok(ts) => { assert(Seq::<PathTokenView>::empty() + ts == ts); },
            Err(_) => {},
        }
    }
    while pos < s.len()
        invariant
            pos <= s@.len(),
            s@ == path@,
            parse_path(s@) == prepend_tokens(token_views(tokens@), parse_path(s@.skip(pos as int))),
        decreases s.len() - pos,
    {
        let ghost t = s@.skip(pos as int);
        assert(t[0] == s@[pos as int]);
        if s[pos] == '.' {
            assert(t.drop_first() == s@.skip(pos + 1));
            pos += 1;
            continue;
        }
        if s[pos] == '[' {
            assert(t.drop_first() == s@.skip(pos + 1));
            match parse_bracket_token(&s, pos + 1) {
                Ok((tok, next)) => {
                    let ghost before = tokens@;
                    proof {
                        assert(t.skip(1 + (next - pos - 1)) == s@.skip(next as int));
                        match parse_path(s@.skip(next as int)) {
                            Ok(rest) => {
                                assert(token_views(before) + (seq![tok@] + rest) == token_views(
                                    before,
                                ).push(tok@) + rest);
                            },
                            Err(_) => {},
                        }
                    }
                    tokens.push(tok);
                    assert(token_views(tokens@) =~= token_views(before).push(tok@));
                    pos = next;
                },
                Err(e) => {
                    return Err(e);
                },
            }
            continue;
        }
        let start = pos;
        assert(s@.skip(start as int) == t);
        while pos < s.len() && s[pos] != '.' && s[pos] != '['
            invariant
                start <= pos <= s@.len(),
                t == s@.skip(start as int),
                key_run(t) == (pos - start) + key_run(s@.skip(pos as int)),
            decreases s.len() - pos,
        {
            assert(s@.skip(pos as int)[0] == s@[pos as int]);
            assert(s@.skip(pos as int).drop_first() == s@.skip(pos + 1));
            pos += 1;
        }
        proof {
            if pos < s.len() {
                assert(s@.skip(pos as int)[0] == s@[pos as int]);
            }
            assert(key_run(s@.skip(pos as int)) == 0);
            assert(key_run(t) > 0);
        }
        let key = sub_vec(&s, start, pos);
        let ghost before = tokens@;
        proof {
            assert(key@ == t.take(key_run(t) as int));
            assert(t.skip(key_run(t) as int) == s@.skip(pos as int));
            match parse_path(s@.skip(pos as int)) {
                Ok(rest) => {
                    assert(token_views(before) + (seq![PathTokenView::Key(key@)] + rest)
                        == token_views(before).push(PathTokenView::Key(key@)) + rest);
                },
                Err(_) => {},
            }
        }
        tokens.push(PathToken::Key(string_from(&key)));
        assert(token_views(tokens@) =~= token_views(before).push(PathTokenView::Key(key@)));
    }
    proof {
        assert(s@.skip(pos as int).len() == 0);
        assert(token_views(tokens@) + Seq::<PathTokenView>::empty() == token_views(tokens@));
    }
    Ok(tokens)
}

// ---------------------------------------------------------------------------
// Formatting
// ---------------------------------------------------------------------------

pub open spec fn bare_key_char(c: char) -> bool {
    is_ascii_alnum(c) || c == '_' || c == '-'
}

/// A key that can be written without quotes.
pub open spec fn bare_key(k: Seq<char>) -> bool {
    k.len() > 0 && forall|i: int| 0 <= i < k.len() ==> bare_key_char(#[trigger] k[i])
}

pub open spec fn escape_char(c: char) -> Seq<char> {
    if c == '\\' || c == '"' {
        seq!['\\', c]
    } else {
        seq![c]
    }
}

/// A key with `\` and `"` escaped by a `\`.
pub open spec fn escape_key(k: Seq<char>) -> Seq<char> {
    join(k.map_values(|c: char| escape_char(c)))
}

/// How a key is written after `before`: bare (after a `.` unless nothing
/// comes before it) or quoted in brackets.
pub open spec fn key_piece(k: Seq<char>, first: bool) -> Seq<char> {
    if bare_key(k) {
        if first {
            k
        } else {
            seq!['.'] + k
        }
    } else {
        seq!['[', '"'] + escape_key(k) + seq!['"', ']']
    }
}

pub open spec fn token_piece(t: PathTokenView, first: bool) -> Seq<char> {
    match t {
        PathTokenView::Key(k) => key_piece(k, first),
        PathTokenView::Index(n) => seq!['['] + dec(n) + seq![']'],
    }
}

/// The text of a list of tokens.
pub open spec fn format_tokens(ts: Seq<PathTokenView>) -> Seq<char>
    decreases ts.len(),
{
    if ts.len() == 0 {
        seq![]
    } else {
        let p = format_tokens(ts.drop_last());
        p + token_piece(ts.last(), p.len() == 0)
    }
}

/// Whether `key` can be written without quotes.
pub fn is_bare_key(key: &str) -> (b: bool)
    ensures
        b == bare_key(key@),
{
    let k = chars_of(key);
    if k.len() == 0 {
        return false;
    }
    let mut i: usize = 0;
    while i < k.len()
        invariant
            i <= k@.len(),
            k@ == key@,
            forall|j: int| 0 <= j < i ==> bare_key_char(#[trigger] k@[j]),
        decreases k.len() - i,
    {
        let c = k[i];
        if !(char_is_ascii_alnum(c) || c == '_' || c == '-') {
            assert(!bare_key_char(k@[i as int]));
            return false;
        }
        i += 1;
    }
    true
}

/// Appends `key` to `path` as its next token.
pub fn append_key_path(path: &mut String, key: &str)
    ensures
        final(path)@ == old(path)@ + key_piece(key@, old(path)@.len() == 0),
{
    if is_bare_key(key) {
        if !path.as_str().is_empty() {
            crate::text::push_char(path, '.');
        }
        crate::text::push_str(path, key);
        proof {
            if old(path)@.len() == 0 {
                assert(path@ == old(path)@ + key@);
            } else {
                assert(path@ == old(path)@ + (seq!['.'] + key@));
            }
        }
        return;
    }
    let k = chars_of(key);
    let ghost start = path@;
    let mut out: Vec<char> = vec!['[', '"'];
    let mut i: usize = 0;
    proof {
        assert(k@.take(0).map_values(|c: char| escape_char(c)).len() == 0);
    }
    while i < k.len()
        invariant
            i <= k@.len(),
            out@ == seq!['[', '"'] + join(k@.take(i as int).map_values(|c: char| escape_char(c))),
        decreases k.len() - i,
    {
        let c = k[i];
        let ghost prev = k@.take(i as int).map_values(|c: char| escape_char(c));
        proof {
            assert(k@.take(i + 1).map_values(|c: char| escape_char(c)) == prev.push(escape_char(c)));
            assert(prev.push(escape_char(c)).drop_last() == prev);
        }
        if c == '\\' || c == '"' {
            out.push('\\');
            out.push(c);
        } else {
            out.push(c);
        }
        i += 1;
    }
    out.push('"');
    out.push(']');
    proof {
        assert(k@.take(k@.len() as int) == k@);
    }
    let piece = string_from(&out);
    crate::text::push_str(path, piece.as_str());
}

/// The path of the child `key` of `parent`.
pub fn path_with_key(parent: &str, key: &str) -> (r: String)
    ensures
        r@ == parent@ + key_piece(key@, parent@.len() == 0),
{
    let mut path = parent.to_owned();
    append_key_path(&mut path, key);
    path
}

/// Write a list of tokens as a path.
pub fn format_path_tokens(tokens: &[PathToken]) -> (r: String)
    ensures
        r@ == format_tokens(token_views(tokens@)),
{
    let mut path = String::new();
    let mut i: usize = 0;
    while i < tokens.len()
        invariant
            i <= tokens@.len(),
            path@ == format_tokens(token_views(tokens@.take(i as int))),
        decreases tokens.len() - i,
    {
        proof {
            assert(token_views(tokens@.take(i + 1)).drop_last() == token_views(tokens@.take(i as int)));
            assert(token_views(tokens@.take(i + 1)).last() == tokens@[i as int]@);
        }
        match &tokens[i] {
            PathToken::Key(key) => append_key_path(&mut path, key.as_str()),
            PathToken::Index(index) => {
                crate::text::push_char(&mut path, '[');
                crate::text::push_dec_string(&mut path, *index);
                crate::text::push_char(&mut path, ']');
            },
        }
        i += 1;
    }
    assert(tokens@.take(i as int) == tokens@);
    path
}

/// The path one level up, for a path of more than one token.
pub open spec fn parent_setting(path: Seq<char>) -> Option<Seq<char>> {
    match parse_path(path) {
        Ok(ts) => if ts.len() > 1 {
            Some(format_tokens(ts.drop_last()))
        } else {
            None
        },
        Err(_) => None,
    }
}

pub open spec fn opt_view(o: Option<String>) -> Option<Seq<char>> {
    match o {
        Some(s) => Some(s@),
        None => None,
    }
}

/// The parent of a settings path, if it has one.
pub fn parent_setting_path(path: &str) -> (r: Option<String>)
    ensures
        opt_view(r) == parent_setting(path@),
{
    let mut tokens = match parse_path_tokens(path) {
        Ok(t) => t,
        Err(_) => return None,
    };
    if tokens.len() <= 1 {
        return None;
    }
    let ghost all = tokens@;
    tokens.pop();
    assert(token_views(tokens@) =~= token_views(all).drop_last());
    Some(format_path_tokens(&tokens))
}

// ---------------------------------------------------------------------------
// Settings views
// ---------------------------------------------------------------------------

/// The view listing every setting by path.
pub const SETTINGS_ADVANCED_VIEW_PATH: &'static str = "advanced";
/// Prefix of a view of one nested setting of the advanced view.
pub const SETTINGS_ADVANCED_NESTED_PREFIX: &'static str = "advanced:";
/// Prefix of a view of a curated settings group.
pub const SETTINGS_GROUP_PREFIX: &'static str = "group:";

pub open spec fn advanced_view() -> Seq<char> {
    seq!['a', 'd', 'v', 'a', 'n', 'c', 'e', 'd']
}

pub open spec fn advanced_nested_prefix() -> Seq<char> {
    advanced_view().push(':')
}

pub open spec fn advanced_dot_prefix() -> Seq<char> {
    advanced_view().push('.')
}

pub open spec fn group_prefix() -> Seq<char> {
    seq!['g', 'r', 'o', 'u', 'p', ':']
}

/// The view one level up from a settings view: a group's nested view goes
/// back towards the group, a nested advanced view towards the advanced
/// view, a documented advanced path to the advanced view, and a plain
/// setting path to its parent setting.
pub open spec fn parent_view(path: Seq<char>) -> Option<Seq<char>>
    decreases path.len(),
{
    if path.len() == 0 || path == advanced_view() {
        None
    } else if starts_with(path, group_prefix()) {
        let g = path.skip(6);
        let c = index_of(g, ':');
        if 0 <= c < g.len() {
            let gid = g.take(c);
            match parent_view(g.skip(c + 1)) {
                Some(p) => Some(group_prefix() + gid + seq![':'] + p),
                None => Some(group_prefix() + gid),
            }
        } else {
            None
        }
    } else if starts_with(path, advanced_nested_prefix()) {
        match parent_view(path.skip(9)) {
            Some(p) => Some(advanced_nested_prefix() + p),
            None => Some(advanced_view()),
        }
    } else if starts_with(path, advanced_dot_prefix()) {
        Some(advanced_view())
    } else {
        parent_setting(path)
    }
}

/// The settings view to return to from `path`, if there is one.
pub fn parent_view_path(path: &str) -> (r: Option<String>)
    ensures
        opt_view(r) == parent_view(path@),
    decreases path@.len(),
{
    proof {
        reveal_strlit("advanced");
        reveal_strlit("advanced:");
        reveal_strlit("advanced.");
        reveal_strlit("group:");
        assert(advanced_view() == SETTINGS_ADVANCED_VIEW_PATH@);
        assert(group_prefix() == SETTINGS_GROUP_PREFIX@);
        assert(advanced_nested_prefix() == SETTINGS_ADVANCED_NESTED_PREFIX@);
        assert(advanced_dot_prefix() == "advanced."@);
    }
    let s = chars_of(path);
    if s.len() == 0 {
        return None;
    }
    if crate::text::eq_str(&s, SETTINGS_ADVANCED_VIEW_PATH) {
        return None;
    }
    assert(advanced_view() == SETTINGS_ADVANCED_VIEW_PATH@);
    if has_prefix_str(&s, SETTINGS_GROUP_PREFIX) {
        assert(group_prefix() == SETTINGS_GROUP_PREFIX@);
        let g = sub_vec(&s, 6, s.len());
        assert(g@ == path@.skip(6));
        let c = index_of_char_from(&g, ':', 0);
        proof {
            lemma_index_of(g@, ':', c as int);
        }
        if c == g.len() {
            return None;
        }
        let group_id = sub_vec(&g, 0, c);
        let nested = sub_vec(&g, c + 1, g.len());
        assert(nested@ == g@.skip(c + 1));
        let nested_str = string_from(&nested);
        let mut out = chars_of(SETTINGS_GROUP_PREFIX);
        extend_all(&mut out, &group_id);
        return match parent_view_path(nested_str.as_str()) {
            Some(parent) => {
                out.push(':');
                extend_str(&mut out, parent.as_str());
                Some(string_from(&out))
            },
            None => Some(string_from(&out)),
        };
    }
    if has_prefix_str(&s, SETTINGS_ADVANCED_NESTED_PREFIX) {
        assert(advanced_nested_prefix() == SETTINGS_ADVANCED_NESTED_PREFIX@);
        let nested = sub_vec(&s, 9, s.len());
        let nested_str = string_from(&nested);
        return match parent_view_path(nested_str.as_str()) {
            Some(parent) => {
                let mut out = chars_of(SETTINGS_ADVANCED_NESTED_PREFIX);
                extend_str(&mut out, parent.as_str());
                Some(string_from(&out))
            },
            None => Some(SETTINGS_ADVANCED_VIEW_PATH.to_owned()),
        };
    }
    if has_prefix_str(&s, "advanced.") {
        assert(advanced_dot_prefix() == "advanced."@);
        return Some(SETTINGS_ADVANCED_VIEW_PATH.to_owned());
    }
    parent_setting_path(path)
}

// ---------------------------------------------------------------------------
// Formatting a path and parsing it back
// ---------------------------------------------------------------------------

/// Every index of the tokens fits in `usize`, as those of `PathToken` do.
pub open spec fn indices_fit(ts: Seq<PathTokenView>) -> bool {
    forall|i: int| 0 <= i < ts.len() ==> (#[trigger] ts[i] matches PathTokenView::Index(n) ==> n
        <= usize::MAX)
}

/// Text that a token may follow without running into it.
pub open spec fn separated(s: Seq<char>) -> bool {
    s.len() == 0 || s[0] == '.' || s[0] == '['
}

proof fn lemma_digit_char(d: nat)
    requires
        d < 10,
    ensures
        is_ascii_digit(digit_char(d)),
        ((digit_char(d) as u32) - 48) as nat == d,
{
    let v = (d + 48) as u32;
    assert(48 <= v <= 57);
    assert(digit_char(d) == v as char);
    assert((v as char) as u32 == v);
}

pub proof fn lemma_dec(n: nat)
    ensures
        dec(n).len() > 0,
        all_digits(dec(n)),
        dec_value(dec(n)) == n,
    decreases n,
{
    if n < 10 {
        lemma_digit_char(n);
        let d = dec(n);
        assert(d == seq![digit_char(n)]);
        assert(d.drop_last().len() == 0);
        assert(dec_value(d.drop_last()) == 0);
        assert(d.last() == digit_char(n));
    } else {
        lemma_dec(n / 10);
        lemma_digit_char(n % 10);
        let d = dec(n);
        assert(d.drop_last() == dec(n / 10));
        assert(d.last() == digit_char(n % 10));
        assert(n == (n / 10) * 10 + n % 10);
        assert(dec_value(d) == dec_value(dec(n / 10)) * 10 + ((digit_char(n % 10) as u32) - 48) as nat);
        assert forall|i: int| 0 <= i < d.len() implies is_ascii_digit(#[trigger] d[i]) by {
            if i < d.len() - 1 {
                assert(d[i] == dec(n / 10)[i]);
            }
        }
    }
}

proof fn lemma_parse_index_dec(n: nat)
    requires
        n <= usize::MAX,
    ensures
        parse_index(dec(n)) == Some(n),
{
    lemma_dec(n);
    assert(is_ascii_digit(dec(n)[0]));
}

/// `escape_key` read from the front.
proof fn lemma_escape_key_front(k: Seq<char>)
    requires
        k.len() > 0,
    ensures
        escape_key(k) == escape_char(k[0]) + escape_key(k.drop_first()),
{
    let m = k.map_values(|c: char| escape_char(c));
    assert(m == seq![escape_char(k[0])] + k.drop_first().map_values(|c: char| escape_char(c)));
    lemma_join_prepend(escape_char(k[0]), k.drop_first().map_values(|c: char| escape_char(c)));
}

proof fn lemma_quoted_escaped(k: Seq<char>, s: Seq<char>)
    ensures
        parse_quoted(escape_key(k) + seq!['"', ']'] + s) == Ok::<(Seq<char>, nat), PathErrorView>(
            (k, escape_key(k).len() + 2),
        ),
    decreases k.len(),
{
    let close = seq!['"', ']'];
    if k.len() == 0 {
        assert(k.map_values(|c: char| escape_char(c)).len() == 0);
        assert(escape_key(k) == Seq::<char>::empty());
        let w = escape_key(k) + close + s;
        assert(w[0] == '"' && w[1] == ']');
        assert(k == Seq::<char>::empty());
    } else {
        lemma_escape_key_front(k);
        let c = k[0];
        let rest = k.drop_first();
        lemma_quoted_escaped(rest, s);
        let r = escape_key(rest) + close + s;
        let w = escape_key(k) + close + s;
        assert(w == escape_char(c) + r);
        if c == '\\' || c == '"' {
            assert(w[0] == '\\');
            assert(w[1] == c);
            assert(w.skip(2) == r);
        } else {
            assert(w[0] == c);
            assert(w.drop_first() == r);
        }
        assert(seq![c] + rest == k);
    }
}

proof fn lemma_key_run_bare(k: Seq<char>, s: Seq<char>)
    requires
        forall|i: int| 0 <= i < k.len() ==> bare_key_char(#[trigger] k[i]),
        separated(s),
    ensures
        key_run(k + s) == k.len(),
    decreases k.len(),
{
    if k.len() == 0 {
        assert(k + s == s);
    } else {
        assert(bare_key_char(k[0]));
        assert((k + s)[0] == k[0]);
        assert((k + s).drop_first() == k.drop_first() + s);
        assert forall|i: int| 0 <= i < k.drop_first().len() implies bare_key_char(
            #[trigger] k.drop_first()[i],
        ) by {
            assert(k.drop_first()[i] == k[i + 1]);
        }
        lemma_key_run_bare(k.drop_first(), s);
    }
}

proof fn lemma_piece_shape(t: PathTokenView, first: bool)
    ensures
        token_piece(t, first).len() > 0,
        !first ==> token_piece(t, first)[0] == '.' || token_piece(t, first)[0] == '[',
{
    match t {
        PathTokenView::Key(k) => {},
        PathTokenView::Index(n) => {},
    }
}

/// Parsing a token's text followed by more text gives the token, then what
/// the rest parses to.
proof fn lemma_parse_piece(t: PathTokenView, first: bool, s: Seq<char>)
    requires
        t matches PathTokenView::Index(n) ==> n <= usize::MAX,
        separated(s),
    ensures
        parse_path(token_piece(t, first) + s) == prepend_token(t, parse_path(s)),
{
    match t {
        PathTokenView::Key(k) => {
            if bare_key(k) {
                let w = k + s;
                assert(w[0] == k[0]);
                assert(bare_key_char(k[0]));
                lemma_key_run_bare(k, s);
                assert(w.take(k.len() as int) == k);
                assert(w.skip(k.len() as int) == s);
                assert(w.len() > 0 && w[0] != '.' && w[0] != '[');
                assert(parse_path(w) == prepend_token(t, parse_path(s)));
                if !first {
                    let v = seq!['.'] + k + s;
                    assert(v[0] == '.');
                    assert(v.drop_first() == w);
                    assert(token_piece(t, first) + s == v);
                } else {
                    assert(token_piece(t, first) + s == w);
                }
            } else {
                let esc = escape_key(k);
                let w = seq!['[', '"'] + esc + seq!['"', ']'] + s;
                let b = w.drop_first();
                assert(w[0] == '[');
                assert(b[0] == '"');
                assert(b.drop_first() == esc + seq!['"', ']'] + s);
                lemma_quoted_escaped(k, s);
                assert(w.skip(1 + (esc.len() + 3) as int) == s);
                assert(token_piece(t, first) + s == w);
                assert(parse_bracket(b) == Ok::<(PathTokenView, nat), PathErrorView>((t, esc.len() + 3)));
            }
        },
        PathTokenView::Index(n) => {
            let d = dec(n);
            lemma_dec(n);
            lemma_parse_index_dec(n);
            let w = seq!['['] + d + seq![']'] + s;
            let b = w.drop_first();
            assert(w[0] == '[');
            assert(b == d + seq![']'] + s);
            assert(b[0] == d[0]);
            assert(is_ascii_digit(d[0]));
            assert forall|j: int| 0 <= j < d.len() implies b[j] != ']' by {
                assert(b[j] == d[j]);
                assert(is_ascii_digit(d[j]));
            }
            assert(b[d.len() as int] == ']');
            lemma_index_of(b, ']', d.len() as int);
            assert(b.take(d.len() as int) == d);
            assert(w.skip(1 + (d.len() + 1) as int) == s);
        },
    }
}

/// The pieces of tokens after the first, each written as a follower.
pub open spec fn format_rest(rs: Seq<PathTokenView>) -> Seq<char>
    decreases rs.len(),
{
    if rs.len() == 0 {
        seq![]
    } else {
        format_rest(rs.drop_last()) + token_piece(rs.last(), false)
    }
}

proof fn lemma_format_rest_separated(rs: Seq<PathTokenView>)
    ensures
        separated(format_rest(rs)),
    decreases rs.len(),
{
    if rs.len() > 0 {
        lemma_format_rest_separated(rs.drop_last());
        lemma_piece_shape(rs.last(), false);
        let a = format_rest(rs.drop_last());
        let p = token_piece(rs.last(), false);
        if a.len() == 0 {
            assert((a + p)[0] == p[0]);
        } else {
            assert((a + p)[0] == a[0]);
        }
    }
}

proof fn lemma_format_front(ts: Seq<PathTokenView>)
    requires
        ts.len() > 0,
    ensures
        format_tokens(ts) == token_piece(ts[0], true) + format_rest(ts.drop_first()),
        format_tokens(ts).len() > 0,
    decreases ts.len(),
{
    lemma_piece_shape(ts[0], true);
    if ts.len() == 1 {
        assert(ts.drop_last().len() == 0);
        assert(ts.drop_first().len() == 0);
        assert(ts.last() == ts[0]);
        let p = token_piece(ts[0], true);
        assert(format_tokens(ts.drop_last()) == Seq::<char>::empty());
        assert(format_tokens(ts) == Seq::<char>::empty() + p);
        assert(Seq::<char>::empty() + p == p);
        assert(p + Seq::<char>::empty() == p);
        assert(format_rest(ts.drop_first()) == Seq::<char>::empty());
    } else {
        let dl = ts.drop_last();
        lemma_format_front(dl);
        assert(dl[0] == ts[0]);
        assert(ts.drop_first().drop_last() == dl.drop_first());
        assert(ts.drop_first().last() == ts.last());
        let a = token_piece(ts[0], true);
        let b = format_rest(dl.drop_first());
        let c = token_piece(ts.last(), false);
        assert(format_tokens(ts) == (a + b) + c);
        assert(format_rest(ts.drop_first()) == b + c);
        assert((a + b) + c == a + (b + c));
    }
}

proof fn lemma_parse_rest(rs: Seq<PathTokenView>, s: Seq<char>)
    requires
        indices_fit(rs),
        separated(s),
    ensures
        parse_path(format_rest(rs) + s) == prepend_tokens(rs, parse_path(s)),
    decreases rs.len(),
{
    if rs.len() == 0 {
        assert(format_rest(rs) + s == s);
        match parse_path(s) {
            Ok(ts) => {
                assert(rs + ts == ts);
            },
            Err(_) => {},
        }
    } else {
        let dl = rs.drop_last();
        let last = rs.last();
        assert(rs[rs.len() - 1] == last);
        assert(indices_fit(dl)) by {
            assert forall|i: int| 0 <= i < dl.len() implies (#[trigger] dl[i] matches PathTokenView::Index(
                n,
            ) ==> n <= usize::MAX) by {
                assert(dl[i] == rs[i]);
            }
        }
        let p = token_piece(last, false);
        lemma_piece_shape(last, false);
        assert(separated(p + s)) by {
            assert((p + s)[0] == p[0]);
        }
        lemma_parse_rest(dl, p + s);
        lemma_parse_piece(last, false, s);
        assert(format_rest(rs) + s == format_rest(dl) + (p + s));
        match parse_path(s) {
            Ok(ts) => {
                assert(dl + (seq![last] + ts) == rs + ts);
            },
            Err(_) => {},
        }
    }
}

/// Writing tokens as a path and parsing the path gives the tokens back.
pub proof fn lemma_format_then_parse(ts: Seq<PathTokenView>)
    requires
        indices_fit(ts),
    ensures
        parse_path(format_tokens(ts)) == Ok::<Seq<PathTokenView>, PathErrorView>(ts),
{
    if ts.len() > 0 {
        lemma_format_front(ts);
        let rest = ts.drop_first();
        assert(indices_fit(rest)) by {
            assert forall|i: int| 0 <= i < rest.len() implies (#[trigger] rest[i] matches PathTokenView::Index(
                n,
            ) ==> n <= usize::MAX) by {
                assert(rest[i] == ts[i + 1]);
            }
        }
        lemma_format_rest_separated(rest);
        lemma_parse_rest(rest, Seq::<char>::empty());
        assert(format_rest(rest) + Seq::<char>::empty() == format_rest(rest));
        assert(ts[0] matches PathTokenView::Index(n) ==> n <= usize::MAX);
        lemma_parse_piece(ts[0], true, format_rest(rest));
        assert(rest + Seq::<PathTokenView>::empty() == rest);
        assert(parse_path(format_rest(rest)) == Ok::<Seq<PathTokenView>, PathErrorView>(rest));
        assert(seq![ts[0]] + rest == ts);
    } else {
        assert(ts == Seq::<PathTokenView>::empty());
        assert(format_tokens(ts) == Seq::<char>::empty());
    }
}

} // verus!
