//! Colours for the lines of a directory listing: the class of an entry is
//! read from the type marker after its name (`/`, `@`, `*`, `|`, `=`) or
//! from the file-type letter of a long listing, and styled by a table of
//! class styles; otherwise the name's extension can pick a style.
//!
//! The class table is a `hashbrown` map. What the library holds for a
//! style is its colour and weight; rendering it is left to the caller.

use vstd::prelude::*;
use crate::text::{
    chars_of, ends_with, is_whitespace, is_ws, lower, sub_vec, to_ascii_lower, trim,
    trim_in, trimmed, trimmed_in,
};

verus! {

/// The sixteen ANSI terminal colours.
#[derive(Debug, Clone, Copy, PartialEq, Eq, Structural)]
pub enum LsColor {
    Black,
    Red,
    Green,
    Yellow,
    Blue,
    Magenta,
    Cyan,
    White,
    BrightBlack,
    BrightRed,
    BrightGreen,
    BrightYellow,
    BrightBlue,
    BrightMagenta,
    BrightCyan,
    BrightWhite,
}

/// The style of a listing line: a foreground colour, bold or not.
#[derive(Debug, Clone, Copy, PartialEq, Eq, Structural)]
pub struct LsStyle {
    pub color: LsColor,
    pub bold: bool,
}

/// A bold foreground colour.
pub fn bold_color(color: LsColor) -> (s: LsStyle)
    ensures
        s == (LsStyle { color, bold: true }),
{
    LsStyle { color, bold: true }
}

// ---------------------------------------------------------------------------
// The class table
// ---------------------------------------------------------------------------

/// The styles of entry classes (`di`, `ln`, `ex`, ...), keyed by class code.
#[verifier::external_body]
pub struct ClassStyles {
    map: hashbrown::HashMap<String, LsStyle>,
}

/// What the class table maps each class code to.
pub uninterp spec fn class_style_map(m: ClassStyles) -> Map<Seq<char>, LsStyle>;

pub open spec fn no_class_styles() -> Map<Seq<char>, LsStyle> {
    Map::empty()
}

pub open spec fn map_lookup(m: Map<Seq<char>, LsStyle>, k: Seq<char>) -> Option<LsStyle> {
    if m.dom().contains(k) {
        Some(m[k])
    } else {
        None
    }
}

impl ClassStyles {
    /// `hashbrown::HashMap::new`: an empty map.
    #[verifier::external_body]
    fn new() -> (r: ClassStyles)
        ensures
            class_style_map(r) == no_class_styles(),
    {
        ClassStyles { map: hashbrown::HashMap::new() }
    }

    /// `hashbrown::HashMap::insert`: afterwards the key maps to the style,
    /// and every other key to what it mapped to before.
    #[verifier::external_body]
    fn insert(&mut self, code: String, style: LsStyle)
        ensures
            class_style_map(*final(self)) == class_style_map(*old(self)).insert(code@, style),
    {
        self.map.insert(code, style);
    }

    /// `hashbrown::HashMap::get`, copying the style out: the style the key
    /// maps to, if any.
    #[verifier::external_body]
    fn get(&self, code: &str) -> (r: Option<LsStyle>)
        ensures
            r == map_lookup(class_style_map(*self), code@),
    {
        self.map.get(code).copied()
    }
}

/// The table built from `pairs` inserted in order; a later pair for the
/// same code replaces an earlier one.
pub open spec fn pairs_map(pairs: Seq<(Seq<char>, LsStyle)>) -> Map<Seq<char>, LsStyle>
    decreases pairs.len(),
{
    if pairs.len() == 0 {
        Map::empty()
    } else {
        pairs_map(pairs.drop_last()).insert(pairs.last().0, pairs.last().1)
    }
}

pub open spec fn pair_views(v: Seq<(String, LsStyle)>) -> Seq<(Seq<char>, LsStyle)> {
    v.map_values(|p: (String, LsStyle)| (p.0@, p.1))
}

/// Class styles and extension styles of directory listings.
pub struct LsStyles {
    classes: ClassStyles,
    suffixes: Vec<(String, LsStyle)>,
}

impl LsStyles {
    /// The class table as a map from class code to style.
    pub closed spec fn class_map(&self) -> Map<Seq<char>, LsStyle> {
        class_style_map(self.classes)
    }

    /// The extension styles, in the order they are tried.
    pub closed spec fn suffix_list(&self) -> Seq<(Seq<char>, LsStyle)> {
        pair_views(self.suffixes@)
    }

    /// Styles from a class table given as (code, style) pairs, inserted in
    /// order, and extension styles tried in order.
    pub fn from_components(classes: Vec<(String, LsStyle)>, suffixes: Vec<(String, LsStyle)>) -> (r: LsStyles)
        ensures
            r.class_map() == pairs_map(pair_views(classes@)),
            r.suffix_list() == pair_views(suffixes@),
    {
        let mut map = ClassStyles::new();
        let ghost ps = pair_views(classes@);
        let mut i: usize = 0;
        while i < classes.len()
            invariant
                i <= classes@.len(),
                ps == pair_views(classes@),
                class_style_map(map) == pairs_map(ps.take(i as int)),
            decreases classes.len() - i,
        {
            let (code, style) = (classes[i].0.clone(), classes[i].1);
            map.insert(code, style);
            assert(ps.take(i + 1).drop_last() =~= ps.take(i as int));
            i += 1;
        }
        assert(ps.take(i as int) =~= ps);
        LsStyles { classes: map, suffixes }
    }

    /// The default styles: bold blue directories, cyan links, green
    /// executables, yellow pipes and devices, magenta sockets; no extension
    /// styles.
    pub fn from_env() -> (r: LsStyles)
        ensures
            r.class_map() == default_class_map(),
            r.suffix_list().len() == 0,
    {
        let classes = vec![
            ("di".to_owned(), bold_color(LsColor::Blue)),
            ("ln".to_owned(), bold_color(LsColor::Cyan)),
            ("ex".to_owned(), bold_color(LsColor::Green)),
            ("pi".to_owned(), bold_color(LsColor::Yellow)),
            ("so".to_owned(), bold_color(LsColor::Magenta)),
            ("bd".to_owned(), bold_color(LsColor::Yellow)),
            ("cd".to_owned(), bold_color(LsColor::Yellow)),
        ];
        let r = LsStyles::from_components(classes, Vec::new());
        proof {
            let ps = pair_views(classes@);
            assert(ps =~= default_class_pairs());
            assert(r.suffix_list() =~= Seq::<(Seq<char>, LsStyle)>::empty());
        }
        r
    }
}

pub open spec fn default_class_pairs() -> Seq<(Seq<char>, LsStyle)> {
    seq![
        ("di"@, LsStyle { color: LsColor::Blue, bold: true }),
        ("ln"@, LsStyle { color: LsColor::Cyan, bold: true }),
        ("ex"@, LsStyle { color: LsColor::Green, bold: true }),
        ("pi"@, LsStyle { color: LsColor::Yellow, bold: true }),
        ("so"@, LsStyle { color: LsColor::Magenta, bold: true }),
        ("bd"@, LsStyle { color: LsColor::Yellow, bold: true }),
        ("cd"@, LsStyle { color: LsColor::Yellow, bold: true }),
    ]
}

pub open spec fn default_class_map() -> Map<Seq<char>, LsStyle> {
    pairs_map(default_class_pairs())
}

// ---------------------------------------------------------------------------
// Styling one line
// ---------------------------------------------------------------------------

/// The part of `t` after its last whitespace character.
pub open spec fn after_last_ws(t: Seq<char>) -> Seq<char>
    decreases t.len(),
{
    if t.len() == 0 {
        t
    } else if is_ws(t.last()) {
        seq![]
    } else {
        after_last_ws(t.drop_last()).push(t.last())
    }
}

/// The class a type marker after a name stands for.
pub open spec fn marker_class(c: char) -> Option<Seq<char>> {
    if c == '/' {
        Some("di"@)
    } else if c == '@' {
        Some("ln"@)
    } else if c == '*' {
        Some("ex"@)
    } else if c == '|' {
        Some("pi"@)
    } else if c == '=' {
        Some("so"@)
    } else {
        None
    }
}

/// The class the file-type letter of a long listing stands for.
pub open spec fn type_letter_class(c: char) -> Option<Seq<char>> {
    if c == 'd' {
        Some("di"@)
    } else if c == 'l' {
        Some("ln"@)
    } else if c == 'p' {
        Some("pi"@)
    } else if c == 's' {
        Some("so"@)
    } else if c == 'b' {
        Some("bd"@)
    } else if c == 'c' {
        Some("cd"@)
    } else {
        None
    }
}

/// The entry name of a listing line (its last word, without quotes and
/// type marker) and the class hinted by the marker or the line's first
/// character.
pub open spec fn name_and_hint(trimmed_line: Seq<char>) -> (Seq<char>, Option<Seq<char>>) {
    let token = trim_in(after_last_ws(trimmed_line), seq!['"']);
    let marked = token.len() > 0 && marker_class(token.last()) is Some;
    let name = if marked {
        token.drop_last()
    } else {
        token
    };
    let hint = if marked {
        marker_class(token.last())
    } else {
        type_letter_class(trimmed_line[0])
    };
    (name, hint)
}

/// The first extension style whose suffix ends `lower_name`.
pub open spec fn first_suffix_style(suffixes: Seq<(Seq<char>, LsStyle)>, lower_name: Seq<char>) -> Option<LsStyle>
    decreases suffixes.len(),
{
    if suffixes.len() == 0 {
        None
    } else if ends_with(lower_name, suffixes[0].0) {
        Some(suffixes[0].1)
    } else {
        first_suffix_style(suffixes.drop_first(), lower_name)
    }
}

/// The style of a listing line: none for a blank line; the style of the
/// hinted class when the table has one; else the first extension style
/// matching the lowercased name (stripped of quotes, commas, spaces and
/// tabs); else the executable style when that name still ends in `*`.
pub open spec fn line_style(
    classes: Map<Seq<char>, LsStyle>,
    suffixes: Seq<(Seq<char>, LsStyle)>,
    line: Seq<char>,
) -> Option<LsStyle> {
    let t = trim(line);
    if t.len() == 0 {
        None
    } else {
        let (name, hint) = name_and_hint(t);
        let hinted = match hint {
            Some(code) => map_lookup(classes, code),
            None => None,
        };
        if hinted is Some {
            hinted
        } else {
            let lower_name = lower(trim_in(name, seq!['"', ',', ' ', '\t']));
            match first_suffix_style(suffixes, lower_name) {
                Some(s) => Some(s),
                None => if ends_with(lower_name, seq!['*']) {
                    map_lookup(classes, "ex"@)
                } else {
                    None
                },
            }
        }
    }
}

fn last_word(t: &Vec<char>) -> (r: Vec<char>)
    ensures
        r@ == after_last_ws(t@),
{
    let mut i: usize = t.len();
    assert(t@.take(t@.len() as int) =~= t@);
    assert(after_last_ws(t@) + t@.skip(t@.len() as int) =~= after_last_ws(t@));
    while i > 0 && !is_whitespace(t[i - 1])
        invariant
            i <= t@.len(),
            after_last_ws(t@) == after_last_ws(t@.take(i as int)) + t@.skip(i as int),
        decreases i,
    {
        let ghost p = t@.take(i as int);
        assert(p.drop_last() =~= t@.take(i - 1));
        assert(t@.skip(i - 1) =~= seq![t@[i - 1]] + t@.skip(i as int));
        i -= 1;
    }
    proof {
        let p = t@.take(i as int);
        if i > 0 {
            assert(is_ws(p.last()));
        } else {
            assert(p.len() == 0);
        }
        assert(t@.skip(i as int) =~= t@.subrange(i as int, t@.len() as int));
    }
    sub_vec(t, i, t.len())
}

fn marker_class_of(c: char) -> (r: Option<&'static str>)
    ensures
        match r {
            Some(s) => marker_class(c) == Some(s@),
            None => marker_class(c) is None,
        },
{
    if c == '/' {
        Some("di")
    } else if c == '@' {
        Some("ln")
    } else if c == '*' {
        Some("ex")
    } else if c == '|' {
        Some("pi")
    } else if c == '=' {
        Some("so")
    } else {
        None
    }
}

fn type_letter_class_of(c: char) -> (r: Option<&'static str>)
    ensures
        match r {
            Some(s) => type_letter_class(c) == Some(s@),
            None => type_letter_class(c) is None,
        },
{
    if c == 'd' {
        Some("di")
    } else if c == 'l' {
        Some("ln")
    } else if c == 'p' {
        Some("pi")
    } else if c == 's' {
        Some("so")
    } else if c == 'b' {
        Some("bd")
    } else if c == 'c' {
        Some("cd")
    } else {
        None
    }
}

impl LsStyles {
    fn find_suffix_style(&self, lower_name: &Vec<char>) -> (r: Option<LsStyle>)
        ensures
            r == first_suffix_style(self.suffix_list(), lower_name@),
    {
        let ghost ss = self.suffix_list();
        let mut i: usize = 0;
        assert(ss.skip(0) =~= ss);
        while i < self.suffixes.len()
            invariant
                i <= self.suffixes@.len(),
                ss == pair_views(self.suffixes@),
                first_suffix_style(ss, lower_name@) == first_suffix_style(ss.skip(i as int), lower_name@),
            decreases self.suffixes.len() - i,
        {
            assert(ss.skip(i as int).drop_first() =~= ss.skip(i + 1));
            let suffix = chars_of(self.suffixes[i].0.as_str());
            if crate::text::has_suffix(lower_name, &suffix) {
                return Some(self.suffixes[i].1);
            }
            i += 1;
        }
        None
    }

    /// The style of a line of a directory listing, if any.
    pub fn style_for_line(&self, line: &str) -> (r: Option<LsStyle>)
        ensures
            r == line_style(self.class_map(), self.suffix_list(), line@),
    {
        let t = trimmed(&chars_of(line));
        if t.len() == 0 {
            return None;
        }
        let word = last_word(&t);
        let quote = vec!['"'];
        assert(quote@ =~= seq!['"']);
        let token = trimmed_in(&word, &quote);
        let ghost (spec_name, spec_hint) = name_and_hint(t@);
        let mut name = token.clone();
        let mut hint: Option<&str> = None;
        if token.len() > 0 {
            hint = marker_class_of(token[token.len() - 1]);
            if hint.is_some() {
                name = sub_vec(&token, 0, token.len() - 1);
                assert(name@ =~= token@.drop_last());
            }
        }
        if hint.is_none() {
            hint = type_letter_class_of(t[0]);
        }
        assert(name@ == spec_name);
        assert(match hint {
            Some(h) => spec_hint == Some(h@),
            None => spec_hint is None,
        });
        let ghost hinted = match spec_hint {
            Some(code) => map_lookup(self.class_map(), code),
            None => None,
        };
        if let Some(code) = hint {
            let found = self.classes.get(code);
            if let Some(style) = found {
                return Some(style);
            }
            assert(hinted is None);
        }
        assert(hinted is None);
        let junk = vec!['"', ',', ' ', '\t'];
        assert(junk@ =~= seq!['"', ',', ' ', '\t']);
        let cleaned = trimmed_in(&name, &junk);
        let lower_name = to_ascii_lower(&cleaned);
        if let Some(style) = self.find_suffix_style(&lower_name) {
            return Some(style);
        }
        if lower_name.len() > 0 && lower_name[lower_name.len() - 1] == '*' {
            proof {
                assert(lower_name@.skip(lower_name@.len() - 1) =~= seq!['*']);
            }
            return self.classes.get("ex");
        }
        proof {
            if ends_with(lower_name@, seq!['*']) {
                let n = lower_name@.len();
                assert(lower_name@.skip(n - 1)[0] == seq!['*'][0]);
                assert(lower_name@[n - 1] == '*');
            }
            assert(!ends_with(lower_name@, seq!['*']));
            assert(lower_name@ == lower(trim_in(spec_name, seq!['"', ',', ' ', '\t'])));
        }
        None
    }
}

} // verus!
