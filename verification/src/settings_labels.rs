//! Human-readable labels of settings: identifiers turned into words, the
//! label of a field in the advanced view, and the titles used in change
//! messages.

use vstd::prelude::*;
use crate::settings_edit::{
    ACTION_CONFIGURE_EDITOR, ACTION_PICK_MAIN_MODEL, ACTION_PREFIX_EDIT, ACTION_PREFIX_OPEN, ACTION_PREFIX_SET,
    CycleSources, last_index_of, resolve_cycle_options,
};
use crate::settings_tree::{SettingValue, ValueView};
use crate::settings_path::{PathToken, PathTokenView, parse_path, parse_path_tokens, token_views};
use crate::text::{chars_of, ends_with, extend_str, joined_with, string_from, sub_vec};

verus! {

// ---------------------------------------------------------------------------
// Identifiers as words
// ---------------------------------------------------------------------------

/// Characters that separate the words of an identifier.
pub open spec fn word_separator(c: char) -> bool {
    c == '_' || c == '-' || c == '.' || c == ' '
}

/// Where the first separator of `s` stands, or its length.
pub open spec fn first_separator(s: Seq<char>) -> nat
    decreases s.len(),
{
    if s.len() == 0 || word_separator(s[0]) {
        0
    } else {
        1 + first_separator(s.drop_first())
    }
}

/// The words of an identifier: the runs between separators.
pub open spec fn identifier_words(s: Seq<char>) -> Seq<Seq<char>>
    decreases s.len(),
{
    if s.len() == 0 {
        seq![]
    } else if word_separator(s[0]) {
        identifier_words(s.drop_first())
    } else {
        let j = first_separator(s);
        proof {
            assert(first_separator(s) == 1 + first_separator(s.drop_first()));
            lemma_first_separator(s);
        }
        seq![s.take(j as int)] + identifier_words(s.skip(j as int))
    }
}

/// An ASCII lowercase letter made uppercase; other characters unchanged.
pub open spec fn upper_char(c: char) -> char {
    if 'a' <= c && c <= 'z' {
        ((c as u32) - 32) as char
    } else {
        c
    }
}

/// A word with its first letter made uppercase.
pub open spec fn capitalized(w: Seq<char>) -> Seq<char> {
    if w.len() == 0 {
        w
    } else {
        seq![upper_char(w[0])] + w.drop_first()
    }
}

/// An identifier as words: each capitalised, one space between them
/// (`ide_context` reads `Ide Context`).
pub open spec fn humanized(s: Seq<char>) -> Seq<char> {
    joined_with(identifier_words(s).map_values(|w: Seq<char>| capitalized(w)), " "@)
}

pub proof fn lemma_first_separator(s: Seq<char>)
    ensures
        first_separator(s) <= s.len(),
        forall|k: int| 0 <= k < first_separator(s) ==> !word_separator(#[trigger] s[k]),
        first_separator(s) < s.len() ==> word_separator(s[first_separator(s) as int]),
    decreases s.len(),
{
    if s.len() > 0 && !word_separator(s[0]) {
        lemma_first_separator(s.drop_first());
        assert forall|k: int| 0 <= k < first_separator(s) implies !word_separator(#[trigger] s[k]) by {
            if k > 0 {
                assert(s[k] == s.drop_first()[k - 1]);
            }
        }
    }
}

proof fn lemma_first_separator_at(s: Seq<char>, j: int)
    requires
        0 <= j <= s.len(),
        forall|k: int| 0 <= k < j ==> !word_separator(#[trigger] s[k]),
        j < s.len() ==> word_separator(s[j]),
    ensures
        first_separator(s) == j,
    decreases s.len(),
{
    if j > 0 {
        assert forall|k: int| 0 <= k < j - 1 implies !word_separator(#[trigger] s.drop_first()[k]) by {
            assert(s.drop_first()[k] == s[k + 1]);
        }
        if j < s.len() {
            assert(s.drop_first()[j - 1] == s[j]);
        }
        lemma_first_separator_at(s.drop_first(), j - 1);
    }
}

fn upper_ascii(c: char) -> (r: char)
    ensures
        r == upper_char(c),
{
    if 'a' <= c && c <= 'z' {
        let v = (c as u32) - 32;
        let b = v as u8;
        b as char
    } else {
        c
    }
}

/// An identifier turned into capitalised words separated by spaces.
pub fn humanize_identifier(identifier: &str) -> (r: String)
    ensures
        r@ == humanized(identifier@),
{
    let s = chars_of(identifier);
    let mut words: Vec<String> = Vec::new();
    let mut i: usize = 0;
    assert(s@.skip(0) == s@);
    while i < s.len()
        invariant
            i <= s@.len(),
            s@ == identifier@,
            words@.map_values(|w: String| w@) + identifier_words(s@.skip(i as int)).map_values(
                |w: Seq<char>| capitalized(w),
            ) == identifier_words(s@).map_values(|w: Seq<char>| capitalized(w)),
        decreases s.len() - i,
    {
        let ghost t = s@.skip(i as int);
        assert(t[0] == s@[i as int]);
        if s[i] == '_' || s[i] == '-' || s[i] == '.' || s[i] == ' ' {
            assert(t.drop_first() == s@.skip(i + 1));
            i += 1;
        } else {
            let mut j = i;
            while j < s.len() && !(s[j] == '_' || s[j] == '-' || s[j] == '.' || s[j] == ' ')
                invariant
                    i <= j <= s@.len(),
                    forall|k: int| i <= k < j ==> !word_separator(#[trigger] s@[k]),
                decreases s.len() - j,
            {
                j += 1;
            }
            proof {
                assert forall|k: int| 0 <= k < j - i implies !word_separator(#[trigger] t[k]) by {
                    assert(t[k] == s@[i + k]);
                }
                if j < s.len() {
                    assert(t[j - i] == s@[j as int]);
                }
                lemma_first_separator_at(t, (j - i) as int);
            }
            let mut word: Vec<char> = Vec::new();
            word.push(upper_ascii(s[i]));
            let rest = sub_vec(&s, i + 1, j);
            crate::text::extend_all(&mut word, &rest);
            let ghost w = t.take((j - i) as int);
            assert(word@ =~= capitalized(w));
            let ghost before = words@.map_values(|x: String| x@);
            words.push(string_from(&word));
            proof {
                assert(words@.map_values(|x: String| x@) =~= before.push(capitalized(w)));
                assert(t.skip((j - i) as int) =~= s@.skip(j as int));
                let tail = identifier_words(s@.skip(j as int)).map_values(|x: Seq<char>| capitalized(x));
                assert(identifier_words(t).map_values(|x: Seq<char>| capitalized(x)) =~= seq![capitalized(w)]
                    + tail);
                assert(before.push(capitalized(w)) + tail =~= before + (seq![capitalized(w)] + tail));
            }
            i = j;
        }
    }
    proof {
        assert(s@.skip(i as int).len() == 0);
        assert(words@.map_values(|w: String| w@) + Seq::<Seq<char>>::empty() =~= words@.map_values(
            |w: String| w@,
        ));
    }
    crate::text::join_strings(&words, " ")
}

// ---------------------------------------------------------------------------
// Labels of paths
// ---------------------------------------------------------------------------

/// The part of `s` after its last `.`, or all of it.
pub open spec fn last_segment(s: Seq<char>) -> Seq<char> {
    match last_index_of(s, '.') {
        Some(i) => s.skip(i + 1),
        None => s,
    }
}

/// `s` without the suffix `suf`, when it ends with it.
pub open spec fn without_suffix(s: Seq<char>, suf: Seq<char>) -> Option<Seq<char>> {
    if ends_with(s, suf) {
        Some(s.take(s.len() - suf.len()))
    } else {
        None
    }
}

/// The key the path ends with, unless it ends with an index or `*`.
pub open spec fn final_key(path: Seq<char>) -> Option<Seq<char>> {
    match parse_path(path) {
        Ok(ts) => if ts.len() > 0 {
            match ts.last() {
                PathTokenView::Key(k) => if k != "*"@ {
                    Some(k)
                } else {
                    None
                },
                PathTokenView::Index(_) => None,
            }
        } else {
            None
        },
        Err(_) => None,
    }
}

/// The label of a field in the advanced view: its final key as words, else
/// the last dotted segment of the path without a trailing `[]` or `.*`.
pub open spec fn advanced_label_of(path: Seq<char>) -> Seq<char> {
    let base = match without_suffix(path, "[]"@) {
        Some(b) => b,
        None => match without_suffix(path, ".*"@) {
            Some(b) => b,
            None => path,
        },
    };
    let label = match final_key(path) {
        Some(k) => k,
        None => last_segment(base),
    };
    humanized(
        if label.len() == 0 {
            path
        } else {
            label
        },
    )
}

fn last_segment_of(s: &Vec<char>) -> (r: Vec<char>)
    ensures
        r@ == last_segment(s@),
{
    let mut k: usize = s.len();
    assert(s@.take(k as int) =~= s@);
    while k > 0
        invariant
            k <= s@.len(),
            last_index_of(s@, '.') == last_index_of(s@.take(k as int), '.'),
        decreases k,
    {
        assert(s@.take(k as int).last() == s@[k - 1]);
        assert(s@.take(k as int).drop_last() =~= s@.take(k - 1));
        if s[k - 1] == '.' {
            let r = sub_vec(s, k, s.len());
            assert(r@ =~= s@.skip(k as int));
            return r;
        }
        k -= 1;
    }
    sub_vec(s, 0, s.len())
}

fn strip_suffix_of(s: &Vec<char>, suf: &str) -> (r: Option<Vec<char>>)
    ensures
        match r {
            Some(b) => without_suffix(s@, suf@) == Some(b@),
            None => without_suffix(s@, suf@) is None,
        },
{
    if crate::text::has_suffix_str(s, suf) {
        let sc = chars_of(suf);
        let b = sub_vec(s, 0, s.len() - sc.len());
        Some(b)
    } else {
        None
    }
}

/// The label of a field in the advanced view.
pub fn advanced_label(path: &str) -> (r: String)
    ensures
        r@ == advanced_label_of(path@),
{
    let p = chars_of(path);
    let base = match strip_suffix_of(&p, "[]") {
        Some(b) => b,
        None => match strip_suffix_of(&p, ".*") {
            Some(b) => b,
            None => {
                let b = sub_vec(&p, 0, p.len());
                assert(b@ =~= p@);
                b
            },
        },
    };
    let key: Option<String> = match parse_path_tokens(path) {
        Ok(tokens) => {
            proof {
                assert(parse_path(path@) == Ok::<Seq<PathTokenView>, crate::settings_path::PathErrorView>(
                    token_views(tokens@),
                ));
            }
            if tokens.len() > 0 {
                proof {
                    assert(token_views(tokens@).last() == tokens@[tokens@.len() - 1]@);
                }
                match &tokens[tokens.len() - 1] {
                    PathToken::Key(k) => {
                        let kc = chars_of(k.as_str());
                        if crate::text::eq_str(&kc, "*") {
                            None
                        } else {
                            Some(k.clone())
                        }
                    },
                    PathToken::Index(_) => None,
                }
            } else {
                None
            }
        },
        Err(_) => None,
    };
    let label = match key {
        Some(k) => chars_of(k.as_str()),
        None => last_segment_of(&base),
    };
    if label.len() == 0 {
        humanize_identifier(path)
    } else {
        let l = string_from(&label);
        humanize_identifier(l.as_str())
    }
}


// ---------------------------------------------------------------------------
// Change messages
// ---------------------------------------------------------------------------

/// What `char::is_numeric` says of a character.
pub uninterp spec fn unicode_is_numeric(c: char) -> bool;

/// `char::is_numeric` (the Unicode number categories). The result is named
/// by `unicode_is_numeric`; stated besides: among ASCII characters exactly
/// the digits are numeric. Other characters are left unstated.
#[verifier::external_body]
fn char_is_numeric(c: char) -> (b: bool)
    ensures
        b == unicode_is_numeric(c),
        (c as u32) < 128 ==> b == crate::text::is_ascii_digit(c),
{
    c.is_numeric()
}

/// Whether a character is numeric: among ASCII characters the digits,
/// otherwise the Unicode number categories.
pub open spec fn numeric_char(c: char) -> bool {
    if (c as u32) < 128 {
        crate::text::is_ascii_digit(c)
    } else {
        unicode_is_numeric(c)
    }
}

/// Characters dropped from the end of a title segment: numbers and
/// brackets (of an index).
pub open spec fn title_tail_char(c: char) -> bool {
    numeric_char(c) || c == ']' || c == '['
}

/// `s` without its trailing numbers and brackets.
pub open spec fn trim_title_end(s: Seq<char>) -> Seq<char>
    decreases s.len(),
{
    if s.len() > 0 && title_tail_char(s.last()) {
        trim_title_end(s.drop_last())
    } else {
        s
    }
}

/// Leaf names too generic to title a change on their own.
pub open spec fn generic_bool_leaf(l: Seq<char>) -> bool {
    l == "Enabled"@ || l == "Disabled"@ || l == "Show"@ || l == "Hide"@ || l == "On"@ || l == "Off"@
}

/// The title of a change to `path`: its last segment as words, or, for a
/// generic leaf such as `enabled`, the segment before it.
pub open spec fn change_title_of(path: Seq<char>) -> Seq<char> {
    let leaf = humanized(trim_title_end(last_segment(path)));
    if generic_bool_leaf(leaf) {
        match last_index_of(path, '.') {
            Some(i) => humanized(trim_title_end(last_segment(path.take(i)))),
            None => leaf,
        }
    } else {
        leaf
    }
}

fn trimmed_title_end(s: &Vec<char>) -> (r: Vec<char>)
    ensures
        r@ == trim_title_end(s@),
{
    let mut k: usize = s.len();
    assert(s@.take(k as int) =~= s@);
    while k > 0 && (char_is_numeric(s[k - 1]) || s[k - 1] == ']' || s[k - 1] == '[')
        invariant
            k <= s@.len(),
            trim_title_end(s@) == trim_title_end(s@.take(k as int)),
        decreases k,
    {
        assert(s@.take(k as int).last() == s@[k - 1]);
        assert(s@.take(k as int).drop_last() =~= s@.take(k - 1));
        k -= 1;
    }
    proof {
        if k > 0 {
            assert(s@.take(k as int).last() == s@[k - 1]);
        }
    }
    sub_vec(s, 0, k)
}

fn last_dot(s: &Vec<char>) -> (r: Option<usize>)
    ensures
        match r {
            Some(i) => last_index_of(s@, '.') == Some(i as int) && i < s@.len(),
            None => last_index_of(s@, '.') is None,
        },
{
    let mut k: usize = s.len();
    assert(s@.take(k as int) =~= s@);
    while k > 0
        invariant
            k <= s@.len(),
            last_index_of(s@, '.') == last_index_of(s@.take(k as int), '.'),
        decreases k,
    {
        assert(s@.take(k as int).last() == s@[k - 1]);
        assert(s@.take(k as int).drop_last() =~= s@.take(k - 1));
        if s[k - 1] == '.' {
            return Some(k - 1);
        }
        k -= 1;
    }
    None
}

fn is_generic_leaf(l: &String) -> (b: bool)
    ensures
        b == generic_bool_leaf(l@),
{
    let c = chars_of(l.as_str());
    crate::text::eq_str(&c, "Enabled") || crate::text::eq_str(&c, "Disabled") || crate::text::eq_str(&c, "Show")
        || crate::text::eq_str(&c, "Hide") || crate::text::eq_str(&c, "On") || crate::text::eq_str(&c, "Off")
}

fn segment_title(s: &Vec<char>) -> (r: String)
    ensures
        r@ == humanized(trim_title_end(last_segment(s@))),
{
    let seg = last_segment_of(s);
    let t = trimmed_title_end(&seg);
    let ts = string_from(&t);
    humanize_identifier(ts.as_str())
}

/// Human-readable label for a settings path, used in change messages.
pub fn change_title(path: &str) -> (r: String)
    ensures
        r@ == change_title_of(path@),
{
    let p = chars_of(path);
    let leaf = segment_title(&p);
    if is_generic_leaf(&leaf) {
        if let Some(i) = last_dot(&p) {
            let parent = sub_vec(&p, 0, i);
            assert(parent@ =~= p@.take(i as int));
            return segment_title(&parent);
        }
    }
    leaf
}

/// The message after a scalar change: a toggled boolean reads `Enabled` or
/// `Disabled` and the title, another value the title, an arrow and its
/// summary, and a change whose value is gone `Updated` and the title.
pub open spec fn scalar_change_message(
    path: Seq<char>,
    operation: crate::settings_view::ScalarOperation,
    value: Option<ValueView>,
    summary: Seq<char>,
) -> Seq<char> {
    match (operation, value) {
        (crate::settings_view::ScalarOperation::Toggle, Some(ValueView::Bool(enabled))) => (if enabled {
            "Enabled"@
        } else {
            "Disabled"@
        }) + " "@ + change_title_of(path),
        (_, Some(_)) => change_title_of(path) + " \u{2192} "@ + summary,
        _ => "Updated "@ + change_title_of(path),
    }
}

pub open spec fn opt_tree(v: Option<&SettingValue>) -> Option<ValueView> {
    match v {
        Some(n) => Some(n.tree()),
        None => None,
    }
}

/// The status message of a scalar change; `value` is the setting after
/// the change and `value_summary` its summary as the palette shows it.
pub fn describe_scalar_change(
    path: &str,
    operation: crate::settings_view::ScalarOperation,
    value: Option<&SettingValue>,
    value_summary: &str,
) -> (r: String)
    ensures
        r@ == scalar_change_message(path@, operation, opt_tree(value), value_summary@),
{
    let title = change_title(path);
    let toggled = match operation {
        crate::settings_view::ScalarOperation::Toggle => true,
        _ => false,
    };
    match value {
        Some(SettingValue::Bool(enabled)) if toggled => {
            let mut out = if *enabled {
                chars_of("Enabled")
            } else {
                chars_of("Disabled")
            };
            extend_str(&mut out, " ");
            extend_str(&mut out, title.as_str());
            string_from(&out)
        },
        Some(_) => {
            let mut out = chars_of(title.as_str());
            extend_str(&mut out, " \u{2192} ");
            extend_str(&mut out, value_summary);
            string_from(&out)
        },
        None => {
            let mut out = chars_of("Updated ");
            extend_str(&mut out, title.as_str());
            string_from(&out)
        },
    }
}

/// The message after an item was added to (or removed from) an array.
pub open spec fn array_change_message(path: Seq<char>, added: bool) -> Seq<char> {
    if added {
        "Added item to "@ + change_title_of(path)
    } else {
        "Removed last item from "@ + change_title_of(path)
    }
}

/// The status message of an array change.
pub fn describe_array_change(path: &str, added: bool) -> (r: String)
    ensures
        r@ == array_change_message(path@, added),
{
    let title = change_title(path);
    let mut out = if added {
        chars_of("Added item to ")
    } else {
        chars_of("Removed last item from ")
    };
    extend_str(&mut out, title.as_str());
    string_from(&out)
}


// ---------------------------------------------------------------------------
// What a settings row does
// ---------------------------------------------------------------------------

/// The badge of a settings row and the palette action it runs.
#[derive(Debug, Clone)]
pub struct ItemAction {
    pub badge: Option<String>,
    pub action: Option<String>,
}

pub open spec fn opt_text(o: Option<String>) -> Option<Seq<char>> {
    match o {
        Some(s) => Some(s@),
        None => None,
    }
}

pub open spec fn item_action(badge: Option<Seq<char>>, action: Option<Seq<char>>) -> (Option<Seq<char>>, Option<
    Seq<char>,
>) {
    (badge, action)
}

/// What the row of a setting does, by its path and value: the main model
/// opens the model picker, the editor its setup; a boolean toggles, a
/// number steps up, a string with more than one value to cycle through
/// cycles and is edited otherwise, arrays and tables open.
pub open spec fn setting_action_of(path: Seq<char>, value: ValueView, option_count: nat) -> (Option<Seq<char>>, Option<
    Seq<char>,
>) {
    if path == "agent.default_model"@ {
        item_action(Some("Pick"@), Some(ACTION_PICK_MAIN_MODEL@))
    } else if path == "tools.editor"@ {
        item_action(Some("Setup"@), Some(ACTION_CONFIGURE_EDITOR@))
    } else {
        match value {
            ValueView::Bool(_) => item_action(Some("On/Off"@), Some(ACTION_PREFIX_SET@ + path + ":toggle"@)),
            ValueView::Int(_) | ValueView::Float(_) => item_action(
                Some("Step"@),
                Some(ACTION_PREFIX_SET@ + path + ":inc"@),
            ),
            ValueView::Str(_) => if option_count > 1 {
                item_action(Some("Pick"@), Some(ACTION_PREFIX_SET@ + path + ":cycle"@))
            } else {
                item_action(Some("Edit"@), Some(ACTION_PREFIX_EDIT@ + path))
            },
            ValueView::Array(_) => item_action(Some("List"@), Some(ACTION_PREFIX_OPEN@ + path)),
            ValueView::Table(_) => item_action(None, Some(ACTION_PREFIX_OPEN@ + path)),
            ValueView::Datetime(_) => item_action(None, None),
        }
    }
}

fn action_text(prefix: &str, path: &str, suffix: &str) -> (r: Option<String>)
    ensures
        opt_text(r) == Some(prefix@ + path@ + suffix@),
{
    let mut out = chars_of(prefix);
    extend_str(&mut out, path);
    extend_str(&mut out, suffix);
    Some(string_from(&out))
}

/// The badge and action of the row of the setting at `path` holding
/// `value`; a string cycles through the values `sources` give for it.
pub fn setting_item_action(path: &str, value: &SettingValue, sources: &CycleSources) -> (r: ItemAction)
    requires
        crate::settings_edit::normalized_path(path@) == "agent.small_model.model"@ ==> forall|cur: Seq<char>|
            value.tree() == ValueView::Str(cur) ==> crate::settings_edit::sources_defined(*sources, cur),
    ensures
        (opt_text(r.badge), opt_text(r.action)) == setting_action_of(
            path@,
            value.tree(),
            match value.tree() {
                ValueView::Str(cur) => crate::settings_edit::cycle_options_for(path@, cur, *sources).len(),
                _ => 0,
            },
        ),
{
    proof {
        reveal_strlit("");
    }
    let p = chars_of(path);
    if crate::text::eq_str(&p, "agent.default_model") {
        return ItemAction { badge: Some("Pick".to_owned()), action: Some(ACTION_PICK_MAIN_MODEL.to_owned()) };
    }
    if crate::text::eq_str(&p, "tools.editor") {
        return ItemAction { badge: Some("Setup".to_owned()), action: Some(ACTION_CONFIGURE_EDITOR.to_owned()) };
    }
    match value {
        SettingValue::Bool(_) => ItemAction {
            badge: Some("On/Off".to_owned()),
            action: action_text(ACTION_PREFIX_SET, path, ":toggle"),
        },
        SettingValue::Int(_) | SettingValue::Float(_) => ItemAction {
            badge: Some("Step".to_owned()),
            action: action_text(ACTION_PREFIX_SET, path, ":inc"),
        },
        SettingValue::Str(current) => {
            let options = resolve_cycle_options(path, current.as_str(), sources);
            if options.len() > 1 {
                ItemAction { badge: Some("Pick".to_owned()), action: action_text(ACTION_PREFIX_SET, path, ":cycle") }
            } else {
                let r = action_text(ACTION_PREFIX_EDIT, path, "");
                assert(ACTION_PREFIX_EDIT@ + path@ + ""@ =~= ACTION_PREFIX_EDIT@ + path@);
                ItemAction { badge: Some("Edit".to_owned()), action: r }
            }
        },
        SettingValue::Array(_) => {
            let r = action_text(ACTION_PREFIX_OPEN, path, "");
            assert(ACTION_PREFIX_OPEN@ + path@ + ""@ =~= ACTION_PREFIX_OPEN@ + path@);
            ItemAction { badge: Some("List".to_owned()), action: r }
        },
        SettingValue::Table(_) => {
            let r = action_text(ACTION_PREFIX_OPEN, path, "");
            assert(ACTION_PREFIX_OPEN@ + path@ + ""@ =~= ACTION_PREFIX_OPEN@ + path@);
            ItemAction { badge: None, action: r }
        },
        SettingValue::Datetime(_) => ItemAction { badge: None, action: None },
    }
}

/// What the row of a documented setting that is not set does: cycle when
/// the documentation lists values, else edit.
pub open spec fn missing_doc_action_of(path: Seq<char>, has_options: bool) -> (Option<Seq<char>>, Option<Seq<char>>) {
    if has_options {
        item_action(Some("Pick"@), Some(ACTION_PREFIX_SET@ + path + ":cycle"@))
    } else {
        item_action(Some("Edit"@), Some(ACTION_PREFIX_EDIT@ + path))
    }
}

/// The badge and action of the row of an unset documented setting.
pub fn missing_doc_item_action(path: &str, has_options: bool) -> (r: ItemAction)
    ensures
        (opt_text(r.badge), opt_text(r.action)) == missing_doc_action_of(path@, has_options),
{
    proof {
        reveal_strlit("");
    }
    if has_options {
        ItemAction { badge: Some("Pick".to_owned()), action: action_text(ACTION_PREFIX_SET, path, ":cycle") }
    } else {
        let r = action_text(ACTION_PREFIX_EDIT, path, "");
        assert(ACTION_PREFIX_EDIT@ + path@ + ""@ =~= ACTION_PREFIX_EDIT@ + path@);
        ItemAction { badge: Some("Edit".to_owned()), action: r }
    }
}

} // verus!
