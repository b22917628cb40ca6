//! The settings document as a tree of values, read and written by path.
//!
//! A table is a list of entries whose keys are looked up from the front; an
//! array is a list of values. Floating-point values are held as the bits of
//! an `f64`, dates and times as their TOML text, so the tree holds no float.

use vstd::prelude::*;
use crate::settings_path::{
    PathError, PathToken, PathTokenView, parse_path, parse_path_tokens, path_error_message, token_views,
};
use crate::text::{chars_of, extend_str, seq_eq, string_from};

verus! {

/// A value of the settings document.
#[derive(Debug)]
pub enum SettingValue {
    Str(String),
    Int(i64),
    Float(u64),
    Bool(bool),
    Datetime(String),
    Array(Vec<SettingValue>),
    Table(Vec<(String, SettingValue)>),
}

/// The value as a mathematical tree.
pub enum ValueView {
    Str(Seq<char>),
    Int(i64),
    Float(u64),
    Bool(bool),
    Datetime(Seq<char>),
    Array(Seq<ValueView>),
    Table(Seq<(Seq<char>, ValueView)>),
}

impl SettingValue {
    pub open spec fn tree(&self) -> ValueView
        decreases self, 0nat,
    {
        match self {
            SettingValue::Str(s) => ValueView::Str(s@),
            SettingValue::Int(i) => ValueView::Int(*i),
            SettingValue::Float(b) => ValueView::Float(*b),
            SettingValue::Bool(b) => ValueView::Bool(*b),
            SettingValue::Datetime(s) => ValueView::Datetime(s@),
            SettingValue::Array(a) => ValueView::Array(item_trees(a@)),
            SettingValue::Table(es) => ValueView::Table(entry_trees(es@)),
        }
    }
}

impl View for SettingValue {
    type V = ValueView;

    open spec fn view(&self) -> ValueView {
        self.tree()
    }
}

pub open spec fn item_trees(s: Seq<SettingValue>) -> Seq<ValueView>
    decreases s, s.len(),
{
    if s.len() == 0 {
        seq![]
    } else {
        item_trees(s.drop_last()).push(s.last().tree())
    }
}

pub open spec fn entry_trees(s: Seq<(String, SettingValue)>) -> Seq<(Seq<char>, ValueView)>
    decreases s, s.len(),
{
    if s.len() == 0 {
        seq![]
    } else {
        entry_trees(s.drop_last()).push((s.last().0@, s.last().1.tree()))
    }
}

pub proof fn lemma_item_trees(s: Seq<SettingValue>)
    ensures
        item_trees(s).len() == s.len(),
        forall|i: int| 0 <= i < s.len() ==> #[trigger] item_trees(s)[i] == s[i].tree(),
    decreases s.len(),
{
    if s.len() > 0 {
        lemma_item_trees(s.drop_last());
        assert forall|i: int| 0 <= i < s.len() implies #[trigger] item_trees(s)[i] == s[i].tree() by {
            if i < s.len() - 1 {
                assert(item_trees(s)[i] == item_trees(s.drop_last())[i]);
            }
        }
    }
}

pub proof fn lemma_entry_trees(s: Seq<(String, SettingValue)>)
    ensures
        entry_trees(s).len() == s.len(),
        forall|i: int| 0 <= i < s.len() ==> #[trigger] entry_trees(s)[i] == (s[i].0@, s[i].1.tree()),
    decreases s.len(),
{
    if s.len() > 0 {
        lemma_entry_trees(s.drop_last());
        assert forall|i: int| 0 <= i < s.len() implies #[trigger] entry_trees(s)[i] == (
            s[i].0@,
            s[i].1.tree(),
        ) by {
            if i < s.len() - 1 {
                assert(entry_trees(s)[i] == entry_trees(s.drop_last())[i]);
            }
        }
    }
}

// ---------------------------------------------------------------------------
// Reading by path
// ---------------------------------------------------------------------------

/// Where the first entry with `key` stands in a table.
pub open spec fn key_index(es: Seq<(Seq<char>, ValueView)>, key: Seq<char>) -> Option<int>
    decreases es.len(),
{
    if es.len() == 0 {
        None
    } else if es[0].0 == key {
        Some(0)
    } else {
        match key_index(es.drop_first(), key) {
            Some(i) => Some(i + 1),
            None => None,
        }
    }
}

pub proof fn lemma_key_index(es: Seq<(Seq<char>, ValueView)>, key: Seq<char>)
    ensures
        match key_index(es, key) {
            Some(i) => 0 <= i < es.len() && es[i].0 == key && forall|j: int|
                0 <= j < i ==> (#[trigger] es[j]).0 != key,
            None => forall|j: int| 0 <= j < es.len() ==> (#[trigger] es[j]).0 != key,
        },
    decreases es.len(),
{
    if es.len() > 0 && es[0].0 != key {
        lemma_key_index(es.drop_first(), key);
        match key_index(es.drop_first(), key) {
            Some(i) => {
                assert forall|j: int| 0 <= j < i + 1 implies (#[trigger] es[j]).0 != key by {
                    if j > 0 {
                        assert(es[j] == es.drop_first()[j - 1]);
                    }
                }
            },
            None => {
                assert forall|j: int| 0 <= j < es.len() implies (#[trigger] es[j]).0 != key by {
                    if j > 0 {
                        assert(es[j] == es.drop_first()[j - 1]);
                    }
                }
            },
        }
    }
}

/// The first position with the key, from the facts that characterise it.
pub proof fn lemma_key_index_at(es: Seq<(Seq<char>, ValueView)>, key: Seq<char>, i: int)
    requires
        0 <= i < es.len(),
        es[i].0 == key,
        forall|j: int| 0 <= j < i ==> (#[trigger] es[j]).0 != key,
    ensures
        key_index(es, key) == Some(i),
{
    lemma_key_index(es, key);
    match key_index(es, key) {
        Some(k) => {
            if k < i {
                assert(es[k].0 != key);
            }
            if k > i {
                assert(es[i].0 != key);
            }
        },
        None => {
            assert(es[i].0 != key);
        },
    }
}

/// The value one step below `v`.
pub open spec fn child(v: ValueView, t: PathTokenView) -> Option<ValueView> {
    match t {
        PathTokenView::Key(k) => match v {
            ValueView::Table(es) => match key_index(es, k) {
                Some(i) => Some(es[i].1),
                None => None,
            },
            _ => None,
        },
        PathTokenView::Index(n) => match v {
            ValueView::Array(a) => if n < a.len() {
                Some(a[n as int])
            } else {
                None
            },
            _ => None,
        },
    }
}

/// The value at the end of the path `ts` from `v`, if every step exists.
pub open spec fn node_at(v: ValueView, ts: Seq<PathTokenView>) -> Option<ValueView>
    decreases ts.len(),
{
    if ts.len() == 0 {
        Some(v)
    } else {
        match child(v, ts[0]) {
            Some(c) => node_at(c, ts.drop_first()),
            None => None,
        }
    }
}

/// The value at a path written as text; nothing when the path does not
/// parse.
pub open spec fn node_at_path(v: ValueView, path: Seq<char>) -> Option<ValueView> {
    match parse_path(path) {
        Ok(ts) => node_at(v, ts),
        Err(_) => None,
    }
}

/// The position of the entry with `key`, the first one if several.
pub fn find_key(es: &Vec<(String, SettingValue)>, key: &str) -> (r: Option<usize>)
    ensures
        match r {
            Some(i) => key_index(entry_trees(es@), key@) == Some(i as int) && i < es@.len(),
            None => key_index(entry_trees(es@), key@) is None,
        },
{
    proof {
        lemma_entry_trees(es@);
        lemma_key_index(entry_trees(es@), key@);
    }
    let kc = chars_of(key);
    let mut i: usize = 0;
    while i < es.len()
        invariant
            i <= es@.len(),
            kc@ == key@,
            entry_trees(es@).len() == es@.len(),
            forall|j: int| 0 <= j < es@.len() ==> #[trigger] entry_trees(es@)[j] == (es@[j].0@, es@[j].1.tree()),
            forall|j: int| 0 <= j < i ==> (#[trigger] entry_trees(es@)[j]).0 != key@,
        decreases es.len() - i,
    {
        let ec = chars_of(es[i].0.as_str());
        if seq_eq(&ec, &kc) {
            proof {
                lemma_key_index_at(entry_trees(es@), key@, i as int);
            }
            return Some(i);
        }
        assert(entry_trees(es@)[i as int].0 != key@);
        i += 1;
    }
    proof {
        lemma_key_index(entry_trees(es@), key@);
        match key_index(entry_trees(es@), key@) {
            Some(k) => {
                assert(entry_trees(es@)[k].0 != key@);
            },
            None => {},
        }
    }
    None
}

fn child_of<'a>(v: &'a SettingValue, t: &PathToken) -> (r: Option<&'a SettingValue>)
    ensures
        match r {
            Some(c) => child(v.tree(), t@) == Some(c.tree()),
            None => child(v.tree(), t@) is None,
        },
{
    match t {
        PathToken::Key(k) => match v {
            SettingValue::Table(es) => {
                proof {
                    lemma_entry_trees(es@);
                }
                match find_key(es, k.as_str()) {
                    Some(j) => Some(&es[j].1),
                    None => None,
                }
            },
            _ => None,
        },
        PathToken::Index(n) => match v {
            SettingValue::Array(a) => {
                proof {
                    lemma_item_trees(a@);
                }
                if *n < a.len() {
                    Some(&a[*n])
                } else {
                    None
                }
            },
            _ => None,
        },
    }
}

/// The value at the end of `tokens`, if every step exists.
pub fn get_tokens<'a>(root: &'a SettingValue, tokens: &Vec<PathToken>) -> (r: Option<&'a SettingValue>)
    ensures
        match r {
            Some(n) => node_at(root.tree(), token_views(tokens@)) == Some(n.tree()),
            None => node_at(root.tree(), token_views(tokens@)) is None,
        },
{
    let ghost ts = token_views(tokens@);
    let mut current: &SettingValue = root;
    let mut i: usize = 0;
    proof {
        assert(ts.skip(0) == ts);
    }
    while i < tokens.len()
        invariant
            i <= tokens@.len(),
            ts == token_views(tokens@),
            node_at(root.tree(), ts) == node_at(current.tree(), ts.skip(i as int)),
        decreases tokens.len() - i,
    {
        let ghost rest = ts.skip(i as int);
        assert(rest[0] == tokens@[i as int]@);
        assert(rest.drop_first() == ts.skip(i + 1));
        match child_of(current, &tokens[i]) {
            Some(c) => {
                current = c;
            },
            None => {
                return None;
            },
        }
        i += 1;
    }
    Some(current)
}

/// The value at `path`, if the path parses and every step exists.
pub fn get_node<'a>(root: &'a SettingValue, path: &str) -> (r: Option<&'a SettingValue>)
    ensures
        match r {
            Some(n) => node_at_path(root.tree(), path@) == Some(n.tree()),
            None => node_at_path(root.tree(), path@) is None,
        },
{
    match parse_path_tokens(path) {
        Ok(tokens) => get_tokens(root, &tokens),
        Err(_) => None,
    }
}

// ---------------------------------------------------------------------------
// Writing by path
// ---------------------------------------------------------------------------

/// Why a write stopped before reaching the end of its path.
#[derive(Debug, Clone, Copy, PartialEq, Eq, Structural)]
pub enum SetFault {
    /// A key step met a value that is not a table.
    NotTable,
    /// An index step met a value that is not an array.
    NotArray,
    /// An index step went past the end of its array.
    MissingItem,
}

/// A table with `val` under `key`: the first entry with the key gets the
/// value, or a new entry goes last.
pub open spec fn put_entry(es: Seq<(Seq<char>, ValueView)>, key: Seq<char>, val: ValueView) -> Seq<
    (Seq<char>, ValueView),
> {
    match key_index(es, key) {
        Some(i) => es.update(i, (key, val)),
        None => es.push((key, val)),
    }
}

/// The value created for a missing key on the way to `next`: a table for a
/// key step, an array for an index step.
pub open spec fn empty_for(next: PathTokenView) -> ValueView {
    match next {
        PathTokenView::Key(_) => ValueView::Table(seq![]),
        PathTokenView::Index(_) => ValueView::Array(seq![]),
    }
}

/// The tree after writing `new` at the end of `ts`, creating missing
/// tables (or an empty array before an index step) for key steps on the
/// way, and the fault that stopped the write, if any. Steps taken before a
/// fault keep what they created.
pub open spec fn set_at(v: ValueView, ts: Seq<PathTokenView>, new: ValueView) -> (ValueView, Option<SetFault>)
    decreases ts.len(),
{
    if ts.len() == 0 {
        (new, None)
    } else {
        match ts[0] {
            PathTokenView::Key(k) => match v {
                ValueView::Table(es) => if ts.len() == 1 {
                    (ValueView::Table(put_entry(es, k, new)), None)
                } else {
                    let c = match key_index(es, k) {
                        Some(i) => es[i].1,
                        None => empty_for(ts[1]),
                    };
                    let (c2, f) = set_at(c, ts.drop_first(), new);
                    (ValueView::Table(put_entry(es, k, c2)), f)
                },
                _ => (v, Some(SetFault::NotTable)),
            },
            PathTokenView::Index(n) => match v {
                ValueView::Array(a) => if n < a.len() {
                    let (c2, f) = set_at(a[n as int], ts.drop_first(), new);
                    (ValueView::Array(a.update(n as int, c2)), f)
                } else {
                    (v, Some(SetFault::MissingItem))
                },
                _ => (v, Some(SetFault::NotArray)),
            },
        }
    }
}

fn empty_value_for(next: &PathToken) -> (r: SettingValue)
    ensures
        r.tree() == empty_for(next@),
{
    match next {
        PathToken::Key(_) => {
            let es: Vec<(String, SettingValue)> = Vec::new();
            assert(entry_trees(es@) =~= Seq::<(Seq<char>, ValueView)>::empty());
            SettingValue::Table(es)
        },
        PathToken::Index(_) => {
            let a: Vec<SettingValue> = Vec::new();
            assert(item_trees(a@) =~= Seq::<ValueView>::empty());
            SettingValue::Array(a)
        },
    }
}

fn copy_key(k: &String) -> (r: String)
    ensures
        r@ == k@,
{
    let c = chars_of(k.as_str());
    string_from(&c)
}

/// Writes `new` at the end of `tokens[i..]` below `v`.
fn set_node_tokens(v: SettingValue, tokens: &Vec<PathToken>, i: usize, new: SettingValue) -> (r: (
    SettingValue,
    Option<SetFault>,
))
    requires
        i <= tokens@.len(),
    ensures
        (r.0.tree(), r.1) == set_at(v.tree(), token_views(tokens@).skip(i as int), new.tree()),
    decreases tokens@.len() - i,
{
    let ghost ts = token_views(tokens@).skip(i as int);
    if i == tokens.len() {
        return (new, None);
    }
    assert(ts[0] == tokens@[i as int]@);
    assert(ts.drop_first() == token_views(tokens@).skip(i + 1));
    match &tokens[i] {
        PathToken::Key(k) => match v {
            SettingValue::Table(mut es) => {
                let ghost old_es = es@;
                proof {
                    lemma_entry_trees(old_es);
                }
                let pos = find_key(&es, k.as_str());
                if i + 1 == tokens.len() {
                    put_entry_exec(&mut es, pos, k, new);
                    (SettingValue::Table(es), None)
                } else {
                    assert(ts[1] == tokens@[i + 1]@);
                    match pos {
                        Some(j) => {
                            proof {
                                lemma_key_index(entry_trees(old_es), k@);
                            }
                            let (key, c) = es.remove(j);
                            let (c2, f) = set_node_tokens(c, tokens, i + 1, new);
                            let ghost c2t = c2.tree();
                            es.insert(j, (key, c2));
                            proof {
                                lemma_entry_trees(es@);
                                assert(es@ =~= old_es.update(j as int, es@[j as int]));
                                assert(entry_trees(es@) =~= entry_trees(old_es).update(
                                    j as int,
                                    (k@, c2t),
                                ));
                            }
                            (SettingValue::Table(es), f)
                        },
                        None => {
                            let c = empty_value_for(&tokens[i + 1]);
                            let (c2, f) = set_node_tokens(c, tokens, i + 1, new);
                            let ghost c2t = c2.tree();
                            es.push((copy_key(k), c2));
                            proof {
                                lemma_entry_trees(es@);
                                assert(entry_trees(es@) =~= entry_trees(old_es).push((k@, c2t)));
                            }
                            (SettingValue::Table(es), f)
                        },
                    }
                }
            },
            other => (other, Some(SetFault::NotTable)),
        },
        PathToken::Index(n) => match v {
            SettingValue::Array(mut a) => {
                let ghost old_a = a@;
                proof {
                    lemma_item_trees(old_a);
                }
                if *n < a.len() {
                    let c = a.remove(*n);
                    let (c2, f) = set_node_tokens(c, tokens, i + 1, new);
                    let ghost c2t = c2.tree();
                    a.insert(*n, c2);
                    proof {
                        lemma_item_trees(a@);
                        assert(item_trees(a@) =~= item_trees(old_a).update(*n as int, c2t));
                    }
                    (SettingValue::Array(a), f)
                } else {
                    (SettingValue::Array(a), Some(SetFault::MissingItem))
                }
            },
            other => (other, Some(SetFault::NotArray)),
        },
    }
}

/// Writes `new` at the end of `tokens` below `root`, and gives the fault
/// that stopped the write, if any.
pub fn set_tokens(root: &mut SettingValue, tokens: &Vec<PathToken>, new: SettingValue) -> (f: Option<SetFault>)
    ensures
        (final(root).tree(), f) == set_at(old(root).tree(), token_views(tokens@), new.tree()),
{
    let mut old_root = SettingValue::Bool(false);
    std::mem::swap(&mut old_root, root);
    assert(token_views(tokens@).skip(0) == token_views(tokens@));
    let (new_root, fault) = set_node_tokens(old_root, tokens, 0, new);
    *root = new_root;
    fault
}

fn put_entry_exec(es: &mut Vec<(String, SettingValue)>, pos: Option<usize>, k: &String, new: SettingValue)
    requires
        match pos {
            Some(i) => key_index(entry_trees(old(es)@), k@) == Some(i as int),
            None => key_index(entry_trees(old(es)@), k@) is None,
        },
    ensures
        entry_trees(final(es)@) == put_entry(entry_trees(old(es)@), k@, new.tree()),
{
    let ghost old_es = es@;
    let ghost nt = new.tree();
    proof {
        lemma_entry_trees(old_es);
    }
    match pos {
        Some(j) => {
            proof {
                lemma_key_index(entry_trees(old_es), k@);
            }
            let (key, _old) = es.remove(j);
            es.insert(j, (key, new));
            proof {
                lemma_entry_trees(es@);
                assert(entry_trees(es@) =~= entry_trees(old_es).update(j as int, (k@, nt)));
            }
        },
        None => {
            es.push((copy_key(k), new));
            proof {
                lemma_entry_trees(es@);
                assert(entry_trees(es@) =~= entry_trees(old_es).push((k@, nt)));
            }
        },
    }
}


pub proof fn lemma_put_entry(es: Seq<(Seq<char>, ValueView)>, key: Seq<char>, val: ValueView)
    ensures
        match key_index(put_entry(es, key, val), key) {
            Some(i) => put_entry(es, key, val)[i] == (key, val),
            None => false,
        },
{
    lemma_key_index(es, key);
    let es2 = put_entry(es, key, val);
    match key_index(es, key) {
        Some(i) => {
            assert forall|j: int| 0 <= j < i implies (#[trigger] es2[j]).0 != key by {
                assert(es2[j] == es[j]);
            }
            lemma_key_index_at(es2, key, i);
        },
        None => {
            assert forall|j: int| 0 <= j < es.len() implies (#[trigger] es2[j]).0 != key by {
                assert(es2[j] == es[j]);
            }
            lemma_key_index_at(es2, key, es.len() as int);
        },
    }
}

/// A write that reaches the end of its path is read back unchanged: the
/// value at the path afterwards is the value written.
pub proof fn lemma_get_after_set(v: ValueView, ts: Seq<PathTokenView>, new: ValueView)
    requires
        set_at(v, ts, new).1 is None,
    ensures
        node_at(set_at(v, ts, new).0, ts) == Some(new),
    decreases ts.len(),
{
    if ts.len() > 0 {
        match ts[0] {
            PathTokenView::Key(k) => match v {
                ValueView::Table(es) => {
                    if ts.len() == 1 {
                        lemma_put_entry(es, k, new);
                        assert(ts.drop_first().len() == 0);
                    } else {
                        let c = match key_index(es, k) {
                            Some(i) => es[i].1,
                            None => empty_for(ts[1]),
                        };
                        let (c2, f) = set_at(c, ts.drop_first(), new);
                        lemma_put_entry(es, k, c2);
                        lemma_get_after_set(c, ts.drop_first(), new);
                    }
                },
                _ => {},
            },
            PathTokenView::Index(n) => match v {
                ValueView::Array(a) => {
                    if n < a.len() {
                        lemma_get_after_set(a[n as int], ts.drop_first(), new);
                    }
                },
                _ => {},
            },
        }
    }
}

/// A write that reaches the end of a path written as text is read back
/// unchanged through the same text.
pub proof fn lemma_get_after_set_path(v: ValueView, path: Seq<char>, new: ValueView)
    requires
        parse_path(path) is Ok,
        set_at(v, parse_path(path)->Ok_0, new).1 is None,
    ensures
        node_at_path(set_at(v, parse_path(path)->Ok_0, new).0, path) == Some(new),
{
    lemma_get_after_set(v, parse_path(path)->Ok_0, new);
}

/// Why a settings read, write or edit was refused.
#[derive(Debug, Clone)]
pub enum SettingsError {
    /// The path does not parse.
    Path(PathError),
    /// Nothing is at the path.
    NotFound(String),
    /// A key step of the path meets a value that is not a table.
    NonTableStep(String),
    /// An index step of the path meets a value that is not an array.
    NonArrayStep(String),
    /// An index step of the path goes past the end of its array.
    MissingArrayItem(String),
    /// The array to edit is not there.
    ArrayNotFound(String),
    /// The value to edit as an array is not one.
    NotAnArray(String),
    /// The array to shorten is empty.
    ArrayEmpty(String),
    /// A boolean setting can only be toggled.
    ToggleOnly(String),
    /// A number setting can only be stepped up or down.
    NumericOnly(String),
    /// A string setting has no values to cycle through.
    NoCycleValues(String),
    /// The value is a table or an array.
    NotScalar(String),
    /// The parent of a value to create is not a table.
    ParentNotTable(String),
    /// A value to create would need an array item that is not there.
    MissingArrayPath(String),
    /// Cycling a string setting failed.
    Cycle(crate::settings_view::CycleError),
}

/// The message of an error, as shown to the user.
pub open spec fn settings_error_message(e: SettingsError) -> Seq<char> {
    match e {
        SettingsError::Path(p) => path_error_message(p@),
        SettingsError::NotFound(p) => "Settings path '"@ + p@ + "' was not found"@,
        SettingsError::NonTableStep(p) => "Settings path '"@ + p@ + "' traverses a non-table value"@,
        SettingsError::NonArrayStep(p) => "Settings path '"@ + p@ + "' traverses a non-array value"@,
        SettingsError::MissingArrayItem(p) => "Settings path '"@ + p@ + "' references a missing array item"@,
        SettingsError::ArrayNotFound(p) => "Array path '"@ + p@ + "' was not found"@,
        SettingsError::NotAnArray(p) => "Path '"@ + p@ + "' is not an array"@,
        SettingsError::ArrayEmpty(p) => "Array '"@ + p@ + "' is already empty"@,
        SettingsError::ToggleOnly(p) => p@ + " supports toggle only"@,
        SettingsError::NumericOnly(p) => p@ + " supports numeric increment/decrement"@,
        SettingsError::NoCycleValues(p) => p@ + " has no predefined values to cycle"@,
        SettingsError::NotScalar(p) => p@ + " is not a scalar setting"@,
        SettingsError::ParentNotTable(p) => "Parent path for '"@ + p@ + "' is not a table"@,
        SettingsError::MissingArrayPath(p) => "Cannot create missing array path '"@ + p@ + "'"@,
        SettingsError::Cycle(c) => match c {
            crate::settings_view::CycleError::NoOptions => "No cycle options available"@,
            crate::settings_view::CycleError::InvalidOperation => "Invalid string cycle operation"@,
        },
    }
}

/// The kind of an error and the path it names, for contracts.
pub enum SettingsErrorKind {
    Path(crate::settings_path::PathErrorView),
    NotFound,
    NonTableStep,
    NonArrayStep,
    MissingArrayItem,
    ArrayNotFound,
    NotAnArray,
    ArrayEmpty,
    ToggleOnly,
    NumericOnly,
    NoCycleValues,
    NotScalar,
    ParentNotTable,
    MissingArrayPath,
    Cycle(crate::settings_view::CycleError),
}

/// The kind of `e` and the path it names (empty for path and cycle
/// errors).
pub open spec fn error_parts(e: SettingsError) -> (SettingsErrorKind, Seq<char>) {
    match e {
        SettingsError::Path(p) => (SettingsErrorKind::Path(p@), seq![]),
        SettingsError::NotFound(p) => (SettingsErrorKind::NotFound, p@),
        SettingsError::NonTableStep(p) => (SettingsErrorKind::NonTableStep, p@),
        SettingsError::NonArrayStep(p) => (SettingsErrorKind::NonArrayStep, p@),
        SettingsError::MissingArrayItem(p) => (SettingsErrorKind::MissingArrayItem, p@),
        SettingsError::ArrayNotFound(p) => (SettingsErrorKind::ArrayNotFound, p@),
        SettingsError::NotAnArray(p) => (SettingsErrorKind::NotAnArray, p@),
        SettingsError::ArrayEmpty(p) => (SettingsErrorKind::ArrayEmpty, p@),
        SettingsError::ToggleOnly(p) => (SettingsErrorKind::ToggleOnly, p@),
        SettingsError::NumericOnly(p) => (SettingsErrorKind::NumericOnly, p@),
        SettingsError::NoCycleValues(p) => (SettingsErrorKind::NoCycleValues, p@),
        SettingsError::NotScalar(p) => (SettingsErrorKind::NotScalar, p@),
        SettingsError::ParentNotTable(p) => (SettingsErrorKind::ParentNotTable, p@),
        SettingsError::MissingArrayPath(p) => (SettingsErrorKind::MissingArrayPath, p@),
        SettingsError::Cycle(c) => (SettingsErrorKind::Cycle(c), seq![]),
    }
}

/// The result of an edit: success, or an error of the given kind naming
/// the given path.
pub open spec fn outcome(r: Result<(), SettingsError>) -> Option<(SettingsErrorKind, Seq<char>)> {
    match r {
        Ok(()) => None,
        Err(e) => Some(error_parts(e)),
    }
}

fn text_of(p: &str) -> (r: String)
    ensures
        r@ == p@,
{
    let c = chars_of(p);
    string_from(&c)
}

impl SettingsError {
    /// The error as shown to the user.
    pub fn message(&self) -> (m: String)
        ensures
            m@ == settings_error_message(*self),
    {
        let (lead, path, tail): (&str, &String, &str) = match self {
            SettingsError::Path(p) => {
                return p.message();
            },
            SettingsError::Cycle(c) => {
                return c.message();
            },
            SettingsError::NotFound(p) => ("Settings path '", p, "' was not found"),
            SettingsError::NonTableStep(p) => ("Settings path '", p, "' traverses a non-table value"),
            SettingsError::NonArrayStep(p) => ("Settings path '", p, "' traverses a non-array value"),
            SettingsError::MissingArrayItem(p) => ("Settings path '", p, "' references a missing array item"),
            SettingsError::ArrayNotFound(p) => ("Array path '", p, "' was not found"),
            SettingsError::NotAnArray(p) => ("Path '", p, "' is not an array"),
            SettingsError::ArrayEmpty(p) => ("Array '", p, "' is already empty"),
            SettingsError::ParentNotTable(p) => ("Parent path for '", p, "' is not a table"),
            SettingsError::MissingArrayPath(p) => ("Cannot create missing array path '", p, "'"),
            SettingsError::ToggleOnly(p) => ("", p, " supports toggle only"),
            SettingsError::NumericOnly(p) => ("", p, " supports numeric increment/decrement"),
            SettingsError::NoCycleValues(p) => ("", p, " has no predefined values to cycle"),
            SettingsError::NotScalar(p) => ("", p, " is not a scalar setting"),
        };
        let mut out: Vec<char> = Vec::new();
        match self {
            SettingsError::ToggleOnly(_) | SettingsError::NumericOnly(_) | SettingsError::NoCycleValues(_)
            | SettingsError::NotScalar(_) => {},
            _ => extend_str(&mut out, lead),
        }
        extend_str(&mut out, path.as_str());
        extend_str(&mut out, tail);
        string_from(&out)
    }
}

/// The error a write fault reports for `path`.
pub open spec fn fault_error(f: SetFault) -> SettingsErrorKind {
    match f {
        SetFault::NotTable => SettingsErrorKind::NonTableStep,
        SetFault::NotArray => SettingsErrorKind::NonArrayStep,
        SetFault::MissingItem => SettingsErrorKind::MissingArrayItem,
    }
}

/// What writing `new` at `path` does to `v`: the new tree and the error,
/// if any. A path that does not parse, or that is empty, leaves `v` as it
/// is.
pub open spec fn set_path(v: ValueView, path: Seq<char>, new: ValueView) -> (
    ValueView,
    Option<(SettingsErrorKind, Seq<char>)>,
) {
    match parse_path(path) {
        Err(e) => (v, Some((SettingsErrorKind::Path(e), seq![]))),
        Ok(ts) => if ts.len() == 0 {
            (v, Some((SettingsErrorKind::NotFound, path)))
        } else {
            let (v2, f) = set_at(v, ts, new);
            (
                v2,
                match f {
                    Some(fault) => Some((fault_error(fault), path)),
                    None => None,
                },
            )
        },
    }
}

/// Write `value` at `path`, creating missing tables (or arrays) on the way.
pub fn set_node(root: &mut SettingValue, path: &str, value: SettingValue) -> (r: Result<(), SettingsError>)
    ensures
        final(root).tree() == set_path(old(root).tree(), path@, value.tree()).0,
        outcome(r) == set_path(old(root).tree(), path@, value.tree()).1,
{
    let tokens = match parse_path_tokens(path) {
        Ok(t) => t,
        Err(e) => {
            return Err(SettingsError::Path(e));
        },
    };
    proof {
        assert(parse_path(path@) == Ok::<Seq<PathTokenView>, crate::settings_path::PathErrorView>(
            token_views(tokens@),
        ));
    }
    if tokens.len() == 0 {
        return Err(SettingsError::NotFound(text_of(path)));
    }
    let fault = set_tokens(root, &tokens, value);
    match fault {
        None => Ok(()),
        Some(SetFault::NotTable) => Err(SettingsError::NonTableStep(text_of(path))),
        Some(SetFault::NotArray) => Err(SettingsError::NonArrayStep(text_of(path))),
        Some(SetFault::MissingItem) => Err(SettingsError::MissingArrayItem(text_of(path))),
    }
}

impl SettingValue {
    /// A copy of the value, tree for tree.
    #[verifier::loop_isolation(false)]
    pub fn deep_copy(&self) -> (r: SettingValue)
        ensures
            r.tree() == self.tree(),
        decreases self,
    {
        match self {
            SettingValue::Str(s) => SettingValue::Str(text_of(s.as_str())),
            SettingValue::Int(i) => SettingValue::Int(*i),
            SettingValue::Float(b) => SettingValue::Float(*b),
            SettingValue::Bool(b) => SettingValue::Bool(*b),
            SettingValue::Datetime(s) => SettingValue::Datetime(text_of(s.as_str())),
            SettingValue::Array(a) => {
                proof {
                    lemma_item_trees(a@);
                }
                let mut out: Vec<SettingValue> = Vec::new();
                let mut i: usize = 0;
                while i < a.len()
                    invariant
                        i <= a@.len(),
                        item_trees(a@).len() == a@.len(),
                        forall|j: int| 0 <= j < a@.len() ==> #[trigger] item_trees(a@)[j] == a@[j].tree(),
                        out@.len() == i,
                        forall|j: int| 0 <= j < i ==> #[trigger] out@[j].tree() == a@[j].tree(),
                    decreases a.len() - i,
                {
                    proof {
                        assert(decreases_to!(*self => *a));
                        assert(decreases_to!(*a => a@));
                        assert(decreases_to!(a@ => a@[i as int]));
                        assert(decreases_to!(*self => a@[i as int]));
                    }
                    let c = a[i].deep_copy();
                    out.push(c);
                    i += 1;
                }
                proof {
                    lemma_item_trees(out@);
                    assert(item_trees(out@) =~= item_trees(a@));
                }
                SettingValue::Array(out)
            },
            SettingValue::Table(es) => {
                proof {
                    lemma_entry_trees(es@);
                }
                let mut out: Vec<(String, SettingValue)> = Vec::new();
                let mut i: usize = 0;
                while i < es.len()
                    invariant
                        i <= es@.len(),
                        entry_trees(es@).len() == es@.len(),
                        forall|j: int| 0 <= j < es@.len() ==> #[trigger] entry_trees(es@)[j] == (es@[j].0@, es@[j].1.tree()),
                        out@.len() == i,
                        forall|j: int| 0 <= j < i ==> (#[trigger] out@[j]).0@ == es@[j].0@ && out@[j].1.tree()
                            == es@[j].1.tree(),
                    decreases es.len() - i,
                {
                    let k = text_of(es[i].0.as_str());
                    proof {
                        assert(decreases_to!(*self => *es));
                        assert(decreases_to!(*es => es@));
                        assert(decreases_to!(es@ => es@[i as int]));
                        assert(decreases_to!(es@[i as int] => es@[i as int].1));
                        assert(decreases_to!(*self => es@[i as int].1));
                    }
                    let c = es[i].1.deep_copy();
                    out.push((k, c));
                    i += 1;
                }
                proof {
                    lemma_entry_trees(out@);
                    assert(entry_trees(out@) =~= entry_trees(es@));
                }
                SettingValue::Table(out)
            },
        }
    }
}

// ---------------------------------------------------------------------------
// Reading a settings document
// ---------------------------------------------------------------------------

/// `toml::Value`, carried opaquely into the conversion below.
#[verifier::external_type_specification]
#[verifier::external_body]
pub struct ExTomlValue(toml::Value);

/// `toml::Value` turned into the library's tree, variant by variant
/// (floats as their bits, dates and times as their TOML text, table entries
/// in the map's order).
#[verifier::external_body]
fn setting_from_toml(v: &toml::Value) -> SettingValue {
    match v {
        toml::Value::String(s) => SettingValue::Str(s.clone()),
        toml::Value::Integer(i) => SettingValue::Int(*i),
        toml::Value::Float(x) => SettingValue::Float(x.to_bits()),
        toml::Value::Boolean(b) => SettingValue::Bool(*b),
        toml::Value::Datetime(d) => SettingValue::Datetime(d.to_string()),
        toml::Value::Array(items) => SettingValue::Array(items.iter().map(setting_from_toml).collect()),
        toml::Value::Table(t) => SettingValue::Table(t.iter().map(|(k, x)| (k.clone(), setting_from_toml(x))).collect()),
    }
}

/// What `toml::from_str::<toml::Value>` reads from a document's text, as
/// the library's tree: `None` when the text is not a TOML document.
pub uninterp spec fn settings_document(text: Seq<char>) -> Option<SettingValue>;

/// `toml::from_str::<toml::Value>` on the text, converted to the library's
/// tree; `None` on a parse error. The result is named by
/// `settings_document`; nothing more is stated of TOML parsing.
#[verifier::external_body]
fn parse_settings_document(text: &str) -> (r: Option<SettingValue>)
    ensures
        r == settings_document(text@),
{
    toml::from_str::<toml::Value>(text).ok().map(|v| setting_from_toml(&v))
}

/// The settings document of a configuration file: an empty table when the
/// file does not exist (`text` is `None`), else the parsed text, or `None`
/// when it does not parse.
pub fn load_or_default_settings(text: Option<&str>) -> (r: Option<SettingValue>)
    ensures
        match text {
            Some(t) => r == settings_document(t@),
            None => r is Some && r->0.tree() == ValueView::Table(seq![]),
        },
{
    match text {
        Some(t) => parse_settings_document(t),
        None => Some(SettingValue::Table(Vec::new())),
    }
}

} // verus!
