//! Which rows the settings palette lists for a part of the settings tree:
//! the paths the advanced view searches, the entries of a table split into
//! sections and settings, documented fields that are not set, and the
//! palette actions of rows opened from a group or the advanced view.

use vstd::prelude::*;
use crate::permission::string_views;
use crate::settings_edit::ACTION_PREFIX_OPEN;
use crate::settings_path::{advanced_dot_prefix, advanced_nested_prefix, advanced_view, group_prefix, key_piece, path_with_key};
use crate::settings_tree::{SettingValue, ValueView, get_node, node_at_path};
use crate::settings_view::{missing_doc_label, missing_doc_label_of, opt_str_view};
use crate::text::{chars_of, dec, eq_str, extend_str, has_prefix_str, push_dec, starts_with, string_from, sub_vec, to_ascii_lower};

verus! {

// ---------------------------------------------------------------------------
// Paths searched by the advanced view
// ---------------------------------------------------------------------------

pub open spec fn self_path(path: Seq<char>) -> Seq<Seq<char>> {
    if path.len() > 0 {
        seq![path]
    } else {
        seq![]
    }
}

/// The setting paths under `v`, which stands at `path`: every scalar and
/// every array (an array's items are listed too, as `path[i]`); a table
/// lists only what is under it. The root itself (the empty path) is never
/// listed.
pub open spec fn advanced_paths_under(v: SettingValue, path: Seq<char>) -> Seq<Seq<char>>
    decreases v, 0nat,
{
    match v {
        SettingValue::Table(es) => table_paths(es@, path),
        SettingValue::Array(items) => self_path(path) + array_paths(items@, path),
        _ => self_path(path),
    }
}

pub open spec fn table_paths(es: Seq<(String, SettingValue)>, path: Seq<char>) -> Seq<Seq<char>>
    decreases es, es.len(),
{
    if es.len() == 0 {
        seq![]
    } else {
        table_paths(es.drop_last(), path) + advanced_paths_under(
            es.last().1,
            path + key_piece(es.last().0@, path.len() == 0),
        )
    }
}

pub open spec fn index_path(path: Seq<char>, i: nat) -> Seq<char> {
    path + seq!['['] + dec(i) + seq![']']
}

pub open spec fn array_paths(items: Seq<SettingValue>, path: Seq<char>) -> Seq<Seq<char>>
    decreases items, items.len(),
{
    if items.len() == 0 {
        seq![]
    } else {
        array_paths(items.drop_last(), path) + advanced_paths_under(
            items.last(),
            index_path(path, (items.len() - 1) as nat),
        )
    }
}

/// Appends the setting paths under `value`, which stands at `path`, to
/// `paths` (the advanced view lists them as a set).
pub fn collect_advanced_paths(value: &SettingValue, path: &str, paths: &mut Vec<String>)
    ensures
        string_views(final(paths)@) == string_views(old(paths)@) + advanced_paths_under(*value, path@),
    decreases value,
{
    let ghost before = string_views(paths@);
    match value {
        SettingValue::Table(es) => {
            let mut i: usize = 0;
            while i < es.len()
                invariant
                    i <= es@.len(),
                    *value == SettingValue::Table(*es),
                    string_views(paths@) == before + table_paths(es@.take(i as int), path@),
                decreases es.len() - i,
            {
                proof {
                    assert(decreases_to!(*value => value->Table_0));
                    assert(decreases_to!(value->Table_0 => es@));
                    assert(decreases_to!(es@ => es@[i as int]));
                    assert(decreases_to!(es@[i as int] => es@[i as int].1));
                    assert(decreases_to!(*value => es@[i as int].1));
                }
                let child_path = path_with_key(path, es[i].0.as_str());
                collect_advanced_paths(&es[i].1, child_path.as_str(), paths);
                proof {
                    let s = es@.take(i + 1);
                    assert(s.drop_last() =~= es@.take(i as int));
                    assert(s.last() == es@[i as int]);
                }
                i += 1;
            }
            assert(es@.take(i as int) =~= es@);
        },
        SettingValue::Array(items) => {
            if path.unicode_len() > 0 {
                paths.push(path.to_owned());
            }
            assert(string_views(paths@) =~= before + self_path(path@));
            let mut i: usize = 0;
            while i < items.len()
                invariant
                    i <= items@.len(),
                    *value == SettingValue::Array(*items),
                    string_views(paths@) == before + self_path(path@) + array_paths(items@.take(i as int), path@),
                decreases items.len() - i,
            {
                proof {
                    assert(decreases_to!(*value => value->Array_0));
                    assert(decreases_to!(value->Array_0 => items@));
                    assert(decreases_to!(items@ => items@[i as int]));
                    assert(decreases_to!(*value => items@[i as int]));
                }
                let mut child: Vec<char> = chars_of(path);
                child.push('[');
                push_dec(&mut child, i);
                child.push(']');
                let child_path = string_from(&child);
                assert(child_path@ == index_path(path@, i as nat));
                collect_advanced_paths(&items[i], child_path.as_str(), paths);
                proof {
                    let s = items@.take(i + 1);
                    assert(s.drop_last() =~= items@.take(i as int));
                    assert(s.last() == items@[i as int]);
                    assert(s.len() - 1 == i);
                }
                i += 1;
            }
            assert(items@.take(i as int) =~= items@);
        },
        _ => {
            if path.unicode_len() > 0 {
                paths.push(path.to_owned());
            }
            assert(string_views(paths@) =~= before + advanced_paths_under(*value, path@));
        },
    }
}

// ---------------------------------------------------------------------------
// Rows opened from a group or the advanced view
// ---------------------------------------------------------------------------

pub open spec fn opt_text(o: Option<String>) -> Option<Seq<char>> {
    match o {
        Some(s) => Some(s@),
        None => None,
    }
}

/// An `open` action of a row listed under `open_prefix` opens the path
/// under that prefix; other actions are kept.
pub open spec fn open_in_context(action: Option<Seq<char>>, open_prefix: Option<Seq<char>>) -> Option<Seq<char>> {
    match (action, open_prefix) {
        (Some(a), Some(p)) => if starts_with(a, ACTION_PREFIX_OPEN@) {
            Some(ACTION_PREFIX_OPEN@ + p + a.skip(ACTION_PREFIX_OPEN@.len() as int))
        } else {
            action
        },
        _ => action,
    }
}

/// The action of a row listed under `open_prefix`.
pub fn with_open_context(action: Option<String>, open_prefix: Option<&str>) -> (r: Option<String>)
    ensures
        opt_text(r) == open_in_context(opt_text(action), opt_str_view(open_prefix)),
{
    let prefix = match open_prefix {
        Some(p) => p,
        None => {
            return action;
        },
    };
    let a = match &action {
        Some(a) => chars_of(a.as_str()),
        None => {
            return action;
        },
    };
    if !has_prefix_str(&a, ACTION_PREFIX_OPEN) {
        return action;
    }
    let n = ACTION_PREFIX_OPEN.unicode_len();
    let rest = sub_vec(&a, n, a.len());
    let mut out = chars_of(ACTION_PREFIX_OPEN);
    extend_str(&mut out, prefix);
    let mut k: usize = 0;
    let ghost start = out@;
    while k < rest.len()
        invariant
            k <= rest@.len(),
            out@ == start + rest@.take(k as int),
        decreases rest.len() - k,
    {
        out.push(rest[k]);
        assert(rest@.take(k + 1) =~= rest@.take(k as int).push(rest@[k as int]));
        k += 1;
    }
    assert(rest@.take(k as int) =~= rest@);
    Some(string_from(&out))
}

// ---------------------------------------------------------------------------
// Entries of a table
// ---------------------------------------------------------------------------

/// The one setting the palette never lists.
pub const HIDDEN_SETTINGS_PATH: &'static str = "agent.small_model";

/// An entry of a table listed as a row: its position in the table and its
/// path.
#[derive(Debug, Clone, PartialEq, Eq)]
pub struct TableEntryRow {
    pub index: usize,
    pub path: String,
}

pub open spec fn entry_path(es: Seq<(String, SettingValue)>, i: int, parent: Option<Seq<char>>) -> Seq<char> {
    let p = match parent {
        Some(p) => p,
        None => seq![],
    };
    p + key_piece(es[i].0@, p.len() == 0)
}

pub open spec fn is_table(v: SettingValue) -> bool {
    v is Table
}

/// The rows of the first `n` entries whose value is (`sections`) or is not a
/// table, leaving out the hidden setting, in table order.
pub open spec fn entry_rows(es: Seq<(String, SettingValue)>, n: int, parent: Option<Seq<char>>, sections: bool) -> Seq<
    (int, Seq<char>),
>
    decreases n,
{
    if n <= 0 {
        seq![]
    } else {
        let i = n - 1;
        let rest = entry_rows(es, i, parent, sections);
        if entry_path(es, i, parent) != HIDDEN_SETTINGS_PATH@ && is_table(es[i].1) == sections {
            rest.push((i, entry_path(es, i, parent)))
        } else {
            rest
        }
    }
}

pub open spec fn row_views(v: Seq<TableEntryRow>) -> Seq<(int, Seq<char>)> {
    v.map_values(|r: TableEntryRow| (r.index as int, r.path@))
}

/// The entries of a table under `parent_path`, split into sections (tables)
/// and settings (everything else), each in table order; the hidden setting
/// is left out.
pub fn table_entry_rows(entries: &Vec<(String, SettingValue)>, parent_path: Option<&str>) -> (r: (
    Vec<TableEntryRow>,
    Vec<TableEntryRow>,
))
    ensures
        row_views(r.0@) == entry_rows(entries@, entries@.len() as int, opt_str_view(parent_path), true),
        row_views(r.1@) == entry_rows(entries@, entries@.len() as int, opt_str_view(parent_path), false),
{
    let parent = match parent_path {
        Some(p) => p,
        None => "",
    };
    proof {
        reveal_strlit("");
    }
    let mut sections: Vec<TableEntryRow> = Vec::new();
    let mut settings: Vec<TableEntryRow> = Vec::new();
    let mut i: usize = 0;
    while i < entries.len()
        invariant
            i <= entries@.len(),
            parent@ == match opt_str_view(parent_path) {
                Some(p) => p,
                None => seq![],
            },
            row_views(sections@) == entry_rows(entries@, i as int, opt_str_view(parent_path), true),
            row_views(settings@) == entry_rows(entries@, i as int, opt_str_view(parent_path), false),
        decreases entries.len() - i,
    {
        let path = path_with_key(parent, entries[i].0.as_str());
        assert(path@ == entry_path(entries@, i as int, opt_str_view(parent_path)));
        let p = chars_of(path.as_str());
        let hidden = eq_str(&p, HIDDEN_SETTINGS_PATH);
        let table = match &entries[i].1 {
            SettingValue::Table(_) => true,
            _ => false,
        };
        let ghost before_sections = row_views(sections@);
        let ghost before_settings = row_views(settings@);
        if !hidden {
            if table {
                sections.push(TableEntryRow { index: i, path });
                assert(row_views(sections@) =~= before_sections.push((i as int, p@)));
            } else {
                settings.push(TableEntryRow { index: i, path });
                assert(row_views(settings@) =~= before_settings.push((i as int, p@)));
            }
        }
        i += 1;
    }
    (sections, settings)
}

// ---------------------------------------------------------------------------
// Documented optional fields that are not set
// ---------------------------------------------------------------------------

/// Documented fields offered even when they are absent from the file.
pub open spec fn optional_doc_fields() -> Seq<Seq<char>> {
    seq!["provider.anthropic.thinking_display"@, "provider.openai.service_tier"@]
}

/// Where an optional field is looked up in the table at `parent`: its path
/// relative to the parent when it lies under it, else its full path.
pub open spec fn optional_lookup_path(path: Seq<char>, parent: Option<Seq<char>>) -> Seq<char> {
    match parent {
        Some(p) => if starts_with(path, p) && path.len() > p.len() && path[p.len() as int] == '.' {
            path.skip(p.len() + 1int)
        } else {
            path
        },
        None => path,
    }
}

/// The optional fields (label and path) to offer in the table `root`
/// standing at `parent`: those not set there that are its direct children.
pub open spec fn missing_optional_fields(root: ValueView, parent: Option<Seq<char>>, n: int) -> Seq<
    (Seq<char>, Seq<char>),
>
    decreases n,
{
    if n <= 0 {
        seq![]
    } else {
        let rest = missing_optional_fields(root, parent, n - 1);
        let path = optional_doc_fields()[n - 1];
        if node_at_path(root, optional_lookup_path(path, parent)) is Some {
            rest
        } else {
            match missing_doc_label_of(path, parent) {
                Some(label) => rest.push((label, path)),
                None => rest,
            }
        }
    }
}

pub open spec fn pair_views(v: Seq<(String, String)>) -> Seq<(Seq<char>, Seq<char>)> {
    v.map_values(|p: (String, String)| (p.0@, p.1@))
}

fn optional_lookup(path: &str, parent_path: Option<&str>) -> (r: String)
    ensures
        r@ == optional_lookup_path(path@, opt_str_view(parent_path)),
{
    match parent_path {
        Some(parent) => {
            let p = chars_of(path);
            let n = parent.unicode_len();
            if has_prefix_str(&p, parent) && p.len() > n && p[n] == '.' {
                let rest = sub_vec(&p, n + 1, p.len());
                string_from(&rest)
            } else {
                path.to_owned()
            }
        },
        None => path.to_owned(),
    }
}

/// The documented optional fields to offer as unset rows of the table
/// `root` standing at `parent_path`, as (label, path) pairs.
pub fn missing_optional_doc_items(root: &SettingValue, parent_path: Option<&str>) -> (r: Vec<(String, String)>)
    ensures
        pair_views(r@) == missing_optional_fields(root.tree(), opt_str_view(parent_path), 2),
{
    let fields: [&str; 2] = ["provider.anthropic.thinking_display", "provider.openai.service_tier"];
    let mut out: Vec<(String, String)> = Vec::new();
    let mut i: usize = 0;
    while i < 2
        invariant
            i <= 2,
            fields@.len() == 2,
            fields@[0]@ == optional_doc_fields()[0],
            fields@[1]@ == optional_doc_fields()[1],
            pair_views(out@) == missing_optional_fields(root.tree(), opt_str_view(parent_path), i as int),
        decreases 2 - i,
    {
        let path = fields[i];
        let lookup = optional_lookup(path, parent_path);
        let ghost before = pair_views(out@);
        match get_node(root, lookup.as_str()) {
            Some(_) => {},
            None => {
                match missing_doc_label(path, parent_path) {
                    Some(label) => {
                        out.push((label, path.to_owned()));
                        assert(pair_views(out@) =~= before.push((out@[before.len() as int].0@, path@)));
                    },
                    None => {},
                }
            },
        }
        i += 1;
    }
    out
}

// ---------------------------------------------------------------------------
// Count of editable settings
// ---------------------------------------------------------------------------

/// A set setting's row runs an action: the main model and the editor
/// always do, other values unless they are dates or times.
pub open spec fn row_is_editable(path: Seq<char>, v: ValueView) -> bool {
    path == "agent.default_model"@ || path == "tools.editor"@ || !(v is Datetime)
}

/// The rows that run an action are exactly the editable ones, whatever
/// number of values a string cycles through.
pub proof fn lemma_editable_rows_have_actions(path: Seq<char>, v: ValueView, option_count: nat)
    ensures
        crate::settings_labels::setting_action_of(path, v, option_count).1 is Some <==> row_is_editable(path, v),
{
}

/// How many of the first `n` advanced paths are editable settings: not a
/// schema path, and either set with an editable row or unset and documented
/// with values to pick from.
pub open spec fn editable_count(root: ValueView, paths: Seq<Seq<char>>, has_options: Seq<bool>, n: int) -> nat
    decreases n,
{
    if n <= 0 {
        0
    } else {
        let path = paths[n - 1];
        let counted = !crate::settings_view::schema_path(path) && match node_at_path(root, path) {
            Some(v) => row_is_editable(path, v),
            None => has_options[n - 1],
        };
        editable_count(root, paths, has_options, n - 1) + if counted {
            1nat
        } else {
            0nat
        }
    }
}

/// The number of editable settings among the advanced view's paths;
/// `doc_has_options[i]` tells whether the documentation of `paths[i]` lists
/// values to pick from.
pub fn advanced_editable_count(draft: &SettingValue, paths: &[String], doc_has_options: &[bool]) -> (r: usize)
    requires
        paths@.len() == doc_has_options@.len(),
    ensures
        r == editable_count(draft.tree(), string_views(paths@), doc_has_options@, paths@.len() as int),
{
    let mut count: usize = 0;
    let mut i: usize = 0;
    while i < paths.len()
        invariant
            i <= paths@.len() == doc_has_options@.len(),
            count == editable_count(draft.tree(), string_views(paths@), doc_has_options@, i as int),
            count <= i,
        decreases paths.len() - i,
    {
        let path = paths[i].as_str();
        let counted = if crate::settings_view::is_schema_path(path) {
            false
        } else {
            match get_node(draft, path) {
                Some(v) => {
                    let p = chars_of(path);
                    eq_str(&p, "agent.default_model") || eq_str(&p, "tools.editor") || match v {
                        SettingValue::Datetime(_) => false,
                        _ => true,
                    }
                },
                None => doc_has_options[i],
            }
        };
        if counted {
            count += 1;
        }
        i += 1;
    }
    count
}

// ---------------------------------------------------------------------------
// Which listing a settings view shows
// ---------------------------------------------------------------------------

/// What the palette lists for a view.
#[derive(Debug, Clone, PartialEq, Eq)]
pub enum SettingsListing {
    /// The confirmation rows of a reset.
    ResetConfirmation,
    /// The curated groups, the advanced entry and the reload and reset rows.
    Root,
    /// Every advanced path.
    AdvancedAll,
    /// One advanced path opened from the advanced view (`advanced:` views).
    AdvancedNested(String),
    /// One documented advanced path (`advanced.` views).
    AdvancedDotted(String),
    /// A setting opened from a curated group: the group and the path.
    GroupNested(String, String),
    /// The settings of a curated group.
    CuratedGroup(String),
    /// The model configuration sections.
    ModelConfig,
    /// The main model's provider and model.
    ModelConfigMain,
    /// The node of the settings tree at the path.
    Node(String),
}

pub enum ListingView {
    ResetConfirmation,
    Root,
    AdvancedAll,
    AdvancedNested(Seq<char>),
    AdvancedDotted(Seq<char>),
    GroupNested(Seq<char>, Seq<char>),
    CuratedGroup(Seq<char>),
    ModelConfig,
    ModelConfigMain,
    Node(Seq<char>),
}

impl SettingsListing {
    pub open spec fn listing_view(&self) -> ListingView {
        match self {
            SettingsListing::ResetConfirmation => ListingView::ResetConfirmation,
            SettingsListing::Root => ListingView::Root,
            SettingsListing::AdvancedAll => ListingView::AdvancedAll,
            SettingsListing::AdvancedNested(p) => ListingView::AdvancedNested(p@),
            SettingsListing::AdvancedDotted(p) => ListingView::AdvancedDotted(p@),
            SettingsListing::GroupNested(g, p) => ListingView::GroupNested(g@, p@),
            SettingsListing::CuratedGroup(g) => ListingView::CuratedGroup(g@),
            SettingsListing::ModelConfig => ListingView::ModelConfig,
            SettingsListing::ModelConfigMain => ListingView::ModelConfigMain,
            SettingsListing::Node(p) => ListingView::Node(p@),
        }
    }
}

/// The listing of a view: no view is the root; the reset confirmation, the
/// advanced views, a group's nested setting (`group:ID:PATH`), a curated
/// group (`group:ID`), the model configuration views, and otherwise the
/// node at the view's path.
pub open spec fn listing_of(view: Option<Seq<char>>) -> ListingView {
    match view {
        None => ListingView::Root,
        Some(v) => if v == crate::settings_edit::RESET_CONFIRMATION_VIEW@ {
            ListingView::ResetConfirmation
        } else if starts_with(v, advanced_nested_prefix()) {
            ListingView::AdvancedNested(v.skip(9))
        } else if starts_with(v, advanced_dot_prefix()) {
            ListingView::AdvancedDotted(v.skip(9))
        } else if v == advanced_view() {
            ListingView::AdvancedAll
        } else if starts_with(v, group_prefix()) && crate::text::index_of(v.skip(6), ':') < v.skip(6).len() {
            let g = v.skip(6);
            let c = crate::text::index_of(g, ':');
            ListingView::GroupNested(g.take(c), g.skip(c + 1))
        } else if starts_with(v, group_prefix()) && crate::settings_view::find_group(
            crate::settings_view::curated_table(),
            v.skip(6),
        ) is Some {
            ListingView::CuratedGroup(v.skip(6))
        } else if v == crate::settings_view::SETTINGS_MODEL_CONFIG_PATH@ {
            ListingView::ModelConfig
        } else if v == crate::settings_view::SETTINGS_MODEL_CONFIG_MAIN_PATH@ {
            ListingView::ModelConfigMain
        } else {
            ListingView::Node(v)
        },
    }
}

/// What the palette lists for `view_path`.
pub fn settings_listing(view_path: Option<&str>) -> (r: SettingsListing)
    ensures
        r.listing_view() == listing_of(opt_str_view(view_path)),
{
    proof {
        reveal_strlit("advanced");
        reveal_strlit("advanced:");
        reveal_strlit("advanced.");
        reveal_strlit("group:");
        assert(crate::settings_path::advanced_view() == crate::settings_path::SETTINGS_ADVANCED_VIEW_PATH@);
        assert(crate::settings_path::group_prefix() == crate::settings_path::SETTINGS_GROUP_PREFIX@);
        assert(crate::settings_path::advanced_nested_prefix()
            == crate::settings_path::SETTINGS_ADVANCED_NESTED_PREFIX@);
        assert(crate::settings_path::advanced_dot_prefix() == "advanced."@);
    }
    let view = match view_path {
        Some(v) => v,
        None => {
            return SettingsListing::Root;
        },
    };
    let s = chars_of(view);
    if eq_str(&s, crate::settings_edit::RESET_CONFIRMATION_VIEW) {
        return SettingsListing::ResetConfirmation;
    }
    if has_prefix_str(&s, crate::settings_path::SETTINGS_ADVANCED_NESTED_PREFIX) {
        let rest = sub_vec(&s, 9, s.len());
        return SettingsListing::AdvancedNested(string_from(&rest));
    }
    if has_prefix_str(&s, "advanced.") {
        let rest = sub_vec(&s, 9, s.len());
        return SettingsListing::AdvancedDotted(string_from(&rest));
    }
    if eq_str(&s, crate::settings_path::SETTINGS_ADVANCED_VIEW_PATH) {
        return SettingsListing::AdvancedAll;
    }
    if has_prefix_str(&s, crate::settings_path::SETTINGS_GROUP_PREFIX) {
        let g = sub_vec(&s, 6, s.len());
        assert(g@ == view@.skip(6));
        let c = crate::text::index_of_char_from(&g, ':', 0);
        proof {
            crate::text::lemma_index_of(g@, ':', c as int);
        }
        if c < g.len() {
            let gid = sub_vec(&g, 0, c);
            let nested = sub_vec(&g, c + 1, g.len());
            return SettingsListing::GroupNested(string_from(&gid), string_from(&nested));
        }
        let gs = string_from(&g);
        if crate::settings_view::curated_group(gs.as_str()).is_some() {
            return SettingsListing::CuratedGroup(gs);
        }
    }
    if eq_str(&s, crate::settings_view::SETTINGS_MODEL_CONFIG_PATH) {
        return SettingsListing::ModelConfig;
    }
    if eq_str(&s, crate::settings_view::SETTINGS_MODEL_CONFIG_MAIN_PATH) {
        return SettingsListing::ModelConfigMain;
    }
    SettingsListing::Node(view.to_owned())
}

// ---------------------------------------------------------------------------
// Rows built from the group table and the documentation
// ---------------------------------------------------------------------------

/// A row of the settings palette: title, detail line, badge, the palette
/// action it runs and the text its search matches.
#[derive(Debug, Clone, PartialEq, Eq)]
pub struct SettingsRow {
    pub title: String,
    pub subtitle: Option<String>,
    pub badge: Option<String>,
    pub action: Option<String>,
    pub search_value: Option<String>,
}

pub struct RowView {
    pub title: Seq<char>,
    pub subtitle: Option<Seq<char>>,
    pub badge: Option<Seq<char>>,
    pub action: Option<Seq<char>>,
    pub search_value: Option<Seq<char>>,
}

impl SettingsRow {
    pub open spec fn row_view(&self) -> RowView {
        RowView {
            title: self.title@,
            subtitle: opt_text(self.subtitle),
            badge: opt_text(self.badge),
            action: opt_text(self.action),
            search_value: opt_text(self.search_value),
        }
    }
}

/// Whether the setting at `path` would be listed with an action: set and
/// editable, or unset and documented with values to pick from
/// (`option_paths` lists the documented paths with values).
pub open spec fn counted_path(root: ValueView, path: Seq<char>, option_paths: Seq<Seq<char>>) -> bool {
    match node_at_path(root, path) {
        Some(v) => row_is_editable(path, v),
        None => option_paths.contains(path),
    }
}

/// How many of the first `n` paths are listed with an action.
pub open spec fn listed_count(root: ValueView, paths: Seq<Seq<char>>, option_paths: Seq<Seq<char>>, n: int) -> nat
    decreases n,
{
    if n <= 0 {
        0
    } else {
        listed_count(root, paths, option_paths, n - 1) + if counted_path(root, paths[n - 1], option_paths) {
            1nat
        } else {
            0nat
        }
    }
}

fn contains_path(paths: &[String], p: &str) -> (b: bool)
    ensures
        b == string_views(paths@).contains(p@),
{
    let ghost pv = string_views(paths@);
    let mut i: usize = 0;
    while i < paths.len()
        invariant
            i <= paths@.len(),
            pv == string_views(paths@),
            forall|j: int| 0 <= j < i ==> pv[j] != p@,
        decreases paths.len() - i,
    {
        let c = chars_of(paths[i].as_str());
        if eq_str(&c, p) {
            assert(pv[i as int] == p@);
            return true;
        }
        i += 1;
    }
    false
}

/// The number of a group's settings listed with an action.
pub fn group_listed_count(draft: &SettingValue, paths: &Vec<&'static str>, option_paths: &[String]) -> (r: usize)
    ensures
        r == listed_count(
            draft.tree(),
            crate::settings_view::str_views(paths@),
            string_views(option_paths@),
            paths@.len() as int,
        ),
{
    let ghost pv = crate::settings_view::str_views(paths@);
    let mut count: usize = 0;
    let mut i: usize = 0;
    while i < paths.len()
        invariant
            i <= paths@.len(),
            pv == crate::settings_view::str_views(paths@),
            count == listed_count(draft.tree(), pv, string_views(option_paths@), i as int),
            count <= i,
        decreases paths.len() - i,
    {
        let path = paths[i];
        assert(pv[i as int] == path@);
        let counted = match get_node(draft, path) {
            Some(v) => {
                let p = chars_of(path);
                eq_str(&p, "agent.default_model") || eq_str(&p, "tools.editor") || match v {
                    SettingValue::Datetime(_) => false,
                    _ => true,
                }
            },
            None => contains_path(option_paths, path),
        };
        if counted {
            count += 1;
        }
        i += 1;
    }
    count
}

/// The row of a curated group in the root view.
pub open spec fn group_row(g: crate::settings_view::GroupView, count: nat) -> RowView {
    RowView {
        title: g.title,
        subtitle: Some(
            g.description + " \u{2022} "@ + dec(count) + " "@ + if count == 1 {
                "editable setting"@
            } else {
                "editable settings"@
            },
        ),
        badge: Some("Group"@),
        action: Some(ACTION_PREFIX_OPEN@ + crate::settings_path::group_prefix() + g.id),
        search_value: Some(
            crate::text::lower(
                g.title + " "@ + g.id + " "@ + g.description + " "@ + crate::text::joined_with(g.paths, " "@),
            ),
        ),
    }
}

/// The rows of the curated groups in the root view, in display order, each
/// with the number of its settings listed with an action.
pub fn curated_root_rows(draft: &SettingValue, option_paths: &[String]) -> (r: Vec<SettingsRow>)
    ensures
        r@.len() == crate::settings_view::curated_table().len(),
        forall|i: int|
            0 <= i < r@.len() ==> (#[trigger] r@[i]).row_view() == group_row(
                crate::settings_view::curated_table()[i],
                listed_count(
                    draft.tree(),
                    crate::settings_view::curated_table()[i].paths,
                    string_views(option_paths@),
                    crate::settings_view::curated_table()[i].paths.len() as int,
                ),
            ),
{
    proof {
        reveal_strlit("group:");
        assert(crate::settings_path::group_prefix() == crate::settings_path::SETTINGS_GROUP_PREFIX@);
    }
    let groups = crate::settings_view::curated_groups();
    let ghost table = crate::settings_view::curated_table();
    let mut rows: Vec<SettingsRow> = Vec::new();
    let mut i: usize = 0;
    while i < groups.len()
        invariant
            i <= groups@.len(),
            crate::settings_view::group_views(groups@) == table,
            table == crate::settings_view::curated_table(),
            crate::settings_path::group_prefix() == crate::settings_path::SETTINGS_GROUP_PREFIX@,
            rows@.len() == i,
            forall|j: int|
                0 <= j < i ==> (#[trigger] rows@[j]).row_view() == group_row(
                    table[j],
                    listed_count(draft.tree(), table[j].paths, string_views(option_paths@), table[j].paths.len() as int),
                ),
        decreases groups.len() - i,
    {
        let g = &groups[i];
        assert(g@ == table[i as int]);
        let count = group_listed_count(draft, &g.paths, option_paths);
        let mut sub = chars_of(g.description);
        extend_str(&mut sub, " \u{2022} ");
        push_dec(&mut sub, count);
        extend_str(&mut sub, " ");
        if count == 1 {
            extend_str(&mut sub, "editable setting");
        } else {
            extend_str(&mut sub, "editable settings");
        }
        let mut action = chars_of(ACTION_PREFIX_OPEN);
        extend_str(&mut action, crate::settings_path::SETTINGS_GROUP_PREFIX);
        extend_str(&mut action, g.id);
        let mut owned_paths: Vec<String> = Vec::new();
        let mut k: usize = 0;
        while k < g.paths.len()
            invariant
                k <= g.paths@.len(),
                string_views(owned_paths@) == crate::settings_view::str_views(g.paths@).take(k as int),
            decreases g.paths.len() - k,
        {
            owned_paths.push(g.paths[k].to_owned());
            assert(crate::settings_view::str_views(g.paths@).take(k + 1) =~= crate::settings_view::str_views(
                g.paths@,
            ).take(k as int).push(g.paths@[k as int]@));
            k += 1;
        }
        assert(crate::settings_view::str_views(g.paths@).take(k as int) =~= crate::settings_view::str_views(
            g.paths@,
        ));
        assert(owned_paths@.map_values(|s: String| s@) =~= string_views(owned_paths@));
        let joined = crate::text::join_strings(&owned_paths, " ");
        let mut search = chars_of(g.title);
        extend_str(&mut search, " ");
        extend_str(&mut search, g.id);
        extend_str(&mut search, " ");
        extend_str(&mut search, g.description);
        extend_str(&mut search, " ");
        extend_str(&mut search, joined.as_str());
        let lowered = to_ascii_lower(&search);
        let row = SettingsRow {
            title: g.title.to_owned(),
            subtitle: Some(string_from(&sub)),
            badge: Some("Group".to_owned()),
            action: Some(string_from(&action)),
            search_value: Some(string_from(&lowered)),
        };
        assert(row.row_view() == group_row(
            table[i as int],
            listed_count(
                draft.tree(),
                table[i as int].paths,
                string_views(option_paths@),
                table[i as int].paths.len() as int,
            ),
        ));
        rows.push(row);
        i += 1;
    }
    rows
}

/// The row of a documented schema path (one with placeholders, or one
/// with no values to pick from): its label, its path and description (or a
/// note that a concrete entry must be configured), the `Schema` badge, no
/// action, and a search over the path, the label, its words, the default,
/// the description and the documented values.
pub open spec fn schema_row(path: Seq<char>, doc: crate::settings_view::FieldDoc) -> RowView {
    let label = crate::settings_labels::advanced_label_of(path);
    let terms = seq![path, label, crate::settings_labels::humanized(path)] + (if doc.default_value@.len() > 0 {
        seq![doc.default_value@]
    } else {
        seq![]
    }) + (if doc.description@.len() > 0 {
        seq![doc.description@]
    } else {
        seq![]
    }) + string_views(doc.options@);
    RowView {
        title: label,
        subtitle: Some(
            path + " \u{2022} "@ + if doc.description@.len() == 0 {
                "Documented schema field; configure a concrete entry to edit it."@
            } else {
                doc.description@
            },
        ),
        badge: Some("Schema"@),
        action: None,
        search_value: Some(crate::text::lower(crate::text::joined_with(terms, " "@))),
    }
}

/// The row of a documented schema path.
pub fn advanced_schema_row(path: &str, doc: &crate::settings_view::FieldDoc) -> (r: SettingsRow)
    ensures
        r.row_view() == schema_row(path@, *doc),
{
    let label = crate::settings_labels::advanced_label(path);
    let mut terms: Vec<String> = Vec::new();
    terms.push(path.to_owned());
    terms.push(label.clone());
    terms.push(crate::settings_labels::humanize_identifier(path));
    let ghost t0 = string_views(terms@);
    if doc.default_value.unicode_len() > 0 {
        terms.push(doc.default_value.clone());
    }
    let ghost t1 = string_views(terms@);
    if doc.description.unicode_len() > 0 {
        terms.push(doc.description.clone());
    }
    let ghost t2 = string_views(terms@);
    let mut k: usize = 0;
    while k < doc.options.len()
        invariant
            k <= doc.options@.len(),
            string_views(terms@) == t2 + string_views(doc.options@).take(k as int),
        decreases doc.options.len() - k,
    {
        let ghost before = string_views(terms@);
        terms.push(doc.options[k].clone());
        assert(string_views(doc.options@).take(k + 1) =~= string_views(doc.options@).take(k as int).push(
            doc.options@[k as int]@,
        ));
        assert(string_views(terms@) =~= before.push(doc.options@[k as int]@));
        k += 1;
    }
    assert(string_views(doc.options@).take(k as int) =~= string_views(doc.options@));
    proof {
        let label_v = crate::settings_labels::advanced_label_of(path@);
        let expected = seq![path@, label_v, crate::settings_labels::humanized(path@)] + (if doc.default_value@.len()
            > 0 {
            seq![doc.default_value@]
        } else {
            seq![]
        }) + (if doc.description@.len() > 0 {
            seq![doc.description@]
        } else {
            seq![]
        }) + string_views(doc.options@);
        assert(t0 =~= seq![path@, label_v, crate::settings_labels::humanized(path@)]);
        assert(string_views(terms@) =~= expected);
        assert(terms@.map_values(|s: String| s@) =~= string_views(terms@));
    }
    let joined = crate::text::join_strings(&terms, " ");
    let lowered = to_ascii_lower(&chars_of(joined.as_str()));
    let mut sub = chars_of(path);
    extend_str(&mut sub, " \u{2022} ");
    if doc.description.unicode_len() == 0 {
        extend_str(&mut sub, "Documented schema field; configure a concrete entry to edit it.");
    } else {
        extend_str(&mut sub, doc.description.as_str());
    }
    SettingsRow {
        title: label,
        subtitle: Some(string_from(&sub)),
        badge: Some("Schema".to_owned()),
        action: None,
        search_value: Some(string_from(&lowered)),
    }
}

} // verus!
