//! The settings palette's frame: the header lines above the rows, the
//! search placeholder, and which row is selected when a view opens.

use vstd::prelude::*;
use crate::permission::string_views;
use crate::settings_edit::{
    ACTION_BACK, ACTION_OPEN_ROOT, ACTION_RELOAD, ACTION_RESET, ACTION_RESET_CANCEL, ACTION_RESET_CONFIRM,
    RESET_CONFIRMATION_VIEW,
};
use crate::settings_labels::{humanize_identifier, humanized};
use crate::settings_path::{
    SETTINGS_ADVANCED_NESTED_PREFIX, SETTINGS_ADVANCED_VIEW_PATH, SETTINGS_GROUP_PREFIX, advanced_dot_prefix,
    advanced_nested_prefix, advanced_view, group_prefix,
};
use crate::settings_view::{curated_group, curated_table, find_group, opt_str_view};
use crate::text::{chars_of, dec, eq_str, extend_all, extend_str, has_prefix_str, index_of, push_dec, starts_with,
    string_from, sub_vec};

verus! {

// ---------------------------------------------------------------------------
// Header
// ---------------------------------------------------------------------------

/// The permission rule counts shown in the `permissions` view.
pub open spec fn permission_summary_text(deny: nat, ask: nat, allow: nat) -> Seq<char> {
    "Rules \u{2022} deny "@ + dec(deny) + " \u{2022} ask "@ + dec(ask) + " \u{2022} allow "@ + dec(allow) + "."@
}

/// `Rules • deny N • ask N • allow N.`
pub fn format_permission_summary(deny: usize, ask: usize, allow: usize) -> (r: String)
    ensures
        r@ == permission_summary_text(deny as nat, ask as nat, allow as nat),
{
    let mut out = chars_of("Rules \u{2022} deny ");
    push_dec(&mut out, deny);
    extend_str(&mut out, " \u{2022} ask ");
    push_dec(&mut out, ask);
    extend_str(&mut out, " \u{2022} allow ");
    push_dec(&mut out, allow);
    extend_str(&mut out, ".");
    string_from(&out)
}

pub open spec fn crumb(parts: Seq<char>) -> Seq<char> {
    "Settings > "@ + parts
}

/// The breadcrumb and detail line of a view. `heading` is the title and
/// summary of the configuration section that a plain setting path lies in.
pub open spec fn breadcrumb_of(view: Seq<char>, heading: (Seq<char>, Seq<char>)) -> (Seq<char>, Seq<char>) {
    if view == advanced_view() {
        (
            crumb("Advanced settings"@),
            "Search the complete configuration by path, label, description, current value, or option."@,
        )
    } else if starts_with(view, advanced_nested_prefix()) {
        (crumb("Advanced settings > "@ + view.skip(9)), "Editing a nested advanced setting."@)
    } else if starts_with(view, advanced_dot_prefix()) {
        (crumb("Advanced settings > "@ + view.skip(9)), "Editing a documented advanced setting."@)
    } else if starts_with(view, group_prefix()) {
        let g = view.skip(6);
        let c = index_of(g, ':');
        if c < g.len() {
            let gid = g.take(c);
            let nested = g.skip(c + 1);
            match find_group(curated_table(), gid) {
                Some(group) => (crumb(group.title + " > "@ + nested), "Editing a setting in this group."@),
                None => (crumb(humanized(gid) + " > "@ + nested), seq![]),
            }
        } else {
            match find_group(curated_table(), g) {
                Some(group) => (crumb(group.title), group.description),
                None => (crumb(humanized(g)), seq![]),
            }
        }
    } else {
        (crumb(heading.0), heading.1)
    }
}

/// The breadcrumb and the detail line of a settings view; `heading_title`
/// and `heading_summary` describe the configuration section of a plain
/// setting path.
pub fn settings_breadcrumb_and_detail(view_path: &str, heading_title: &str, heading_summary: &str) -> (r: (
    String,
    String,
))
    ensures
        (r.0@, r.1@) == breadcrumb_of(view_path@, (heading_title@, heading_summary@)),
{
    proof {
        reveal_strlit("advanced");
        reveal_strlit("advanced:");
        reveal_strlit("advanced.");
        reveal_strlit("group:");
        reveal_strlit("");
        assert(advanced_view() == SETTINGS_ADVANCED_VIEW_PATH@);
        assert(group_prefix() == SETTINGS_GROUP_PREFIX@);
        assert(advanced_nested_prefix() == SETTINGS_ADVANCED_NESTED_PREFIX@);
        assert(advanced_dot_prefix() == "advanced."@);
    }
    let s = chars_of(view_path);
    if eq_str(&s, SETTINGS_ADVANCED_VIEW_PATH) {
        let mut out = chars_of("Settings > ");
        extend_str(&mut out, "Advanced settings");
        return (
            string_from(&out),
            "Search the complete configuration by path, label, description, current value, or option.".to_owned(),
        );
    }
    if has_prefix_str(&s, SETTINGS_ADVANCED_NESTED_PREFIX) || has_prefix_str(&s, "advanced.") {
        let nested = has_prefix_str(&s, SETTINGS_ADVANCED_NESTED_PREFIX);
        let rest = sub_vec(&s, 9, s.len());
        let mut out = chars_of("Settings > ");
        extend_str(&mut out, "Advanced settings > ");
        extend_all(&mut out, &rest);
        assert(out@ =~= crumb("Advanced settings > "@ + view_path@.skip(9)));
        let detail = if nested {
            "Editing a nested advanced setting."
        } else {
            "Editing a documented advanced setting."
        };
        return (string_from(&out), detail.to_owned());
    }
    if has_prefix_str(&s, SETTINGS_GROUP_PREFIX) {
        let g = sub_vec(&s, 6, s.len());
        assert(g@ == view_path@.skip(6));
        let c = crate::text::index_of_char_from(&g, ':', 0);
        proof {
            crate::text::lemma_index_of(g@, ':', c as int);
        }
        let mut out = chars_of("Settings > ");
        if c < g.len() {
            let gid = string_from(&sub_vec(&g, 0, c));
            let nested = sub_vec(&g, c + 1, g.len());
            return match curated_group(gid.as_str()) {
                Some(group) => {
                    extend_str(&mut out, group.title);
                    extend_str(&mut out, " > ");
                    extend_all(&mut out, &nested);
                    (string_from(&out), "Editing a setting in this group.".to_owned())
                },
                None => {
                    let h = humanize_identifier(gid.as_str());
                    extend_str(&mut out, h.as_str());
                    extend_str(&mut out, " > ");
                    extend_all(&mut out, &nested);
                    (string_from(&out), "".to_owned())
                },
            };
        }
        let gs = string_from(&g);
        return match curated_group(gs.as_str()) {
            Some(group) => {
                extend_str(&mut out, group.title);
                (string_from(&out), group.description.to_owned())
            },
            None => {
                let h = humanize_identifier(gs.as_str());
                extend_str(&mut out, h.as_str());
                (string_from(&out), "".to_owned())
            },
        };
    }
    let mut out = chars_of("Settings > ");
    extend_str(&mut out, heading_title);
    (string_from(&out), heading_summary.to_owned())
}

/// The header lines of a settings view: the write target and the source,
/// then for the reset confirmation its warning, for another view its
/// breadcrumb (with a period) and detail line (in the `permissions` view
/// followed by the rule counts; left out when empty), and for the root the
/// invitation to choose a group.
pub open spec fn header_rows(
    write_target: Seq<char>,
    source_label: Seq<char>,
    view: Option<Seq<char>>,
    heading: (Seq<char>, Seq<char>),
    rules: (nat, nat, nat),
) -> Seq<Seq<char>> {
    let start = seq!["Write target: "@ + write_target + "."@, source_label];
    match view {
        Some(v) => if v == RESET_CONFIRMATION_VIEW@ {
            start + seq![
                "Settings > Reset."@,
                "This clears every setting in the target layer. Credentials are preserved."@,
            ]
        } else {
            let (b, d) = breadcrumb_of(v, heading);
            let detail = if v == "permissions"@ {
                let counts = permission_summary_text(rules.0, rules.1, rules.2);
                if d.len() == 0 {
                    counts
                } else {
                    d + seq![' '] + counts
                }
            } else {
                d
            };
            start + seq![b + "."@] + if detail.len() > 0 {
                seq![detail]
            } else {
                seq![]
            }
        },
        None => start + seq!["Settings."@, "Choose a settings group to edit."@],
    }
}

/// The lines above the rows of the settings palette. `write_target` is the
/// file written to (as displayed), `rules` the deny, ask and allow counts of
/// the permission rules.
pub fn settings_header_lines(
    write_target: &str,
    source_label: &str,
    view_path: Option<&str>,
    heading_title: &str,
    heading_summary: &str,
    rules: (usize, usize, usize),
) -> (r: Vec<String>)
    ensures
        string_views(r@) == header_rows(
            write_target@,
            source_label@,
            opt_str_view(view_path),
            (heading_title@, heading_summary@),
            (rules.0 as nat, rules.1 as nat, rules.2 as nat),
        ),
{
    let mut lines: Vec<String> = Vec::new();
    let mut first = chars_of("Write target: ");
    extend_str(&mut first, write_target);
    extend_str(&mut first, ".");
    lines.push(string_from(&first));
    lines.push(source_label.to_owned());
    let ghost start = string_views(lines@);
    assert(start =~= seq!["Write target: "@ + write_target@ + "."@, source_label@]);
    match view_path {
        Some(v) => {
            let vs = chars_of(v);
            if eq_str(&vs, RESET_CONFIRMATION_VIEW) {
                lines.push("Settings > Reset.".to_owned());
                lines.push("This clears every setting in the target layer. Credentials are preserved.".to_owned());
                assert(string_views(lines@) =~= header_rows(
                    write_target@,
                    source_label@,
                    opt_str_view(view_path),
                    (heading_title@, heading_summary@),
                    (rules.0 as nat, rules.1 as nat, rules.2 as nat),
                ));
                return lines;
            }
            let (b, d) = settings_breadcrumb_and_detail(v, heading_title, heading_summary);
            let mut bc = chars_of(b.as_str());
            extend_str(&mut bc, ".");
            lines.push(string_from(&bc));
            let ghost bd = breadcrumb_of(v@, (heading_title@, heading_summary@));
            let ghost counts_text = permission_summary_text(rules.0 as nat, rules.1 as nat, rules.2 as nat);
            let ghost expected = if v@ == "permissions"@ {
                if bd.1.len() == 0 {
                    counts_text
                } else {
                    bd.1 + seq![' '] + counts_text
                }
            } else {
                bd.1
            };
            let ghost after_crumb = string_views(lines@);
            assert(after_crumb =~= start + seq![bd.0 + "."@]);
            let mut detail = chars_of(d.as_str());
            if eq_str(&vs, "permissions") {
                let counts = format_permission_summary(rules.0, rules.1, rules.2);
                if detail.len() == 0 {
                    detail = chars_of(counts.as_str());
                } else {
                    detail.push(' ');
                    extend_str(&mut detail, counts.as_str());
                }
            }
            assert(detail@ == expected);
            if detail.len() > 0 {
                lines.push(string_from(&detail));
                assert(string_views(lines@) =~= after_crumb + seq![expected]);
            } else {
                assert(string_views(lines@) =~= after_crumb + seq![]);
            }
            assert(string_views(lines@) =~= header_rows(
                write_target@,
                source_label@,
                opt_str_view(view_path),
                (heading_title@, heading_summary@),
                (rules.0 as nat, rules.1 as nat, rules.2 as nat),
            ));
        },
        None => {
            lines.push("Settings.".to_owned());
            lines.push("Choose a settings group to edit.".to_owned());
            assert(string_views(lines@) =~= header_rows(
                write_target@,
                source_label@,
                opt_str_view(view_path),
                (heading_title@, heading_summary@),
                (rules.0 as nat, rules.1 as nat, rules.2 as nat),
            ));
        },
    }
    lines
}

// ---------------------------------------------------------------------------
// Search
// ---------------------------------------------------------------------------

pub const SETTINGS_SEARCH_PLACEHOLDER: &'static str = "group, setting, or value";
pub const ADVANCED_SEARCH_PLACEHOLDER: &'static str = "path, label, description, value, or option";

/// The advanced views search paths and documentation; the others search
/// groups, settings and values.
pub open spec fn placeholder_of(view: Option<Seq<char>>) -> Seq<char> {
    match view {
        Some(v) => if v == advanced_view() || starts_with(v, advanced_dot_prefix()) || starts_with(
            v,
            advanced_nested_prefix(),
        ) {
            ADVANCED_SEARCH_PLACEHOLDER@
        } else {
            SETTINGS_SEARCH_PLACEHOLDER@
        },
        None => SETTINGS_SEARCH_PLACEHOLDER@,
    }
}

/// The placeholder of the palette's search field.
pub fn settings_search_placeholder(view_path: Option<&str>) -> (r: &'static str)
    ensures
        r@ == placeholder_of(opt_str_view(view_path)),
{
    proof {
        reveal_strlit("advanced");
        reveal_strlit("advanced:");
        reveal_strlit("advanced.");
        assert(advanced_view() == SETTINGS_ADVANCED_VIEW_PATH@);
        assert(advanced_nested_prefix() == SETTINGS_ADVANCED_NESTED_PREFIX@);
        assert(advanced_dot_prefix() == "advanced."@);
    }
    match view_path {
        Some(v) => {
            let s = chars_of(v);
            if eq_str(&s, SETTINGS_ADVANCED_VIEW_PATH) || has_prefix_str(&s, "advanced.") || has_prefix_str(
                &s,
                SETTINGS_ADVANCED_NESTED_PREFIX,
            ) {
                ADVANCED_SEARCH_PLACEHOLDER
            } else {
                SETTINGS_SEARCH_PLACEHOLDER
            }
        },
        None => SETTINGS_SEARCH_PLACEHOLDER,
    }
}

// ---------------------------------------------------------------------------
// Selection
// ---------------------------------------------------------------------------

/// Actions that move between views rather than edit a setting.
pub open spec fn navigation_action(a: Seq<char>) -> bool {
    a == ACTION_BACK@ || a == ACTION_OPEN_ROOT@ || a == ACTION_RELOAD@ || a == ACTION_RESET@ || a
        == ACTION_RESET_CANCEL@ || a == ACTION_RESET_CONFIRM@
}

pub open spec fn opt_text(o: Option<String>) -> Option<Seq<char>> {
    match o {
        Some(s) => Some(s@),
        None => None,
    }
}

pub open spec fn row_actions(items: Seq<Option<String>>) -> Seq<Option<Seq<char>>> {
    items.map_values(|o: Option<String>| opt_text(o))
}

/// Whether some row runs `a`.
pub open spec fn offered(rows: Seq<Option<Seq<char>>>, a: Seq<char>) -> bool {
    exists|i: int| 0 <= i < rows.len() && rows[i] == Some(a)
}

/// The first row's action, skipping navigation actions when
/// `editing_only` is set.
pub open spec fn first_action(rows: Seq<Option<Seq<char>>>, editing_only: bool) -> Option<Seq<char>>
    decreases rows.len(),
{
    if rows.len() == 0 {
        None
    } else {
        match rows[0] {
            Some(a) => if !editing_only || !navigation_action(a) {
                Some(a)
            } else {
                first_action(rows.drop_first(), editing_only)
            },
            None => first_action(rows.drop_first(), editing_only),
        }
    }
}

/// The row to select when a view opens: in the reset confirmation its
/// confirm row; else the row just chosen (unless it was `back`) or, failing
/// that, the row last chosen in this view, when the view still offers it;
/// else the first row that edits a setting; else the first row with an
/// action.
pub open spec fn preferred_selection(
    view: Option<Seq<char>>,
    rows: Seq<Option<Seq<char>>>,
    selected: Option<Seq<char>>,
    remembered: Option<Seq<char>>,
) -> Option<Seq<char>> {
    let chosen = if view == Some(RESET_CONFIRMATION_VIEW@) {
        Some(ACTION_RESET_CONFIRM@)
    } else if selected == Some(ACTION_BACK@) {
        None
    } else {
        selected
    };
    if chosen is Some && offered(rows, chosen->0) {
        chosen
    } else if remembered is Some && offered(rows, remembered->0) {
        remembered
    } else if first_action(rows, true) is Some {
        first_action(rows, true)
    } else {
        first_action(rows, false)
    }
}

fn is_offered(items: &[Option<String>], a: &str) -> (b: bool)
    ensures
        b == offered(row_actions(items@), a@),
{
    let ghost rows = row_actions(items@);
    let mut i: usize = 0;
    while i < items.len()
        invariant
            i <= items@.len(),
            rows == row_actions(items@),
            forall|j: int| 0 <= j < i ==> rows[j] != Some(a@),
        decreases items.len() - i,
    {
        match &items[i] {
            Some(x) => {
                let xs = chars_of(x.as_str());
                if eq_str(&xs, a) {
                    assert(rows[i as int] == Some(a@));
                    return true;
                }
            },
            None => {},
        }
        i += 1;
    }
    false
}

fn is_navigation(a: &str) -> (b: bool)
    ensures
        b == navigation_action(a@),
{
    let s = chars_of(a);
    eq_str(&s, ACTION_BACK) || eq_str(&s, ACTION_OPEN_ROOT) || eq_str(&s, ACTION_RELOAD) || eq_str(&s, ACTION_RESET)
        || eq_str(&s, ACTION_RESET_CANCEL) || eq_str(&s, ACTION_RESET_CONFIRM)
}

fn find_first_action(items: &[Option<String>], editing_only: bool) -> (r: Option<String>)
    ensures
        opt_text(r) == first_action(row_actions(items@), editing_only),
{
    let ghost rows = row_actions(items@);
    let mut i: usize = 0;
    assert(rows.skip(0) =~= rows);
    while i < items.len()
        invariant
            i <= items@.len(),
            rows == row_actions(items@),
            first_action(rows, editing_only) == first_action(rows.skip(i as int), editing_only),
        decreases items.len() - i,
    {
        assert(rows.skip(i as int).drop_first() =~= rows.skip(i + 1));
        assert(rows.skip(i as int)[0] == opt_text(items@[i as int]));
        match &items[i] {
            Some(x) => {
                if !editing_only || !is_navigation(x.as_str()) {
                    return Some(x.clone());
                }
            },
            None => {},
        }
        i += 1;
    }
    None
}

/// The action of the row to select when the palette shows a view, from the
/// rows' actions, the row just chosen and the row remembered for the view.
pub fn preferred_settings_selection(
    view_path: Option<&str>,
    items: &[Option<String>],
    selected: Option<String>,
    remembered: Option<String>,
) -> (r: Option<String>)
    ensures
        opt_text(r) == preferred_selection(
            opt_str_view(view_path),
            row_actions(items@),
            opt_text(selected),
            opt_text(remembered),
        ),
{
    let in_reset = match view_path {
        Some(v) => {
            let s = chars_of(v);
            eq_str(&s, RESET_CONFIRMATION_VIEW)
        },
        None => false,
    };
    let chosen: Option<String> = if in_reset {
        Some(ACTION_RESET_CONFIRM.to_owned())
    } else {
        match selected {
            Some(a) => {
                let s = chars_of(a.as_str());
                if eq_str(&s, ACTION_BACK) {
                    None
                } else {
                    Some(a)
                }
            },
            None => None,
        }
    };
    if let Some(c) = &chosen {
        if is_offered(items, c.as_str()) {
            return chosen;
        }
    }
    if let Some(m) = &remembered {
        if is_offered(items, m.as_str()) {
            return remembered;
        }
    }
    match find_first_action(items, true) {
        Some(a) => Some(a),
        None => find_first_action(items, false),
    }
}

proof fn lemma_first_action(rows: Seq<Option<Seq<char>>>, editing_only: bool)
    ensures
        match first_action(rows, editing_only) {
            Some(a) => offered(rows, a),
            None => !editing_only ==> forall|i: int| 0 <= i < rows.len() ==> rows[i] is None,
        },
    decreases rows.len(),
{
    if rows.len() > 0 {
        let rest = rows.drop_first();
        lemma_first_action(rest, editing_only);
        match first_action(rows, editing_only) {
            Some(a) => {
                if rows[0] == Some(a) {
                    assert(offered(rows, a));
                } else {
                    let i = choose|i: int| 0 <= i < rest.len() && rest[i] == Some(a);
                    assert(rows[i + 1] == Some(a));
                }
            },
            None => {
                assert forall|i: int| !editing_only && 0 <= i < rows.len() implies rows[i] is None by {
                    if i > 0 {
                        assert(rows[i] == rest[i - 1]);
                    }
                }
            },
        }
    }
}

/// The palette never selects a row the view does not offer, and selects
/// nothing only when no row of the view has an action.
pub proof fn lemma_preferred_selection_is_offered(
    view: Option<Seq<char>>,
    rows: Seq<Option<Seq<char>>>,
    selected: Option<Seq<char>>,
    remembered: Option<Seq<char>>,
)
    ensures
        match preferred_selection(view, rows, selected, remembered) {
            Some(a) => offered(rows, a),
            None => forall|i: int| 0 <= i < rows.len() ==> rows[i] is None,
        },
{
    lemma_first_action(rows, true);
    lemma_first_action(rows, false);
}

// ---------------------------------------------------------------------------
// Selection memory
// ---------------------------------------------------------------------------

/// The selection remembered under `key`: the first entry with that key.
pub open spec fn remembered_in(entries: Seq<(Seq<char>, Seq<char>)>, key: Seq<char>) -> Option<Seq<char>>
    decreases entries.len(),
{
    if entries.len() == 0 {
        None
    } else if entries[0].0 == key {
        Some(entries[0].1)
    } else {
        remembered_in(entries.drop_first(), key)
    }
}

/// The key a view is remembered under: its path, or the empty key for the
/// root view.
pub open spec fn view_key(view_path: Option<Seq<char>>) -> Seq<char> {
    match view_path {
        Some(v) => v,
        None => seq![],
    }
}

/// What the palette remembers of its selections: the last one submitted,
/// and the last one in each view (the selection is the row's action).
#[derive(Debug, Clone)]
pub struct SelectionMemory {
    last_selection: Option<String>,
    by_view: Vec<(String, String)>,
}

pub open spec fn entry_views(v: Seq<(String, String)>) -> Seq<(Seq<char>, Seq<char>)> {
    v.map_values(|e: (String, String)| (e.0@, e.1@))
}

impl SelectionMemory {
    /// The last selection submitted in any view.
    pub closed spec fn last(&self) -> Option<Seq<char>> {
        opt_text(self.last_selection)
    }

    /// The selection remembered for each view key.
    pub closed spec fn remembered(&self, key: Seq<char>) -> Option<Seq<char>> {
        remembered_in(entry_views(self.by_view@), key)
    }

    /// Nothing remembered yet.
    pub fn new() -> (m: SelectionMemory)
        ensures
            m.last() is None,
            forall|k: Seq<char>| m.remembered(k) is None,
    {
        SelectionMemory { last_selection: None, by_view: Vec::new() }
    }

    /// Remember `selection` as the last one submitted and as the one of the
    /// view.
    pub fn remember_selection(&mut self, view_path: Option<&str>, selection: String)
        ensures
            final(self).last() == Some(selection@),
            forall|k: Seq<char>|
                #[trigger] final(self).remembered(k) == if k == view_key(opt_str_view(view_path)) {
                    Some(selection@)
                } else {
                    old(self).remembered(k)
                },
    {
        let key: String = match view_path {
            Some(v) => v.to_owned(),
            None => String::new(),
        };
        proof {
            assert(key@ == view_key(opt_str_view(view_path)));
        }
        self.last_selection = Some(selection.clone());
        let ghost old_entries = entry_views(self.by_view@);
        let mut i: usize = 0;
        while i < self.by_view.len()
            invariant
                i <= self.by_view@.len(),
                old_entries == entry_views(self.by_view@),
                forall|j: int| 0 <= j < i ==> (#[trigger] old_entries[j]).0 != key@,
                opt_text(self.last_selection) == Some(selection@),
                key@ == view_key(opt_str_view(view_path)),
                old_entries == entry_views(old(self).by_view@),
            decreases self.by_view.len() - i,
        {
            let entry_key = chars_of(self.by_view[i].0.as_str());
            assert(old_entries[i as int].0 == self.by_view@[i as int].0@);
            if eq_str(&entry_key, key.as_str()) {
                proof {
                    lemma_remember_update(old_entries, i as int, key@, selection@);
                }
                self.by_view.set(i, (key, selection));
                proof {
                    assert(entry_views(self.by_view@) =~= old_entries.update(i as int, (key@, selection@)));
                }
                return;
            }
            i += 1;
        }
        proof {
            lemma_remember_push(old_entries, key@, selection@);
        }
        self.by_view.push((key, selection));
        proof {
            assert(entry_views(self.by_view@) =~= old_entries.push((key@, selection@)));
        }
    }

    /// The last selection submitted in any view.
    pub fn last_selection(&self) -> (r: Option<String>)
        ensures
            opt_text(r) == self.last(),
    {
        self.last_selection.clone()
    }

    /// The selection remembered for a view.
    pub fn selection_for_view(&self, view_path: Option<&str>) -> (r: Option<String>)
        ensures
            opt_text(r) == self.remembered(view_key(opt_str_view(view_path))),
    {
        let key: &str = match view_path {
            Some(v) => v,
            None => "",
        };
        proof {
            reveal_strlit("");
            assert(key@ == view_key(opt_str_view(view_path)));
        }
        let ghost entries = entry_views(self.by_view@);
        let mut i: usize = 0;
        assert(entries.skip(0) =~= entries);
        while i < self.by_view.len()
            invariant
                i <= self.by_view@.len(),
                entries == entry_views(self.by_view@),
                key@ == view_key(opt_str_view(view_path)),
                remembered_in(entries, key@) == remembered_in(entries.skip(i as int), key@),
            decreases self.by_view.len() - i,
        {
            assert(entries.skip(i as int).drop_first() =~= entries.skip(i + 1));
            assert(entries.skip(i as int)[0] == entries[i as int]);
            assert(entries[i as int] == (self.by_view@[i as int].0@, self.by_view@[i as int].1@));
            let entry_key = chars_of(self.by_view[i].0.as_str());
            if eq_str(&entry_key, key) {
                let found = self.by_view[i].1.clone();
                assert(entries.skip(i as int)[0].0 == key@);
                assert(remembered_in(entries.skip(i as int), key@) == Some(entries.skip(i as int)[0].1));
                assert(found@ == entries[i as int].1);
                return Some(found);
            }
            i += 1;
        }
        None
    }
}

proof fn lemma_remember_update(e: Seq<(Seq<char>, Seq<char>)>, i: int, key: Seq<char>, s: Seq<char>)
    requires
        0 <= i < e.len(),
        e[i].0 == key,
        forall|j: int| 0 <= j < i ==> (#[trigger] e[j]).0 != key,
    ensures
        forall|k: Seq<char>|
            #[trigger] remembered_in(e.update(i, (key, s)), k) == if k == key {
                Some(s)
            } else {
                remembered_in(e, k)
            },
    decreases i,
{
    let u = e.update(i, (key, s));
    let r = e.drop_first();
    if i > 0 {
        assert forall|j: int| 0 <= j < i - 1 implies (#[trigger] r[j]).0 != key by {
            assert(r[j] == e[j + 1]);
        }
        lemma_remember_update(r, i - 1, key, s);
        assert(u.drop_first() =~= r.update(i - 1, (key, s)));
        assert(u[0] == e[0]);
        assert(e[0].0 != key);
        assert forall|k: Seq<char>| #[trigger] remembered_in(u, k) == if k == key {
            Some(s)
        } else {
            remembered_in(e, k)
        } by {
            if e[0].0 != k {
                assert(remembered_in(u, k) == remembered_in(u.drop_first(), k));
                assert(remembered_in(e, k) == remembered_in(r, k));
            }
        }
    } else {
        assert(u.drop_first() =~= r);
        assert forall|k: Seq<char>| #[trigger] remembered_in(u, k) == if k == key {
            Some(s)
        } else {
            remembered_in(e, k)
        } by {
            if k != key {
                assert(remembered_in(u, k) == remembered_in(u.drop_first(), k));
                assert(remembered_in(e, k) == remembered_in(r, k));
            }
        }
    }
}

proof fn lemma_remember_push(e: Seq<(Seq<char>, Seq<char>)>, key: Seq<char>, s: Seq<char>)
    requires
        forall|j: int| 0 <= j < e.len() ==> (#[trigger] e[j]).0 != key,
    ensures
        forall|k: Seq<char>|
            #[trigger] remembered_in(e.push((key, s)), k) == if k == key {
                Some(s)
            } else {
                remembered_in(e, k)
            },
    decreases e.len(),
{
    let u = e.push((key, s));
    if e.len() > 0 {
        let r = e.drop_first();
        assert forall|j: int| 0 <= j < r.len() implies (#[trigger] r[j]).0 != key by {
            assert(r[j] == e[j + 1]);
        }
        lemma_remember_push(r, key, s);
        assert(u.drop_first() =~= r.push((key, s)));
        assert(u[0] == e[0]);
        assert(e[0].0 != key);
        assert forall|k: Seq<char>| #[trigger] remembered_in(u, k) == if k == key {
            Some(s)
        } else {
            remembered_in(e, k)
        } by {
            if e[0].0 != k {
                assert(remembered_in(u, k) == remembered_in(u.drop_first(), k));
                assert(remembered_in(e, k) == remembered_in(r, k));
            }
        }
    } else {
        assert(u.drop_first() =~= Seq::<(Seq<char>, Seq<char>)>::empty());
        assert forall|k: Seq<char>| #[trigger] remembered_in(u, k) == if k == key {
            Some(s)
        } else {
            remembered_in(e, k)
        } by {
            if k != key {
                assert(remembered_in(u, k) == remembered_in(u.drop_first(), k));
            }
        }
    }
}

/// A view's remembered selection is the one last remembered for it:
/// remembering a selection for a view gives it back for that view and
/// leaves every other view's as it was.
pub proof fn lemma_remembered_selection_read_back(
    before: SelectionMemory,
    after: SelectionMemory,
    view_path: Option<Seq<char>>,
    selection: Seq<char>,
    other: Option<Seq<char>>,
)
    requires
        forall|k: Seq<char>|
            #[trigger] after.remembered(k) == if k == view_key(view_path) {
                Some(selection)
            } else {
                before.remembered(k)
            },
    ensures
        after.remembered(view_key(view_path)) == Some(selection),
        view_key(other) != view_key(view_path) ==> after.remembered(view_key(other)) == before.remembered(
            view_key(other),
        ),
{
    assert(after.remembered(view_key(view_path)) == Some(selection));
    assert(after.remembered(view_key(other)) == (if view_key(other) == view_key(view_path) {
        Some(selection)
    } else {
        before.remembered(view_key(other))
    }));
}

} // verus!
