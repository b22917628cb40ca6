//! Edits of the settings document: array items added and removed, scalar
//! settings toggled, stepped or cycled, and the actions of the settings
//! palette decoded into steps.

use vstd::prelude::*;
use crate::settings_path::all_digits;
use crate::settings_view::{
    ScalarOperation, codex_sidecar_cycle_options, cycle_result, cycle_string_option, lemma_sorted_distinct,
    sidecar_options, sorted_distinct, sorted_distinct_options, string_views_of,
};
use crate::settings_path::{PathErrorView, PathToken, PathTokenView, parse_path, parse_path_tokens, token_views};
use crate::settings_tree::{
    SettingValue, SettingsError, SettingsErrorKind, ValueView, entry_trees, error_parts, find_key, get_tokens,
    item_trees, key_index, lemma_entry_trees, lemma_item_trees, node_at_path, outcome, put_entry, set_at,
    set_tokens,
};
use crate::text::{
    chars_of, dec, eq_ignore_ascii_case, eq_ignore_case, eq_str, extend_str, index_of,
    index_of_char_from, lemma_index_of, lower, seq_eq, starts_with, string_from, sub_vec, to_ascii_lower, views,
};

verus! {

// ---------------------------------------------------------------------------
// Field paths
// ---------------------------------------------------------------------------

/// The position of the `]` that closes an all-digit index at the front of
/// `s` (which starts with `[`), if there is one.
pub open spec fn index_close(s: Seq<char>) -> Option<int> {
    let j = index_of(s.drop_first(), ']');
    if s.len() > 0 && s[0] == '[' && j < s.len() - 1 && j > 0 && all_digits(s.subrange(1, j + 1)) {
        Some(j + 1)
    } else {
        None
    }
}

/// The path with every array index `[n]` written `[]`, the form in which
/// fields are documented.
pub open spec fn normalized_path(s: Seq<char>) -> Seq<char>
    decreases s.len(),
{
    if s.len() == 0 {
        seq![]
    } else {
        match index_close(s) {
            Some(j) => "[]"@ + normalized_path(s.skip(j + 1)),
            None => seq![s[0]] + normalized_path(s.drop_first()),
        }
    }
}

/// The documented form of a field path: array indices become `[]`.
pub fn normalize_config_path(path: &str) -> (r: String)
    ensures
        r@ == normalized_path(path@),
{
    proof {
        reveal_strlit("[]");
    }
    let s = chars_of(path);
    let mut out: Vec<char> = Vec::new();
    let mut i: usize = 0;
    assert(s@.skip(0) == s@);
    while i < s.len()
        invariant
            i <= s@.len(),
            s@ == path@,
            normalized_path(s@) == out@ + normalized_path(s@.skip(i as int)),
        decreases s.len() - i,
    {
        let ghost t = s@.skip(i as int);
        assert(t[0] == s@[i as int]);
        let mut close: usize = 0;
        let mut is_index = false;
        if s[i] == '[' {
            let j = index_of_char_from(&s, ']', i + 1);
            let mut all = true;
            if j < s.len() && j > i + 1 {
                let mut k = i + 1;
                while k < j
                    invariant
                        i + 1 <= k <= j,
                        j < s@.len(),
                        all == (forall|m: int| i + 1 <= m < k ==> crate::text::is_ascii_digit(#[trigger] s@[m])),
                    decreases j - k,
                {
                    if !crate::text::char_is_ascii_digit(s[k]) {
                        all = false;
                    }
                    k += 1;
                }
                if all {
                    is_index = true;
                    close = j;
                }
            }
            proof {
                let d = t.drop_first();
                assert forall|m: int| 0 <= m < j - i - 1 implies d[m] != ']' by {
                    assert(d[m] == s@[i + 1 + m]);
                }
                if j < s.len() {
                    assert(d[j - i - 1] == s@[j as int]);
                }
                lemma_index_of(d, ']', (j - i - 1) as int);
                if j < s.len() && j > i + 1 {
                    assert(t.subrange(1, j - i) =~= s@.subrange(i + 1, j as int));
                    if all {
                        assert(all_digits(t.subrange(1, j - i)));
                    } else {
                        let m = choose|m: int| i + 1 <= m < j && !crate::text::is_ascii_digit(#[trigger] s@[m]);
                        assert(t.subrange(1, j - i)[m - i - 1] == s@[m]);
                    }
                }
            }
        }
        let ghost old_out = out@;
        if is_index {
            out.push('[');
            out.push(']');
            proof {
                reveal_strlit("[]");
                assert("[]"@ =~= seq!['[', ']']);
            }
            assert(out@ =~= old_out + "[]"@);
            assert(t.skip(close - i + 1) == s@.skip(close + 1));
            assert(normalized_path(t) == "[]"@ + normalized_path(t.skip(close - i + 1)));
            assert(old_out + ("[]"@ + normalized_path(s@.skip(close + 1))) =~= out@ + normalized_path(
                s@.skip(close + 1),
            ));
            i = close + 1;
        } else {
            out.push(s[i]);
            assert(index_close(t) is None);
            assert(old_out + (seq![t[0]] + normalized_path(t.drop_first())) =~= out@ + normalized_path(
                t.drop_first(),
            ));
            assert(t.drop_first() == s@.skip(i + 1));
            assert(normalized_path(s@) == out@ + normalized_path(s@.skip(i + 1)));
            i += 1;
        }
    }
    assert(s@.skip(i as int).len() == 0);
    assert(out@ + Seq::<char>::empty() =~= out@);
    string_from(&out)
}


/// A `provider_overrides.<name>.base_url` or `.api_key_env` field.
pub open spec fn override_secret_path(n: Seq<char>) -> bool {
    let p = "provider_overrides."@;
    &&& starts_with(n, p)
    &&& index_of(n.skip(p.len() as int), '.') < n.skip(p.len() as int).len()
    &&& {
        let rest = n.skip(p.len() as int);
        let last = rest.skip(index_of(rest, '.') + 1);
        last == "base_url"@ || last == "api_key_env"@
    }
}

/// Provider settings that belong in the user's own configuration: custom
/// providers, and the endpoint and key variable of a provider override.
pub open spec fn trusted_provider_path(path: Seq<char>) -> bool {
    let n = normalized_path(path);
    n == "custom_providers"@ || starts_with(n, "custom_providers[]"@) || override_secret_path(n)
}

/// Whether a settings path is a provider setting kept in the user layer.
pub fn is_trusted_provider_path(path: &str) -> (b: bool)
    ensures
        b == trusted_provider_path(path@),
{
    let n = normalize_config_path(path);
    let c = chars_of(n.as_str());
    if eq_str(&c, "custom_providers") || crate::text::has_prefix_str(&c, "custom_providers[]") {
        return true;
    }
    if !crate::text::has_prefix_str(&c, "provider_overrides.") {
        return false;
    }
    let p = chars_of("provider_overrides.");
    let start = p.len();
    let dot = index_of_char_from(&c, '.', start);
    let ghost rest = c@.skip(start as int);
    proof {
        assert forall|m: int| 0 <= m < dot - start implies rest[m] != '.' by {
            assert(rest[m] == c@[start + m]);
        }
        if dot < c.len() {
            assert(rest[dot - start] == c@[dot as int]);
        }
        lemma_index_of(rest, '.', (dot - start) as int);
    }
    if dot == c.len() {
        return false;
    }
    let last = sub_vec(&c, dot + 1, c.len());
    assert(last@ =~= rest.skip(index_of(rest, '.') + 1));
    eq_str(&last, "base_url") || eq_str(&last, "api_key_env")
}

// ---------------------------------------------------------------------------
// Where a change is saved
// ---------------------------------------------------------------------------

/// The configuration layer a change is written to: the file the palette
/// edits, or the user's own configuration.
#[derive(Debug, Clone, Copy, PartialEq, Eq)]
pub enum ConfigLayer {
    Source,
    User,
}

/// What a change saves: the layer, the path within it and the value.
#[derive(Debug)]
pub struct PersistenceTarget {
    pub layer: ConfigLayer,
    pub path: String,
    pub value: SettingValue,
}

/// The setting at the path is gone once the change is applied.
#[derive(Debug, Clone, PartialEq, Eq)]
pub struct MissingAfterChange {
    pub path: String,
}

impl MissingAfterChange {
    /// The error text.
    pub fn message(&self) -> (m: String)
        ensures
            m@ == "Settings path '"@ + self.path@ + "' was not found after applying the change"@,
    {
        let mut out = chars_of("Settings path '");
        extend_str(&mut out, self.path.as_str());
        extend_str(&mut out, "' was not found after applying the change");
        string_from(&out)
    }
}

/// A path under the custom providers, whose array is saved whole.
pub open spec fn custom_provider_path(path: Seq<char>) -> bool {
    let n = normalized_path(path);
    n == "custom_providers"@ || starts_with(n, "custom_providers[]"@)
}

/// Where the change at `path` is saved: trusted provider settings go to the
/// user layer (the whole custom-provider array for a path under it) unless
/// a configuration file was named explicitly; everything else to the edited
/// file. Fails when the setting, or the custom-provider array, is missing.
pub open spec fn persistence_of(draft: ValueView, path: Seq<char>, explicit_config: bool) -> Result<
    (ConfigLayer, Seq<char>, ValueView),
    Seq<char>,
> {
    match node_at_path(draft, path) {
        None => Err(path),
        Some(v) => if !trusted_provider_path(path) || explicit_config {
            Ok((ConfigLayer::Source, path, v))
        } else if custom_provider_path(path) {
            match node_at_path(draft, "custom_providers"@) {
                Some(all) => Ok((ConfigLayer::User, "custom_providers"@, all)),
                None => Err("custom_providers"@),
            }
        } else {
            Ok((ConfigLayer::User, path, v))
        },
    }
}

pub open spec fn persistence_view(r: Result<PersistenceTarget, MissingAfterChange>) -> Result<
    (ConfigLayer, Seq<char>, ValueView),
    Seq<char>,
> {
    match r {
        Ok(t) => Ok((t.layer, t.path@, t.value.tree())),
        Err(e) => Err(e.path@),
    }
}

/// What to save after a change at `path` of the draft; `explicit_config`
/// tells whether a configuration file was named explicitly. Resolving the
/// user layer to a file is left to the caller.
pub fn persistence_target(draft: &SettingValue, path: &str, explicit_config: bool) -> (r: Result<
    PersistenceTarget,
    MissingAfterChange,
>)
    ensures
        persistence_view(r) == persistence_of(draft.tree(), path@, explicit_config),
{
    let value = match crate::settings_tree::get_node(draft, path) {
        Some(v) => v.deep_copy(),
        None => {
            return Err(MissingAfterChange { path: path.to_owned() });
        },
    };
    if !is_trusted_provider_path(path) || explicit_config {
        return Ok(PersistenceTarget { layer: ConfigLayer::Source, path: path.to_owned(), value });
    }
    let n = normalize_config_path(path);
    let c = chars_of(n.as_str());
    if eq_str(&c, "custom_providers") || crate::text::has_prefix_str(&c, "custom_providers[]") {
        return match crate::settings_tree::get_node(draft, "custom_providers") {
            Some(all) => Ok(
                PersistenceTarget {
                    layer: ConfigLayer::User,
                    path: "custom_providers".to_owned(),
                    value: all.deep_copy(),
                },
            ),
            None => Err(MissingAfterChange { path: "custom_providers".to_owned() }),
        };
    }
    Ok(PersistenceTarget { layer: ConfigLayer::User, path: path.to_owned(), value })
}

// ---------------------------------------------------------------------------
// Values to cycle through
// ---------------------------------------------------------------------------

/// `values` without those equal, up to ASCII case, to an earlier one.
pub open spec fn dedup_ignore_case(values: Seq<Seq<char>>) -> Seq<Seq<char>>
    decreases values.len(),
{
    if values.len() == 0 {
        seq![]
    } else {
        let d = dedup_ignore_case(values.drop_last());
        if exists|i: int| 0 <= i < d.len() && eq_ignore_case(#[trigger] d[i], values.last()) {
            d
        } else {
            d.push(values.last())
        }
    }
}

/// The first value equal to `x` up to ASCII case.
pub open spec fn position_ignore_case(values: Seq<Seq<char>>, x: Seq<char>) -> Option<int>
    decreases values.len(),
{
    if values.len() == 0 {
        None
    } else if eq_ignore_case(values[0], x) {
        Some(0)
    } else {
        match position_ignore_case(values.drop_first(), x) {
            Some(i) => Some(i + 1),
            None => None,
        }
    }
}

proof fn lemma_position_ignore_case(values: Seq<Seq<char>>, x: Seq<char>)
    ensures
        match position_ignore_case(values, x) {
            Some(i) => 0 <= i < values.len() && eq_ignore_case(values[i], x) && forall|j: int|
                0 <= j < i ==> !eq_ignore_case(#[trigger] values[j], x),
            None => forall|j: int| 0 <= j < values.len() ==> !eq_ignore_case(#[trigger] values[j], x),
        },
    decreases values.len(),
{
    if values.len() > 0 && !eq_ignore_case(values[0], x) {
        lemma_position_ignore_case(values.drop_first(), x);
        assert forall|j: int| 1 <= j < values.len() implies values[j] == values.drop_first()[j - 1] by {}
    }
}

/// The candidate small models, in order: none (empty), the main model, the
/// provider's lightweight choices, and the current value when it is not
/// blank.
pub open spec fn small_model_candidates(
    main_model: Seq<char>,
    choices: Seq<Seq<char>>,
    current: Seq<char>,
) -> Seq<Seq<char>> {
    seq![seq![], main_model] + choices + if crate::text::trim(current).len() > 0 {
        seq![current]
    } else {
        seq![]
    }
}

/// The small-model options: the candidates without repeats (up to ASCII
/// case), with the automatic choice moved to the second place.
pub open spec fn small_model_options(
    main_model: Seq<char>,
    choices: Seq<Seq<char>>,
    current: Seq<char>,
    auto_model: Seq<char>,
) -> Seq<Seq<char>> {
    let d = dedup_ignore_case(small_model_candidates(main_model, choices, current));
    match position_ignore_case(d, auto_model) {
        Some(i) => d.remove(i).insert(1, d[i]),
        None => d,
    }
}

/// Moving the automatic choice has a second place to move it to.
pub open spec fn small_model_options_defined(
    main_model: Seq<char>,
    choices: Seq<Seq<char>>,
    current: Seq<char>,
    auto_model: Seq<char>,
) -> bool {
    let d = dedup_ignore_case(small_model_candidates(main_model, choices, current));
    position_ignore_case(d, auto_model) is Some ==> d.len() >= 2
}

fn push_unless_seen(d: &mut Vec<String>, value: String)
    ensures
        string_views_of(final(d)@) == (if exists|i: int|
            0 <= i < string_views_of(old(d)@).len() && eq_ignore_case(
                #[trigger] string_views_of(old(d)@)[i],
                value@,
            ) {
            string_views_of(old(d)@)
        } else {
            string_views_of(old(d)@).push(value@)
        }),
{
    let ghost dv = string_views_of(d@);
    let vc = chars_of(value.as_str());
    let mut i: usize = 0;
    while i < d.len()
        invariant
            i <= d@.len(),
            dv == string_views_of(d@),
            d@ == old(d)@,
            vc@ == value@,
            forall|j: int| 0 <= j < i ==> !eq_ignore_case(#[trigger] dv[j], value@),
        decreases d.len() - i,
    {
        let ec = chars_of(d[i].as_str());
        if eq_ignore_ascii_case(&ec, &vc) {
            assert(eq_ignore_case(dv[i as int], value@));
            return;
        }
        i += 1;
    }
    let ghost vv = value@;
    d.push(value);
    assert(string_views_of(d@) =~= dv.push(vv));
}

/// The small-model options of the settings palette from the main model,
/// the provider's lightweight choices, the current value and the
/// automatic choice.
pub fn lightweight_model_cycle_options(main_model: &str, choices: &[String], current: &str, auto_model: &str) -> (r:
    Vec<String>)
    requires
        small_model_options_defined(
            main_model@,
            string_views_of(choices@),
            current@,
            auto_model@,
        ),
    ensures
        string_views_of(r@) == small_model_options(
            main_model@,
            string_views_of(choices@),
            current@,
            auto_model@,
        ),
{
    let ghost cands = small_model_candidates(main_model@, string_views_of(choices@), current@);
    let mut options: Vec<String> = Vec::new();
    options.push(String::new());
    options.push(main_model.to_owned());
    let mut k: usize = 0;
    while k < choices.len()
        invariant
            k <= choices@.len(),
            string_views_of(options@) == seq![Seq::<char>::empty(), main_model@] + string_views_of(
                choices@,
            ).take(k as int),
        decreases choices.len() - k,
    {
        let ghost before = string_views_of(options@);
        options.push(choices[k].clone());
        assert(string_views_of(options@) =~= before.push(choices@[k as int]@));
        assert(string_views_of(choices@).take(k + 1) =~= string_views_of(choices@).take(k as int).push(
            choices@[k as int]@,
        ));
        k += 1;
    }
    assert(string_views_of(choices@).take(k as int) =~= string_views_of(choices@));
    let cc = chars_of(current);
    if !crate::text::is_blank(&cc) {
        options.push(current.to_owned());
    }
    assert(string_views_of(options@) =~= cands);
    let mut deduped: Vec<String> = Vec::new();
    let mut i: usize = 0;
    assert(cands.take(0) =~= Seq::<Seq<char>>::empty());
    while i < options.len()
        invariant
            i <= options@.len(),
            string_views_of(options@) == cands,
            string_views_of(deduped@) == dedup_ignore_case(cands.take(i as int)),
        decreases options.len() - i,
    {
        proof {
            assert(cands.take(i + 1).drop_last() =~= cands.take(i as int));
            assert(cands.take(i + 1).last() == options@[i as int]@);
        }
        push_unless_seen(&mut deduped, options[i].clone());
        i += 1;
    }
    assert(cands.take(i as int) =~= cands);
    let ghost d = string_views_of(deduped@);
    let ac = chars_of(auto_model);
    let mut p: usize = 0;
    let mut found = false;
    while p < deduped.len() && !found
        invariant
            p <= deduped@.len(),
            d == string_views_of(deduped@),
            ac@ == auto_model@,
            found ==> p < deduped@.len() && eq_ignore_case(d[p as int], auto_model@),
            forall|j: int| 0 <= j < p ==> !eq_ignore_case(#[trigger] d[j], auto_model@),
        decreases deduped.len() - p, (if found { 0int } else { 1int }),
    {
        let ec = chars_of(deduped[p].as_str());
        if eq_ignore_ascii_case(&ec, &ac) {
            found = true;
        } else {
            p += 1;
        }
    }
    proof {
        lemma_position_ignore_case(d, auto_model@);
        if found {
            match position_ignore_case(d, auto_model@) {
                Some(q) => {
                    if q < p {
                        assert(!eq_ignore_case(d[q], auto_model@));
                    }
                    if q > p {
                        assert(!eq_ignore_case(d[p as int], auto_model@));
                    }
                },
                None => {
                    assert(!eq_ignore_case(d[p as int], auto_model@));
                },
            }
        } else {
            match position_ignore_case(d, auto_model@) {
                Some(q) => {
                    assert(!eq_ignore_case(d[q], auto_model@));
                },
                None => {},
            }
        }
    }
    if found {
        let auto = deduped.remove(p);
        deduped.insert(1, auto);
        assert(string_views_of(deduped@) =~= d.remove(p as int).insert(1, d[p as int]));
    }
    deduped
}


/// What the values to cycle through are drawn from besides the path and
/// the current value: the theme names, the field's documented options
/// (empty when it has none), and for the small model the main model, the
/// provider's lightweight choices and the automatic choice.
#[derive(Debug, Clone)]
pub struct CycleSources {
    pub themes: Vec<String>,
    pub doc_options: Vec<String>,
    pub main_model: String,
    pub small_model_choices: Vec<String>,
    pub auto_small_model: String,
}

/// The values a string setting cycles through.
pub open spec fn cycle_options_for(path: Seq<char>, current: Seq<char>, sources: CycleSources) -> Seq<Seq<char>> {
    let n = normalized_path(path);
    if n == "agent.codex_app_server.command"@ {
        sidecar_options(current, "codex"@)
    } else if n == "agent.codex_app_server.args[]"@ {
        sidecar_options(current, "app-server"@)
    } else if n == "agent.theme"@ {
        string_views_of(sources.themes@)
    } else if n == "agent.small_model.model"@ {
        small_model_options(
            sources.main_model@,
            string_views_of(sources.small_model_choices@),
            current,
            sources.auto_small_model@,
        )
    } else if sources.doc_options@.len() > 0 {
        string_views_of(sources.doc_options@)
    } else if current.len() == 0 {
        seq![]
    } else {
        seq![current]
    }
}

/// The sources can give the small-model options for `current`.
pub open spec fn sources_defined(sources: CycleSources, current: Seq<char>) -> bool {
    small_model_options_defined(
        sources.main_model@,
        string_views_of(sources.small_model_choices@),
        current,
        sources.auto_small_model@,
    )
}

fn copy_strings(v: &Vec<String>) -> (r: Vec<String>)
    ensures
        string_views_of(r@) == string_views_of(v@),
{
    let mut out: Vec<String> = Vec::new();
    let mut i: usize = 0;
    while i < v.len()
        invariant
            i <= v@.len(),
            string_views_of(out@) == string_views_of(v@).take(i as int),
        decreases v.len() - i,
    {
        let ghost before = string_views_of(out@);
        out.push(v[i].clone());
        assert(string_views_of(out@) =~= before.push(v@[i as int]@));
        assert(string_views_of(v@).take(i + 1) =~= string_views_of(v@).take(i as int).push(v@[i as int]@));
        i += 1;
    }
    assert(string_views_of(v@).take(i as int) =~= string_views_of(v@));
    out
}

/// The values a string setting at `path` cycles through, given its
/// current value.
pub fn resolve_cycle_options(path: &str, current: &str, sources: &CycleSources) -> (r: Vec<String>)
    requires
        normalized_path(path@) == "agent.small_model.model"@ ==> sources_defined(*sources, current@),
    ensures
        string_views_of(r@) == cycle_options_for(path@, current@, *sources),
{
    let n = normalize_config_path(path);
    let nc = chars_of(n.as_str());
    if eq_str(&nc, "agent.codex_app_server.command") {
        return codex_sidecar_cycle_options(current, "codex");
    }
    if eq_str(&nc, "agent.codex_app_server.args[]") {
        return codex_sidecar_cycle_options(current, "app-server");
    }
    if eq_str(&nc, "agent.theme") {
        return copy_strings(&sources.themes);
    }
    if eq_str(&nc, "agent.small_model.model") {
        return lightweight_model_cycle_options(
            sources.main_model.as_str(),
            sources.small_model_choices.as_slice(),
            current,
            sources.auto_small_model.as_str(),
        );
    }
    if sources.doc_options.len() > 0 {
        return copy_strings(&sources.doc_options);
    }
    if current.unicode_len() == 0 {
        Vec::new()
    } else {
        let mut out: Vec<String> = Vec::new();
        out.push(current.to_owned());
        assert(string_views_of(out@) =~= seq![current@]);
        out
    }
}

/// The text of a non-blank string setting at `path` of the document.
pub open spec fn configured_text(root: Option<crate::settings_tree::ValueView>, path: Seq<char>) -> Option<
    Seq<char>,
> {
    match root {
        Some(v) => match crate::settings_tree::node_at_path(v, path) {
            Some(crate::settings_tree::ValueView::Str(t)) => if crate::text::trim(t).len() > 0 {
                Some(t)
            } else {
                None
            },
            _ => None,
        },
        None => None,
    }
}

pub open spec fn opt_tree(root: Option<&crate::settings_tree::SettingValue>) -> Option<crate::settings_tree::ValueView> {
    match root {
        Some(v) => Some(v.tree()),
        None => None,
    }
}

pub open spec fn opt_text(o: Option<String>) -> Option<Seq<char>> {
    match o {
        Some(s) => Some(s@),
        None => None,
    }
}

/// A non-blank string setting of the document, such as `agent.provider`
/// or `agent.default_model`.
pub fn configured_string(root: Option<&crate::settings_tree::SettingValue>, path: &str) -> (r: Option<String>)
    ensures
        opt_text(r) == configured_text(opt_tree(root), path@),
{
    match root {
        Some(v) => match crate::settings_tree::get_node(v, path) {
            Some(crate::settings_tree::SettingValue::Str(t)) => {
                let c = chars_of(t.as_str());
                if crate::text::is_blank(&c) {
                    None
                } else {
                    Some(string_from(&c))
                }
            },
            _ => None,
        },
        None => None,
    }
}


// ---------------------------------------------------------------------------
// New array items
// ---------------------------------------------------------------------------

/// The name of the `n`th custom provider template.
pub open spec fn provider_name(n: nat) -> Seq<char> {
    "custom-provider-"@ + dec(n)
}

/// The lower-cased names of the tables among `items`, where a table names
/// itself by a string `name` entry.
pub open spec fn used_provider_names(items: Seq<ValueView>) -> Seq<Seq<char>>
    decreases items.len(),
{
    if items.len() == 0 {
        seq![]
    } else {
        let rest = used_provider_names(items.drop_last());
        match items.last() {
            ValueView::Table(es) => match key_index(es, "name"@) {
                Some(i) => match es[i].1 {
                    ValueView::Str(n) => rest.push(lower(n)),
                    _ => rest,
                },
                None => rest,
            },
            _ => rest,
        }
    }
}

pub open spec fn name_free(used: Seq<Seq<char>>, n: nat) -> bool {
    !used.contains(provider_name(n))
}

/// `r` is the first number from `start` on whose provider name is free.
pub open spec fn first_free_at(used: Seq<Seq<char>>, start: nat, r: nat) -> bool {
    &&& start <= r
    &&& name_free(used, r)
    &&& forall|m: nat| start <= m < r ==> !name_free(used, m)
}

pub open spec fn first_free(used: Seq<Seq<char>>, start: nat) -> nat {
    choose|r: nat| first_free_at(used, start, r)
}

proof fn lemma_provider_name_injective(a: nat, b: nat)
    requires
        provider_name(a) == provider_name(b),
    ensures
        a == b,
{
    let p = "custom-provider-"@;
    assert(provider_name(a).skip(p.len() as int) =~= dec(a));
    assert(provider_name(b).skip(p.len() as int) =~= dec(b));
    crate::settings_path::lemma_dec(a);
    crate::settings_path::lemma_dec(b);
}

/// Among `used.len() + 1` numbers from `start` on, one gives a free name.
proof fn lemma_free_name_exists(used: Seq<Seq<char>>, start: nat)
    ensures
        exists|r: nat| start <= r <= start + used.len() && name_free(used, r),
{
    if !(exists|r: nat| start <= r <= start + used.len() && name_free(used, r)) {
        let range = vstd::set_lib::set_int_range(start as int, (start + used.len() + 1) as int);
        let f = |n: int| provider_name(n as nat);
        vstd::set_lib::lemma_int_range(start as int, (start + used.len() + 1) as int);
        assert forall|x1: int, x2: int|
            range.contains(x1) && range.contains(x2) && #[trigger] f(x1) == #[trigger] f(x2) implies x1 == x2 by {
            lemma_provider_name_injective(x1 as nat, x2 as nat);
        }
        let names = range.map(f);
        vstd::set_lib::lemma_map_size(range, names, f);
        let u = used.to_set();
        assert forall|b: Seq<char>| names.contains(b) implies u.contains(b) by {
            let a = choose|a: int| range.contains(a) && f(a) == b;
            assert(!name_free(used, a as nat));
        }
        used.lemma_cardinality_of_set();
        vstd::set_lib::lemma_len_subset(names, u);
        assert(false);
    }
}

proof fn lemma_first_free_unique(used: Seq<Seq<char>>, start: nat, r: nat)
    requires
        first_free_at(used, start, r),
    ensures
        first_free(used, start) == r,
{
    let c = first_free(used, start);
    assert(first_free_at(used, start, c));
    if c < r {
        assert(!name_free(used, c));
    }
    if c > r {
        assert(!name_free(used, r));
    }
}

/// A string value.
pub open spec fn str_value(s: Seq<char>) -> ValueView {
    ValueView::Str(s)
}

/// The template of a new custom provider: the first free name
/// `custom-provider-N` with N from the number of providers (at least one)
/// on, its display name, an example endpoint, and empty key variable and
/// model.
pub open spec fn custom_provider_template(items: Seq<ValueView>) -> ValueView {
    let start: nat = if items.len() > 1 {
        items.len()
    } else {
        1
    };
    let n = first_free(used_provider_names(items), start);
    ValueView::Table(
        seq![
            ("name"@, str_value(provider_name(n))),
            ("display_name"@, str_value("Custom Provider "@ + dec(n))),
            ("base_url"@, str_value("https://llm.example/v1"@)),
            ("api_key_env"@, str_value(seq![])),
            ("model"@, str_value(seq![])),
        ],
    )
}

/// The item a new array entry starts from: `app-server` for the Codex
/// sidecar's arguments, a provider template for custom providers, else a
/// copy of the first item, or an empty string for an empty array.
pub open spec fn default_item(path: Seq<char>, items: Seq<ValueView>) -> ValueView {
    let n = normalized_path(path);
    if n == "agent.codex_app_server.args"@ {
        str_value("app-server"@)
    } else if n == "custom_providers"@ {
        custom_provider_template(items)
    } else if items.len() > 0 {
        items[0]
    } else {
        str_value(seq![])
    }
}

fn used_names_of(items: &Vec<SettingValue>) -> (r: Vec<Vec<char>>)
    ensures
        views(r@) == used_provider_names(item_trees(items@)),
        r@.len() <= items@.len(),
{
    proof {
        lemma_item_trees(items@);
        reveal_strlit("name");
    }
    let ghost it = item_trees(items@);
    let mut out: Vec<Vec<char>> = Vec::new();
    let mut i: usize = 0;
    while i < items.len()
        invariant
            i <= items@.len(),
            it == item_trees(items@),
            it.len() == items@.len(),
            forall|j: int| 0 <= j < items@.len() ==> #[trigger] it[j] == items@[j].tree(),
            views(out@) == used_provider_names(it.take(i as int)),
            out@.len() <= i,
        decreases items.len() - i,
    {
        proof {
            assert(it.take(i + 1).drop_last() =~= it.take(i as int));
            assert(it.take(i + 1).last() == items@[i as int].tree());
        }
        let ghost before = views(out@);
        match &items[i] {
            SettingValue::Table(es) => {
                proof {
                    lemma_entry_trees(es@);
                }
                match find_key(es, "name") {
                    Some(j) => match &es[j].1 {
                        SettingValue::Str(n) => {
                            let c = chars_of(n.as_str());
                            let lc = to_ascii_lower(&c);
                            out.push(lc);
                            assert(views(out@) =~= before.push(lower(n@)));
                        },
                        _ => {},
                    },
                    None => {},
                }
            },
            _ => {},
        }
        i += 1;
    }
    assert(it.take(i as int) =~= it);
    out
}

fn contains_name(used: &Vec<Vec<char>>, name: &Vec<char>) -> (b: bool)
    ensures
        b == views(used@).contains(name@),
{
    let mut i: usize = 0;
    while i < used.len()
        invariant
            i <= used@.len(),
            forall|j: int| 0 <= j < i ==> (#[trigger] used@[j])@ != name@,
        decreases used.len() - i,
    {
        if seq_eq(&used[i], name) {
            assert(views(used@)[i as int] == name@);
            return true;
        }
        i += 1;
    }
    proof {
        if views(used@).contains(name@) {
            let k = choose|k: int| 0 <= k < views(used@).len() && views(used@)[k] == name@;
            assert(used@[k]@ == name@);
        }
    }
    false
}

fn string_value(t: &str) -> (r: SettingValue)
    ensures
        r.tree() == str_value(t@),
{
    SettingValue::Str(t.to_owned())
}

fn entry(key: &str, value: SettingValue) -> (r: (String, SettingValue))
    ensures
        r.0@ == key@,
        r.1 == value,
{
    (key.to_owned(), value)
}

/// The template of a new custom provider for a list of providers.
pub fn default_custom_provider_item(existing: &Vec<SettingValue>) -> (r: SettingValue)
    ensures
        r.tree() == custom_provider_template(item_trees(existing@)),
{
    proof {
        lemma_item_trees(existing@);
    }
    let used = used_names_of(existing);
    let ghost uv = views(used@);
    let start: u128 = if existing.len() > 1 {
        existing.len() as u128
    } else {
        1
    };
    proof {
        lemma_free_name_exists(uv, start as nat);
    }
    let ghost w = choose|r: nat| start <= r <= start + uv.len() && name_free(uv, r);
    let mut suffix = start;
    let mut candidate = chars_of("custom-provider-");
    crate::text::push_dec_u128(&mut candidate, suffix);
    while contains_name(&used, &candidate)
        invariant
            start <= suffix <= w,
            w <= start + uv.len(),
            start <= existing@.len() + 1,
            existing@.len() <= usize::MAX,
            usize::MAX <= u64::MAX,
            uv.len() <= existing@.len(),
            uv == views(used@),
            name_free(uv, w),
            candidate@ == provider_name(suffix as nat),
            forall|m: nat| start <= m < suffix ==> !name_free(uv, m),
        decreases w - suffix,
    {
        proof {
            if suffix == w {
                assert(false);
            }
        }
        suffix = suffix + 1;
        candidate = chars_of("custom-provider-");
        crate::text::push_dec_u128(&mut candidate, suffix);
    }
    proof {
        lemma_first_free_unique(uv, start as nat, suffix as nat);
    }
    let mut display = chars_of("Custom Provider ");
    crate::text::push_dec_u128(&mut display, suffix);
    let mut es: Vec<(String, SettingValue)> = Vec::new();
    es.push(entry("name", SettingValue::Str(string_from(&candidate))));
    es.push(entry("display_name", SettingValue::Str(string_from(&display))));
    es.push(entry("base_url", string_value("https://llm.example/v1")));
    es.push(entry("api_key_env", SettingValue::Str(String::new())));
    es.push(entry("model", SettingValue::Str(String::new())));
    proof {
        lemma_entry_trees(es@);
        assert(entry_trees(es@) =~= seq![
            ("name"@, str_value(provider_name(suffix as nat))),
            ("display_name"@, str_value("Custom Provider "@ + dec(suffix as nat))),
            ("base_url"@, str_value("https://llm.example/v1"@)),
            ("api_key_env"@, str_value(seq![])),
            ("model"@, str_value(seq![])),
        ]);
    }
    SettingValue::Table(es)
}

/// The item a new entry of the array at `path` starts from.
pub fn default_array_item(path: &str, existing: &Vec<SettingValue>) -> (r: SettingValue)
    ensures
        r.tree() == default_item(path@, item_trees(existing@)),
{
    proof {
        lemma_item_trees(existing@);
    }
    let n = normalize_config_path(path);
    let nc = chars_of(n.as_str());
    if eq_str(&nc, "agent.codex_app_server.args") {
        return string_value("app-server");
    }
    if eq_str(&nc, "custom_providers") {
        return default_custom_provider_item(existing);
    }
    if existing.len() > 0 {
        existing[0].deep_copy()
    } else {
        SettingValue::Str(String::new())
    }
}


// ---------------------------------------------------------------------------
// Editing arrays
// ---------------------------------------------------------------------------

/// The error of an edit: its kind and the path it names.
pub type EditFault = (SettingsErrorKind, Seq<char>);

/// The path's tokens, for a path that parses.
pub open spec fn tokens_of(path: Seq<char>) -> Seq<PathTokenView> {
    parse_path(path)->Ok_0
}

/// Adding an item to the array at `path`: the document afterwards and the
/// error, if any.
pub open spec fn array_add(v: ValueView, path: Seq<char>) -> (ValueView, Option<EditFault>) {
    match node_at_path(v, path) {
        Some(ValueView::Array(items)) => (
            set_at(v, tokens_of(path), ValueView::Array(items.push(default_item(path, items)))).0,
            None,
        ),
        Some(_) => (v, Some((SettingsErrorKind::NotAnArray, path))),
        None => (v, Some((SettingsErrorKind::ArrayNotFound, path))),
    }
}

/// Removing the last item of the array at `path`.
pub open spec fn array_pop(v: ValueView, path: Seq<char>) -> (ValueView, Option<EditFault>) {
    match node_at_path(v, path) {
        Some(ValueView::Array(items)) => if items.len() == 0 {
            (v, Some((SettingsErrorKind::ArrayEmpty, path)))
        } else {
            (set_at(v, tokens_of(path), ValueView::Array(items.drop_last())).0, None)
        },
        Some(_) => (v, Some((SettingsErrorKind::NotAnArray, path))),
        None => (v, Some((SettingsErrorKind::ArrayNotFound, path))),
    }
}

fn path_text(p: &str) -> (r: String)
    ensures
        r@ == p@,
{
    let c = chars_of(p);
    string_from(&c)
}

/// Add an item to the array at `path`, starting from `default_array_item`.
pub fn add_array_item(root: &mut SettingValue, path: &str) -> (r: Result<(), SettingsError>)
    ensures
        final(root).tree() == array_add(old(root).tree(), path@).0,
        outcome(r) == array_add(old(root).tree(), path@).1,
{
    let tokens = match parse_path_tokens(path) {
        Ok(t) => t,
        Err(_) => {
            return Err(SettingsError::ArrayNotFound(path_text(path)));
        },
    };
    proof {
        assert(parse_path(path@) == Ok::<Seq<PathTokenView>, PathErrorView>(token_views(tokens@)));
    }
    let new_value = match get_tokens(root, &tokens) {
        Some(SettingValue::Array(items)) => {
            proof {
                lemma_item_trees(items@);
            }
            let item = default_array_item(path, items);
            let mut copy: Vec<SettingValue> = Vec::new();
            let mut i: usize = 0;
            while i < items.len()
                invariant
                    i <= items@.len(),
                    copy@.len() == i,
                    forall|j: int| 0 <= j < i ==> (#[trigger] copy@[j]).tree() == items@[j].tree(),
                decreases items.len() - i,
            {
                copy.push(items[i].deep_copy());
                i += 1;
            }
            let ghost it = item.tree();
            copy.push(item);
            proof {
                lemma_item_trees(copy@);
                assert(item_trees(copy@) =~= item_trees(items@).push(it));
            }
            SettingValue::Array(copy)
        },
        Some(_) => {
            return Err(SettingsError::NotAnArray(path_text(path)));
        },
        None => {
            return Err(SettingsError::ArrayNotFound(path_text(path)));
        },
    };
    set_tokens(root, &tokens, new_value);
    Ok(())
}

/// Remove the last item of the array at `path`.
pub fn pop_array_item(root: &mut SettingValue, path: &str) -> (r: Result<(), SettingsError>)
    ensures
        final(root).tree() == array_pop(old(root).tree(), path@).0,
        outcome(r) == array_pop(old(root).tree(), path@).1,
{
    let tokens = match parse_path_tokens(path) {
        Ok(t) => t,
        Err(_) => {
            return Err(SettingsError::ArrayNotFound(path_text(path)));
        },
    };
    proof {
        assert(parse_path(path@) == Ok::<Seq<PathTokenView>, PathErrorView>(token_views(tokens@)));
    }
    let new_value = match get_tokens(root, &tokens) {
        Some(SettingValue::Array(items)) => {
            proof {
                lemma_item_trees(items@);
            }
            if items.len() == 0 {
                return Err(SettingsError::ArrayEmpty(path_text(path)));
            }
            let mut copy: Vec<SettingValue> = Vec::new();
            let mut i: usize = 0;
            while i + 1 < items.len()
                invariant
                    i < items@.len(),
                    copy@.len() == i,
                    forall|j: int| 0 <= j < i ==> (#[trigger] copy@[j]).tree() == items@[j].tree(),
                decreases items.len() - i,
            {
                copy.push(items[i].deep_copy());
                i += 1;
            }
            proof {
                lemma_item_trees(copy@);
                assert(item_trees(copy@) =~= item_trees(items@).drop_last());
            }
            SettingValue::Array(copy)
        },
        Some(_) => {
            return Err(SettingsError::NotAnArray(path_text(path)));
        },
        None => {
            return Err(SettingsError::ArrayNotFound(path_text(path)));
        },
    };
    set_tokens(root, &tokens, new_value);
    Ok(())
}

// ---------------------------------------------------------------------------
// Editing scalars
// ---------------------------------------------------------------------------

/// A string setting that is missing gets a value only by cycling.
pub open spec fn is_cycle(op: ScalarOperation) -> bool {
    op == ScalarOperation::CycleNext || op == ScalarOperation::CyclePrev
}

/// The tree after creating the string `val` at the end of `ts`: key steps
/// go through (or create) tables, and an index step is refused.
pub open spec fn insert_at(v: ValueView, ts: Seq<PathTokenView>, val: Seq<char>) -> (
    ValueView,
    Option<SettingsErrorKind>,
)
    decreases ts.len(),
{
    if ts.len() == 0 {
        (v, Some(SettingsErrorKind::NotFound))
    } else {
        match ts[0] {
            PathTokenView::Index(_) => (v, Some(SettingsErrorKind::MissingArrayPath)),
            PathTokenView::Key(k) => match v {
                ValueView::Table(es) => if ts.len() == 1 {
                    (ValueView::Table(put_entry(es, k, str_value(val))), None)
                } else {
                    let c = match key_index(es, k) {
                        Some(i) => es[i].1,
                        None => ValueView::Table(seq![]),
                    };
                    let (c2, f) = insert_at(c, ts.drop_first(), val);
                    (ValueView::Table(put_entry(es, k, c2)), f)
                },
                _ => (v, Some(SettingsErrorKind::ParentNotTable)),
            },
        }
    }
}

/// Creating the missing string setting at `path` with `val`.
pub open spec fn insert_missing(v: ValueView, path: Seq<char>, val: Seq<char>) -> (ValueView, Option<EditFault>) {
    match parse_path(path) {
        Err(e) => (v, Some((SettingsErrorKind::Path(e), seq![]))),
        Ok(ts) => if ts.len() == 0 {
            (v, Some((SettingsErrorKind::NotFound, path)))
        } else {
            let (v2, f) = insert_at(v, ts, val);
            (
                v2,
                match f {
                    Some(k) => Some((k, path)),
                    None => None,
                },
            )
        },
    }
}

fn insert_in(v: SettingValue, tokens: &Vec<PathToken>, i: usize, val: &str) -> (r: (
    SettingValue,
    Option<SettingsErrorKind>,
))
    requires
        i <= tokens@.len(),
    ensures
        (r.0.tree(), r.1) == insert_at(v.tree(), token_views(tokens@).skip(i as int), val@),
    decreases tokens@.len() - i,
{
    let ghost ts = token_views(tokens@).skip(i as int);
    if i == tokens.len() {
        return (v, Some(SettingsErrorKind::NotFound));
    }
    assert(ts[0] == tokens@[i as int]@);
    assert(ts.drop_first() == token_views(tokens@).skip(i + 1));
    match &tokens[i] {
        PathToken::Index(_) => (v, Some(SettingsErrorKind::MissingArrayPath)),
        PathToken::Key(k) => match v {
            SettingValue::Table(mut es) => {
                let ghost old_es = es@;
                proof {
                    lemma_entry_trees(old_es);
                }
                let pos = find_key(&es, k.as_str());
                let child = match pos {
                    Some(j) => {
                        proof {
                            crate::settings_tree::lemma_key_index(entry_trees(old_es), k@);
                        }
                        es.remove(j).1
                    },
                    None => {
                        let empty: Vec<(String, SettingValue)> = Vec::new();
                        assert(entry_trees(empty@) =~= Seq::<(Seq<char>, ValueView)>::empty());
                        SettingValue::Table(empty)
                    },
                };
                let (c2, f) = if i + 1 == tokens.len() {
                    (string_value(val), None)
                } else {
                    insert_in(child, tokens, i + 1, val)
                };
                let ghost c2t = c2.tree();
                match pos {
                    Some(j) => {
                        es.insert(j, (path_text(k.as_str()), c2));
                        proof {
                            lemma_entry_trees(es@);
                            assert(entry_trees(es@) =~= entry_trees(old_es).update(j as int, (k@, c2t)));
                        }
                    },
                    None => {
                        es.push((path_text(k.as_str()), c2));
                        proof {
                            lemma_entry_trees(es@);
                            assert(entry_trees(es@) =~= entry_trees(old_es).push((k@, c2t)));
                        }
                    },
                }
                (SettingValue::Table(es), f)
            },
            other => (other, Some(SettingsErrorKind::ParentNotTable)),
        },
    }
}

fn kind_error(k: SettingsErrorKind, path: &str) -> (e: SettingsError)
    requires
        !(k is Path),
        !(k is Cycle),
    ensures
        error_parts(e) == (k, path@),
{
    let p = path_text(path);
    match k {
        SettingsErrorKind::NotFound => SettingsError::NotFound(p),
        SettingsErrorKind::NonTableStep => SettingsError::NonTableStep(p),
        SettingsErrorKind::NonArrayStep => SettingsError::NonArrayStep(p),
        SettingsErrorKind::MissingArrayItem => SettingsError::MissingArrayItem(p),
        SettingsErrorKind::ArrayNotFound => SettingsError::ArrayNotFound(p),
        SettingsErrorKind::NotAnArray => SettingsError::NotAnArray(p),
        SettingsErrorKind::ArrayEmpty => SettingsError::ArrayEmpty(p),
        SettingsErrorKind::ToggleOnly => SettingsError::ToggleOnly(p),
        SettingsErrorKind::NumericOnly => SettingsError::NumericOnly(p),
        SettingsErrorKind::NoCycleValues => SettingsError::NoCycleValues(p),
        SettingsErrorKind::NotScalar => SettingsError::NotScalar(p),
        SettingsErrorKind::ParentNotTable => SettingsError::ParentNotTable(p),
        SettingsErrorKind::MissingArrayPath => SettingsError::MissingArrayPath(p),
        SettingsErrorKind::Path(_) => SettingsError::NotFound(p),
        SettingsErrorKind::Cycle(_) => SettingsError::NotFound(p),
    }
}

/// Create the missing string setting at `path` with `value`, creating the
/// tables on the way.
pub fn insert_missing_string_value(root: &mut SettingValue, path: &str, value: &str) -> (r: Result<
    (),
    SettingsError,
>)
    ensures
        final(root).tree() == insert_missing(old(root).tree(), path@, value@).0,
        outcome(r) == insert_missing(old(root).tree(), path@, value@).1,
{
    let tokens = match parse_path_tokens(path) {
        Ok(t) => t,
        Err(e) => {
            return Err(SettingsError::Path(e));
        },
    };
    proof {
        assert(parse_path(path@) == Ok::<Seq<PathTokenView>, PathErrorView>(token_views(tokens@)));
    }
    if tokens.len() == 0 {
        return Err(SettingsError::NotFound(path_text(path)));
    }
    let mut old_root = SettingValue::Bool(false);
    std::mem::swap(&mut old_root, root);
    assert(token_views(tokens@).skip(0) == token_views(tokens@));
    let (new_root, fault) = insert_in(old_root, &tokens, 0, value);
    *root = new_root;
    match fault {
        None => Ok(()),
        Some(k) => {
            proof {
                lemma_insert_fault_kind(old(root).tree(), token_views(tokens@), value@);
            }
            Err(kind_error(k, path))
        },
    }
}

proof fn lemma_insert_fault_kind(v: ValueView, ts: Seq<PathTokenView>, val: Seq<char>)
    ensures
        match insert_at(v, ts, val).1 {
            Some(k) => !(k is Path) && !(k is Cycle),
            None => true,
        },
    decreases ts.len(),
{
    if ts.len() > 0 {
        match ts[0] {
            PathTokenView::Key(k) => match v {
                ValueView::Table(es) => if ts.len() > 1 {
                    let c = match key_index(es, k) {
                        Some(i) => es[i].1,
                        None => ValueView::Table(seq![]),
                    };
                    lemma_insert_fault_kind(c, ts.drop_first(), val);
                },
                _ => {},
            },
            _ => {},
        }
    }
}


/// What a scalar edit did: finished, or left a floating-point setting for
/// the caller to step by a tenth up (`increment`) or down, since the
/// library holds no float arithmetic.
#[derive(Debug, Clone, Copy, PartialEq, Eq, Structural)]
pub enum ScalarApplied {
    Done,
    FloatStep { bits: u64, increment: bool },
}

pub open spec fn applied_outcome(r: Result<ScalarApplied, SettingsError>) -> Result<ScalarApplied, EditFault> {
    match r {
        Ok(a) => Ok(a),
        Err(e) => Err(error_parts(e)),
    }
}

/// Cycling a missing string setting: it is created with the first (or,
/// cycling back, the last) of its values in ascending order. Other edits
/// of a missing setting are refused.
pub open spec fn missing_scalar(v: ValueView, path: Seq<char>, op: ScalarOperation, sources: CycleSources) -> (
    ValueView,
    Result<ScalarApplied, EditFault>,
) {
    if is_cycle(op) {
        let options = cycle_options_for(path, seq![], sources);
        if options.len() == 0 {
            (v, Err((SettingsErrorKind::NotFound, path)))
        } else {
            let ordered = sorted_distinct(options);
            let val = if op == ScalarOperation::CycleNext {
                ordered[0]
            } else {
                ordered.last()
            };
            let (v2, f) = insert_missing(v, path, val);
            (
                v2,
                match f {
                    Some(e) => Err(e),
                    None => Ok(ScalarApplied::Done),
                },
            )
        }
    } else {
        (v, Err((SettingsErrorKind::NotFound, path)))
    }
}

/// A number one step up or down, kept within `i64`.
pub open spec fn stepped(i: i64, up: bool) -> i64 {
    if up {
        if i == i64::MAX {
            i
        } else {
            (i + 1) as i64
        }
    } else {
        if i == i64::MIN {
            i
        } else {
            (i - 1) as i64
        }
    }
}

/// Applying `op` to the scalar setting at `path`: a boolean toggles, an
/// integer steps by one (saturating), a float is handed back to be stepped,
/// a string cycles through its values; a missing setting is created by
/// cycling. The document afterwards and what happened.
pub open spec fn scalar_edit(v: ValueView, path: Seq<char>, op: ScalarOperation, sources: CycleSources) -> (
    ValueView,
    Result<ScalarApplied, EditFault>,
) {
    match node_at_path(v, path) {
        None => missing_scalar(v, path, op, sources),
        Some(n) => match n {
            ValueView::Bool(b) => if op == ScalarOperation::Toggle {
                (set_at(v, tokens_of(path), ValueView::Bool(!b)).0, Ok(ScalarApplied::Done))
            } else {
                (v, Err((SettingsErrorKind::ToggleOnly, path)))
            },
            ValueView::Int(i) => if op == ScalarOperation::Increment || op == ScalarOperation::Decrement {
                (
                    set_at(v, tokens_of(path), ValueView::Int(stepped(i, op == ScalarOperation::Increment))).0,
                    Ok(ScalarApplied::Done),
                )
            } else {
                (v, Err((SettingsErrorKind::NumericOnly, path)))
            },
            ValueView::Float(b) => if op == ScalarOperation::Increment || op == ScalarOperation::Decrement {
                (v, Ok(ScalarApplied::FloatStep { bits: b, increment: op == ScalarOperation::Increment }))
            } else {
                (v, Err((SettingsErrorKind::NumericOnly, path)))
            },
            ValueView::Str(cur) => {
                let options = if is_cycle(op) {
                    cycle_options_for(path, seq![], sources)
                } else {
                    cycle_options_for(path, cur, sources)
                };
                if options.len() == 0 {
                    (v, Err((SettingsErrorKind::NoCycleValues, path)))
                } else {
                    match cycle_result(cur, options, op) {
                        Ok(next) => (set_at(v, tokens_of(path), ValueView::Str(next)).0, Ok(ScalarApplied::Done)),
                        Err(e) => (v, Err((SettingsErrorKind::Cycle(e), seq![]))),
                    }
                }
            },
            _ => (v, Err((SettingsErrorKind::NotScalar, path))),
        },
    }
}


/// What an operation needs of the small model's value sources: cycling
/// draws the values for an empty current value, any other operation on a
/// set string draws them for its current value.
pub open spec fn scalar_sources_needed(v: ValueView, path: Seq<char>, operation: ScalarOperation, sources: CycleSources) -> bool {
    normalized_path(path) == "agent.small_model.model"@ ==> if operation == ScalarOperation::CycleNext || operation
        == ScalarOperation::CyclePrev {
        sources_defined(sources, seq![])
    } else {
        forall|cur: Seq<char>| node_at_path(v, path) == Some(ValueView::Str(cur)) ==> sources_defined(sources, cur)
    }
}

/// Set a missing string setting by cycling to its first (or last) value.
pub fn apply_missing_scalar_operation(
    root: &mut SettingValue,
    path: &str,
    operation: ScalarOperation,
    sources: &CycleSources,
) -> (r: Result<ScalarApplied, SettingsError>)
    requires
        (operation == ScalarOperation::CycleNext || operation == ScalarOperation::CyclePrev) && normalized_path(
            path@,
        ) == "agent.small_model.model"@ ==> sources_defined(*sources, seq![]),
    ensures
        final(root).tree() == missing_scalar(old(root).tree(), path@, operation, *sources).0,
        applied_outcome(r) == missing_scalar(old(root).tree(), path@, operation, *sources).1,
{
    if operation != ScalarOperation::CycleNext && operation != ScalarOperation::CyclePrev {
        return Err(SettingsError::NotFound(path_text(path)));
    }
    proof {
        assert(""@ =~= Seq::<char>::empty()) by {
            reveal_strlit("");
        }
    }
    let options = resolve_cycle_options(path, "", sources);
    if options.len() == 0 {
        return Err(SettingsError::NotFound(path_text(path)));
    }
    let ordered = sorted_distinct_options(options.as_slice());
    proof {
        lemma_sorted_distinct(string_views_of(options@));
        let ov = string_views_of(options@);
        assert(ov.contains(ov[0]));
        assert(sorted_distinct(ov).contains(ov[0]));
    }
    let value = if operation == ScalarOperation::CycleNext {
        ordered[0].clone()
    } else {
        ordered[ordered.len() - 1].clone()
    };
    match insert_missing_string_value(root, path, value.as_str()) {
        Ok(()) => Ok(ScalarApplied::Done),
        Err(e) => Err(e),
    }
}

/// Toggle, step or cycle the scalar setting at `path`. `sources` are the
/// values to cycle through as drawn for an empty current value.
pub fn apply_scalar_operation(
    root: &mut SettingValue,
    path: &str,
    operation: ScalarOperation,
    sources: &CycleSources,
) -> (r: Result<ScalarApplied, SettingsError>)
    requires
        scalar_sources_needed(old(root).tree(), path@, operation, *sources),
    ensures
        final(root).tree() == scalar_edit(old(root).tree(), path@, operation, *sources).0,
        applied_outcome(r) == scalar_edit(old(root).tree(), path@, operation, *sources).1,
{
    proof {
        assert(""@ =~= Seq::<char>::empty()) by {
            reveal_strlit("");
        }
    }
    let cycle = operation == ScalarOperation::CycleNext || operation == ScalarOperation::CyclePrev;
    let precomputed: Option<Vec<String>> = if cycle {
        Some(resolve_cycle_options(path, "", sources))
    } else {
        None
    };
    let tokens = match parse_path_tokens(path) {
        Ok(t) => t,
        Err(_) => {
            return apply_missing_scalar_operation(root, path, operation, sources);
        },
    };
    proof {
        assert(parse_path(path@) == Ok::<Seq<PathTokenView>, PathErrorView>(token_views(tokens@)));
    }
    let found = match get_tokens(root, &tokens) {
        Some(_) => true,
        None => false,
    };
    if !found {
        return apply_missing_scalar_operation(root, path, operation, sources);
    }
    let new_value = match get_tokens(root, &tokens) {
        Some(SettingValue::Bool(b)) => {
            if operation != ScalarOperation::Toggle {
                return Err(SettingsError::ToggleOnly(path_text(path)));
            }
            SettingValue::Bool(!*b)
        },
        Some(SettingValue::Int(i)) => match operation {
            ScalarOperation::Increment => SettingValue::Int(
                if *i == i64::MAX {
                    *i
                } else {
                    *i + 1
                },
            ),
            ScalarOperation::Decrement => SettingValue::Int(
                if *i == i64::MIN {
                    *i
                } else {
                    *i - 1
                },
            ),
            _ => {
                return Err(SettingsError::NumericOnly(path_text(path)));
            },
        },
        Some(SettingValue::Float(b)) => match operation {
            ScalarOperation::Increment => {
                return Ok(ScalarApplied::FloatStep { bits: *b, increment: true });
            },
            ScalarOperation::Decrement => {
                return Ok(ScalarApplied::FloatStep { bits: *b, increment: false });
            },
            _ => {
                return Err(SettingsError::NumericOnly(path_text(path)));
            },
        },
        Some(SettingValue::Str(cur)) => {
            let options = match precomputed {
                Some(o) => o,
                None => resolve_cycle_options(path, cur.as_str(), sources),
            };
            if options.len() == 0 {
                return Err(SettingsError::NoCycleValues(path_text(path)));
            }
            match cycle_string_option(cur.as_str(), options.as_slice(), operation) {
                Ok(next) => SettingValue::Str(next),
                Err(e) => {
                    return Err(SettingsError::Cycle(e));
                },
            }
        },
        _ => {
            return Err(SettingsError::NotScalar(path_text(path)));
        },
    };
    set_tokens(root, &tokens, new_value);
    Ok(ScalarApplied::Done)
}


// ---------------------------------------------------------------------------
// Palette actions
// ---------------------------------------------------------------------------

pub const ACTION_RELOAD: &'static str = "settings:reload";
pub const ACTION_OPEN_ROOT: &'static str = "settings:open_root";
pub const ACTION_BACK: &'static str = "settings:back";
pub const ACTION_RESET: &'static str = "settings:reset";
pub const ACTION_RESET_CONFIRM: &'static str = "settings:reset_confirm";
pub const ACTION_RESET_CANCEL: &'static str = "settings:reset_cancel";
pub const ACTION_PREFIX_OPEN: &'static str = "settings:open:";
pub const ACTION_PREFIX_ARRAY_ADD: &'static str = "settings:array_add:";
pub const ACTION_PREFIX_ARRAY_POP: &'static str = "settings:array_pop:";
pub const ACTION_PREFIX_SET: &'static str = "settings:set:";
pub const ACTION_PREFIX_EDIT: &'static str = "settings:edit:";
pub const ACTION_PICK_MAIN_MODEL: &'static str = "settings:pick_main_model";
pub const ACTION_CONFIGURE_EDITOR: &'static str = "settings:configure_editor";
/// The view that asks to confirm a reset.
pub const RESET_CONFIRMATION_VIEW: &'static str = "__settings_reset_confirmation";

/// What the settings palette does for an action.
#[derive(Debug, Clone)]
pub enum SettingsStep {
    /// Another part of the palette handles the action.
    Unchanged,
    /// Show another view (the root when `None`), with a message.
    Navigate { view_path: Option<String>, message: Option<String> },
    /// Reload the settings from disk.
    Reload,
    /// Reset the settings of the current write target.
    ResetConfirm,
    /// Add an item to the array at the path.
    AddArrayItem(String),
    /// Remove the last item of the array at the path.
    PopArrayItem(String),
    /// Toggle, step or cycle the scalar at the path.
    ApplyScalar(String, ScalarOperation),
}

pub enum SettingsStepView {
    Unchanged,
    Navigate { view_path: Option<Seq<char>>, message: Option<Seq<char>> },
    Reload,
    ResetConfirm,
    AddArrayItem(Seq<char>),
    PopArrayItem(Seq<char>),
    ApplyScalar(Seq<char>, ScalarOperation),
}

impl View for SettingsStep {
    type V = SettingsStepView;

    open spec fn view(&self) -> SettingsStepView {
        match self {
            SettingsStep::Unchanged => SettingsStepView::Unchanged,
            SettingsStep::Navigate { view_path, message } => SettingsStepView::Navigate {
                view_path: opt_text(*view_path),
                message: opt_text(*message),
            },
            SettingsStep::Reload => SettingsStepView::Reload,
            SettingsStep::ResetConfirm => SettingsStepView::ResetConfirm,
            SettingsStep::AddArrayItem(p) => SettingsStepView::AddArrayItem(p@),
            SettingsStep::PopArrayItem(p) => SettingsStepView::PopArrayItem(p@),
            SettingsStep::ApplyScalar(p, op) => SettingsStepView::ApplyScalar(p@, *op),
        }
    }
}

/// Why a palette action is refused.
#[derive(Debug, Clone)]
pub enum ActionError {
    /// A `set` action without `:` before its operation.
    Invalid(String),
    /// A `set` action with an operation other than `toggle`, `inc`, `dec`,
    /// `cycle` and `cycle_prev`.
    UnsupportedOperation(String),
    /// An action the palette does not know.
    Unknown(String),
}

pub enum ActionErrorView {
    Invalid(Seq<char>),
    UnsupportedOperation(Seq<char>),
    Unknown(Seq<char>),
}

impl View for ActionError {
    type V = ActionErrorView;

    open spec fn view(&self) -> ActionErrorView {
        match self {
            ActionError::Invalid(a) => ActionErrorView::Invalid(a@),
            ActionError::UnsupportedOperation(o) => ActionErrorView::UnsupportedOperation(o@),
            ActionError::Unknown(a) => ActionErrorView::Unknown(a@),
        }
    }
}

impl ActionError {
    /// The error as shown to the user.
    pub fn message(&self) -> (m: String)
        ensures
            m@ == (match self@ {
                ActionErrorView::Invalid(a) => "Invalid settings action: "@ + a,
                ActionErrorView::UnsupportedOperation(o) => "Unsupported settings operation: "@ + o,
                ActionErrorView::Unknown(a) => "Unknown settings action: "@ + a,
            }),
    {
        let (lead, rest) = match self {
            ActionError::Invalid(a) => ("Invalid settings action: ", a),
            ActionError::UnsupportedOperation(o) => ("Unsupported settings operation: ", o),
            ActionError::Unknown(a) => ("Unknown settings action: ", a),
        };
        let mut out = chars_of(lead);
        extend_str(&mut out, rest.as_str());
        string_from(&out)
    }
}

/// The position of the last `c` in `s`.
pub open spec fn last_index_of(s: Seq<char>, c: char) -> Option<int>
    decreases s.len(),
{
    if s.len() == 0 {
        None
    } else if s.last() == c {
        Some(s.len() - 1)
    } else {
        last_index_of(s.drop_last(), c)
    }
}

/// The operation a `set` action names.
pub open spec fn operation_named(op: Seq<char>) -> Option<ScalarOperation> {
    if op == "toggle"@ {
        Some(ScalarOperation::Toggle)
    } else if op == "inc"@ {
        Some(ScalarOperation::Increment)
    } else if op == "dec"@ {
        Some(ScalarOperation::Decrement)
    } else if op == "cycle"@ {
        Some(ScalarOperation::CycleNext)
    } else if op == "cycle_prev"@ {
        Some(ScalarOperation::CyclePrev)
    } else {
        None
    }
}

pub open spec fn navigate(view_path: Option<Seq<char>>, message: Option<Seq<char>>) -> Result<
    SettingsStepView,
    ActionErrorView,
> {
    Ok(SettingsStepView::Navigate { view_path, message })
}

/// What the palette does for `action` while showing `view_path`.
pub open spec fn settings_step_of(view_path: Option<Seq<char>>, action: Seq<char>) -> Result<
    SettingsStepView,
    ActionErrorView,
> {
    if action == ACTION_PICK_MAIN_MODEL@ || action == ACTION_CONFIGURE_EDITOR@ {
        Ok(SettingsStepView::Unchanged)
    } else if action == ACTION_RELOAD@ {
        Ok(SettingsStepView::Reload)
    } else if action == ACTION_RESET@ {
        navigate(
            Some(RESET_CONFIRMATION_VIEW@),
            Some("Confirm reset to clear all settings in the current write target."@),
        )
    } else if action == ACTION_RESET_CANCEL@ {
        navigate(None, Some("Configuration reset cancelled."@))
    } else if action == ACTION_RESET_CONFIRM@ {
        Ok(SettingsStepView::ResetConfirm)
    } else if action == ACTION_OPEN_ROOT@ {
        navigate(None, None)
    } else if action == ACTION_BACK@ {
        navigate(
            match view_path {
                Some(v) => crate::settings_path::parent_view(v),
                None => None,
            },
            None,
        )
    } else if starts_with(action, ACTION_PREFIX_OPEN@) {
        let path = action.skip(ACTION_PREFIX_OPEN@.len() as int);
        navigate(
            if crate::text::trim(path).len() == 0 {
                None
            } else {
                Some(path)
            },
            None,
        )
    } else if starts_with(action, ACTION_PREFIX_ARRAY_ADD@) {
        Ok(SettingsStepView::AddArrayItem(action.skip(ACTION_PREFIX_ARRAY_ADD@.len() as int)))
    } else if starts_with(action, ACTION_PREFIX_ARRAY_POP@) {
        Ok(SettingsStepView::PopArrayItem(action.skip(ACTION_PREFIX_ARRAY_POP@.len() as int)))
    } else if starts_with(action, ACTION_PREFIX_SET@) {
        let rest = action.skip(ACTION_PREFIX_SET@.len() as int);
        match last_index_of(rest, ':') {
            None => Err(ActionErrorView::Invalid(action)),
            Some(i) => match operation_named(rest.skip(i + 1)) {
                Some(op) => Ok(SettingsStepView::ApplyScalar(rest.take(i), op)),
                None => Err(ActionErrorView::UnsupportedOperation(rest.skip(i + 1))),
            },
        }
    } else {
        Err(ActionErrorView::Unknown(action))
    }
}

pub open spec fn step_result_view(r: Result<SettingsStep, ActionError>) -> Result<SettingsStepView, ActionErrorView> {
    match r {
        Ok(s) => Ok(s@),
        Err(e) => Err(e@),
    }
}

fn last_colon(s: &Vec<char>) -> (r: Option<usize>)
    ensures
        match r {
            Some(i) => last_index_of(s@, ':') == Some(i as int) && i < s@.len(),
            None => last_index_of(s@, ':') is None,
        },
{
    let mut k: usize = s.len();
    assert(s@.take(k as int) =~= s@);
    while k > 0
        invariant
            k <= s@.len(),
            last_index_of(s@, ':') == last_index_of(s@.take(k as int), ':'),
        decreases k,
    {
        assert(s@.take(k as int).last() == s@[k - 1]);
        assert(s@.take(k as int).drop_last() =~= s@.take(k - 1));
        if s[k - 1] == ':' {
            return Some(k - 1);
        }
        k -= 1;
    }
    None
}

fn strip_prefix(a: &Vec<char>, prefix: &str) -> (r: Option<String>)
    ensures
        match r {
            Some(rest) => starts_with(a@, prefix@) && rest@ == a@.skip(prefix@.len() as int),
            None => !starts_with(a@, prefix@),
        },
{
    if crate::text::has_prefix_str(a, prefix) {
        let p = chars_of(prefix);
        let rest = sub_vec(a, p.len(), a.len());
        assert(rest@ =~= a@.skip(prefix@.len() as int));
        Some(string_from(&rest))
    } else {
        None
    }
}

/// Decode a palette action into the step to take while `view_path` is
/// shown.
pub fn settings_step(view_path: Option<&str>, action: &str) -> (r: Result<SettingsStep, ActionError>)
    ensures
        step_result_view(r) == settings_step_of(
            match view_path {
                Some(s) => Some(s@),
                None => None,
            },
            action@,
        ),
{
    let a = chars_of(action);
    if eq_str(&a, ACTION_PICK_MAIN_MODEL) || eq_str(&a, ACTION_CONFIGURE_EDITOR) {
        return Ok(SettingsStep::Unchanged);
    }
    if eq_str(&a, ACTION_RELOAD) {
        return Ok(SettingsStep::Reload);
    }
    if eq_str(&a, ACTION_RESET) {
        return Ok(
            SettingsStep::Navigate {
                view_path: Some(RESET_CONFIRMATION_VIEW.to_owned()),
                message: Some("Confirm reset to clear all settings in the current write target.".to_owned()),
            },
        );
    }
    if eq_str(&a, ACTION_RESET_CANCEL) {
        return Ok(
            SettingsStep::Navigate {
                view_path: None,
                message: Some("Configuration reset cancelled.".to_owned()),
            },
        );
    }
    if eq_str(&a, ACTION_RESET_CONFIRM) {
        return Ok(SettingsStep::ResetConfirm);
    }
    if eq_str(&a, ACTION_OPEN_ROOT) {
        return Ok(SettingsStep::Navigate { view_path: None, message: None });
    }
    if eq_str(&a, ACTION_BACK) {
        let parent = match view_path {
            Some(v) => crate::settings_path::parent_view_path(v),
            None => None,
        };
        return Ok(SettingsStep::Navigate { view_path: parent, message: None });
    }
    if let Some(path) = strip_prefix(&a, ACTION_PREFIX_OPEN) {
        let pc = chars_of(path.as_str());
        if crate::text::is_blank(&pc) {
            return Ok(SettingsStep::Navigate { view_path: None, message: None });
        }
        return Ok(SettingsStep::Navigate { view_path: Some(path), message: None });
    }
    if let Some(path) = strip_prefix(&a, ACTION_PREFIX_ARRAY_ADD) {
        return Ok(SettingsStep::AddArrayItem(path));
    }
    if let Some(path) = strip_prefix(&a, ACTION_PREFIX_ARRAY_POP) {
        return Ok(SettingsStep::PopArrayItem(path));
    }
    if let Some(rest) = strip_prefix(&a, ACTION_PREFIX_SET) {
        let rc = chars_of(rest.as_str());
        match last_colon(&rc) {
            None => {
                return Err(ActionError::Invalid(path_text(action)));
            },
            Some(i) => {
                assert(i < rc.len());
                let path = sub_vec(&rc, 0, i);
                let op = sub_vec(&rc, i + 1, rc.len());
                assert(path@ =~= rc@.take(i as int));
                assert(op@ =~= rc@.skip(i + 1));
                let operation = if eq_str(&op, "toggle") {
                    ScalarOperation::Toggle
                } else if eq_str(&op, "inc") {
                    ScalarOperation::Increment
                } else if eq_str(&op, "dec") {
                    ScalarOperation::Decrement
                } else if eq_str(&op, "cycle") {
                    ScalarOperation::CycleNext
                } else if eq_str(&op, "cycle_prev") {
                    ScalarOperation::CyclePrev
                } else {
                    return Err(ActionError::UnsupportedOperation(string_from(&op)));
                };
                return Ok(SettingsStep::ApplyScalar(string_from(&path), operation));
            },
        }
    }
    Err(ActionError::Unknown(path_text(action)))
}

// ---------------------------------------------------------------------------
// The draft and its source
// ---------------------------------------------------------------------------

/// The palette's draft settings and the file they are written to.
#[derive(Debug)]
pub struct PaletteDraft {
    pub draft: SettingValue,
    /// The file the draft is written to, as displayed.
    pub source_path: String,
    /// The line that says where the draft came from.
    pub source_label: String,
}

/// The source line for a configuration read from `config_path`, or for a
/// workspace without a configuration file.
pub open spec fn source_label_of(config_path: Option<Seq<char>>, workspace: Seq<char>) -> Seq<char> {
    match config_path {
        Some(p) => "Configuration source: "@ + p,
        None => crate::settings_view::no_config_label(workspace),
    }
}

/// Take a configuration reloaded from disk. `loaded` is the configuration
/// with the file it was read from (none when no file exists), or nothing
/// when reading failed; then the draft and its source stay as they were.
/// Without a file the draft is written to `default_path` (the workspace's
/// `vtcode.toml`, as displayed).
pub fn reload_palette_draft(
    state: &mut PaletteDraft,
    loaded: Option<(SettingValue, Option<String>)>,
    workspace: &str,
    default_path: &str,
) -> (reloaded: bool)
    ensures
        reloaded == loaded is Some,
        loaded is None ==> *final(state) == *old(state),
        loaded matches Some((v, p)) ==> {
            &&& final(state).draft == v
            &&& final(state).source_path@ == match p {
                Some(p) => p@,
                None => default_path@,
            }
            &&& final(state).source_label@ == source_label_of(opt_text(p), workspace@)
        },
{
    match loaded {
        None => false,
        Some((value, config_path)) => {
            state.draft = value;
            match config_path {
                Some(p) => {
                    let mut label = chars_of("Configuration source: ");
                    extend_str(&mut label, p.as_str());
                    state.source_label = string_from(&label);
                    state.source_path = p;
                },
                None => {
                    state.source_path = default_path.to_owned();
                    state.source_label = crate::settings_view::no_config_source_label(workspace);
                },
            }
            true
        },
    }
}

/// Settle an edit of the draft once its write was tried: the edited draft
/// stays when the write succeeded; otherwise the draft from before the edit
/// comes back. The source is left as it was.
pub fn settle_persisted_edit(state: &mut PaletteDraft, previous: SettingValue, persisted: bool)
    ensures
        persisted ==> *final(state) == *old(state),
        !persisted ==> final(state).draft == previous,
        final(state).source_path == old(state).source_path,
        final(state).source_label == old(state).source_label,
{
    if !persisted {
        state.draft = previous;
    }
}

} // verus!
