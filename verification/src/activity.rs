//! Files and directories a tool call touched, as named in its arguments and
//! its output: the candidates that the workspace activity list records.

use vstd::prelude::*;
use crate::output::{path_key, path_like_key};
use crate::permission::string_views;
use crate::text::{chars_of, contains_str, has_prefix_str, starts_with, contains_seq, string_from, trim, trimmed};

verus! {

/// A JSON value as the activity scan reads it. Numbers carry nothing the
/// scan looks at.
#[derive(Debug)]
pub enum JsonValue {
    Null,
    Bool(bool),
    Number,
    String(String),
    Array(Vec<JsonValue>),
    Object(Vec<(String, JsonValue)>),
}

/// A raw path as recorded: trimmed; nothing when it is blank, a URL or an
/// `untitled:` buffer.
pub open spec fn path_candidate(raw: Seq<char>) -> Option<Seq<char>> {
    let t = trim(raw);
    if t.len() == 0 || contains_seq(t, "://"@) || starts_with(t, "untitled:"@) {
        None
    } else {
        Some(t)
    }
}

pub open spec fn candidate_seq(raw: Seq<char>) -> Seq<Seq<char>> {
    match path_candidate(raw) {
        Some(t) => seq![t],
        None => seq![],
    }
}

pub open spec fn key_names_path(key: Option<Seq<char>>) -> bool {
    match key {
        Some(k) => path_key(k),
        None => false,
    }
}

/// The candidates in a value reached under `key`: a string counts when its
/// key names a path; an array's items keep the array's key; an object's
/// entries are read under their own keys, in order.
pub open spec fn value_paths(key: Option<Seq<char>>, v: JsonValue) -> Seq<Seq<char>>
    decreases v, 0nat,
{
    match v {
        JsonValue::String(t) => if key_names_path(key) {
            candidate_seq(t@)
        } else {
            seq![]
        },
        JsonValue::Array(items) => items_paths(key, items@),
        JsonValue::Object(es) => entries_paths(es@),
        _ => seq![],
    }
}

pub open spec fn items_paths(key: Option<Seq<char>>, s: Seq<JsonValue>) -> Seq<Seq<char>>
    decreases s, s.len(),
{
    if s.len() == 0 {
        seq![]
    } else {
        items_paths(key, s.drop_last()) + value_paths(key, s.last())
    }
}

pub open spec fn entries_paths(s: Seq<(String, JsonValue)>) -> Seq<Seq<char>>
    decreases s, s.len(),
{
    if s.len() == 0 {
        seq![]
    } else {
        entries_paths(s.drop_last()) + value_paths(Some(s.last().0@), s.last().1)
    }
}

/// The candidates of a list of raw paths, in order.
pub open spec fn raw_paths(s: Seq<Seq<char>>) -> Seq<Seq<char>>
    decreases s.len(),
{
    if s.len() == 0 {
        seq![]
    } else {
        raw_paths(s.drop_last()) + candidate_seq(s.last())
    }
}

pub open spec fn opt_key(key: Option<&str>) -> Option<Seq<char>> {
    match key {
        Some(k) => Some(k@),
        None => None,
    }
}

pub open spec fn opt_text(o: Option<String>) -> Option<Seq<char>> {
    match o {
        Some(s) => Some(s@),
        None => None,
    }
}

/// The recorded form of a raw path, if it is recorded at all.
pub fn activity_path_candidate(raw: &str) -> (r: Option<String>)
    ensures
        opt_text(r) == path_candidate(raw@),
{
    let t = trimmed(&chars_of(raw));
    if t.len() == 0 || contains_str(&t, "://") || has_prefix_str(&t, "untitled:") {
        None
    } else {
        Some(string_from(&t))
    }
}

fn push_candidate(raw: &str, paths: &mut Vec<String>)
    ensures
        string_views(final(paths)@) == string_views(old(paths)@) + candidate_seq(raw@),
{
    let ghost before = string_views(paths@);
    match activity_path_candidate(raw) {
        Some(p) => {
            paths.push(p);
            assert(string_views(paths@) =~= before + candidate_seq(raw@));
        },
        None => {
            assert(string_views(paths@) =~= before + candidate_seq(raw@));
        },
    }
}

/// Appends the candidates found in `value`, reached under `key`, to `paths`.
pub fn collect_paths_from_value(key: Option<&str>, value: &JsonValue, paths: &mut Vec<String>)
    ensures
        string_views(final(paths)@) == string_views(old(paths)@) + value_paths(opt_key(key), *value),
    decreases value,
{
    let ghost before = string_views(paths@);
    match value {
        JsonValue::String(text) => {
            let named = match key {
                Some(k) => path_like_key(k),
                None => false,
            };
            if named {
                push_candidate(text.as_str(), paths);
            } else {
                assert(string_views(paths@) =~= before + value_paths(opt_key(key), *value));
            }
        },
        JsonValue::Array(items) => {
            let mut i: usize = 0;
            while i < items.len()
                invariant
                    i <= items@.len(),
                    *value == JsonValue::Array(*items),
                    string_views(paths@) == before + items_paths(opt_key(key), items@.take(i as int)),
                decreases items.len() - i,
            {
                proof {
                    assert(decreases_to!(*value => value->Array_0));
                    assert(decreases_to!(value->Array_0 => items@));
                    assert(decreases_to!(items@ => items@[i as int]));
                    assert(decreases_to!(*value => items@[i as int]));
                }
                collect_paths_from_value(key, &items[i], paths);
                proof {
                    let s = items@.take(i + 1);
                    assert(s.drop_last() =~= items@.take(i as int));
                    assert(s.last() == items@[i as int]);
                }
                i += 1;
            }
            assert(items@.take(i as int) =~= items@);
        },
        JsonValue::Object(es) => {
            let mut i: usize = 0;
            while i < es.len()
                invariant
                    i <= es@.len(),
                    *value == JsonValue::Object(*es),
                    string_views(paths@) == before + entries_paths(es@.take(i as int)),
                decreases es.len() - i,
            {
                proof {
                    assert(decreases_to!(*value => value->Object_0));
                    assert(decreases_to!(value->Object_0 => es@));
                    assert(decreases_to!(es@ => es@[i as int]));
                    assert(decreases_to!(es@[i as int] => es@[i as int].1));
                    assert(decreases_to!(*value => es@[i as int].1));
                }
                collect_paths_from_value(Some(es[i].0.as_str()), &es[i].1, paths);
                proof {
                    let s = es@.take(i + 1);
                    assert(s.drop_last() =~= es@.take(i as int));
                    assert(s.last() == es@[i as int]);
                }
                i += 1;
            }
            assert(es@.take(i as int) =~= es@);
        },
        _ => {
            assert(string_views(paths@) =~= before + value_paths(opt_key(key), *value));
        },
    }
}

/// The activity candidates of a tool call, in order: its modified files,
/// then the paths named in its arguments (read under the key `args`), then
/// those named in its output (under `output`). Resolving each against the
/// workspace, keeping those inside it and ordering them is left to the
/// caller.
pub fn collect_instruction_activity_paths(args: &JsonValue, output: &JsonValue, modified_files: &[String]) -> (r:
    Vec<String>)
    ensures
        string_views(r@) == raw_paths(string_views(modified_files@)) + value_paths(Some("args"@), *args)
            + value_paths(Some("output"@), *output),
{
    let mut paths: Vec<String> = Vec::new();
    let ghost ms = string_views(modified_files@);
    let mut i: usize = 0;
    while i < modified_files.len()
        invariant
            i <= modified_files@.len(),
            ms == string_views(modified_files@),
            string_views(paths@) == raw_paths(ms.take(i as int)),
        decreases modified_files.len() - i,
    {
        push_candidate(modified_files[i].as_str(), &mut paths);
        proof {
            let s = ms.take(i + 1);
            assert(s.drop_last() =~= ms.take(i as int));
        }
        i += 1;
    }
    assert(ms.take(i as int) =~= ms);
    collect_paths_from_value(Some("args"), args, &mut paths);
    collect_paths_from_value(Some("output"), output, &mut paths);
    paths
}

/// A recorded path: trimmed, non-empty, not a URL and not an untitled buffer.
pub open spec fn recordable(p: Seq<char>) -> bool {
    p.len() > 0 && trim(p) == p && !contains_seq(p, "://"@) && !starts_with(p, "untitled:"@)
}

/// Every path of `ps` is recordable.
pub open spec fn all_recordable(ps: Seq<Seq<char>>) -> bool {
    forall|i: int| 0 <= i < ps.len() ==> recordable(#[trigger] ps[i])
}

proof fn lemma_concat_recordable(a: Seq<Seq<char>>, b: Seq<Seq<char>>)
    requires
        all_recordable(a),
        all_recordable(b),
    ensures
        all_recordable(a + b),
{
    assert forall|i: int| 0 <= i < (a + b).len() implies recordable(#[trigger] (a + b)[i]) by {
        if i < a.len() {
            assert((a + b)[i] == a[i]);
        } else {
            assert((a + b)[i] == b[i - a.len()]);
        }
    }
}

proof fn lemma_candidate_seq(raw: Seq<char>)
    ensures
        all_recordable(candidate_seq(raw)),
{
    crate::text::lemma_trim_idempotent(raw);
    match path_candidate(raw) {
        Some(t) => {
            assert(t == trim(raw));
            assert(recordable(t));
            assert(candidate_seq(raw) == seq![t]);
        },
        None => {},
    }
}

/// Every path the scan of a value records is trimmed, non-empty, not a URL
/// and not an untitled buffer.
pub proof fn lemma_value_paths_recordable(key: Option<Seq<char>>, v: JsonValue)
    ensures
        all_recordable(value_paths(key, v)),
    decreases v, 0nat,
{
    match v {
        JsonValue::String(t) => {
            lemma_candidate_seq(t@);
        },
        JsonValue::Array(items) => {
            lemma_items_paths_recordable(key, items@);
        },
        JsonValue::Object(es) => {
            lemma_entries_paths_recordable(es@);
        },
        _ => {},
    }
}

proof fn lemma_items_paths_recordable(key: Option<Seq<char>>, s: Seq<JsonValue>)
    ensures
        all_recordable(items_paths(key, s)),
    decreases s, s.len(),
{
    if s.len() > 0 {
        lemma_items_paths_recordable(key, s.drop_last());
        lemma_value_paths_recordable(key, s.last());
        lemma_concat_recordable(items_paths(key, s.drop_last()), value_paths(key, s.last()));
    }
}

proof fn lemma_entries_paths_recordable(s: Seq<(String, JsonValue)>)
    ensures
        all_recordable(entries_paths(s)),
    decreases s, s.len(),
{
    if s.len() > 0 {
        lemma_entries_paths_recordable(s.drop_last());
        lemma_value_paths_recordable(Some(s.last().0@), s.last().1);
        lemma_concat_recordable(entries_paths(s.drop_last()), value_paths(Some(s.last().0@), s.last().1));
    }
}

proof fn lemma_raw_paths_recordable(s: Seq<Seq<char>>)
    ensures
        all_recordable(raw_paths(s)),
    decreases s.len(),
{
    if s.len() > 0 {
        lemma_raw_paths_recordable(s.drop_last());
        lemma_candidate_seq(s.last());
        lemma_concat_recordable(raw_paths(s.drop_last()), candidate_seq(s.last()));
    }
}

/// Every activity candidate of a tool call (from its modified files, its
/// arguments and its output) is trimmed, non-empty, not a URL and not an
/// untitled buffer.
pub proof fn lemma_instruction_paths_recordable(modified: Seq<Seq<char>>, args: JsonValue, output: JsonValue)
    ensures
        all_recordable(
            raw_paths(modified) + value_paths(Some("args"@), args) + value_paths(Some("output"@), output),
        ),
{
    lemma_raw_paths_recordable(modified);
    lemma_value_paths_recordable(Some("args"@), args);
    lemma_value_paths_recordable(Some("output"@), output);
    lemma_concat_recordable(raw_paths(modified), value_paths(Some("args"@), args));
    lemma_concat_recordable(
        raw_paths(modified) + value_paths(Some("args"@), args),
        value_paths(Some("output"@), output),
    );
}

} // verus!
