use vtcode_runloop::activity::{
    JsonValue, activity_path_candidate, collect_instruction_activity_paths, collect_paths_from_value,
};

fn s(t: &str) -> JsonValue {
    JsonValue::String(t.to_string())
}

fn obj(entries: Vec<(&str, JsonValue)>) -> JsonValue {
    JsonValue::Object(entries.into_iter().map(|(k, v)| (k.to_string(), v)).collect())
}

#[test]
fn raw_paths_are_trimmed_and_urls_or_untitled_buffers_skipped() {
    assert_eq!(activity_path_candidate("  src/main.rs \n").as_deref(), Some("src/main.rs"));
    assert_eq!(activity_path_candidate("   "), None);
    assert_eq!(activity_path_candidate("https://example.com/a"), None);
    assert_eq!(activity_path_candidate("file:///tmp/x"), None);
    assert_eq!(activity_path_candidate("untitled:Untitled-1"), None);
    assert_eq!(activity_path_candidate("docs/untitled:x").as_deref(), Some("docs/untitled:x"));
}

#[test]
fn only_strings_under_path_keys_are_collected() {
    let value = obj(vec![
        ("path", s("a.rs")),
        ("content", s("b.rs")),
        ("files", JsonValue::Array(vec![s("c.rs"), JsonValue::Number, s(" d.rs ")])),
        ("nested", obj(vec![("cwd", s("/work")), ("note", s("e.rs"))])),
        ("flag", JsonValue::Bool(true)),
        ("none", JsonValue::Null),
    ]);
    let mut paths = vec!["first".to_string()];
    collect_paths_from_value(None, &value, &mut paths);
    assert_eq!(paths, vec!["first", "a.rs", "c.rs", "d.rs", "/work"]);
}

#[test]
fn arrays_keep_their_key_and_root_strings_need_a_path_key() {
    let mut paths = Vec::new();
    collect_paths_from_value(Some("paths"), &JsonValue::Array(vec![JsonValue::Array(vec![s("x")])]), &mut paths);
    assert_eq!(paths, vec!["x"]);
    let mut none = Vec::new();
    collect_paths_from_value(None, &s("y"), &mut none);
    collect_paths_from_value(Some("args"), &s("z"), &mut none);
    assert!(none.is_empty());
}

#[test]
fn instruction_activity_lists_modified_files_then_args_then_output() {
    let args = obj(vec![("file_path", s("src/lib.rs")), ("url", s("https://x.y"))]);
    let output = obj(vec![("workspace", s("/repo")), ("path", s("untitled:1"))]);
    let modified = vec![" src/a.rs".to_string(), String::new()];
    assert_eq!(
        collect_instruction_activity_paths(&args, &output, &modified),
        vec!["src/a.rs", "src/lib.rs", "/repo"]
    );
}
