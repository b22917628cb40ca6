use vtcode_runloop::settings_view::{CycleError, ScalarOperation, cycle_string_option};
use vtcode_runloop::settings_path::{
    PathToken, SETTINGS_ADVANCED_VIEW_PATH, SETTINGS_GROUP_PREFIX, format_path_tokens, parent_setting_path,
    parent_view_path, parse_path_tokens, path_with_key,
};
use vtcode_runloop::settings_view::{
    SETTINGS_MODEL_CONFIG_MAIN_PATH, SETTINGS_MODEL_CONFIG_PATH, build_path, codex_sidecar_cycle_options,
    curated_group, curated_groups, is_schema_path, missing_doc_label, resolve_settings_view_path, wrap_comment,
};

#[test]
fn parse_path_handles_arrays() {
    let tokens = parse_path_tokens("commands.allow_list[1]").expect("tokens");
    assert_eq!(tokens.len(), 3);
    matches!(tokens[0], PathToken::Key(_));
    matches!(tokens[1], PathToken::Key(_));
    matches!(tokens[2], PathToken::Index(1));
}

#[test]
fn parent_view_path_handles_nested_segments() {
    assert_eq!(parent_view_path("agent"), None);
    assert_eq!(parent_view_path("agent.vibe_coding"), Some("agent".to_string()));
    assert_eq!(parent_view_path("group:model_provider:custom_providers"), Some("group:model_provider".to_string()));
    assert_eq!(
        parent_view_path("group:model_provider:custom_providers[0]"),
        Some("group:model_provider:custom_providers".to_string())
    );
    assert_eq!(parent_view_path("advanced:custom_providers[0]"), Some("advanced:custom_providers".to_string()));
    assert_eq!(
        parent_view_path("hooks.lifecycle.pre_tool_use[0].hooks[2]"),
        Some("hooks.lifecycle.pre_tool_use[0].hooks".to_string())
    );
}

#[test]
fn resolve_settings_view_path_maps_model_aliases() {
    assert_eq!(resolve_settings_view_path("model"), SETTINGS_MODEL_CONFIG_PATH);
    assert_eq!(resolve_settings_view_path("model.main"), SETTINGS_MODEL_CONFIG_MAIN_PATH);
    assert_eq!(resolve_settings_view_path("codex"), "agent.codex_app_server");
    assert_eq!(resolve_settings_view_path("codex_app_server"), "agent.codex_app_server");
    assert_eq!(resolve_settings_view_path("advanced"), SETTINGS_ADVANCED_VIEW_PATH);
    for group in curated_groups() {
        assert_eq!(resolve_settings_view_path(group.id), format!("{SETTINGS_GROUP_PREFIX}{}", group.id));
    }
    assert_eq!(
        resolve_settings_view_path("advanced.agent.harness.max_tool_calls_per_turn"),
        "advanced.agent.harness.max_tool_calls_per_turn"
    );
}

#[test]
fn quoted_map_keys_parse_and_parent() {
    assert_eq!(
        parent_setting_path(r#"profiles["gpt-5.4"].temperature"#),
        Some(r#"profiles["gpt-5.4"]"#.to_string())
    );
    let unicode_tokens = parse_path_tokens("profiles.模型").expect("unicode path should parse");
    assert!(matches!(
        unicode_tokens.as_slice(),
        [PathToken::Key(root), PathToken::Key(key)] if root == "profiles" && key == "模型"
    ));
}

#[test]
fn formatted_tokens_parse_back() {
    let tokens = vec![
        PathToken::Key("profiles".to_string()),
        PathToken::Key("gpt-5.4".to_string()),
        PathToken::Index(12),
        PathToken::Key("say \"hi\" \\ there".to_string()),
        PathToken::Key(String::new()),
        PathToken::Key("plain_key-2".to_string()),
    ];
    let text = format_path_tokens(&tokens);
    assert_eq!(text, r#"profiles["gpt-5.4"][12]["say \"hi\" \\ there"][""].plain_key-2"#);
    let parsed = parse_path_tokens(&text).expect("formatted path parses");
    assert_eq!(parsed.len(), tokens.len());
    for (a, b) in parsed.iter().zip(tokens.iter()) {
        match (a, b) {
            (PathToken::Key(x), PathToken::Key(y)) => assert_eq!(x, y),
            (PathToken::Index(x), PathToken::Index(y)) => assert_eq!(x, y),
            _ => panic!("token kinds differ"),
        }
    }
}

#[test]
fn path_errors_are_reported() {
    assert_eq!(
        parse_path_tokens(r#"a["b"c"#).unwrap_err().message(),
        "Invalid quoted path key: missing closing bracket"
    );
    assert_eq!(parse_path_tokens(r#"a["b\"#).unwrap_err().message(), "Invalid quoted path key: dangling escape");
    assert_eq!(parse_path_tokens(r#"a["b"#).unwrap_err().message(), "Invalid quoted path key: missing closing quote");
    assert_eq!(parse_path_tokens("a[1").unwrap_err().message(), "Invalid path: missing closing bracket");
    assert_eq!(parse_path_tokens("a[x]").unwrap_err().message(), "Invalid array index 'x'");
    assert_eq!(parse_path_tokens("a[]").unwrap_err().message(), "Invalid array index ''");
    assert!(matches!(parse_path_tokens("a[+7]").expect("plus sign")[1], PathToken::Index(7)));
    assert!(parse_path_tokens("a[99999999999999999999999]").is_err());
}

#[test]
fn keys_are_quoted_only_when_needed() {
    assert_eq!(path_with_key("", "agent"), "agent");
    assert_eq!(path_with_key("agent", "provider"), "agent.provider");
    assert_eq!(path_with_key("profiles", "gpt-5.4"), r#"profiles["gpt-5.4"]"#);
    assert_eq!(path_with_key("", "a b"), r#"["a b"]"#);
}

#[test]
fn parent_view_of_advanced_paths() {
    assert_eq!(parent_view_path(""), None);
    assert_eq!(parent_view_path("advanced"), None);
    assert_eq!(parent_view_path("advanced.agent.provider"), Some("advanced".to_string()));
    assert_eq!(parent_view_path("advanced:agent"), Some("advanced".to_string()));
    assert_eq!(parent_view_path("group:model_provider"), None);
}

#[test]
fn curated_group_lookup() {
    let group = curated_group("model_provider").expect("known group");
    assert_eq!(group.title, "Model & Provider");
    assert_eq!(group.paths[0], "agent.provider");
    assert!(curated_group("missing").is_none());
    assert_eq!(curated_groups().len(), 7);
    assert_eq!(resolve_settings_view_path("  tools.editor "), "tools.editor");
}

#[test]
fn schema_paths_and_labels() {
    assert!(is_schema_path("custom_providers[].name"));
    assert!(is_schema_path("mcp.*.command"));
    assert!(!is_schema_path("mcp.a*b.command"));
    assert!(!is_schema_path("agent.provider"));
    assert_eq!(missing_doc_label("provider.openai.service_tier", Some("provider.openai")), Some("service_tier".to_string()));
    assert_eq!(missing_doc_label("provider.openai.x.y", Some("provider.openai")), None);
    assert_eq!(missing_doc_label("provider.openai", None), Some("provider.openai".to_string()));
    assert_eq!(build_path(Some("agent"), "provider"), "agent.provider");
    assert_eq!(build_path(Some(""), "provider"), "provider");
    assert_eq!(build_path(None, "provider"), "provider");
}

#[test]
fn sidecar_options_and_comment_wrapping() {
    assert_eq!(codex_sidecar_cycle_options("  custom  ", "codex"), vec!["codex".to_string(), "custom".to_string()]);
    assert_eq!(codex_sidecar_cycle_options("codex", "codex"), vec!["codex".to_string()]);
    assert_eq!(wrap_comment("one two three four", 9), vec!["one two", "three", "four"]);
    assert_eq!(wrap_comment("  ", 10), Vec::<String>::new());
    assert_eq!(wrap_comment("averyveryverylongword x", 5), vec!["averyveryverylongword", "x"]);
}

#[test]
fn string_options_cycle_in_sorted_order() {
    let options = vec!["priority".to_string(), "flex".to_string(), "auto".to_string(), "flex".to_string()];
    assert_eq!(cycle_string_option("flex", &options, ScalarOperation::CycleNext), Ok("priority".to_string()));
    assert_eq!(cycle_string_option("priority", &options, ScalarOperation::CycleNext), Ok("auto".to_string()));
    assert_eq!(cycle_string_option("auto", &options, ScalarOperation::CyclePrev), Ok("priority".to_string()));
    assert_eq!(cycle_string_option("unknown", &options, ScalarOperation::CycleNext), Ok("flex".to_string()));
    assert_eq!(cycle_string_option("unknown", &options, ScalarOperation::CyclePrev), Ok("priority".to_string()));
    assert_eq!(cycle_string_option("x", &[], ScalarOperation::CycleNext), Err(CycleError::NoOptions));
    assert_eq!(cycle_string_option("x", &options, ScalarOperation::Toggle), Err(CycleError::InvalidOperation));
    assert_eq!(CycleError::NoOptions.message(), "No cycle options available");
    let unicode = vec!["é".to_string(), "z".to_string(), "a".to_string()];
    assert_eq!(cycle_string_option("z", &unicode, ScalarOperation::CycleNext), Ok("é".to_string()));
}
