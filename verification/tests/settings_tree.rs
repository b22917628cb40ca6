use vtcode_runloop::settings_edit::{
    ActionError, CycleSources, ScalarApplied, SettingsStep, add_array_item, apply_missing_scalar_operation,
    apply_scalar_operation, default_array_item, insert_missing_string_value, is_trusted_provider_path,
    lightweight_model_cycle_options, normalize_config_path, pop_array_item, resolve_cycle_options, settings_step,
    RESET_CONFIRMATION_VIEW,
};
use vtcode_runloop::settings_path::{PathToken, parent_setting_path, parse_path_tokens};
use vtcode_runloop::settings_tree::{SettingValue, get_node, set_node};
use vtcode_runloop::settings_view::ScalarOperation;

fn tree(value: &toml::Value) -> SettingValue {
    match value {
        toml::Value::String(s) => SettingValue::Str(s.clone()),
        toml::Value::Integer(i) => SettingValue::Int(*i),
        toml::Value::Float(f) => SettingValue::Float(f.to_bits()),
        toml::Value::Boolean(b) => SettingValue::Bool(*b),
        toml::Value::Datetime(d) => SettingValue::Datetime(d.to_string()),
        toml::Value::Array(items) => SettingValue::Array(items.iter().map(tree).collect()),
        toml::Value::Table(table) => {
            SettingValue::Table(table.iter().map(|(key, value)| (key.clone(), tree(value))).collect())
        }
    }
}

fn parse(text: &str) -> SettingValue {
    tree(&toml::from_str::<toml::Value>(text).expect("valid TOML"))
}

fn empty_table() -> SettingValue {
    SettingValue::Table(Vec::new())
}

fn as_str(value: Option<&SettingValue>) -> Option<&str> {
    match value {
        Some(SettingValue::Str(s)) => Some(s.as_str()),
        _ => None,
    }
}

fn as_float(value: Option<&SettingValue>) -> Option<f64> {
    match value {
        Some(SettingValue::Float(bits)) => Some(f64::from_bits(*bits)),
        _ => None,
    }
}

fn as_int(value: Option<&SettingValue>) -> Option<i64> {
    match value {
        Some(SettingValue::Int(i)) => Some(*i),
        _ => None,
    }
}

fn as_bool(value: Option<&SettingValue>) -> Option<bool> {
    match value {
        Some(SettingValue::Bool(b)) => Some(*b),
        _ => None,
    }
}

fn array_len(value: Option<&SettingValue>) -> Option<usize> {
    match value {
        Some(SettingValue::Array(items)) => Some(items.len()),
        _ => None,
    }
}

fn sources() -> CycleSources {
    CycleSources {
        themes: vec!["ciapre".to_string(), "alpha".to_string()],
        doc_options: Vec::new(),
        main_model: "main".to_string(),
        small_model_choices: vec!["mini".to_string()],
        auto_small_model: "mini".to_string(),
    }
}

fn doc_sources(options: &[&str]) -> CycleSources {
    CycleSources { doc_options: options.iter().map(|o| o.to_string()).collect(), ..sources() }
}

#[test]
fn set_node_updates_nested_array_value() {
    let mut root = parse(
        r#"
        [[hooks.lifecycle.pre_tool_use]]
        hooks = ["before"]
        "#,
    );

    set_node(&mut root, "hooks.lifecycle.pre_tool_use[0].hooks[0]", SettingValue::Str("after".to_string()))
        .expect("nested array value should be updated");

    assert_eq!(as_str(get_node(&root, "hooks.lifecycle.pre_tool_use[0].hooks[0]")), Some("after"));
}

#[test]
fn set_node_creates_missing_tables() {
    let mut root = empty_table();

    set_node(&mut root, "agent.small_model.model", SettingValue::Str("small-model".to_string()))
        .expect("missing tables should be created");

    assert_eq!(as_str(get_node(&root, "agent.small_model.model")), Some("small-model"));
}

#[test]
fn quoted_map_keys_round_trip_through_path_operations() {
    let mut root = parse(
        r#"
        [profiles."gpt-5.4"]
        temperature = 0.2
        "#,
    );

    let path = r#"profiles["gpt-5.4"].temperature"#;
    assert_eq!(as_float(get_node(&root, path)), Some(0.2));
    assert_eq!(parent_setting_path(r#"profiles["gpt-5.4"].temperature"#), Some(r#"profiles["gpt-5.4"]"#.to_string()));

    set_node(&mut root, path, SettingValue::Float(0.7f64.to_bits())).expect("quoted map key should be writable");
    assert_eq!(as_float(get_node(&root, path)), Some(0.7));

    let unicode_tokens = parse_path_tokens("profiles.模型").expect("unicode path should parse");
    assert!(matches!(
        unicode_tokens.as_slice(),
        [PathToken::Key(root), PathToken::Key(key)] if root == "profiles" && key == "模型"
    ));
}

#[test]
fn normalize_field_path_replaces_indexes() {
    assert_eq!(normalize_config_path("commands.allow_list[12]"), "commands.allow_list[]");
}

#[test]
fn normalize_keeps_quoted_keys_and_empty_brackets() {
    assert_eq!(normalize_config_path(r#"profiles["gpt-5.4"][3].x[0][1]"#), r#"profiles["gpt-5.4"][].x[][]"#);
    assert_eq!(normalize_config_path("a[]"), "a[]");
    assert_eq!(normalize_config_path("a[1x]"), "a[1x]");
}

#[test]
fn set_node_reports_each_fault() {
    let mut root = parse("name = \"x\"\nitems = [1]\n");
    let err = set_node(&mut root, "name.inner", SettingValue::Bool(true)).unwrap_err();
    assert_eq!(err.message(), "Settings path 'name.inner' traverses a non-table value");
    let err = set_node(&mut root, "items[3]", SettingValue::Bool(true)).unwrap_err();
    assert_eq!(err.message(), "Settings path 'items[3]' references a missing array item");
    let err = set_node(&mut root, "name[0]", SettingValue::Bool(true)).unwrap_err();
    assert_eq!(err.message(), "Settings path 'name[0]' traverses a non-array value");
    let err = set_node(&mut root, "", SettingValue::Bool(true)).unwrap_err();
    assert_eq!(err.message(), "Settings path '' was not found");
    let err = set_node(&mut root, "a[b", SettingValue::Bool(true)).unwrap_err();
    assert_eq!(err.message(), "Invalid path: missing closing bracket");
}

#[test]
fn set_node_creates_an_empty_array_before_an_index_and_keeps_it_on_failure() {
    let mut root = empty_table();
    let err = set_node(&mut root, "a.b[0]", SettingValue::Int(1)).unwrap_err();
    assert_eq!(err.message(), "Settings path 'a.b[0]' references a missing array item");
    assert_eq!(array_len(get_node(&root, "a.b")), Some(0));
}

#[test]
fn add_and_pop_array_items() {
    let mut root = parse("[commands]\nallow_list = [\"ls\"]\n");
    add_array_item(&mut root, "commands.allow_list").expect("add");
    assert_eq!(array_len(get_node(&root, "commands.allow_list")), Some(2));
    assert_eq!(as_str(get_node(&root, "commands.allow_list[1]")), Some("ls"));
    pop_array_item(&mut root, "commands.allow_list").expect("pop");
    pop_array_item(&mut root, "commands.allow_list").expect("pop");
    let err = pop_array_item(&mut root, "commands.allow_list").unwrap_err();
    assert_eq!(err.message(), "Array 'commands.allow_list' is already empty");
    add_array_item(&mut root, "commands.allow_list").expect("add to empty");
    assert_eq!(as_str(get_node(&root, "commands.allow_list[0]")), Some(""));
    assert_eq!(add_array_item(&mut root, "commands").unwrap_err().message(), "Path 'commands' is not an array");
    assert_eq!(add_array_item(&mut root, "missing").unwrap_err().message(), "Array path 'missing' was not found");
}

#[test]
fn codex_sidecar_args_start_from_app_server() {
    let mut root = parse("[agent.codex_app_server]\nargs = []\n");
    add_array_item(&mut root, "agent.codex_app_server.args").expect("add");
    assert_eq!(as_str(get_node(&root, "agent.codex_app_server.args[0]")), Some("app-server"));
}

#[test]
fn custom_provider_template_takes_the_first_free_name() {
    let existing = match parse(
        r#"
        [[custom_providers]]
        name = "Custom-Provider-1"
        [[custom_providers]]
        name = "custom-provider-2"
        "#,
    ) {
        SettingValue::Table(entries) => match entries.into_iter().next() {
            Some((_, SettingValue::Array(items))) => items,
            _ => panic!("array"),
        },
        _ => panic!("table"),
    };
    let item = default_array_item("custom_providers", &existing);
    assert_eq!(as_str(get_node(&item, "name")), Some("custom-provider-3"));
    assert_eq!(as_str(get_node(&item, "display_name")), Some("Custom Provider 3"));
    assert_eq!(as_str(get_node(&item, "base_url")), Some("https://llm.example/v1"));
    assert_eq!(as_str(get_node(&item, "api_key_env")), Some(""));
    assert_eq!(as_str(get_node(&item, "model")), Some(""));

    let first = default_array_item("custom_providers", &Vec::new());
    assert_eq!(as_str(get_node(&first, "name")), Some("custom-provider-1"));
}

#[test]
fn scalar_operations_toggle_step_and_refuse() {
    let mut root = parse("[ui]\nflag = true\ncount = 9223372036854775807\nratio = 0.5\n[ui.nested]\n");
    assert!(matches!(apply_scalar_operation(&mut root, "ui.flag", ScalarOperation::Toggle, &sources()), Ok(ScalarApplied::Done)));
    assert_eq!(as_bool(get_node(&root, "ui.flag")), Some(false));
    assert_eq!(
        apply_scalar_operation(&mut root, "ui.flag", ScalarOperation::Increment, &sources()).unwrap_err().message(),
        "ui.flag supports toggle only"
    );
    apply_scalar_operation(&mut root, "ui.count", ScalarOperation::Increment, &sources()).expect("saturating");
    assert_eq!(as_int(get_node(&root, "ui.count")), Some(i64::MAX));
    apply_scalar_operation(&mut root, "ui.count", ScalarOperation::Decrement, &sources()).expect("step down");
    assert_eq!(as_int(get_node(&root, "ui.count")), Some(i64::MAX - 1));
    assert_eq!(
        apply_scalar_operation(&mut root, "ui.count", ScalarOperation::Toggle, &sources()).unwrap_err().message(),
        "ui.count supports numeric increment/decrement"
    );
    assert!(matches!(
        apply_scalar_operation(&mut root, "ui.ratio", ScalarOperation::Increment, &sources()),
        Ok(ScalarApplied::FloatStep { bits, increment: true }) if bits == 0.5f64.to_bits()
    ));
    assert_eq!(
        apply_scalar_operation(&mut root, "ui.nested", ScalarOperation::Toggle, &sources()).unwrap_err().message(),
        "ui.nested is not a scalar setting"
    );
}

#[test]
fn string_settings_cycle_through_documented_options() {
    let mut root = parse("[ui]\ntool_display_mode = \"compact\"\n");
    let docs = doc_sources(&["expanded", "compact", "full"]);
    apply_scalar_operation(&mut root, "ui.tool_display_mode", ScalarOperation::CycleNext, &docs).expect("cycle");
    assert_eq!(as_str(get_node(&root, "ui.tool_display_mode")), Some("expanded"));
    apply_scalar_operation(&mut root, "ui.tool_display_mode", ScalarOperation::CyclePrev, &docs).expect("back");
    assert_eq!(as_str(get_node(&root, "ui.tool_display_mode")), Some("compact"));
    assert_eq!(
        apply_scalar_operation(&mut root, "ui.tool_display_mode", ScalarOperation::Toggle, &docs)
            .unwrap_err()
            .message(),
        "Invalid string cycle operation"
    );
    let mut blank = parse("[ui]\nlabel = \"\"\n");
    assert_eq!(
        apply_scalar_operation(&mut blank, "ui.label", ScalarOperation::CycleNext, &sources()).unwrap_err().message(),
        "ui.label has no predefined values to cycle"
    );
}

#[test]
fn missing_service_tier_cycle_creates_value() {
    let mut root = parse("[provider]\n");
    let docs = doc_sources(&["priority", "flex"]);
    apply_scalar_operation(&mut root, "provider.openai.service_tier", ScalarOperation::CycleNext, &docs)
        .expect("missing value is created");
    assert_eq!(as_str(get_node(&root, "provider.openai.service_tier")), Some("flex"));
    let mut other = parse("[provider]\n");
    apply_missing_scalar_operation(&mut other, "provider.openai.service_tier", ScalarOperation::CyclePrev, &docs)
        .expect("created from the end");
    assert_eq!(as_str(get_node(&other, "provider.openai.service_tier")), Some("priority"));
    assert_eq!(
        apply_scalar_operation(&mut other, "provider.missing", ScalarOperation::Toggle, &docs).unwrap_err().message(),
        "Settings path 'provider.missing' was not found"
    );
}

#[test]
fn inserting_a_missing_value_refuses_arrays_and_scalars_on_the_way() {
    let mut root = parse("name = \"x\"\nitems = [1]\n");
    assert_eq!(
        insert_missing_string_value(&mut root, "name.inner", "v").unwrap_err().message(),
        "Parent path for 'name.inner' is not a table"
    );
    assert_eq!(
        insert_missing_string_value(&mut root, "items[0]", "v").unwrap_err().message(),
        "Cannot create missing array path 'items[0]'"
    );
    insert_missing_string_value(&mut root, "a.b.c", "v").expect("tables created");
    assert_eq!(as_str(get_node(&root, "a.b.c")), Some("v"));
}

#[test]
fn cycle_options_follow_the_path() {
    let s = sources();
    assert_eq!(resolve_cycle_options("agent.codex_app_server.command", " my-codex ", &s), vec!["codex", "my-codex"]);
    assert_eq!(resolve_cycle_options("agent.codex_app_server.args[2]", "", &s), vec!["app-server"]);
    assert_eq!(resolve_cycle_options("agent.theme", "", &s), vec!["ciapre", "alpha"]);
    assert_eq!(resolve_cycle_options("agent.small_model.model", "", &s), vec!["", "mini", "main"]);
    assert_eq!(resolve_cycle_options("ui.other", "kept", &s), vec!["kept"]);
    assert!(resolve_cycle_options("ui.other", "", &s).is_empty());
}

#[test]
fn lightweight_options_dedupe_ignoring_case_and_promote_the_automatic_choice() {
    let choices = vec!["Mini".to_string(), "nano".to_string(), "MAIN".to_string()];
    assert_eq!(
        lightweight_model_cycle_options("main", &choices, "custom", "NANO"),
        vec!["", "nano", "main", "Mini", "custom"]
    );
    assert_eq!(lightweight_model_cycle_options("main", &[], "  ", "other"), vec!["", "main"]);
}

#[test]
fn trusted_provider_paths() {
    assert!(is_trusted_provider_path("custom_providers"));
    assert!(is_trusted_provider_path("custom_providers[2].model"));
    assert!(is_trusted_provider_path("provider_overrides.openai.base_url"));
    assert!(is_trusted_provider_path("provider_overrides.openai.api_key_env"));
    assert!(!is_trusted_provider_path("provider_overrides.openai.model"));
    assert!(!is_trusted_provider_path("provider_overrides.openai.extra.base_url"));
    assert!(!is_trusted_provider_path("agent.provider"));
}

#[test]
fn palette_actions_decode_into_steps() {
    assert!(matches!(settings_step(None, "settings:pick_main_model"), Ok(SettingsStep::Unchanged)));
    assert!(matches!(settings_step(None, "settings:reload"), Ok(SettingsStep::Reload)));
    assert!(matches!(settings_step(None, "settings:reset_confirm"), Ok(SettingsStep::ResetConfirm)));
    match settings_step(None, "settings:reset") {
        Ok(SettingsStep::Navigate { view_path, message }) => {
            assert_eq!(view_path.as_deref(), Some(RESET_CONFIRMATION_VIEW));
            assert_eq!(message.as_deref(), Some("Confirm reset to clear all settings in the current write target."));
        }
        _ => panic!("reset navigates"),
    }
    match settings_step(Some("agent.vibe_coding"), "settings:back") {
        Ok(SettingsStep::Navigate { view_path, message }) => {
            assert_eq!(view_path.as_deref(), Some("agent"));
            assert_eq!(message, None);
        }
        _ => panic!("back navigates"),
    }
    match settings_step(None, "settings:open:  ") {
        Ok(SettingsStep::Navigate { view_path, .. }) => assert_eq!(view_path, None),
        _ => panic!("open navigates"),
    }
    match settings_step(None, "settings:set:agent.todo_planning_mode:toggle") {
        Ok(SettingsStep::ApplyScalar(path, op)) => {
            assert_eq!(path, "agent.todo_planning_mode");
            assert_eq!(op, ScalarOperation::Toggle);
        }
        _ => panic!("set decodes"),
    }
    match settings_step(None, "settings:set:profiles[\"a:b\"].x:cycle_prev") {
        Ok(SettingsStep::ApplyScalar(path, op)) => {
            assert_eq!(path, "profiles[\"a:b\"].x");
            assert_eq!(op, ScalarOperation::CyclePrev);
        }
        _ => panic!("set decodes at the last colon"),
    }
    match settings_step(None, "settings:array_add:custom_providers") {
        Ok(SettingsStep::AddArrayItem(path)) => assert_eq!(path, "custom_providers"),
        _ => panic!("array add"),
    }
    let err: ActionError = settings_step(None, "settings:set:agent.x:flip").unwrap_err();
    assert_eq!(err.message(), "Unsupported settings operation: flip");
    assert_eq!(settings_step(None, "settings:set:nocolon").unwrap_err().message(), "Invalid settings action: settings:set:nocolon");
    assert_eq!(settings_step(None, "settings:bogus").unwrap_err().message(), "Unknown settings action: settings:bogus");
}
