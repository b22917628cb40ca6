use vtcode_runloop::settings_items::{
    advanced_schema_row, curated_root_rows,
    SettingsListing, settings_listing,
    TableEntryRow, advanced_editable_count, collect_advanced_paths, missing_optional_doc_items, table_entry_rows,
    with_open_context,
};
use vtcode_runloop::settings_tree::SettingValue;
use vtcode_runloop::settings_view::FieldDoc;

fn tree(value: &toml::Value) -> SettingValue {
    match value {
        toml::Value::String(s) => SettingValue::Str(s.clone()),
        toml::Value::Integer(i) => SettingValue::Int(*i),
        toml::Value::Float(f) => SettingValue::Float(f.to_bits()),
        toml::Value::Boolean(b) => SettingValue::Bool(*b),
        toml::Value::Datetime(d) => SettingValue::Datetime(d.to_string()),
        toml::Value::Array(items) => SettingValue::Array(items.iter().map(tree).collect()),
        toml::Value::Table(table) => {
            SettingValue::Table(table.iter().map(|(key, value)| (key.clone(), tree(value))).collect())
        }
    }
}

fn parse(text: &str) -> SettingValue {
    tree(&toml::from_str::<toml::Value>(text).expect("valid TOML"))
}

fn strings(items: &[&str]) -> Vec<String> {
    items.iter().map(|s| s.to_string()).collect()
}

#[test]
fn advanced_paths_list_scalars_and_arrays_with_their_items() {
    let draft = parse(
        r#"
        [agent]
        provider = "openai"
        [[custom_providers]]
        name = "x"
        [env]
        "A.B" = "1"
        "#,
    );
    let mut paths = Vec::new();
    collect_advanced_paths(&draft, "", &mut paths);
    assert_eq!(
        paths,
        strings(&["agent.provider", "custom_providers", "custom_providers[0].name", "env[\"A.B\"]"])
    );

    let mut nested = Vec::new();
    collect_advanced_paths(&parse("list = [1, [2]]"), "", &mut nested);
    assert_eq!(nested, strings(&["list", "list[0]", "list[1]", "list[1][0]"]));

    let mut scalar = Vec::new();
    collect_advanced_paths(&SettingValue::Bool(true), "", &mut scalar);
    assert!(scalar.is_empty());
}

#[test]
fn open_actions_are_rewritten_under_the_listing_prefix() {
    let open = Some("settings:open:agent".to_string());
    assert_eq!(with_open_context(open.clone(), Some("group:model_provider:")).as_deref(), Some("settings:open:group:model_provider:agent"));
    assert_eq!(with_open_context(open.clone(), None), open);
    let set = Some("settings:set:ui.vim_mode:toggle".to_string());
    assert_eq!(with_open_context(set.clone(), Some("advanced:")), set);
    assert_eq!(with_open_context(None, Some("advanced:")), None);
}

#[test]
fn table_entries_split_into_sections_and_settings_without_the_hidden_one() {
    let draft = parse(
        r#"
        provider = "openai"
        [small_model]
        model = "m"
        [harness]
        max_tool_retries = 3
        "#,
    );
    let entries = match &draft {
        SettingValue::Table(es) => es,
        _ => panic!("table"),
    };
    let (sections, settings) = table_entry_rows(entries, Some("agent"));
    let names: Vec<&str> = sections.iter().map(|r| r.path.as_str()).collect();
    assert_eq!(names, vec!["agent.harness"]);
    assert_eq!(settings, vec![TableEntryRow { index: entries.iter().position(|e| e.0 == "provider").unwrap(), path: "agent.provider".to_string() }]);

    let (root_sections, root_settings) = table_entry_rows(entries, None);
    assert_eq!(root_sections.len(), 2);
    assert_eq!(root_settings[0].path, "provider");
}

#[test]
fn unset_optional_doc_fields_are_offered_under_their_parent() {
    let provider_openai = parse("base_url = \"x\"");
    assert_eq!(
        missing_optional_doc_items(&provider_openai, Some("provider.openai")),
        vec![("service_tier".to_string(), "provider.openai.service_tier".to_string())]
    );
    let set = parse("service_tier = \"flex\"");
    assert!(missing_optional_doc_items(&set, Some("provider.openai")).is_empty());
    let root = parse("[provider.anthropic]\nthinking_display = \"x\"");
    assert_eq!(
        missing_optional_doc_items(&root, None),
        vec![("provider.openai.service_tier".to_string(), "provider.openai.service_tier".to_string())]
    );
    assert!(missing_optional_doc_items(&root, Some("provider")).is_empty());
}

#[test]
fn editable_count_skips_schema_paths_dates_and_undocumented_values() {
    let draft = parse(
        r#"
        when = 1979-05-27T07:32:00Z
        flag = true
        [tools]
        editor = "vim"
        "#,
    );
    let paths = strings(&["flag", "when", "tools.editor", "mcp.providers[]", "ui.theme", "ui.other"]);
    let has_options = [false, false, false, true, true, false];
    assert_eq!(advanced_editable_count(&draft, &paths, &has_options), 3);
}

#[test]
fn views_map_to_their_listings() {
    let owned = |s: &str| s.to_string();
    assert_eq!(settings_listing(None), SettingsListing::Root);
    assert_eq!(settings_listing(Some("__settings_reset_confirmation")), SettingsListing::ResetConfirmation);
    assert_eq!(settings_listing(Some("advanced")), SettingsListing::AdvancedAll);
    assert_eq!(settings_listing(Some("advanced:mcp.providers")), SettingsListing::AdvancedNested(owned("mcp.providers")));
    assert_eq!(settings_listing(Some("advanced.ui.theme")), SettingsListing::AdvancedDotted(owned("ui.theme")));
    assert_eq!(
        settings_listing(Some("group:model_provider:custom_providers[0]")),
        SettingsListing::GroupNested(owned("model_provider"), owned("custom_providers[0]"))
    );
    assert_eq!(settings_listing(Some("group:context_memory")), SettingsListing::CuratedGroup(owned("context_memory")));
    assert_eq!(settings_listing(Some("group:unknown")), SettingsListing::Node(owned("group:unknown")));
    assert_eq!(settings_listing(Some("model_config")), SettingsListing::ModelConfig);
    assert_eq!(settings_listing(Some("model_config.main")), SettingsListing::ModelConfigMain);
    assert_eq!(settings_listing(Some("agent.harness")), SettingsListing::Node(owned("agent.harness")));
    assert_eq!(settings_listing(Some("advancedx")), SettingsListing::Node(owned("advancedx")));
}

#[test]
fn curated_root_rows_count_listed_settings_per_group() {
    let draft = parse(
        r#"
        [agent]
        provider = "openai"
        default_model = "gpt"
        "#,
    );
    let option_paths = strings(&["agent.reasoning_effort"]);
    let rows = curated_root_rows(&draft, &option_paths);
    assert_eq!(rows.len(), 7);
    let first = &rows[0];
    assert_eq!(first.title, "Model & Provider");
    assert_eq!(
        first.subtitle.as_deref(),
        Some("Choose the active provider, model, and response behavior. \u{2022} 3 editable settings")
    );
    assert_eq!(first.badge.as_deref(), Some("Group"));
    assert_eq!(first.action.as_deref(), Some("settings:open:group:model_provider"));
    assert_eq!(
        first.search_value.as_deref(),
        Some(
            "model & provider model_provider choose the active provider, model, and response behavior. \
             agent.provider agent.default_model agent.reasoning_effort agent.temperature agent.verbosity custom_providers"
        )
    );
    assert_eq!(rows[1].subtitle.as_deref(), Some("Tune planning, prompts, retries, and unattended runs. \u{2022} 0 editable settings"));

    let one = parse("[ui]\nvim_mode = true");
    let rows = curated_root_rows(&one, &[]);
    assert!(rows[5].subtitle.as_deref().unwrap().ends_with("1 editable setting"));
}

#[test]
fn schema_rows_describe_placeholder_paths() {
    let doc = FieldDoc {
        description: String::new(),
        options: strings(&["Stdio", "Http"]),
        default_value: "stdio".to_string(),
        value_type: "enum".to_string(),
    };
    let row = advanced_schema_row("mcp.providers[].transport", &doc);
    assert_eq!(row.title, "Transport");
    assert_eq!(
        row.subtitle.as_deref(),
        Some("mcp.providers[].transport \u{2022} Documented schema field; configure a concrete entry to edit it.")
    );
    assert_eq!(row.badge.as_deref(), Some("Schema"));
    assert_eq!(row.action, None);
    assert_eq!(
        row.search_value.as_deref(),
        Some("mcp.providers[].transport transport mcp providers[] transport stdio stdio http")
    );
}
