use vtcode_runloop::settings_edit::{reload_palette_draft, settle_persisted_edit};
use vtcode_runloop::settings_edit::{ConfigLayer, MissingAfterChange, persistence_target};
use vtcode_runloop::settings_labels::describe_scalar_change;
use vtcode_runloop::settings_tree::{SettingValue, get_node, load_or_default_settings};
use vtcode_runloop::settings_view::ScalarOperation;

fn tree(value: &toml::Value) -> SettingValue {
    match value {
        toml::Value::String(s) => SettingValue::Str(s.clone()),
        toml::Value::Integer(i) => SettingValue::Int(*i),
        toml::Value::Float(f) => SettingValue::Float(f.to_bits()),
        toml::Value::Boolean(b) => SettingValue::Bool(*b),
        toml::Value::Datetime(d) => SettingValue::Datetime(d.to_string()),
        toml::Value::Array(items) => SettingValue::Array(items.iter().map(tree).collect()),
        toml::Value::Table(table) => {
            SettingValue::Table(table.iter().map(|(key, value)| (key.clone(), tree(value))).collect())
        }
    }
}

fn parse(text: &str) -> SettingValue {
    tree(&toml::from_str::<toml::Value>(text).expect("valid TOML"))
}

fn draft() -> SettingValue {
    parse(
        r#"
        [agent]
        provider = "openai"
        [provider_overrides.openai]
        base_url = "https://example.test"
        [[custom_providers]]
        name = "mine"
        base_url = "http://localhost"
        "#,
    )
}

#[test]
fn ordinary_settings_are_saved_to_the_edited_file() {
    let target = persistence_target(&draft(), "agent.provider", false).expect("found");
    assert_eq!(target.layer, ConfigLayer::Source);
    assert_eq!(target.path, "agent.provider");
    assert!(matches!(target.value, SettingValue::Str(ref s) if s == "openai"));
}

#[test]
fn trusted_provider_settings_go_to_the_user_layer() {
    let target = persistence_target(&draft(), "provider_overrides.openai.base_url", false).expect("found");
    assert_eq!(target.layer, ConfigLayer::User);
    assert_eq!(target.path, "provider_overrides.openai.base_url");

    let whole = persistence_target(&draft(), "custom_providers[0].base_url", false).expect("found");
    assert_eq!(whole.layer, ConfigLayer::User);
    assert_eq!(whole.path, "custom_providers");
    assert!(matches!(whole.value, SettingValue::Array(ref items) if items.len() == 1));

    let explicit = persistence_target(&draft(), "custom_providers[0].base_url", true).expect("found");
    assert_eq!(explicit.layer, ConfigLayer::Source);
    assert_eq!(explicit.path, "custom_providers[0].base_url");
}

#[test]
fn missing_settings_cannot_be_saved() {
    let err = persistence_target(&draft(), "agent.missing", false).expect_err("missing");
    assert_eq!(err, MissingAfterChange { path: "agent.missing".to_string() });
    assert_eq!(err.message(), "Settings path 'agent.missing' was not found after applying the change");
}

#[test]
fn scalar_change_messages_name_the_setting() {
    let root = parse("[ui]\nvim_mode = true\n[tools]\nmax_tool_loops = 40\n[sandbox]\nenabled = false");
    assert_eq!(
        describe_scalar_change("ui.vim_mode", ScalarOperation::Toggle, get_node(&root, "ui.vim_mode"), "on"),
        "Enabled Vim Mode"
    );
    assert_eq!(
        describe_scalar_change("sandbox.enabled", ScalarOperation::Toggle, get_node(&root, "sandbox.enabled"), "off"),
        "Disabled Sandbox"
    );
    assert_eq!(
        describe_scalar_change(
            "tools.max_tool_loops",
            ScalarOperation::Increment,
            get_node(&root, "tools.max_tool_loops"),
            "40"
        ),
        "Max Tool Loops \u{2192} 40"
    );
    assert_eq!(describe_scalar_change("ui.gone", ScalarOperation::CycleNext, None, ""), "Updated Gone");
}

#[test]
fn settings_documents_load_or_default_to_an_empty_table() {
    assert!(matches!(load_or_default_settings(None), Some(SettingValue::Table(ref es)) if es.is_empty()));
    let doc = load_or_default_settings(Some("[agent]\nprovider = \"openai\"\nratio = 0.5")).expect("parses");
    assert!(matches!(get_node(&doc, "agent.provider"), Some(SettingValue::Str(s)) if s == "openai"));
    assert!(matches!(get_node(&doc, "agent.ratio"), Some(SettingValue::Float(bits)) if *bits == 0.5f64.to_bits()));
    assert!(load_or_default_settings(Some("[agent")).is_none());
}

fn palette_draft(value: SettingValue) -> vtcode_runloop::settings_edit::PaletteDraft {
    vtcode_runloop::settings_edit::PaletteDraft {
        draft: value,
        source_path: "/work/vtcode.toml".to_string(),
        source_label: "Configuration source: /work/vtcode.toml".to_string(),
    }
}

#[test]
fn failed_write_brings_the_previous_draft_back() {
    let mut state = palette_draft(SettingValue::Int(2));
    settle_persisted_edit(&mut state, SettingValue::Int(1), false);
    assert!(matches!(state.draft, SettingValue::Int(1)));
    let mut kept = palette_draft(SettingValue::Int(2));
    settle_persisted_edit(&mut kept, SettingValue::Int(1), true);
    assert!(matches!(kept.draft, SettingValue::Int(2)));
    assert_eq!(kept.source_path, "/work/vtcode.toml");
}

#[test]
fn reload_takes_the_file_or_keeps_the_state_on_failure() {
    let mut state = palette_draft(SettingValue::Int(2));
    assert!(!reload_palette_draft(&mut state, None, "/work", "/work/vtcode.toml"));
    assert!(matches!(state.draft, SettingValue::Int(2)));
    assert_eq!(state.source_label, "Configuration source: /work/vtcode.toml");

    assert!(reload_palette_draft(&mut state, Some((SettingValue::Bool(true), None)), "/work", "/work/vtcode.toml"));
    assert!(matches!(state.draft, SettingValue::Bool(true)));
    assert_eq!(state.source_path, "/work/vtcode.toml");
    assert_eq!(state.source_label, "No vtcode.toml found for /work. Draft starts from runtime defaults.");

    assert!(reload_palette_draft(
        &mut state,
        Some((SettingValue::Int(5), Some("/etc/vtcode.toml".to_string()))),
        "/work",
        "/work/vtcode.toml",
    ));
    assert_eq!(state.source_path, "/etc/vtcode.toml");
    assert_eq!(state.source_label, "Configuration source: /etc/vtcode.toml");
}
