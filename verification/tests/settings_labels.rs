use vtcode_runloop::settings_edit::CycleSources;
use vtcode_runloop::settings_labels::{
    advanced_label, change_title, describe_array_change, humanize_identifier, missing_doc_item_action,
    setting_item_action,
};
use vtcode_runloop::settings_tree::SettingValue;

fn sources(docs: &[&str]) -> CycleSources {
    CycleSources {
        themes: vec!["a".to_string(), "b".to_string()],
        doc_options: docs.iter().map(|d| d.to_string()).collect(),
        main_model: "main".to_string(),
        small_model_choices: Vec::new(),
        auto_small_model: String::new(),
    }
}

#[test]
fn advanced_label_uses_quoted_map_key() {
    assert_eq!(advanced_label(r#"mcp.providers[0].env["A.B"]"#), "A B");
}

#[test]
fn advanced_label_falls_back_to_the_last_segment() {
    assert_eq!(advanced_label("commands.allow_list[]"), "Allow List");
    assert_eq!(advanced_label("profiles.*"), "Profiles");
    assert_eq!(advanced_label("agent.tool_display_mode"), "Tool Display Mode");
}

#[test]
fn identifiers_become_capitalised_words() {
    assert_eq!(humanize_identifier("ide_context"), "Ide Context");
    assert_eq!(humanize_identifier("tool-display.mode"), "Tool Display Mode");
    assert_eq!(humanize_identifier("__x__"), "X");
    assert_eq!(humanize_identifier(""), "");
}

#[test]
fn change_titles_name_the_section_of_generic_leaves() {
    assert_eq!(change_title("ide_context.enabled"), "Ide Context");
    assert_eq!(change_title("ui.tool_display_mode"), "Tool Display Mode");
    assert_eq!(change_title("hooks.pre[2]"), "Pre");
    assert_eq!(change_title("enabled"), "Enabled");
    assert_eq!(describe_array_change("commands.allow_list", true), "Added item to Allow List");
    assert_eq!(describe_array_change("commands.allow_list[3]", false), "Removed last item from Allow List");
}

#[test]
fn setting_rows_pick_their_action_by_value() {
    let none = sources(&[]);
    let toggle = setting_item_action("ui.flag", &SettingValue::Bool(true), &none);
    assert_eq!(toggle.badge.as_deref(), Some("On/Off"));
    assert_eq!(toggle.action.as_deref(), Some("settings:set:ui.flag:toggle"));
    let step = setting_item_action("ui.count", &SettingValue::Int(3), &none);
    assert_eq!(step.action.as_deref(), Some("settings:set:ui.count:inc"));
    let edit = setting_item_action("ui.label", &SettingValue::Str("x".to_string()), &none);
    assert_eq!((edit.badge.as_deref(), edit.action.as_deref()), (Some("Edit"), Some("settings:edit:ui.label")));
    let pick = setting_item_action("ui.mode", &SettingValue::Str("x".to_string()), &sources(&["x", "y"]));
    assert_eq!((pick.badge.as_deref(), pick.action.as_deref()), (Some("Pick"), Some("settings:set:ui.mode:cycle")));
    let list = setting_item_action("ui.items", &SettingValue::Array(Vec::new()), &none);
    assert_eq!((list.badge.as_deref(), list.action.as_deref()), (Some("List"), Some("settings:open:ui.items")));
    let table = setting_item_action("ui", &SettingValue::Table(Vec::new()), &none);
    assert_eq!((table.badge, table.action.as_deref()), (None, Some("settings:open:ui")));
    let model = setting_item_action("agent.default_model", &SettingValue::Str("m".to_string()), &none);
    assert_eq!(model.action.as_deref(), Some("settings:pick_main_model"));
    let editor = setting_item_action("tools.editor", &SettingValue::Table(Vec::new()), &none);
    assert_eq!((editor.badge.as_deref(), editor.action.as_deref()), (Some("Setup"), Some("settings:configure_editor")));
    let unset = missing_doc_item_action("provider.openai.service_tier", true);
    assert_eq!(unset.action.as_deref(), Some("settings:set:provider.openai.service_tier:cycle"));
    assert_eq!(missing_doc_item_action("x.y", false).action.as_deref(), Some("settings:edit:x.y"));
}
