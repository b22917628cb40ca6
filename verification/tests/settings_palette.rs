use vtcode_runloop::settings_palette::SelectionMemory;
use vtcode_runloop::settings_view::{ScalarOperation, cycle_string_option};
use vtcode_runloop::settings_palette::{
    ADVANCED_SEARCH_PLACEHOLDER, SETTINGS_SEARCH_PLACEHOLDER, format_permission_summary,
    preferred_settings_selection, settings_breadcrumb_and_detail, settings_header_lines, settings_search_placeholder,
};

fn rows(items: &[Option<&str>]) -> Vec<Option<String>> {
    items.iter().map(|i| i.map(|s| s.to_string())).collect()
}

#[test]
fn breadcrumbs_name_advanced_group_and_section_views() {
    let pair = |a: &str, b: &str| (a.to_string(), b.to_string());
    assert_eq!(
        settings_breadcrumb_and_detail("advanced", "", ""),
        pair(
            "Settings > Advanced settings",
            "Search the complete configuration by path, label, description, current value, or option."
        )
    );
    assert_eq!(
        settings_breadcrumb_and_detail("advanced:mcp.providers", "", ""),
        pair("Settings > Advanced settings > mcp.providers", "Editing a nested advanced setting.")
    );
    assert_eq!(
        settings_breadcrumb_and_detail("advanced.ui.theme", "", ""),
        pair("Settings > Advanced settings > ui.theme", "Editing a documented advanced setting.")
    );
    assert_eq!(
        settings_breadcrumb_and_detail("group:model_provider:custom_providers", "", ""),
        pair("Settings > Model & Provider > custom_providers", "Editing a setting in this group.")
    );
    assert_eq!(
        settings_breadcrumb_and_detail("group:my_group:x", "", ""),
        pair("Settings > My Group > x", "")
    );
    assert_eq!(
        settings_breadcrumb_and_detail("group:context_memory", "", ""),
        pair("Settings > Context & Memory", "Manage context budgets, dynamic context, and persistent memory.")
    );
    assert_eq!(settings_breadcrumb_and_detail("group:odd", "", ""), pair("Settings > Odd", ""));
    assert_eq!(
        settings_breadcrumb_and_detail("agent.harness", "Agent", "Core agent behavior"),
        pair("Settings > Agent", "Core agent behavior")
    );
}

#[test]
fn header_lines_follow_the_view() {
    assert_eq!(format_permission_summary(2, 0, 5), "Rules \u{2022} deny 2 \u{2022} ask 0 \u{2022} allow 5.");
    assert_eq!(
        settings_header_lines("/w/vtcode.toml", "Configuration source: /w/vtcode.toml", None, "", "", (0, 0, 0)),
        vec![
            "Write target: /w/vtcode.toml.",
            "Configuration source: /w/vtcode.toml",
            "Settings.",
            "Choose a settings group to edit."
        ]
    );
    assert_eq!(
        settings_header_lines("t", "s", Some("__settings_reset_confirmation"), "", "", (0, 0, 0))[2..],
        ["Settings > Reset.", "This clears every setting in the target layer. Credentials are preserved."]
    );
    assert_eq!(
        settings_header_lines("t", "s", Some("permissions"), "Permissions", "Approval rules", (1, 2, 3))[2..],
        [
            "Settings > Permissions.",
            "Approval rules Rules \u{2022} deny 1 \u{2022} ask 2 \u{2022} allow 3."
        ]
    );
    assert_eq!(
        settings_header_lines("t", "s", Some("permissions"), "Permissions", "", (0, 0, 0))[2..],
        ["Settings > Permissions.", "Rules \u{2022} deny 0 \u{2022} ask 0 \u{2022} allow 0."]
    );
    assert_eq!(settings_header_lines("t", "s", Some("group:odd"), "", "", (0, 0, 0)).len(), 3);
}

#[test]
fn search_placeholder_depends_on_advanced_views() {
    assert_eq!(settings_search_placeholder(None), SETTINGS_SEARCH_PLACEHOLDER);
    assert_eq!(settings_search_placeholder(Some("agent")), SETTINGS_SEARCH_PLACEHOLDER);
    assert_eq!(settings_search_placeholder(Some("advanced")), ADVANCED_SEARCH_PLACEHOLDER);
    assert_eq!(settings_search_placeholder(Some("advanced.ui")), ADVANCED_SEARCH_PLACEHOLDER);
    assert_eq!(settings_search_placeholder(Some("advanced:x")), ADVANCED_SEARCH_PLACEHOLDER);
}

#[test]
fn preferred_selection_prefers_choice_then_memory_then_first_editing_row() {
    let items = rows(&[
        None,
        Some("settings:back"),
        Some("settings:reload"),
        Some("settings:set:ui.vim_mode:toggle"),
        Some("settings:open:agent"),
    ]);
    let pick = |view: Option<&str>, sel: Option<&str>, mem: Option<&str>| {
        preferred_settings_selection(view, &items, sel.map(str::to_string), mem.map(str::to_string))
    };
    assert_eq!(pick(Some("x"), Some("settings:open:agent"), None).as_deref(), Some("settings:open:agent"));
    assert_eq!(
        pick(Some("x"), Some("settings:back"), Some("settings:open:agent")).as_deref(),
        Some("settings:open:agent")
    );
    assert_eq!(pick(Some("x"), Some("gone"), None).as_deref(), Some("settings:set:ui.vim_mode:toggle"));
    assert_eq!(pick(None, None, Some("gone")).as_deref(), Some("settings:set:ui.vim_mode:toggle"));

    let reset = rows(&[Some("settings:reset_cancel"), Some("settings:reset_confirm")]);
    assert_eq!(
        preferred_settings_selection(Some("__settings_reset_confirmation"), &reset, None, None).as_deref(),
        Some("settings:reset_confirm")
    );
    assert_eq!(preferred_settings_selection(None, &reset, None, None).as_deref(), Some("settings:reset_cancel"));
    assert_eq!(preferred_settings_selection(None, &rows(&[None, None]), None, None), None);
}

#[test]
fn cycling_back_undoes_cycling_forward() {
    let options: Vec<String> = ["low", "high", "medium", "low"].iter().map(|s| s.to_string()).collect();
    for current in ["low", "high", "medium"] {
        let next = cycle_string_option(current, &options, ScalarOperation::CycleNext).expect("next");
        assert_eq!(cycle_string_option(&next, &options, ScalarOperation::CyclePrev).expect("prev"), current);
    }
}

#[test]
fn remembered_selection_is_kept_per_view() {
    let mut memory = SelectionMemory::new();
    assert_eq!(memory.selection_for_view(None), None);
    memory.remember_selection(None, "settings:open:ui".to_string());
    memory.remember_selection(Some("ui"), "settings:set:ui.theme:cycle".to_string());
    assert_eq!(memory.selection_for_view(None), Some("settings:open:ui".to_string()));
    assert_eq!(memory.selection_for_view(Some("ui")), Some("settings:set:ui.theme:cycle".to_string()));
    memory.remember_selection(Some("ui"), "settings:back".to_string());
    assert_eq!(memory.selection_for_view(Some("ui")), Some("settings:back".to_string()));
    assert_eq!(memory.selection_for_view(None), Some("settings:open:ui".to_string()));
    assert_eq!(memory.selection_for_view(Some("agent")), None);
    assert_eq!(memory.last_selection(), Some("settings:back".to_string()));
}
