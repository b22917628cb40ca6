use vtcode_runloop::permission::{
    AGENT_GOAL_LABEL, MAX_CONTEXT_LINE_CHARS, ToolJustification, build_permission_context_lines,
    compact_justification_lines, HitlDecision, ToolPermissionPromptKind, cancelled_prompt_decision, format_command_preview_lines,
    lowercase_first_action, push_capped_context_line, push_context_line, render_shell_approval_command_words,
    shell_command_contains_control_operators, shell_run_uses_nested_shell, split_command_words_on_operators,
    tool_permission_header_lines, truncate_arg_preview, build_tool_permission_options, truncate_modal_text,
    ApprovalSelection, PersistentApprovalTarget, MAX_APPROVAL_LABEL_CHARS,
};

fn words(items: &[&str]) -> Vec<String> {
    items.iter().map(|item| item.to_string()).collect()
}

#[test]
fn arg_preview_truncates_unicode_safely() {
    let value = "an’t ".repeat(20);
    let truncated = truncate_arg_preview(&value);
    assert!(truncated.ends_with("..."));
    assert!(truncated.chars().count() <= 60);
}

#[test]
fn shell_header_uses_permission_intro_without_tool_jargon() {
    let lines = tool_permission_header_lines("exec_command", "python3 -c 'truncated…'", true, None);
    assert_eq!(lines, vec!["The agent wants to run a shell command and needs your approval."]);
}

#[test]
fn header_keeps_action_summary_for_diff_preview_file_identity() {
    let lines = tool_permission_header_lines("edit_file", "Edit file src/main.rs", false, None);
    assert_eq!(lines, vec!["The agent wants to edit file src/main.rs and needs your approval."]);
}

#[test]
fn header_lists_source_above_action_summary() {
    let lines = tool_permission_header_lines("edit_file", "Edit file src/main.rs", false, Some("agent-1"));
    assert_eq!(
        lines,
        vec![
            "The agent wants to edit file src/main.rs and needs your approval.",
            "Requested from: agent-1"
        ]
    );
}

#[test]
fn header_falls_back_to_tool_name_when_action_is_empty() {
    let lines = tool_permission_header_lines("exec_command", "   ", false, None);
    assert_eq!(lines, vec!["The agent wants to use exec_command and needs your approval."]);
}

#[test]
fn header_moves_mcp_prefix_to_trailing_via_mcp() {
    let lines = tool_permission_header_lines("mcp__calendar__list_events", "MCP Search code for docs", false, None);
    assert_eq!(lines, vec!["The agent wants to search code for docs via MCP and needs your approval."]);
}

#[test]
fn lowercase_first_action_preserves_leading_acronyms() {
    assert_eq!(lowercase_first_action("Edit file src/main.rs"), "edit file src/main.rs");
    assert_eq!(lowercase_first_action("MCP Search code"), "MCP Search code");
    assert_eq!(lowercase_first_action(""), "");
}

#[test]
fn mcp_prompt_cancellation_is_non_persistent() {
    assert_eq!(cancelled_prompt_decision(ToolPermissionPromptKind::Mcp), HitlDecision::DeniedOnce);
}

#[test]
fn standard_prompt_cancellation_denies() {
    assert_eq!(cancelled_prompt_decision(ToolPermissionPromptKind::Standard), HitlDecision::Denied);
}

#[test]
fn command_preview_distinguishes_same_prefix_different_dangerous_suffixes() {
    let shared = "python3 -c 'print(1)' --output ".to_string() + &"safe-prefix/".repeat(12);
    let first = format_command_preview_lines(vec![format!("{shared}report.txt")]);
    let second = format_command_preview_lines(vec![format!("{shared}../../critical.txt")]);
    assert_ne!(first, second);
    assert!(first[0].contains("report.txt"), "tail missing from {first:?}");
    assert!(second[0].contains("../../critical.txt"), "dangerous tail missing from {second:?}");
    assert!(first[0].contains('…') && second[0].contains('…'));
}

#[test]
fn command_preview_preserves_short_unicode_command() {
    let preview = format_command_preview_lines(vec!["printf 'xin chào 世界'".to_string()]);
    assert_eq!(preview, vec!["`printf 'xin chào 世界'`"]);
}

#[test]
fn multiline_command_preview_keeps_head_tail_and_omission_count() {
    let lines = (1..=12).map(|line| format!("line {line}")).collect();
    let preview = format_command_preview_lines(lines);
    assert_eq!(preview.len(), 8);
    assert_eq!(preview[0], "`line 1`");
    assert_eq!(preview[4], "`line 5`");
    assert_eq!(preview[5], "… +5 more lines (full command runs on approval)");
    assert_eq!(preview[6], "`line 11`");
    assert_eq!(preview[7], "`line 12`");
}

#[test]
fn long_command_line_is_cut_to_the_line_budget() {
    let long = "x".repeat(300);
    let preview = format_command_preview_lines(vec![long]);
    assert_eq!(preview[0].chars().count(), 122);
    assert_eq!(preview[0], format!("`{}…{}`", "x".repeat(60), "x".repeat(59)));
}

#[test]
fn capped_context_line_keeps_first_logical_row_only() {
    let mut lines = Vec::new();
    push_capped_context_line(&mut lines, "Reason", "  \nFirst reason\nSecond reason\n", 160);
    assert_eq!(lines, vec!["Reason: First reason"]);

    let mut blank = Vec::new();
    push_capped_context_line(&mut blank, "Reason", "   \n  ", 160);
    assert!(blank.is_empty());
}

#[test]
fn context_line_reports_whether_it_was_added() {
    let mut lines = Vec::new();
    assert!(push_context_line(&mut lines, "Reason", "why"));
    assert!(!push_context_line(&mut lines, "Reason", " \n \n"));
    assert_eq!(lines, vec!["Reason: why"]);
}

fn justification(reason: String, expected_outcome: Option<String>, risk_level: String) -> ToolJustification {
    ToolJustification {
        tool_name: "exec_command".to_string(),
        reason,
        expected_outcome,
        risk_level,
        timestamp: "now".to_string(),
    }
}

#[test]
fn permission_context_lines_fall_back_without_any_reason() {
    let lines = build_permission_context_lines(None, None, None);
    assert_eq!(lines.len(), 1);
    assert!(lines[0].starts_with("No additional details were provided."));
}

#[test]
fn permission_context_lines_fall_back_when_reason_is_blank() {
    let lines = build_permission_context_lines(Some("   \n  "), None, None);
    assert_eq!(lines.len(), 1);
    assert!(lines[0].starts_with("No additional details were provided."));
}

#[test]
fn permission_context_lines_dedupes_shell_goal_with_justification_goal() {
    let just = justification("List the workspace".to_string(), None, "Low".to_string());
    let lines = build_permission_context_lines(None, Some("List the workspace"), Some(&just));
    let goals = lines.iter().filter(|line| line.starts_with(AGENT_GOAL_LABEL)).count();
    assert_eq!(goals, 1, "shell and ledger goals must not duplicate: {lines:?}");
    assert!(lines.iter().any(|line| line == "Risk: Low"));
}

#[test]
fn permission_context_lines_keeps_risk_when_goal_comes_from_approval_reason() {
    let just = justification("Ledger goal".to_string(), None, "High".to_string());
    let lines = build_permission_context_lines(Some("Explicit reason"), None, Some(&just));
    assert_eq!(lines.len(), 2);
    assert!(lines[0].starts_with(&format!("{}: Explicit reason", AGENT_GOAL_LABEL)));
    assert_eq!(lines[1], "Risk: High");
}

#[test]
fn compact_justification_lines_keep_reason_and_risk_only() {
    let just = justification(
        "Build the project\nwith more detail on a second line".to_string(),
        Some("Binary compiles\nplus extra".to_string()),
        "High".to_string(),
    );
    let lines = compact_justification_lines(&just);
    assert_eq!(lines.len(), 2);
    assert!(lines[0].starts_with("What the agent is trying to do: Build the project"));
    assert!(!lines[0].contains('\n'));
    assert!(!lines.iter().any(|line| line.starts_with("Expected:")));
    assert_eq!(lines[1], "Risk: High");
}

#[test]
fn compact_justification_lines_truncate_long_reason() {
    let just = justification("x".repeat(400), None, String::new());
    let lines = compact_justification_lines(&just);
    assert_eq!(lines.len(), 1);
    assert!(lines[0].chars().count() <= AGENT_GOAL_LABEL.len() + 2 + MAX_CONTEXT_LINE_CHARS);
}

#[test]
fn control_operators_are_detected() {
    assert!(shell_command_contains_control_operators("ls && rm -rf x"));
    assert!(shell_command_contains_control_operators("echo $(whoami)"));
    assert!(shell_command_contains_control_operators("cat <<EOF"));
    assert!(shell_command_contains_control_operators("a\nb"));
    assert!(!shell_command_contains_control_operators("cargo test --locked"));
}

#[test]
fn nested_shells_are_detected() {
    assert!(shell_run_uses_nested_shell(&words(&["bash", "-lc", "ls"])));
    assert!(shell_run_uses_nested_shell(&words(&["/bin/sh", "-c", "ls"])));
    assert!(shell_run_uses_nested_shell(&words(&["pwsh", "-Command", "ls"])));
    assert!(shell_run_uses_nested_shell(&words(&["CMD.EXE", "/C", "dir"])));
    assert!(!shell_run_uses_nested_shell(&words(&["bash", "script.sh"])));
    assert!(!shell_run_uses_nested_shell(&words(&["python3", "-c", "print(1)"])));
    assert!(!shell_run_uses_nested_shell(&[]));
}

#[test]
fn command_words_split_on_operators() {
    let segments = split_command_words_on_operators(&words(&["ls", "-la", "|", "grep", "x", "&&", ";", "echo"]))
        .expect("segments");
    assert_eq!(segments, vec![words(&["ls", "-la"]), words(&["grep", "x"]), words(&["echo"])]);
    assert_eq!(split_command_words_on_operators(&words(&["&&", "|"])), None);
    assert_eq!(split_command_words_on_operators(&[]), None);
}

#[test]
fn approval_command_words_are_shell_quoted() {
    assert_eq!(render_shell_approval_command_words(&words(&["cargo", "test"])), "cargo test");
    assert_eq!(render_shell_approval_command_words(&words(&["echo", "a b"])), "echo 'a b'");
}

#[test]
fn mcp_prompt_uses_cancel_without_persistent_deny() {
    let titles =
        build_tool_permission_options(ToolPermissionPromptKind::Mcp, Some(&PersistentApprovalTarget::ToolLevel))
            .into_iter()
            .map(|item| item.title)
            .collect::<Vec<_>>();
    assert!(titles.iter().any(|title| title == "Cancel"));
    assert!(!titles.iter().any(|title| title == "Always Deny"));
}

#[test]
fn standard_prompt_keeps_persistent_deny() {
    let titles = build_tool_permission_options(
        ToolPermissionPromptKind::Standard,
        Some(&PersistentApprovalTarget::ToolLevel),
    )
    .into_iter()
    .map(|item| item.title)
    .collect::<Vec<_>>();
    assert!(titles.iter().any(|title| title == "Deny Once"));
    assert!(titles.iter().any(|title| title == "Always Deny"));
}

#[test]
fn shell_prompt_offers_policy_cache_option_for_exact_invocation() {
    let titles = build_tool_permission_options(
        ToolPermissionPromptKind::Standard,
        Some(&PersistentApprovalTarget::ExactInvocation {
            display_label: "command `cargo clippy`".to_string(),
        }),
    )
    .into_iter()
    .map(|item| item.title)
    .collect::<Vec<_>>();
    assert!(titles.iter().any(|title| title == "Always approve and save to policy cache"));
    assert!(!titles.iter().any(|title| title == "Always Deny"));
}

#[test]
fn permanent_option_subtitle_truncates_long_command_label() {
    let long_label = format!("command `python3 -c '{}'`", "y".repeat(200));
    let items = build_tool_permission_options(
        ToolPermissionPromptKind::Standard,
        Some(&PersistentApprovalTarget::ExactInvocation { display_label: long_label }),
    );
    let permanent = items
        .iter()
        .find(|item| item.title == "Always approve and save to policy cache")
        .expect("permanent option");
    let subtitle = permanent.subtitle.as_deref().expect("subtitle");
    assert!(subtitle.contains('…'), "long label should be truncated, got: {subtitle}");
    assert!(subtitle.chars().count() <= "Remember  in this workspace".len() + MAX_APPROVAL_LABEL_CHARS + 8);
}

#[test]
fn permission_options_without_target_offer_four_rows_in_order() {
    let items = build_tool_permission_options(ToolPermissionPromptKind::Standard, None);
    let titles = items.iter().map(|item| item.title.as_str()).collect::<Vec<_>>();
    assert_eq!(titles, vec!["Approve Once", "Allow for Session", "", "Deny Once"]);
    assert_eq!(items[0].selection, Some(ApprovalSelection::ToolApproval(true)));
    assert_eq!(items[1].badge.as_deref(), Some("Session"));
    assert_eq!(items[2].selection, None);
    assert_eq!(items[3].search_value.as_deref(), Some("deny no reject once temporary 4"));
}

#[test]
fn mcp_session_option_remembers_for_the_session() {
    let items = build_tool_permission_options(ToolPermissionPromptKind::Mcp, None);
    assert_eq!(items[1].title, "Approve this session");
    assert_eq!(items[1].subtitle.as_deref(), Some("Remember for this session"));
    assert_eq!(items[3].subtitle.as_deref(), Some("Cancel this tool call"));
}

#[test]
fn tool_level_target_is_named_this_tool() {
    let items = build_tool_permission_options(
        ToolPermissionPromptKind::Standard,
        Some(&PersistentApprovalTarget::ToolLevel),
    );
    assert_eq!(items.len(), 6);
    assert_eq!(items[2].subtitle.as_deref(), Some("Remember this tool in this workspace"));
    assert_eq!(items[5].selection, Some(ApprovalSelection::ToolApproval(false)));
}

#[test]
fn modal_text_truncation_keeps_short_text_and_ends_long_text_with_ellipsis() {
    assert_eq!(truncate_modal_text("short", 60), "short");
    assert_eq!(truncate_modal_text("abcdef", 4), "abc…");
    assert_eq!(truncate_modal_text("abcdef", 0), "");
}
