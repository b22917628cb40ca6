use vtcode_runloop::overlay::OverlayOutcome;
use vtcode_runloop::permission::{
    ApprovalSelection, HitlDecision, PromptSubmission, ToolPermissionPromptKind, cancelled_prompt_decision,
    permission_description_lines, permission_navigation_hint, policy_denied_lines, policy_denied_options,
    policy_denied_submission, prompt_outcome_decision, tool_permission_submission,
};

fn strings(items: &[&str]) -> Vec<String> {
    items.iter().map(|s| s.to_string()).collect()
}

#[test]
fn permission_submissions_map_to_decisions() {
    let sel = PromptSubmission::Selection;
    assert_eq!(tool_permission_submission(sel(ApprovalSelection::ToolApproval(true))), Some(HitlDecision::Approved));
    assert_eq!(tool_permission_submission(sel(ApprovalSelection::ToolApprovalSession)), Some(HitlDecision::ApprovedSession));
    assert_eq!(tool_permission_submission(sel(ApprovalSelection::ToolApprovalPermanent)), Some(HitlDecision::ApprovedPermanent));
    assert_eq!(tool_permission_submission(sel(ApprovalSelection::ToolApprovalDenyOnce)), Some(HitlDecision::DeniedOnce));
    assert_eq!(tool_permission_submission(sel(ApprovalSelection::ToolApproval(false))), Some(HitlDecision::Denied));
    assert_eq!(tool_permission_submission(sel(ApprovalSelection::ToolApprovalEnable)), Some(HitlDecision::Denied));
    assert_eq!(tool_permission_submission(PromptSubmission::OpenSourceThread), Some(HitlDecision::DeniedOnce));
    assert_eq!(tool_permission_submission(PromptSubmission::Other), None);

    assert_eq!(policy_denied_submission(sel(ApprovalSelection::ToolApprovalEnable)), Some(HitlDecision::Enable));
    assert_eq!(policy_denied_submission(sel(ApprovalSelection::ToolApproval(true))), Some(HitlDecision::DeniedOnce));
    assert_eq!(policy_denied_submission(PromptSubmission::OpenSourceThread), None);
}

#[test]
fn prompt_outcomes_map_to_decisions() {
    let on_cancel = cancelled_prompt_decision(ToolPermissionPromptKind::Mcp);
    assert_eq!(
        prompt_outcome_decision(OverlayOutcome::Submitted, Some(HitlDecision::Approved), on_cancel),
        HitlDecision::Approved
    );
    assert_eq!(prompt_outcome_decision(OverlayOutcome::Cancelled, None, on_cancel), HitlDecision::DeniedOnce);
    assert_eq!(
        prompt_outcome_decision(OverlayOutcome::Deferred, None, cancelled_prompt_decision(ToolPermissionPromptKind::Standard)),
        HitlDecision::Denied
    );
    assert_eq!(prompt_outcome_decision(OverlayOutcome::Interrupted, None, on_cancel), HitlDecision::Interrupt);
    assert_eq!(prompt_outcome_decision(OverlayOutcome::Exit, None, on_cancel), HitlDecision::Exit);
}

#[test]
fn navigation_hint_depends_on_kind_and_source_thread() {
    assert_eq!(permission_navigation_hint(ToolPermissionPromptKind::Standard, "deny", "cancel", false), "deny");
    assert_eq!(
        permission_navigation_hint(ToolPermissionPromptKind::Mcp, "deny", "cancel", true),
        "cancel \u{2022} o inspect source thread"
    );
}

#[test]
fn permission_description_puts_parts_in_order() {
    let lines = permission_description_lines(
        strings(&["Allow fetch?"]),
        Some("https://example.com/a"),
        Some(strings(&["ls -la"])),
        None,
        strings(&["Why: list files"]),
        "Choose how to handle this run.",
    );
    assert_eq!(lines[0], "Allow fetch?");
    assert_eq!(lines[1], "URL: https://example.com/a");
    assert_eq!(lines.last().map(String::as_str), Some("Choose how to handle this run."));
    assert!(lines.iter().any(|l| l.contains("ls -la")));
    assert_eq!(lines[lines.len() - 2], "Why: list files");

    let shown = permission_description_lines(
        strings(&["Fetch https://example.com/a"]),
        Some("https://example.com/a"),
        None,
        Some(strings(&["+added"])),
        Vec::new(),
        "h",
    );
    assert_eq!(shown, strings(&["Fetch https://example.com/a", "+added", "h"]));
}

#[test]
fn policy_prompt_lists_diagnostic_and_offers_enable_or_deny() {
    let lines = policy_denied_lines(
        "web_fetch",
        Some("https://x.test"),
        Some("Network access is blocked"),
        Some("Allow web_fetch in tools.policies"),
        &strings(&["vtcode.toml"]),
        "Choose how to handle this run.",
    );
    assert_eq!(
        lines,
        strings(&[
            "Tool: web_fetch",
            "## Policy",
            "This tool is currently denied by tool policy configuration.",
            "URL: https://x.test",
            "Impact: Network access is blocked",
            "Fix: Allow web_fetch in tools.policies",
            "  - vtcode.toml",
            "Choose how to handle this run.",
        ])
    );
    let bare = policy_denied_lines("t", None, Some("   "), None, &[], "h");
    assert_eq!(bare.len(), 4);

    let options = policy_denied_options();
    assert_eq!(options.len(), 3);
    assert_eq!(options[0].selection, Some(ApprovalSelection::ToolApprovalEnable));
    assert_eq!(options[0].badge.as_deref(), Some("Fix Policy"));
    assert_eq!(options[1].title, "");
    assert_eq!(options[1].selection, None);
    assert_eq!(options[2].selection, Some(ApprovalSelection::ToolApprovalDenyOnce));
}
