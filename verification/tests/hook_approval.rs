use vtcode_runloop::hook_approval::{
    HookApprovalDecision, HookCommandPreview, hook_approval_decision, hook_approval_lines, hook_approval_options,
    hook_submission_decision,
};
use vtcode_runloop::overlay::OverlayOutcome;
use vtcode_runloop::permission::ApprovalSelection;

#[test]
fn prompt_lists_each_command_with_event_and_matcher() {
    let commands = vec![
        HookCommandPreview { event: "pre_tool_use".into(), matcher: Some("run_pty_cmd".into()), command: "echo a".into() },
        HookCommandPreview { event: "session_start".into(), matcher: None, command: "./init.sh".into() },
    ];
    let lines = hook_approval_lines("/repo", &commands, "Choose how to handle workspace lifecycle hooks.");
    assert_eq!(lines.len(), 13);
    assert_eq!(lines[5], "");
    assert_eq!(lines[6], "Workspace: /repo");
    assert_eq!(lines[8], "Commands:");
    assert_eq!(lines[9], "  [pre_tool_use/run_pty_cmd] echo a");
    assert_eq!(lines[10], "  [session_start/*] ./init.sh");
    assert_eq!(lines[11], "");
    assert_eq!(lines[12], "Choose how to handle workspace lifecycle hooks.");
}

#[test]
fn options_offer_approve_and_deny_with_deny_preselected() {
    let (options, selected) = hook_approval_options();
    assert_eq!(options.len(), 2);
    assert_eq!(options[0].title, "Approve");
    assert_eq!(options[0].selection, Some(ApprovalSelection::ToolApproval(true)));
    assert_eq!(options[1].title, "Deny");
    assert_eq!(options[1].search_value.as_deref(), Some("deny no skip block 2"));
    assert_eq!(selected, ApprovalSelection::ToolApproval(false));
}

#[test]
fn hook_approval_fails_closed() {
    assert_eq!(hook_submission_decision(Some(ApprovalSelection::ToolApproval(true))), Some(HookApprovalDecision::Approved));
    assert_eq!(hook_submission_decision(Some(ApprovalSelection::ToolApproval(false))), Some(HookApprovalDecision::Denied));
    assert_eq!(hook_submission_decision(Some(ApprovalSelection::ToolApprovalSession)), None);
    assert_eq!(hook_submission_decision(None), None);
    let approved = Some(HookApprovalDecision::Approved);
    assert_eq!(hook_approval_decision(OverlayOutcome::Submitted, approved), HookApprovalDecision::Approved);
    for outcome in [OverlayOutcome::Cancelled, OverlayOutcome::Interrupted, OverlayOutcome::Deferred, OverlayOutcome::Exit] {
        assert_eq!(hook_approval_decision(outcome, approved), HookApprovalDecision::Denied);
    }
    assert_eq!(
        hook_approval_decision(OverlayOutcome::Submitted, Some(HookApprovalDecision::Denied)),
        HookApprovalDecision::Denied
    );
}
