//! Approval of lifecycle hooks that the workspace configuration declares:
//! the text of the prompt, its two choices, and the decision, which fails
//! closed to `Denied` whenever the prompt ends without an answer.

use vstd::prelude::*;
use crate::overlay::OverlayOutcome;
use crate::permission::{ApprovalSelection, PromptOption, PromptOptionView, option_views, string_views};
use crate::text::{chars_of, extend_str, string_from};

verus! {

/// What the user decided about the workspace's lifecycle hooks.
#[derive(Debug, Clone, Copy, PartialEq, Eq, Structural)]
pub enum HookApprovalDecision {
    Approved,
    Denied,
}

/// A hook command as the prompt lists it: its event, its matcher (if any)
/// and the command line.
#[derive(Debug, Clone)]
pub struct HookCommandPreview {
    pub event: String,
    pub matcher: Option<String>,
    pub command: String,
}

/// The row of one command: `  [event/matcher] command`, with `*` for a
/// command without a matcher.
pub open spec fn command_row(event: Seq<char>, matcher: Option<Seq<char>>, command: Seq<char>) -> Seq<char> {
    "  ["@ + event + "/"@ + match matcher {
        Some(m) => m,
        None => "*"@,
    } + "] "@ + command
}

pub open spec fn command_rows(cs: Seq<HookCommandPreview>) -> Seq<Seq<char>> {
    cs.map_values(
        |c: HookCommandPreview|
            command_row(
                c.event@,
                match c.matcher {
                    Some(m) => Some(m@),
                    None => None,
                },
                c.command@,
            ),
    )
}

/// The explanation above the commands.
pub open spec fn hook_intro() -> Seq<Seq<char>> {
    seq![
        "The workspace configuration defines lifecycle hook commands that VT Code"@,
        "runs automatically. They execute via `sh -c` from the workspace directory and"@,
        "are controlled by files inside the workspace (vtcode.toml / .vtcode), so an"@,
        "untrusted repository could change them. Approving runs the exact command set"@,
        "below; any later change to these commands requires a new approval."@,
    ]
}

/// The prompt's lines: the explanation, the workspace, the commands, and
/// the line on how to choose.
pub open spec fn hook_prompt_lines(
    workspace: Seq<char>,
    commands: Seq<HookCommandPreview>,
    handling_line: Seq<char>,
) -> Seq<Seq<char>> {
    hook_intro() + seq![seq![], "Workspace: "@ + workspace, seq![], "Commands:"@] + command_rows(commands) + seq![
        seq![],
        handling_line,
    ]
}

/// The lines of the hook approval prompt; `workspace` is the workspace as
/// displayed, `handling_line` the line explaining how to choose.
pub fn hook_approval_lines(workspace: &str, commands: &[HookCommandPreview], handling_line: &str) -> (r: Vec<
    String,
>)
    ensures
        string_views(r@) == hook_prompt_lines(workspace@, commands@, handling_line@),
{
    let mut lines: Vec<String> = Vec::new();
    lines.push("The workspace configuration defines lifecycle hook commands that VT Code".to_owned());
    lines.push("runs automatically. They execute via `sh -c` from the workspace directory and".to_owned());
    lines.push("are controlled by files inside the workspace (vtcode.toml / .vtcode), so an".to_owned());
    lines.push("untrusted repository could change them. Approving runs the exact command set".to_owned());
    lines.push("below; any later change to these commands requires a new approval.".to_owned());
    lines.push(String::new());
    let mut ws = chars_of("Workspace: ");
    extend_str(&mut ws, workspace);
    lines.push(string_from(&ws));
    lines.push(String::new());
    lines.push("Commands:".to_owned());
    proof {
        reveal_strlit("");
    }
    let ghost head = string_views(lines@);
    assert(head =~= hook_intro() + seq![seq![], "Workspace: "@ + workspace@, seq![], "Commands:"@]);
    let mut i: usize = 0;
    while i < commands.len()
        invariant
            i <= commands@.len(),
            string_views(lines@) == head + command_rows(commands@.take(i as int)),
        decreases commands.len() - i,
    {
        let c = &commands[i];
        let mut row = chars_of("  [");
        extend_str(&mut row, c.event.as_str());
        extend_str(&mut row, "/");
        match &c.matcher {
            Some(m) => extend_str(&mut row, m.as_str()),
            None => extend_str(&mut row, "*"),
        }
        extend_str(&mut row, "] ");
        extend_str(&mut row, c.command.as_str());
        let ghost before = string_views(lines@);
        lines.push(string_from(&row));
        assert(command_rows(commands@.take(i + 1)) =~= command_rows(commands@.take(i as int)).push(row@));
        assert(string_views(lines@) =~= before.push(row@));
        i += 1;
    }
    assert(commands@.take(i as int) =~= commands@);
    lines.push(String::new());
    lines.push(handling_line.to_owned());
    assert(string_views(lines@) =~= hook_prompt_lines(workspace@, commands@, handling_line@));
    lines
}

/// The two choices: approve (remembered for this exact command set) or
/// deny for the session.
pub open spec fn hook_options() -> Seq<PromptOptionView> {
    seq![
        PromptOptionView {
            title: "Approve"@,
            subtitle: Some("Run these lifecycle hooks and remember this approval for this exact command set"@),
            badge: None,
            indent: 0,
            selection: Some(ApprovalSelection::ToolApproval(true)),
            search_value: Some("approve allow yes run 1"@),
        },
        PromptOptionView {
            title: "Deny"@,
            subtitle: Some("Skip lifecycle hooks for this session"@),
            badge: None,
            indent: 0,
            selection: Some(ApprovalSelection::ToolApproval(false)),
            search_value: Some("deny no skip block 2"@),
        },
    ]
}

/// The choices of the hook approval prompt; denying is preselected.
pub fn hook_approval_options() -> (r: (Vec<PromptOption>, ApprovalSelection))
    ensures
        option_views(r.0@) == hook_options(),
        r.1 == ApprovalSelection::ToolApproval(false),
{
    let r = vec![
        PromptOption {
            title: "Approve".to_owned(),
            subtitle: Some("Run these lifecycle hooks and remember this approval for this exact command set".to_owned()),
            badge: None,
            indent: 0,
            selection: Some(ApprovalSelection::ToolApproval(true)),
            search_value: Some("approve allow yes run 1".to_owned()),
        },
        PromptOption {
            title: "Deny".to_owned(),
            subtitle: Some("Skip lifecycle hooks for this session".to_owned()),
            badge: None,
            indent: 0,
            selection: Some(ApprovalSelection::ToolApproval(false)),
            search_value: Some("deny no skip block 2".to_owned()),
        },
    ];
    assert(option_views(r@) =~= hook_options());
    (r, ApprovalSelection::ToolApproval(false))
}

/// What a submitted choice decides: a tool-approval choice decides, any
/// other submission is ignored.
pub fn hook_submission_decision(selection: Option<ApprovalSelection>) -> (r: Option<HookApprovalDecision>)
    ensures
        r == match selection {
            Some(ApprovalSelection::ToolApproval(true)) => Some(HookApprovalDecision::Approved),
            Some(ApprovalSelection::ToolApproval(false)) => Some(HookApprovalDecision::Denied),
            _ => None,
        },
{
    match selection {
        Some(ApprovalSelection::ToolApproval(true)) => Some(HookApprovalDecision::Approved),
        Some(ApprovalSelection::ToolApproval(false)) => Some(HookApprovalDecision::Denied),
        _ => None,
    }
}

/// The decision when the prompt ends: the submitted decision, and `Denied`
/// however else it ends (cancelled, interrupted, deferred or exited).
pub fn hook_approval_decision(outcome: OverlayOutcome, submitted: Option<HookApprovalDecision>) -> (r:
    HookApprovalDecision)
    ensures
        r == HookApprovalDecision::Approved <==> (outcome == OverlayOutcome::Submitted && submitted == Some(
            HookApprovalDecision::Approved,
        )),
{
    match (outcome, submitted) {
        (OverlayOutcome::Submitted, Some(HookApprovalDecision::Approved)) => HookApprovalDecision::Approved,
        _ => HookApprovalDecision::Denied,
    }
}

} // verus!
