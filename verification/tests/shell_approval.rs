use vtcode_runloop::permission::shell_run_uses_nested_shell;
use vtcode_runloop::permission::{
    nested_shell_for_program,
    ShellCommandValue, render_shell_persistent_approval_prefix_entry, shell_approval_justification,
    shell_command_supports_persistent_approval, shell_permission_cache_suffix, shell_permission_scope_suffix,
    shell_persistent_approval_prefix_rule,
};

fn words(items: &[&str]) -> Vec<String> {
    items.iter().map(|item| item.to_string()).collect()
}

fn text(s: &str) -> ShellCommandValue {
    ShellCommandValue::Text(s.to_string())
}

#[test]
fn shell_persistent_prefix_rule_requires_matching_command_prefix() {
    let command = text("cargo test -p vtcode");
    let cmd_words = words(&["cargo", "test", "-p", "vtcode"]);
    assert_eq!(shell_persistent_approval_prefix_rule(shell_command_supports_persistent_approval(&command, &cmd_words), &cmd_words, Some(words(&["cargo", "build"]))), None);
    assert_eq!(
        shell_persistent_approval_prefix_rule(shell_command_supports_persistent_approval(&command, &cmd_words), &cmd_words, Some(words(&["cargo", "test"]))),
        Some(words(&["cargo", "test"]))
    );
}

#[test]
fn shell_persistent_prefix_rule_rejects_compound_commands() {
    let command = text("cargo test && cargo fmt");
    let cmd_words = words(&["cargo", "test", "&&", "cargo", "fmt"]);
    assert_eq!(shell_persistent_approval_prefix_rule(shell_command_supports_persistent_approval(&command, &cmd_words), &cmd_words, Some(words(&["cargo", "test"]))), None);
}

#[test]
fn prefix_rules_must_be_non_empty_and_no_longer_than_the_command() {
    let command = ShellCommandValue::Words;
    let cmd_words = words(&["ls"]);
    assert_eq!(shell_persistent_approval_prefix_rule(shell_command_supports_persistent_approval(&command, &cmd_words), &cmd_words, Some(Vec::new())), None);
    assert_eq!(shell_persistent_approval_prefix_rule(shell_command_supports_persistent_approval(&command, &cmd_words), &cmd_words, Some(words(&["ls", "-l"]))), None);
    assert_eq!(shell_persistent_approval_prefix_rule(shell_command_supports_persistent_approval(&command, &cmd_words), &cmd_words, None), None);
    assert_eq!(shell_persistent_approval_prefix_rule(shell_command_supports_persistent_approval(&command, &cmd_words), &cmd_words, Some(words(&["ls"]))), Some(words(&["ls"])));
}

#[test]
fn shell_approval_prefix_text_normalizes_simple_commands() {
    let cmd_words = words(&["cargo", "test", "-p", "vtcode"]);
    assert!(shell_command_supports_persistent_approval(&ShellCommandValue::Words, &cmd_words));
}

#[test]
fn persistent_approval_excludes_blank_compound_nested_and_other_commands() {
    assert!(shell_command_supports_persistent_approval(&text("  ls -la  "), &words(&["ls", "-la"])));
    assert!(!shell_command_supports_persistent_approval(&text("   "), &[]));
    assert!(!shell_command_supports_persistent_approval(&text("ls | wc"), &words(&["ls", "|", "wc"])));
    assert!(!shell_command_supports_persistent_approval(&text("bash -c ls"), &words(&["bash", "-c", "ls"])));
    assert!(!shell_command_supports_persistent_approval(&ShellCommandValue::Words, &words(&["sh", "-c", "ls"])));
    assert!(!shell_command_supports_persistent_approval(&ShellCommandValue::Other, &words(&["ls"])));
    assert!(!shell_command_supports_persistent_approval(&ShellCommandValue::Missing, &words(&["ls"])));
}

#[test]
fn shell_approval_scope_signature_tracks_requested_permissions() {
    assert_eq!(
        shell_permission_scope_suffix("\"require_escalated\"", None),
        "sandbox_permissions=\"require_escalated\"|additional_permissions=null"
    );
}

#[test]
fn cache_suffix_normalizes_use_default_with_additional_permissions() {
    let scope = shell_permission_scope_suffix(
        "\"with_additional_permissions\"",
        Some("{\"fs_write\":[\"/tmp/demo.txt\"]}"),
    );
    assert_eq!(
        shell_permission_cache_suffix("echo hi", false, true, &scope),
        "echo hi|sandbox_permissions=\"with_additional_permissions\"|additional_permissions={\"fs_write\":[\"/tmp/demo.txt\"]}"
    );
}

#[test]
fn cache_suffix_ignores_empty_additional_permissions() {
    let scope = shell_permission_scope_suffix("\"use_default\"", None);
    assert_eq!(shell_permission_cache_suffix("echo hi", true, false, &scope), "echo hi");
}

#[test]
fn shell_persistent_approval_entry_includes_scope() {
    let scope = shell_permission_scope_suffix("\"require_escalated\"", None);
    assert_eq!(
        render_shell_persistent_approval_prefix_entry(&words(&["cargo", "test"]), &scope),
        "cargo test|sandbox_permissions=\"require_escalated\"|additional_permissions=null"
    );
    assert_eq!(
        render_shell_persistent_approval_prefix_entry(&words(&["echo", "a b"]), "s"),
        "echo 'a b'|s"
    );
}

#[test]
fn shell_approval_justification_is_extracted_for_run_actions() {
    assert_eq!(
        shell_approval_justification(Some("  Do you want to build the project outside the sandbox?\n")).as_deref(),
        Some("Do you want to build the project outside the sandbox?")
    );
    assert_eq!(shell_approval_justification(Some("   ")), None);
    assert_eq!(shell_approval_justification(None), None);
}

#[test]
fn nested_shells_are_judged_by_the_program_file_name() {
    let ws = words(&["C:\\tools\\cmd.exe", "/c", "dir"]);
    assert!(nested_shell_for_program("cmd.exe", &ws));
    assert!(!nested_shell_for_program("notepad.exe", &ws));
    assert!(nested_shell_for_program("BASH", &words(&["/usr/bin/BASH", "-c", "ls"])));
    assert!(!nested_shell_for_program("bash", &[]));
}

#[test]
fn approval_command_lines_quote_words_as_a_posix_shell_reads_them() {
    use_render(&["a b", "it's", "", "x\ny", "plain"], "'a b' 'it'\\''s' '' 'x\ny' plain");
    use_render(&[], "");
    use_render(&["it's\nok"], "'it'\\''s\nok'");
}

fn use_render(items: &[&str], expected: &str) {
    assert_eq!(vtcode_runloop::permission::render_shell_approval_command_words(&words(items)), expected);
}

#[test]
fn program_paths_are_judged_by_their_file_name() {
    assert!(shell_run_uses_nested_shell(&words(&["/usr/local/bin/bash", "-lc", "ls"])));
    assert!(shell_run_uses_nested_shell(&words(&["./bin/ZSH", "-c", "ls"])));
    assert!(!shell_run_uses_nested_shell(&words(&["/usr/bin/python3", "-c", "print(1)"])));
    assert!(!shell_command_supports_persistent_approval(
        &ShellCommandValue::Words,
        &words(&["/bin/sh", "-c", "ls"])
    ));
    assert!(shell_command_supports_persistent_approval(&ShellCommandValue::Words, &words(&["/bin/ls", "-l"])));
}
