use vtcode_runloop::canonical::{
    canonicalize_normalized_name, canonicalize_shell_tool_alias, canonicalize_tool_name,
    exec_command_defaults_for_name, exec_command_defaults_from_normalized_name, is_clean_tool_name,
    is_dispatchable_tool_name,
};
use vtcode_runloop::code_fence::{extract_code_fence_blocks, find_unfenced_from, unfenced_byte_ranges};
use vtcode_runloop::spool::{format_spool_hint, format_spool_notification};

#[test]
fn clean_and_dispatchable_names() {
    assert!(is_clean_tool_name("  read_file "));
    assert!(!is_clean_tool_name("1read"));
    assert!(!is_clean_tool_name("read file"));
    assert!(!is_clean_tool_name(&"a".repeat(65)));
    assert!(is_clean_tool_name(&"a".repeat(64)));
    assert!(is_dispatchable_tool_name("mcp__github__list"));
    assert!(is_dispatchable_tool_name("server:tool.name-x"));
    assert!(!is_dispatchable_tool_name("run `ls`"));
    assert!(!is_dispatchable_tool_name("a — b"));
    assert!(!is_dispatchable_tool_name("   "));
}

#[test]
fn names_normalize_and_canonicalize() {
    assert_eq!(canonicalize_normalized_name(" \"Run-Cmd\" ").as_deref(), Some("run_cmd"));
    assert_eq!(canonicalize_normalized_name("default_api.Read File").as_deref(), Some("default_api_read_file"));
    assert_eq!(canonicalize_normalized_name("--"), None);
    assert_eq!(canonicalize_normalized_name("   "), None);
    assert_eq!(canonicalize_shell_tool_alias("Bash").as_deref(), Some("exec_command"));
    assert_eq!(canonicalize_shell_tool_alias("run_pty_cmd"), None);
    assert_eq!(canonicalize_tool_name("TerminalRun").as_deref(), Some("exec_command"));
    assert_eq!(canonicalize_tool_name("read_pty_session").as_deref(), Some("exec_command"));
    assert_eq!(canonicalize_tool_name("Read File").as_deref(), Some("read_file"));
}

#[test]
fn exec_command_defaults() {
    let d = exec_command_defaults_for_name("create-pty-session").expect("defaults");
    assert_eq!(d.action, "run");
    assert_eq!(d.force_tty, Some(true));
    let d = exec_command_defaults_from_normalized_name("send_pty_input").expect("defaults");
    assert_eq!(d.action, "write");
    assert_eq!(d.force_tty, None);
    assert_eq!(exec_command_defaults_from_normalized_name("close_pty_session").map(|d| d.action), Some("close"));
    assert!(exec_command_defaults_for_name("read_file").is_none());
}

#[test]
fn unfenced_ranges_skip_fenced_blocks() {
    let text = "before\n```rust\ncode\n```\nafter\n";
    assert_eq!(unfenced_byte_ranges(text), vec![0..7, 24..30]);
    assert_eq!(unfenced_byte_ranges("```\nopen"), vec![]);
    assert_eq!(unfenced_byte_ranges("~~~\nx\n```\n~~~\ny"), vec![14..15]);
    assert_eq!(find_unfenced_from(text, "code", 0), None);
    assert_eq!(find_unfenced_from(text, "after", 0), Some(24));
    assert_eq!(find_unfenced_from("é x é x", "x", 4), Some(8));
    assert_eq!(find_unfenced_from("é x é x", "x", 6), None);
}

#[test]
fn code_fence_blocks_are_extracted() {
    let blocks = extract_code_fence_blocks("intro\n``` \"Rust\" extra\nfn a() {}\r\n```\n```\nplain\n```\n```py\nopen");
    assert_eq!(blocks.len(), 2);
    assert_eq!(blocks[0].language.as_deref(), Some("rust"));
    assert_eq!(blocks[0].lines, vec!["fn a() {}"]);
    assert_eq!(blocks[1].language, None);
    assert_eq!(blocks[1].lines, vec!["plain"]);
}

#[test]
fn spool_messages() {
    assert_eq!(
        format_spool_hint("/tmp/out.log"),
        "Large output was spooled to \"/tmp/out.log\". Use exec_command with shell tools such as cat, sed, or rg to inspect details."
    );
    assert_eq!(
        format_spool_notification("a\nbé\n", "/tmp/x", Some("stdout")),
        "[STDOUT] 6 bytes, 2 lines — spooled to: /tmp/x"
    );
    assert_eq!(
        format_spool_notification("", "/tmp/x", Some("")),
        "Command output too large (0 bytes, 0 lines), spooled to: /tmp/x"
    );
}

#[test]
fn normalizing_a_normalized_tool_name_changes_nothing() {
    for raw in ["  `Run-PTY.Cmd`  ", "__exec  command__", "Read_File", "a::b"] {
        let once = vtcode_runloop::canonical::canonicalize_normalized_name(raw).expect("normalizes");
        assert!(once.chars().all(|c| c.is_ascii_lowercase() || c.is_ascii_digit() || c == '_'));
        assert!(!once.starts_with('_') && !once.ends_with('_'));
        assert_eq!(vtcode_runloop::canonical::canonicalize_normalized_name(&once), Some(once.clone()));
    }
    assert_eq!(vtcode_runloop::canonical::canonicalize_normalized_name(" -- "), None);
}
