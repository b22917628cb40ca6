use vtcode_runloop::output::{StreamRoute, ViewerLines, needs_complete_capture, stream_route, tool_output_plan};
use vtcode_runloop::output::{StreamFields, has_renderable_stream_content, is_git_diff_payload, summary_headline};
use vtcode_runloop::output::{NonSuccess, SuccessRoute, mcp_success_tool_name, non_success_report, success_route};
use vtcode_runloop::output::{
    ToolDisplayStatus, append_labeled_output_lines, append_merged_output_lines, command_output_header,
    compact_run_completion_line, contains_line_block, extract_command_line, normalize_terminal_output_lines,
    path_like_key, streams_are_aliases,
};

#[test]
fn normalize_terminal_output_lines_handles_ansi_rewrites_and_blanks() {
    let capture = "stale\n\x1b[2J\x1b[H\x1b[31mred\x1b[0m\rfinal\n\nlast\n";

    assert_eq!(normalize_terminal_output_lines(capture), vec!["final", "", "last"]);
    assert_eq!(normalize_terminal_output_lines("abc\x08d\n"), vec!["abd"]);
}

#[test]
fn terminal_lines_handle_osc_crlf_and_line_erase() {
    assert_eq!(normalize_terminal_output_lines("a\x1b]0;title\x07b\r\nc"), vec!["ab", "c"]);
    assert_eq!(normalize_terminal_output_lines("x\x1b]8;;u\x1b\\y\n"), vec!["xy"]);
    assert_eq!(normalize_terminal_output_lines("50%\x1b[2K100%\n"), vec!["100%"]);
    assert_eq!(normalize_terminal_output_lines("pending\r"), Vec::<String>::new());
    assert_eq!(normalize_terminal_output_lines("\x1bXq"), vec!["q"]);
}

#[test]
fn line_blocks_and_aliases() {
    assert!(contains_line_block("a\nb\nc\n", "b\nc"));
    assert!(!contains_line_block("a\nb\nc\n", "c\nb"));
    assert!(!contains_line_block("a", ""));
    assert!(streams_are_aliases("x", "w\nx\ny"));
    assert!(!streams_are_aliases("x", "y"));
}

#[test]
fn viewer_lines_are_laid_out() {
    let mut lines = vec!["• Ran test".to_string()];
    append_merged_output_lines(&mut lines, vec!["one".to_string(), "two".to_string()]);
    append_labeled_output_lines(&mut lines, "stderr", vec!["oops".to_string()]);
    assert_eq!(lines, vec!["• Ran test", "  └ one", "    two", "  stderr:", "    oops"]);
    assert!(path_like_key("file_path"));
    assert!(!path_like_key("content"));
}

fn fields(output: Option<&str>, stdout: Option<&str>, stderr: Option<&str>) -> vtcode_runloop::output::StreamFields {
    vtcode_runloop::output::StreamFields {
        output: output.map(str::to_string),
        stdout: stdout.map(str::to_string),
        stderr: stderr.map(str::to_string),
    }
}

fn labeled(streams: Vec<vtcode_runloop::output::CanonicalOutputStream>) -> Vec<(Option<&'static str>, String)> {
    streams.into_iter().map(|stream| (stream.label, stream.text)).collect()
}

#[test]
fn ordered_stream_texts_deduplicates_merged_output_aliases() {
    let output = fields(Some("stdout line\nstderr line"), Some("stdout line"), Some("stderr line"));
    assert_eq!(vtcode_runloop::output::ordered_stream_texts(&output), vec!["stdout line\nstderr line"]);
}

#[test]
fn ordered_stream_texts_preserves_distinct_pipe_streams() {
    let output = fields(Some("merged line"), Some("stdout line"), Some("stderr line"));
    assert_eq!(vtcode_runloop::output::ordered_stream_texts(&output), vec!["merged line", "stdout line", "stderr line"]);
}

#[test]
fn canonical_pipe_streams_keep_merged_output_once() {
    let output = fields(Some("stdout line\nstderr line"), Some("stdout line"), Some("stderr line"));
    let streams = vtcode_runloop::output::canonical_pipe_streams(&output);
    assert_eq!(streams.len(), 1);
    assert_eq!(streams[0].label, None);
    assert_eq!(streams[0].text, "stdout line\nstderr line");
}

#[test]
fn canonical_pipe_streams_label_separate_streams() {
    let output = fields(None, Some("stdout line"), Some("stderr line"));
    let streams = vtcode_runloop::output::canonical_pipe_streams(&output);
    assert_eq!(
        labeled(streams),
        vec![(Some("stdout"), "stdout line".to_string()), (Some("stderr"), "stderr line".to_string())]
    );
}

#[test]
fn canonical_pipe_streams_preserve_full_named_alias() {
    let output = fields(Some("stdout line"), Some("stdout line\nsecond stdout line"), Some("stderr line"));
    let streams = vtcode_runloop::output::canonical_pipe_streams(&output);
    assert_eq!(
        labeled(streams),
        vec![
            (Some("stdout"), "stdout line\nsecond stdout line".to_string()),
            (Some("stderr"), "stderr line".to_string())
        ]
    );
}

#[test]
fn output_text_trims_and_drops_blank_fields() {
    assert_eq!(vtcode_runloop::output::output_text(Some("  text  \n")).as_deref(), Some("  text"));
    assert_eq!(vtcode_runloop::output::output_text(Some(" \n ")), None);
    assert_eq!(vtcode_runloop::output::output_text(None), None);
    let output = fields(Some("a"), Some("a\nb"), None);
    assert_eq!(vtcode_runloop::output::ordered_stream_texts(&output), vec!["a\nb"]);
}

#[test]
fn build_pipe_command_output_lines_labels_stderr_once() {
    let output = fields(None, Some("normal output"), Some("diagnostic output"));
    let outcome = vtcode_runloop::output::CommandOutcome { exit_code: Some(1), is_exited: None, critical_note: None };

    assert_eq!(
        vtcode_runloop::output::build_pipe_command_output_lines(
            "execute_code",
            Some("printf test"),
            &output,
            &outcome,
            vtcode_runloop::output::ToolDisplayStatus::Failure,
        ),
        vec![
            "• Ran printf test",
            "  stdout:",
            "    normal output",
            "  stderr:",
            "    diagnostic output",
            "    ✗ run error, exit code: 1",
        ]
    );
}

#[test]
fn build_merged_command_output_lines_keeps_complete_capture_and_status_once() {
    let outcome = vtcode_runloop::output::CommandOutcome {
        exit_code: Some(2),
        is_exited: None,
        critical_note: Some("output was retained in the current session".to_string()),
    };
    let capture = "stdout line\nstderr line\n";

    let lines = vtcode_runloop::output::build_merged_command_output_lines(
        "run_pty_cmd",
        Some("long command"),
        capture,
        &outcome,
        vtcode_runloop::output::ToolDisplayStatus::Failure,
    );

    assert_eq!(lines[0], "• Ran long command");
    assert!(lines.contains(&"  └ stdout line".to_string()));
    assert!(lines.contains(&"    stderr line".to_string()));
    assert!(lines.contains(&"    output was retained in the current session".to_string()));
    assert_eq!(lines.iter().filter(|line| line.contains("stderr line")).count(), 1);
    assert_eq!(lines.iter().filter(|line| line.contains("exit code: 2")).count(), 1);
}

#[test]
fn completion_line_follows_exit_code_then_exit_state_then_status() {
    assert_eq!(
        compact_run_completion_line(Some(0), None, ToolDisplayStatus::Success).as_deref(),
        Some("✓ run completed (exit code: 0)")
    );
    assert_eq!(
        compact_run_completion_line(Some(0), Some(true), ToolDisplayStatus::Warning).as_deref(),
        Some("⚠ run completed with warnings (exit code: 0)")
    );
    assert_eq!(
        compact_run_completion_line(Some(-9), None, ToolDisplayStatus::Success).as_deref(),
        Some("✗ run error, exit code: -9")
    );
    assert_eq!(
        compact_run_completion_line(Some(i64::MIN), None, ToolDisplayStatus::Failure).as_deref(),
        Some("✗ run error, exit code: -9223372036854775808")
    );
    assert_eq!(compact_run_completion_line(None, Some(true), ToolDisplayStatus::Success).as_deref(), Some("✓ done"));
    assert_eq!(
        compact_run_completion_line(None, Some(true), ToolDisplayStatus::Warning).as_deref(),
        Some("⚠ done with warnings")
    );
    assert_eq!(compact_run_completion_line(None, Some(false), ToolDisplayStatus::Failure).as_deref(), Some("✗ failed"));
    assert_eq!(
        compact_run_completion_line(None, None, ToolDisplayStatus::Warning).as_deref(),
        Some("⚠ completed with warnings")
    );
    assert_eq!(compact_run_completion_line(None, None, ToolDisplayStatus::Success), None);
}

#[test]
fn command_header_collapses_whitespace_and_falls_back_to_tool_name() {
    assert_eq!(command_output_header("exec", Some("  cargo   test \n --all ")), "• Ran cargo test --all");
    assert_eq!(command_output_header("exec", Some("   ")), "• Ran exec");
    assert_eq!(command_output_header("exec", None), "• Ran exec");
    assert_eq!(extract_command_line(None, Some("raw"), Some("cmd")).as_deref(), Some("raw"));
    assert_eq!(extract_command_line(Some("c"), Some("raw"), None).as_deref(), Some("c"));
    assert_eq!(extract_command_line(None, None, None), None);
}

#[test]
fn successful_blocks_omit_the_closing_row_and_blank_notes() {
    let outcome = vtcode_runloop::output::CommandOutcome {
        exit_code: Some(0),
        is_exited: Some(true),
        critical_note: Some("   ".to_string()),
    };
    let lines = vtcode_runloop::output::build_merged_command_output_lines(
        "run",
        None,
        "a\n\nb",
        &outcome,
        vtcode_runloop::output::ToolDisplayStatus::Success,
    );
    assert_eq!(lines, vec!["• Ran run", "  └ a", "    ", "    b"]);
}

#[test]
fn failed_command_reports_viewer_rows_summary_and_error() {
    let report = non_success_report("run_pty_cmd", Some("cargo  test"), NonSuccess::Timeout, "took too long", true, true, true);
    assert_eq!(report.viewer_lines, Some(vec!["• Ran cargo test".to_string(), "    timed out: took too long".to_string()]));
    assert_eq!(report.summary_label, None);
    assert_eq!(report.summary_status, ToolDisplayStatus::Failure);
    assert_eq!(report.message, "Tool 'run_pty_cmd' timed out: took too long");
    assert!(report.message_is_error);

    let failed = non_success_report("read_file", None, NonSuccess::Failure, "missing", false, false, false);
    assert_eq!(failed.viewer_lines, None);
    assert_eq!(failed.summary_label, Some("error"));
    assert_eq!(failed.message, "Tool 'read_file' failure: missing");

    let cancelled = non_success_report("exec", Some("ls"), NonSuccess::Cancelled, "", true, true, false);
    assert_eq!(
        cancelled.viewer_lines,
        Some(vec!["• Ran ls".to_string(), "    warning: tool execution cancelled".to_string()])
    );
    assert_eq!(cancelled.summary_label, Some("cancelled"));
    assert_eq!(cancelled.summary_status, ToolDisplayStatus::Warning);
    assert_eq!(cancelled.message, "Tool execution cancelled");
    assert!(!cancelled.message_is_error);
}

#[test]
fn mcp_calls_are_routed_to_the_mcp_panel_by_tool_name() {
    assert_eq!(mcp_success_tool_name("mcp__calendar__list_events").as_deref(), Some("list_events"));
    assert_eq!(mcp_success_tool_name("mcp_search").as_deref(), Some("search"));
    assert_eq!(mcp_success_tool_name("mcp_a___b").as_deref(), Some("_b"));
    assert_eq!(mcp_success_tool_name("read_file"), None);
    assert!(matches!(success_route("mcp_x__y", true, true), SuccessRoute::Mcp(ref t) if t == "y"));
    assert!(matches!(success_route("task_tracker", true, true), SuccessRoute::TaskTracker));
    assert!(matches!(success_route("task_tracker", true, false), SuccessRoute::Render));
    assert!(matches!(success_route("read_file", false, true), SuccessRoute::Render));
}

#[test]
fn summary_headline_names_the_command_or_the_tool() {
    assert_eq!(summary_headline("run_pty_cmd", true, Some("cargo test")), "Ran cargo test");
    assert_eq!(summary_headline("run_pty_cmd", true, None), "Ran command");
    assert_eq!(summary_headline("read_file", false, Some("ignored")), "\u{2022} read_file");
    assert_eq!(summary_headline("Run command", false, None), "Ran command");
}

#[test]
fn git_diff_payloads_are_recognised_by_content_type() {
    assert!(is_git_diff_payload(Some("git_diff")));
    assert!(!is_git_diff_payload(Some("text")));
    assert!(!is_git_diff_payload(None));
}

#[test]
fn renderable_stream_content_needs_a_non_blank_stream() {
    let blank = StreamFields { output: Some("  \n".to_string()), stdout: None, stderr: Some(String::new()) };
    assert!(!has_renderable_stream_content(&blank));
    let err = StreamFields { output: None, stdout: None, stderr: Some("boom".to_string()) };
    assert!(has_renderable_stream_content(&err));
    assert!(!has_renderable_stream_content(&StreamFields::default()));
}

#[test]
fn plain_captures_split_like_lines_and_lines_hold_no_controls() {
    for text in ["a\nb\n\nc", "one line", "trailing\n", "", "\n\n"] {
        let expected: Vec<String> = text.lines().map(String::from).collect();
        assert_eq!(normalize_terminal_output_lines(text), expected);
    }
    for line in normalize_terminal_output_lines("x\r\ny\x1b[1mz\x08\rq\n") {
        assert!(!line.contains(['\n', '\r', '\x1b', '\u{8}']));
    }
}

fn facts(inline_ui: bool, streams_pty: bool, git_diff_payload: bool, has_spool_path: bool, content: bool)
    -> vtcode_runloop::output::ToolOutputFacts {
    vtcode_runloop::output::ToolOutputFacts {
        inline_ui,
        streams_pty,
        command_output_call: true,
        git_diff_payload,
        has_spool_path,
        has_renderable_content: content,
        compact_display: false,
    }
}

#[test]
fn streamed_commands_skip_the_full_render() {
    use_plans();
}

fn use_plans() {
    let live = facts(true, true, false, false, false);
    assert!(needs_complete_capture(live));
    let silent = tool_output_plan(live, false, ToolDisplayStatus::Success);
    assert!(silent.record_summary_line && silent.show_no_output && !silent.show_completion);
    assert_eq!(silent.viewer, ViewerLines::Pipe);
    assert!(!silent.render_full_output && !silent.render_summary_header);
    let failed = tool_output_plan(facts(true, true, false, true, true), false, ToolDisplayStatus::Failure);
    assert!(failed.show_completion && !failed.show_no_output);
    assert_eq!(failed.viewer, ViewerLines::MergedEmpty);
    let diff = tool_output_plan(facts(true, true, true, false, true), true, ToolDisplayStatus::Success);
    assert!(diff.render_full_output && !diff.render_summary_header);
    assert_eq!(diff.viewer, ViewerLines::MergedCapture);
    let plain = tool_output_plan(facts(false, false, false, false, true), false, ToolDisplayStatus::Success);
    assert_eq!(plain.viewer, ViewerLines::Nothing);
    assert!(plain.render_summary_header && plain.render_full_output);
    assert!(!needs_complete_capture(facts(true, false, false, false, true)));
}

#[test]
fn stream_sections_are_routed_by_kind_and_size() {
    use_routes();
}

fn use_routes() {
    assert_eq!(stream_route(true, true, 5, true), StreamRoute::RunCommandPreview);
    assert_eq!(stream_route(false, true, 2_000_001, true), StreamRoute::SpooledTooLarge);
    assert_eq!(stream_route(false, true, 2_000_000, false), StreamRoute::SpooledPreview);
    assert_eq!(stream_route(false, false, 10, true), StreamRoute::Diff);
    assert_eq!(stream_route(false, false, 10, false), StreamRoute::Lines);
}
