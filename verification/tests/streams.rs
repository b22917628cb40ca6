use vtcode_runloop::output::{INLINE_STREAM_MAX_LINES, stream_lines_window};
use vtcode_runloop::spool::{spooled_section_header, to_ascii_uppercase};
use vtcode_runloop::output::{HiddenLinesNoticeKind, collect_run_command_preview, hidden_lines_notice};

#[test]
fn run_command_preview_uses_head_tail_three_lines() {
    let content = "l1\nl2\nl3\nl4\nl5\nl6\nl7\n";
    let (preview, total, hidden) = collect_run_command_preview(content);
    assert_eq!(total, 7);
    assert_eq!(hidden, 1);
    assert_eq!(preview.as_slice(), ["l1", "l2", "l3", "l5", "l6", "l7"]);
}

#[test]
fn run_command_preview_keeps_short_output_unmodified() {
    let content = "l1\nl2\nl3\n";
    let (preview, total, hidden) = collect_run_command_preview(content);
    assert_eq!(total, 3);
    assert_eq!(hidden, 0);
    assert_eq!(preview.as_slice(), ["l1", "l2", "l3"]);
}

#[test]
fn hidden_lines_notice_preserves_existing_variants() {
    assert_eq!(
        hidden_lines_notice(2, HiddenLinesNoticeKind::CommandPreview),
        "    … +2 lines (/share html for full transcript)"
    );
    assert_eq!(hidden_lines_notice(1, HiddenLinesNoticeKind::Generic), "[... 1 line truncated ...]");
    assert_eq!(
        hidden_lines_notice(3, HiddenLinesNoticeKind::TokenBudget),
        "[... content truncated by token budget ...]"
    );
}

#[test]
fn run_command_preview_of_exactly_six_lines_hides_nothing() {
    let (preview, total, hidden) = collect_run_command_preview("a\nb\nc\nd\ne\nf");
    assert_eq!((total, hidden), (6, 0));
    assert_eq!(preview.len(), 6);
    let (preview, total, hidden) = collect_run_command_preview("");
    assert_eq!((preview.len(), total, hidden), (0, 0, 0));
}

#[test]
fn run_command_preview_of_long_output_counts_hidden_lines() {
    let content = (1..=20).map(|n| format!("line {n}\r\n")).collect::<String>();
    let (preview, total, hidden) = collect_run_command_preview(&content);
    assert_eq!((total, hidden), (20, 14));
    assert_eq!(preview, vec!["line 1", "line 2", "line 3", "line 18", "line 19", "line 20"]);
}

#[test]
fn generic_notice_uses_plural_for_many_lines() {
    assert_eq!(hidden_lines_notice(5, HiddenLinesNoticeKind::Generic), "[... 5 lines truncated ...]");
    assert_eq!(hidden_lines_notice(0, HiddenLinesNoticeKind::Generic), "[... 0 lines truncated ...]");
}

fn numbered(n: usize) -> Vec<String> {
    (0..n).map(|i| format!("line {i}")).collect()
}

#[test]
fn stream_window_keeps_the_last_lines_when_full_output_is_preferred() {
    let (kept, notice) = stream_lines_window(numbered(45), 45, false, true);
    assert_eq!(kept.len(), INLINE_STREAM_MAX_LINES);
    assert_eq!(kept[0], "line 15");
    assert_eq!(kept[29], "line 44");
    assert_eq!(notice.as_deref(), Some("[... 15 lines truncated ...]"));
}

#[test]
fn stream_window_counts_hidden_lines_of_a_truncated_selection() {
    let (kept, notice) = stream_lines_window(numbered(10), 11, true, false);
    assert_eq!(kept.len(), 10);
    assert_eq!(notice.as_deref(), Some("[... 1 line truncated ...]"));
    let (kept, notice) = stream_lines_window(numbered(10), 10, true, false);
    assert_eq!(kept.len(), 10);
    assert_eq!(notice, None);
    let (kept, notice) = stream_lines_window(numbered(45), 45, false, false);
    assert_eq!(kept.len(), 45);
    assert_eq!(notice, None);
    let (kept, notice) = stream_lines_window(Vec::new(), 9, true, false);
    assert!(kept.is_empty());
    assert_eq!(notice, None);
}

#[test]
fn spooled_section_header_announces_size_and_destination() {
    assert_eq!(
        spooled_section_header("stdout", 1200, 40, "/tmp/out.log"),
        vec!["[STDOUT] 1200 bytes, 40 lines \u{2014} spooled to: /tmp/out.log"]
    );
    assert_eq!(
        spooled_section_header("", 5, 1, "p"),
        vec!["[OUTPUT] 5 bytes, 1 lines \u{2014} spooled to: p"]
    );
    assert_eq!(
        spooled_section_header("x", 2_000_001, 3, "big.log"),
        vec!["Output too large (2000001 bytes), spooled to: big.log", "(Preview skipped due to size)"]
    );
    assert_eq!(to_ascii_uppercase("std\u{e9}rr-1"), "STD\u{e9}RR-1");
}
