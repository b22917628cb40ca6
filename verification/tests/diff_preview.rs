use vtcode_runloop::output::{DiffRowKind, DiffRowPlan, diff_row_plan};
use vtcode_runloop::permission::{
    ArgField, DiffPreviewOutcome, EditArgs, MAX_DIFF_PREVIEW_LINES, diff_preview_lines, diff_preview_request,
};

fn no_args() -> EditArgs {
    EditArgs {
        old_str: ArgField::Missing,
        old_string: ArgField::Missing,
        new_str: ArgField::Missing,
        new_string: ArgField::Missing,
        content: ArgField::Missing,
        action: ArgField::Missing,
        path: ArgField::Missing,
        file_path: ArgField::Missing,
        target_path: ArgField::Missing,
    }
}

fn text(s: &str) -> ArgField {
    ArgField::Text(s.to_string())
}

#[test]
fn edit_file_request_compares_old_and_new_text() {
    let mut args = no_args();
    args.path = text("src/lib.rs");
    args.old_str = text("a");
    args.new_string = text("b");
    let req = diff_preview_request("edit_file", Some(&args)).expect("request");
    assert_eq!(req.path, "src/lib.rs");
    assert_eq!(req.before.as_deref(), Some("a"));
    assert_eq!(req.after, "b");
}

#[test]
fn write_file_request_has_no_before_text_and_falls_back_to_unknown_path() {
    let mut args = no_args();
    args.content = text("hello");
    let req = diff_preview_request("write_file", Some(&args)).expect("request");
    assert_eq!(req.path, "(unknown file)");
    assert_eq!(req.before, None);
    assert_eq!(req.after, "hello");
}

#[test]
fn file_operation_action_is_inferred_from_arguments() {
    let mut args = no_args();
    args.file_path = text("a.txt");
    args.old_string = text("x");
    args.new_str = text("y");
    let req = diff_preview_request("file_operation", Some(&args)).expect("edit request");
    assert_eq!(req.path, "a.txt");
    assert_eq!(req.before.as_deref(), Some("x"));

    let mut read = no_args();
    read.path = text("a.txt");
    assert!(diff_preview_request("file_operation", Some(&read)).is_none());

    let mut create = no_args();
    create.action = text("create");
    create.target_path = text("new.txt");
    create.content = text("c");
    let req = diff_preview_request("file_operation", Some(&create)).expect("create request");
    assert_eq!(req.path, "new.txt");
    assert_eq!(req.before, None);
}

#[test]
fn requests_need_an_edit_tool_arguments_and_texts() {
    let mut args = no_args();
    args.old_str = text("a");
    assert!(diff_preview_request("edit_file", Some(&args)).is_none());
    args.new_str = ArgField::Other;
    assert!(diff_preview_request("edit_file", Some(&args)).is_none());
    args.new_str = text("b");
    assert!(diff_preview_request("read_file", Some(&args)).is_none());
    assert!(diff_preview_request("edit_file", None).is_none());
}

#[test]
fn skipped_and_unchanged_previews_have_one_row() {
    assert_eq!(diff_preview_lines(DiffPreviewOutcome::Skipped(None)), vec!["diff: preview unavailable"]);
    assert_eq!(
        diff_preview_lines(DiffPreviewOutcome::Skipped(Some("binary file".to_string()))),
        vec!["diff: binary file"]
    );
    assert_eq!(diff_preview_lines(DiffPreviewOutcome::NoChanges), vec!["(no changes)"]);
}

#[test]
fn long_diffs_keep_head_and_tail_with_hidden_count() {
    let short: Vec<String> = (0..MAX_DIFF_PREVIEW_LINES).map(|i| format!("l{i}")).collect();
    assert_eq!(diff_preview_lines(DiffPreviewOutcome::Lines(short.clone())), short);

    let long: Vec<String> = (0..100).map(|i| format!("l{i}")).collect();
    let rows = diff_preview_lines(DiffPreviewOutcome::Lines(long));
    assert_eq!(rows.len(), 61);
    assert_eq!(rows[0], "l0");
    assert_eq!(rows[39], "l39");
    assert_eq!(rows[40], "\u{2026} +40 lines");
    assert_eq!(rows[41], "l80");
    assert_eq!(rows[60], "l99");
}

#[test]
fn diff_rows_lay_out_gutter_and_content_widths() {
    assert_eq!(
        diff_row_plan(DiffRowKind::Addition, Some(3), Some(7), 10, false, 4, Some(80), true),
        DiffRowPlan::Body { marker: '+', line_number: 7, prefix_width: 8, content_width: 72, truncate: false, word_chips: true }
    );
    assert_eq!(
        diff_row_plan(DiffRowKind::Deletion, Some(3), None, 30, false, 4, Some(20), true),
        DiffRowPlan::Body { marker: '-', line_number: 3, prefix_width: 8, content_width: 12, truncate: true, word_chips: false }
    );
    assert_eq!(
        diff_row_plan(DiffRowKind::Context, Some(3), None, 0, true, 2, None, false),
        DiffRowPlan::Body { marker: ' ', line_number: 3, prefix_width: 1, content_width: 149, truncate: false, word_chips: false }
    );
    assert_eq!(
        diff_row_plan(DiffRowKind::HunkHeader, None, None, 500, false, 4, Some(400), true),
        DiffRowPlan::Banner { max_width: 150 }
    );
    assert_eq!(
        diff_row_plan(DiffRowKind::Context, None, None, 1, false, 4, Some(3), true),
        DiffRowPlan::Body { marker: ' ', line_number: 0, prefix_width: 8, content_width: 0, truncate: true, word_chips: false }
    );
}
