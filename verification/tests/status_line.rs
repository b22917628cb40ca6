use vtcode_runloop::status::{
    BottomStatusLayout, GitRefresh, GitSummary, StatusInputs, StatusLayoutStep, StatusLineMode, StatusLineSettings,
    StatusTracker, apply_git_refresh, auto_status_components, auto_status_layout, begin_status_refresh,
    build_model_status_with_context_and_spooled, clear_input_status, clock_second_ticked_at, commit_status,
    invalidate_for_config_reload, join_status_components, model_display_is_cached, normalize_for_dedup, push_unique,
    reasoning_is_cached, record_command_output, remember_cleaned_reasoning, remember_model_display, status_layout,
    status_line_shows_auto_components, status_line_shows_clock, sync_terminal_title, update_clock,
    update_spooled_files_count, update_thread_context,
};

#[test]
fn status_line_shows_thread_context() {
    let status = build_model_status_with_context_and_spooled(Some("main"), false, None);

    assert_eq!(status.as_deref(), Some("main"));
}

#[test]
fn status_line_shows_spooled_files() {
    let status = build_model_status_with_context_and_spooled(None, false, Some(3));

    assert_eq!(status.as_deref(), Some("3 spooled"));
}

#[test]
fn status_line_shows_clock_when_set() {
    let state = StatusInputs { clock: Some("14:30:05".to_string()), ..Default::default() };
    let components = auto_status_components(None, false, None, &state);
    assert_eq!(components, vec!["14:30:05"]);
}

#[test]
fn status_components_are_ordered_and_deduplicated() {
    let state = StatusInputs {
        show_costs: true,
        balance: Some("$1.00".to_string()),
        cost_usd: Some("0.0123".to_string()),
        cache_hit_pct: Some("42".to_string()),
        clock: Some("main".to_string()),
    };
    let components = auto_status_components(Some("  main "), true, Some(2), &state);
    assert_eq!(components, vec!["CANCELLING...", "main", "Balance: $1.00", "Cost: $0.0123", "Cache: 42%", "2 spooled"]);
    assert_eq!(
        build_model_status_with_context_and_spooled(Some("t"), true, Some(0)).as_deref(),
        Some("CANCELLING... · t")
    );
    assert_eq!(build_model_status_with_context_and_spooled(None, false, None), None);
}

#[test]
fn push_unique_ignores_blank_and_whitespace_duplicates() {
    let mut values = Vec::new();
    push_unique(&mut values, "  a   b ".to_string());
    push_unique(&mut values, "a b".to_string());
    push_unique(&mut values, "   ".to_string());
    push_unique(&mut values, "c".to_string());
    assert_eq!(values, vec!["a   b", "c"]);
    assert_eq!(normalize_for_dedup("  x \t y\n z "), "x y z");
}

#[test]
fn join_and_layout() {
    assert_eq!(join_status_components(vec![" a ".to_string(), "".to_string(), "b".to_string()]).as_deref(), Some("a · b"));
    assert_eq!(join_status_components(vec!["  ".to_string()]), None);
    let layout = BottomStatusLayout { left: vec!["git".to_string()], right: vec![] };
    assert_eq!(layout.into_status(), (Some("git".to_string()), None));
}

#[test]
fn thread_context_updates_mark_dirty_only_on_change() {
    let mut state = StatusTracker::default();
    update_thread_context(&mut state, "main", 0);
    assert_eq!(state.thread_context.as_deref(), Some("main"));
    assert!(state.status_dirty);
    state.status_dirty = false;
    update_thread_context(&mut state, " main ", 0);
    assert!(!state.status_dirty);
    update_thread_context(&mut state, "main", 2);
    assert_eq!(state.thread_context.as_deref(), Some("main · 2 agents"));
    update_thread_context(&mut state, "", 1);
    assert_eq!(state.thread_context.as_deref(), Some("1 agent"));
    update_thread_context(&mut state, "  ", 0);
    assert_eq!(state.thread_context, None);
}

#[test]
fn update_spooled_files_count_sets_dirty_only_on_change() {
    let mut state = StatusTracker::default();
    update_spooled_files_count(&mut state, 3);
    assert!(state.status_dirty);
    state.status_dirty = false;
    update_spooled_files_count(&mut state, 3);
    assert!(!state.status_dirty);
    update_spooled_files_count(&mut state, 5);
    assert!(state.status_dirty);
}

#[test]
fn clock_ticks_once_per_second() {
    let mut state = StatusTracker::default();
    assert!(clock_second_ticked_at(&mut state, 10));
    assert!(!clock_second_ticked_at(&mut state, 10));
    assert!(clock_second_ticked_at(&mut state, 11));
}

#[test]
fn thread_context_keeps_zero_active_subagent_count_visible() {
    let mut state = StatusTracker::default();
    update_thread_context(&mut state, "main", 0);

    assert_eq!(state.thread_context.as_deref(), Some("main"));
}

#[test]
fn thread_context_shows_compact_agent_badge_when_present() {
    let mut state = StatusTracker::default();
    update_thread_context(&mut state, "main", 2);

    assert_eq!(state.thread_context.as_deref(), Some("main · 2 agents"));
}

#[test]
fn clock_second_ticked_returns_true_on_first_call() {
    let mut state = StatusTracker::default();
    assert!(clock_second_ticked_at(&mut state, 1_700_000_000), "first call must report a tick");
    assert!(state.last_clock_second.is_some(), "second should be tracked");
}

#[test]
fn clock_second_ticked_returns_false_within_same_second() {
    let mut state = StatusTracker::default();
    clock_second_ticked_at(&mut state, 1_700_000_000);
    assert!(!clock_second_ticked_at(&mut state, 1_700_000_000), "same-second call must not tick");
}

#[test]
fn title_dedup_fields_start_empty() {
    let state = StatusTracker::default();
    assert!(state.last_title_items.is_none(), "title items cache must start empty");
    assert!(state.last_title_thread_label.is_none(), "title thread label cache must start empty");
    assert!(state.last_title_git_branch.is_none(), "title git branch cache must start empty");
}

#[test]
fn config_reload_invalidates_status_refresh_gates() {
    let mut state = StatusTracker {
        last_git_refresh_ms: Some(5),
        last_command_refresh_ms: Some(6),
        command_value: Some("stale status".to_string()),
        ..Default::default()
    };

    invalidate_for_config_reload(&mut state);

    assert!(state.status_dirty, "configuration changes must force a status refresh");
    assert!(state.last_git_refresh_ms.is_none(), "Git visibility may have changed");
    assert!(state.last_command_refresh_ms.is_none(), "a command/config change must run immediately");
    assert!(state.command_value.is_none(), "stale command output must not survive reload");
}

#[test]
fn clearing_input_status_marks_the_cached_layout_for_resync() {
    let mut state = StatusTracker {
        left: Some("stale loading".to_string()),
        right: Some("model".to_string()),
        ..Default::default()
    };

    clear_input_status(&mut state);

    assert!(state.left.is_none());
    assert!(state.right.is_none());
    assert!(state.status_dirty);
    assert!(state.input_status_sync_pending);
}

fn settings(mode: StatusLineMode, command: Option<&str>, show_clock: bool, interval: u64) -> StatusLineSettings {
    StatusLineSettings {
        mode,
        command: command.map(str::to_string),
        show_clock,
        refresh_interval_ms: interval,
    }
}

#[test]
fn status_line_clock_respects_show_clock_config() {
    assert!(status_line_shows_clock(None), "unset config defaults to showing the clock");
    let on = settings(StatusLineMode::Auto, None, true, 0);
    assert!(status_line_shows_clock(Some(&on)));
    let off = settings(StatusLineMode::Auto, None, false, 0);
    assert!(!status_line_shows_clock(Some(&off)));
}

#[test]
fn clock_string_second_cleared_when_clock_hidden() {
    let mut state = StatusTracker { clock_string_second: Some(1234567890), ..Default::default() };
    state.inputs.clock = Some("14:30:05".to_string());

    let off = settings(StatusLineMode::Auto, None, false, 0);
    update_clock(&mut state, status_line_shows_clock(Some(&off)), 1234567891, "14:30:06");

    assert!(state.inputs.clock.is_none(), "clock must clear when disabled");
    assert!(state.clock_string_second.is_none(), "clock second must clear when disabled");
}

#[test]
fn clock_text_is_reused_within_its_second() {
    let mut state = StatusTracker::default();
    update_clock(&mut state, true, 10, "00:00:10");
    assert_eq!(state.inputs.clock.as_deref(), Some("00:00:10"));
    update_clock(&mut state, true, 10, "ignored");
    assert_eq!(state.inputs.clock.as_deref(), Some("00:00:10"));
    update_clock(&mut state, true, 11, "00:00:11");
    assert_eq!(state.inputs.clock.as_deref(), Some("00:00:11"));
    assert_eq!(state.clock_string_second, Some(11));
}

#[test]
fn auto_components_follow_the_mode_and_command() {
    assert!(status_line_shows_auto_components(None));
    assert!(status_line_shows_auto_components(Some(&settings(StatusLineMode::Unknown, None, true, 0))));
    assert!(status_line_shows_auto_components(Some(&settings(StatusLineMode::Command, Some("  "), true, 0))));
    assert!(!status_line_shows_auto_components(Some(&settings(StatusLineMode::Command, Some("echo hi"), true, 0))));
    assert!(!status_line_shows_auto_components(Some(&settings(StatusLineMode::Hidden, None, true, 0))));
}

#[test]
fn terminal_title_sync_only_sends_changed_values() {
    let mut state = StatusTracker::default();
    let title_items = vec!["directory".to_string(), "model".to_string()];

    state.thread_context = Some("main".to_string());
    state.git_summary = Some(GitSummary { branch: "feature/login".to_string(), dirty: false });

    let first = sync_terminal_title(&mut state, Some(&title_items));
    assert_eq!(first.items, Some(Some(title_items.clone())));
    assert_eq!(first.thread_label, Some(Some("main".to_string())));
    assert_eq!(first.git_branch, Some(Some("feature/login".to_string())));

    let second = sync_terminal_title(&mut state, Some(&title_items));
    assert!(second.items.is_none() && second.thread_label.is_none() && second.git_branch.is_none());

    state.git_summary.as_mut().expect("git summary set above").branch = "develop".to_string();
    let third = sync_terminal_title(&mut state, Some(&title_items));
    assert!(third.items.is_none() && third.thread_label.is_none());
    assert_eq!(third.git_branch, Some(Some("develop".to_string())));
}

#[test]
fn git_refresh_sets_the_branch_text_and_the_layout_drops_the_branch_component() {
    let mut state = StatusTracker::default();
    let auto = settings(StatusLineMode::Auto, None, true, 0);
    assert!(begin_status_refresh(&mut state, Some(&auto), 1_000));
    apply_git_refresh(
        &mut state,
        GitRefresh::Summary(GitSummary { branch: "main".to_string(), dirty: true }),
        false,
        1_000,
    );
    assert_eq!(state.git_left.as_deref(), Some("main*"));
    assert!(!begin_status_refresh(&mut state, Some(&auto), 2_999));
    assert!(begin_status_refresh(&mut state, Some(&auto), 3_000));

    state.thread_context = Some(" MAIN ".to_string());
    state.spooled_files_count = Some(2);
    let layout = auto_status_layout(&state);
    assert_eq!(layout.left, vec!["main*"]);
    assert_eq!(layout.right, vec!["2 spooled"]);

    apply_git_refresh(&mut state, GitRefresh::NoRepository, false, 4_000);
    assert!(state.git_left.is_none() && state.git_summary.is_none());
    apply_git_refresh(
        &mut state,
        GitRefresh::Summary(GitSummary { branch: String::new(), dirty: false }),
        true,
        5_000,
    );
    assert!(state.git_left.is_none());
    assert_eq!(state.last_git_refresh_ms, Some(5_000));
}

#[test]
fn status_layout_runs_the_command_when_due_and_reuses_its_output() {
    let mut state = StatusTracker::default();
    let command = settings(StatusLineMode::Command, Some(" status.sh "), true, 1_000);
    match status_layout(&mut state, Some(&command), 10_000) {
        StatusLayoutStep::RunCommand(c) => assert_eq!(c, "status.sh"),
        StatusLayoutStep::Ready(..) => panic!("command is due"),
    }
    let sides = record_command_output(&mut state, Some(Some("ok".to_string())));
    assert_eq!(sides, (Some("ok".to_string()), None));
    match status_layout(&mut state, Some(&command), 10_500) {
        StatusLayoutStep::Ready(left, right) => assert_eq!((left.as_deref(), right), (Some("ok"), None)),
        StatusLayoutStep::RunCommand(_) => panic!("command is not due"),
    }
    assert!(matches!(status_layout(&mut state, Some(&command), 11_000), StatusLayoutStep::RunCommand(_)));
    let failed = record_command_output(&mut state, None);
    assert_eq!(failed.0.as_deref(), Some("ok"));

    let hidden = settings(StatusLineMode::Hidden, None, true, 0);
    match status_layout(&mut state, Some(&hidden), 12_000) {
        StatusLayoutStep::Ready(left, right) => assert_eq!((left, right), (None, None)),
        StatusLayoutStep::RunCommand(_) => panic!("hidden"),
    }
    assert!(state.command_value.is_none() && state.last_command_refresh_ms.is_none());
}

#[test]
fn commit_status_sends_only_changes_or_pending_resends() {
    let mut state = StatusTracker::default();
    assert!(commit_status(&mut state, Some("a".to_string()), None));
    assert!(!commit_status(&mut state, Some("a".to_string()), None));
    clear_input_status(&mut state);
    assert!(commit_status(&mut state, Some("a".to_string()), None));
    assert!(!state.input_status_sync_pending);
}

#[test]
fn display_caches_follow_the_trimmed_input() {
    let mut state = StatusTracker::default();
    assert!(!model_display_is_cached(&state, "gpt-4o"));
    remember_model_display(&mut state, " gpt-4o ", "GPT-4o".to_string());
    assert!(model_display_is_cached(&state, "gpt-4o"));
    assert_eq!(state.cached_model_display.as_deref(), Some("GPT-4o"));
    assert!(!model_display_is_cached(&state, "other-model"));
    remember_cleaned_reasoning(&mut state, "high ", "high".to_string());
    assert!(reasoning_is_cached(&state, " high"));
    assert!(!reasoning_is_cached(&state, "low"));
}

#[test]
fn context_budget_counts_change_only_when_the_window_changes() {
    use_counts();
}

fn use_counts() {
    let step = vtcode_runloop::status::context_budget_step;
    let (first, changed) = step(None, 150, 100);
    assert!(changed);
    let counts = first.expect("limit given");
    assert_eq!((counts.used, counts.limit, counts.remaining), (100, 100, 0));
    let (same, changed) = step(first, 120, 100);
    assert_eq!(same, first);
    assert!(!changed);
    let (none, changed) = step(first, 10, 0);
    assert_eq!(none, None);
    assert!(changed);
    assert_eq!(step(None, 10, 0), (None, false));
}
