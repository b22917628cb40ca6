use vtcode_runloop::limits::{
    LimitSelection, LimitStep, PromptOutcome, SafetyAnswer, SessionLimitGate, limit_prompt_answer,
    session_limit_grant_message, tool_loop_grant_options, tool_loop_search_value,
};

#[test]
fn tool_loop_grant_options_fit_remaining_headroom() {
    assert_eq!(tool_loop_grant_options(0), Vec::<usize>::new());
    assert_eq!(tool_loop_grant_options(50), vec![50, 20, 10]);
    assert_eq!(tool_loop_grant_options(100), vec![50, 20, 10]);
    assert_eq!(tool_loop_grant_options(60), vec![50, 20, 10]);
}

#[test]
fn tool_loop_grant_options_offer_exact_remainder_below_max_candidate() {
    assert_eq!(tool_loop_grant_options(40), vec![40, 20, 10]);
    assert_eq!(tool_loop_grant_options(25), vec![25, 20, 10]);
    assert_eq!(tool_loop_grant_options(15), vec![15, 10]);
    assert_eq!(tool_loop_grant_options(20), vec![20, 10]);
    assert_eq!(tool_loop_grant_options(10), vec![10]);
}

#[test]
fn tool_loop_grant_options_offer_single_remainder_when_below_smallest_candidate() {
    assert_eq!(tool_loop_grant_options(9), vec![9]);
    assert_eq!(tool_loop_grant_options(5), vec![5]);
    assert_eq!(tool_loop_grant_options(1), vec![1]);
}

#[test]
fn tool_loop_search_value_keeps_number_word_aliases() {
    assert!(tool_loop_search_value(50).contains("fifty"));
    assert!(tool_loop_search_value(20).contains("twenty"));
    assert!(tool_loop_search_value(10).contains("ten"));
    assert!(tool_loop_search_value(40).contains("40"));
}

#[test]
fn tool_loop_search_value_exact_text() {
    assert_eq!(tool_loop_search_value(50), "increase 50 fifty plus more continue");
    assert_eq!(tool_loop_search_value(7), "increase 7 plus more continue");
}

#[test]
fn grant_options_never_exceed_headroom() {
    for remaining in 0..200usize {
        let options = tool_loop_grant_options(remaining);
        assert_eq!(options.is_empty(), remaining == 0);
        for pair in options.windows(2) {
            assert!(pair[0] > pair[1]);
        }
        assert!(options.iter().all(|option| *option > 0 && *option <= remaining));
    }
}

#[test]
fn session_limit_prompt_offers_two_grants_and_deny() {
    let prompt = vtcode_runloop::limits::session_limit_prompt(200, None);
    assert_eq!(prompt.title, "Session Limit Reached");
    assert_eq!(
        prompt.lines,
        vec![
            "Session tool limit reached: 200",
            "Current agent: unknown",
            "Grant an increase to retry the pending tool call in this turn.",
            "Deny stops the call; reuse the outputs already gathered for the next response.",
        ]
    );
    let titles = prompt.options.iter().map(|o| o.title.as_str()).collect::<Vec<_>>();
    assert_eq!(titles, vec!["+100 tool calls", "+50 tool calls", "", "Deny"]);
    assert_eq!(prompt.options[0].selection, Some(vtcode_runloop::limits::LimitSelection::Increase(100)));
    assert_eq!(prompt.options[3].selection, Some(vtcode_runloop::limits::LimitSelection::Deny));
    assert_eq!(prompt.default_increment, 100);
}

#[test]
fn tool_loop_prompt_lists_fitting_grants_and_marks_the_one_reaching_the_cap() {
    let prompt = vtcode_runloop::limits::tool_loop_limit_prompt(80, 110, Some("coder")).expect("headroom left");
    assert_eq!(prompt.lines[0], "Maximum tool loops reached: 80 (cap 110, 30 remaining)");
    assert_eq!(prompt.lines[1], "Current agent: coder");
    let titles = prompt.options.iter().map(|o| o.title.as_str()).collect::<Vec<_>>();
    assert_eq!(titles, vec!["+30 tool loops", "+20 tool loops", "+10 tool loops", "", "Stop"]);
    assert_eq!(prompt.options[0].subtitle.as_deref(), Some("Continue with 30 more tool loops (reaches cap)"));
    assert_eq!(prompt.options[1].subtitle.as_deref(), Some("Continue with 20 more tool loops"));
    assert_eq!(prompt.default_increment, 30);
    assert!(vtcode_runloop::limits::tool_loop_limit_prompt(100, 100, None).is_none());
    assert!(vtcode_runloop::limits::tool_loop_limit_prompt(120, 100, None).is_none());
}

#[test]
fn limit_prompt_answers_settle_or_reshow() {
    assert_eq!(limit_prompt_answer(PromptOutcome::Submitted(LimitSelection::Increase(50))), Some(Some(50)));
    assert_eq!(limit_prompt_answer(PromptOutcome::Submitted(LimitSelection::Deny)), Some(None));
    assert_eq!(limit_prompt_answer(PromptOutcome::Cancelled), Some(None));
    assert_eq!(limit_prompt_answer(PromptOutcome::Exit), Some(None));
    assert_eq!(limit_prompt_answer(PromptOutcome::Deferred), None);
}

#[test]
fn session_limit_gate_gives_up_after_five_prompts() {
    let mut gate = SessionLimitGate::new(false);
    for attempt in 1..=5u32 {
        match gate.on_answer(SafetyAnswer::SessionLimitReached { max: 10 }) {
            LimitStep::PromptIncrease { max } => assert_eq!(max, 10),
            other => panic!("attempt {attempt} should prompt, got {other:?}"),
        }
        match gate.on_prompt_answer(Some(50)) {
            LimitStep::RecordGrant { increment, attempts, auto_granted } => {
                assert_eq!((increment, attempts, auto_granted), (50, attempt, false));
            }
            other => panic!("grant expected, got {other:?}"),
        }
    }
    assert!(matches!(gate.on_answer(SafetyAnswer::SessionLimitReached { max: 10 }), LimitStep::NotIncreased));
    assert!(matches!(gate.on_answer(SafetyAnswer::Passed), LimitStep::Proceed));
    assert!(matches!(gate.on_prompt_answer(None), LimitStep::NotIncreased));
}

#[test]
fn session_limit_gate_auto_grants_until_headroom_runs_out() {
    let mut gate = SessionLimitGate::new(true);
    assert!(matches!(gate.on_answer(SafetyAnswer::SessionLimitReached { max: 10 }), LimitStep::ClaimAutoGrant));
    assert!(matches!(
        gate.on_auto_grant(25),
        LimitStep::RecordGrant { increment: 25, attempts: 1, auto_granted: true }
    ));
    assert!(matches!(gate.on_auto_grant(0), LimitStep::NotIncreased));
    match gate.on_answer(SafetyAnswer::NeedsApproval("risky".to_string())) {
        LimitStep::NeedsApproval(j) => assert_eq!(j, "risky"),
        other => panic!("approval expected, got {other:?}"),
    }
    assert!(matches!(gate.on_answer(SafetyAnswer::Refused), LimitStep::Refused));
}

#[test]
fn grant_messages_name_who_granted() {
    assert_eq!(
        session_limit_grant_message(Some("coder"), "read_file", 50, 150, false),
        "Current agent coder granted +50 session tool calls (limit 150); retrying the pending read_file call in this turn. Reuse existing tool outputs for subsequent calls."
    );
    assert_eq!(
        session_limit_grant_message(None, "grep", 25, 75, true),
        "Full-auto auto-granted +25 session tool calls to current agent unknown (limit 75); retrying the pending grep call in this turn. Reuse existing tool outputs for subsequent calls."
    );
}
