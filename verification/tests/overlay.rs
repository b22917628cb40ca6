use vtcode_runloop::overlay::{overlay_step_effects, OverlayEffect};
use vtcode_runloop::overlay::{OverlayEvent, OverlayOutcome, OverlayStep, overlay_step};

fn step(finish: Option<OverlayOutcome>, reset: bool) -> OverlayStep {
    OverlayStep { request_cancel: false, reset_ctrl_c: reset, defer_event: false, finish }
}

#[test]
fn pending_cancel_interrupts_before_waiting_and_after_stream_end() {
    assert_eq!(overlay_step(true, OverlayEvent::BeforeWait), step(Some(OverlayOutcome::Interrupted), false));
    assert_eq!(overlay_step(false, OverlayEvent::BeforeWait), step(None, false));
    assert_eq!(overlay_step(true, OverlayEvent::Ended), step(Some(OverlayOutcome::Interrupted), false));
    assert_eq!(overlay_step(false, OverlayEvent::Ended), step(Some(OverlayOutcome::Exit), false));
}

#[test]
fn interrupt_requests_a_local_cancel() {
    let s = overlay_step(false, OverlayEvent::Interrupt);
    assert!(s.request_cancel);
    assert!(!s.reset_ctrl_c);
    assert_eq!(s.finish, Some(OverlayOutcome::Interrupted));
}

#[test]
fn submissions_reset_ctrl_c_and_close_only_when_accepted() {
    assert_eq!(
        overlay_step(false, OverlayEvent::Submitted { accepted: true }),
        step(Some(OverlayOutcome::Submitted), true)
    );
    assert_eq!(overlay_step(false, OverlayEvent::Submitted { accepted: false }), step(None, true));
}

#[test]
fn cancel_and_exit_close_the_overlay() {
    assert_eq!(overlay_step(false, OverlayEvent::Cancel), step(Some(OverlayOutcome::Cancelled), true));
    assert_eq!(overlay_step(true, OverlayEvent::TransientCancelled), step(Some(OverlayOutcome::Cancelled), true));
    assert_eq!(overlay_step(false, OverlayEvent::Exit), step(Some(OverlayOutcome::Exit), true));
}

#[test]
fn bridge_prompts_are_deferred_and_other_events_are_ignored() {
    let s = overlay_step(false, OverlayEvent::WebmcpSubmit);
    assert!(s.defer_event);
    assert_eq!(s.finish, Some(OverlayOutcome::Deferred));
    for e in [OverlayEvent::Submit, OverlayEvent::QueueSubmit, OverlayEvent::OtherTransient, OverlayEvent::Other] {
        assert_eq!(overlay_step(true, e), step(None, false));
    }
}

#[test]
fn step_effects_close_and_redraw_only_when_the_wait_ends() {
    let defer = overlay_step_effects(&overlay_step(false, OverlayEvent::WebmcpSubmit));
    assert_eq!(
        defer,
        vec![OverlayEffect::DeferEvent, OverlayEffect::CloseTransient, OverlayEffect::ForceRedraw]
    );
    let interrupt = overlay_step_effects(&overlay_step(false, OverlayEvent::Interrupt));
    assert_eq!(
        interrupt,
        vec![OverlayEffect::RequestCancel, OverlayEffect::CloseTransient, OverlayEffect::ForceRedraw]
    );
    assert!(overlay_step_effects(&overlay_step(false, OverlayEvent::Submit)).is_empty());
    assert_eq!(
        overlay_step_effects(&overlay_step(false, OverlayEvent::Submitted { accepted: false })),
        vec![OverlayEffect::ResetCtrlC]
    );
}
