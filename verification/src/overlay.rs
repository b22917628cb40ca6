//! Decisions of the modal-overlay wait loop: what each event from the UI
//! session does to the Ctrl-C state and whether the overlay closes.

use vstd::prelude::*;

verus! {

/// What the UI session handed the waiting overlay.
#[derive(Debug, Clone, Copy, PartialEq, Eq)]
pub enum OverlayEvent {
    /// Nothing yet: the loop is about to wait for the next event.
    BeforeWait,
    /// The event stream ended, or a Ctrl-C notification woke the wait.
    Ended,
    Interrupt,
    /// A transient submission; `accepted` tells whether the caller's mapping
    /// turned it into a result.
    Submitted { accepted: bool },
    TransientCancelled,
    Cancel,
    Exit,
    /// A bridge prompt that arrived while the overlay owned the input.
    WebmcpSubmit,
    Submit,
    QueueSubmit,
    OtherTransient,
    Other,
}

/// How a wait on an overlay ends.
#[derive(Debug, Clone, Copy, PartialEq, Eq)]
pub enum OverlayOutcome {
    Submitted,
    Cancelled,
    Interrupted,
    Deferred,
    Exit,
}

/// What to do with one event: request a local cancel, reset the Ctrl-C
/// state, requeue the event, and whether the overlay closes with an outcome
/// (`finish` is `Some`) or the loop waits again.
#[derive(Debug, Clone, Copy, PartialEq, Eq)]
pub struct OverlayStep {
    pub request_cancel: bool,
    pub reset_ctrl_c: bool,
    pub defer_event: bool,
    pub finish: Option<OverlayOutcome>,
}

pub open spec fn keep_waiting(reset: bool) -> OverlayStep {
    OverlayStep { request_cancel: false, reset_ctrl_c: reset, defer_event: false, finish: None }
}

pub open spec fn close_with(outcome: OverlayOutcome, reset: bool) -> OverlayStep {
    OverlayStep { request_cancel: false, reset_ctrl_c: reset, defer_event: false, finish: Some(outcome) }
}

/// The step for an event, given whether a cancel has been requested.
pub open spec fn overlay_step_spec(cancel_requested: bool, event: OverlayEvent) -> OverlayStep {
    match event {
        OverlayEvent::BeforeWait => if cancel_requested {
            close_with(OverlayOutcome::Interrupted, false)
        } else {
            keep_waiting(false)
        },
        OverlayEvent::Ended => if cancel_requested {
            close_with(OverlayOutcome::Interrupted, false)
        } else {
            close_with(OverlayOutcome::Exit, false)
        },
        OverlayEvent::Interrupt => OverlayStep {
            request_cancel: true,
            reset_ctrl_c: false,
            defer_event: false,
            finish: Some(OverlayOutcome::Interrupted),
        },
        OverlayEvent::Submitted { accepted } => if accepted {
            close_with(OverlayOutcome::Submitted, true)
        } else {
            keep_waiting(true)
        },
        OverlayEvent::TransientCancelled | OverlayEvent::Cancel => close_with(OverlayOutcome::Cancelled, true),
        OverlayEvent::Exit => close_with(OverlayOutcome::Exit, true),
        OverlayEvent::WebmcpSubmit => OverlayStep {
            request_cancel: false,
            reset_ctrl_c: false,
            defer_event: true,
            finish: Some(OverlayOutcome::Deferred),
        },
        _ => keep_waiting(false),
    }
}

/// Decides one turn of the overlay wait loop.
pub fn overlay_step(cancel_requested: bool, event: OverlayEvent) -> (s: OverlayStep)
    ensures
        s == overlay_step_spec(cancel_requested, event),
{
    match event {
        OverlayEvent::BeforeWait => if cancel_requested {
            OverlayStep {
                request_cancel: false,
                reset_ctrl_c: false,
                defer_event: false,
                finish: Some(OverlayOutcome::Interrupted),
            }
        } else {
            OverlayStep { request_cancel: false, reset_ctrl_c: false, defer_event: false, finish: None }
        },
        OverlayEvent::Ended => OverlayStep {
            request_cancel: false,
            reset_ctrl_c: false,
            defer_event: false,
            finish: Some(
                if cancel_requested {
                    OverlayOutcome::Interrupted
                } else {
                    OverlayOutcome::Exit
                },
            ),
        },
        OverlayEvent::Interrupt => OverlayStep {
            request_cancel: true,
            reset_ctrl_c: false,
            defer_event: false,
            finish: Some(OverlayOutcome::Interrupted),
        },
        OverlayEvent::Submitted { accepted } => OverlayStep {
            request_cancel: false,
            reset_ctrl_c: true,
            defer_event: false,
            finish: if accepted {
                Some(OverlayOutcome::Submitted)
            } else {
                None
            },
        },
        OverlayEvent::TransientCancelled | OverlayEvent::Cancel => OverlayStep {
            request_cancel: false,
            reset_ctrl_c: true,
            defer_event: false,
            finish: Some(OverlayOutcome::Cancelled),
        },
        OverlayEvent::Exit => OverlayStep {
            request_cancel: false,
            reset_ctrl_c: true,
            defer_event: false,
            finish: Some(OverlayOutcome::Exit),
        },
        OverlayEvent::WebmcpSubmit => OverlayStep {
            request_cancel: false,
            reset_ctrl_c: false,
            defer_event: true,
            finish: Some(OverlayOutcome::Deferred),
        },
        _ => OverlayStep { request_cancel: false, reset_ctrl_c: false, defer_event: false, finish: None },
    }
}

/// A pending cancel request always wins: whether the loop is about to wait
/// or the event stream has ended, the overlay closes as interrupted.
pub proof fn lemma_cancel_request_interrupts(event: OverlayEvent)
    requires
        event == OverlayEvent::BeforeWait || event == OverlayEvent::Ended,
    ensures
        overlay_step_spec(true, event).finish == Some(OverlayOutcome::Interrupted),
{
}

/// Only a user's answer resets the Ctrl-C state (a submission, a cancel or an
/// exit), and only an interrupt requests a cancel; every event that ends the
/// wait gives exactly one outcome, and the loop waits on only for events that
/// carry no decision.
pub proof fn lemma_step_effects(cancel_requested: bool, event: OverlayEvent)
    ensures
        overlay_step_spec(cancel_requested, event).reset_ctrl_c <==> (event is Submitted || event
            == OverlayEvent::TransientCancelled || event == OverlayEvent::Cancel || event == OverlayEvent::Exit),
        overlay_step_spec(cancel_requested, event).request_cancel <==> event == OverlayEvent::Interrupt,
        overlay_step_spec(cancel_requested, event).defer_event <==> event == OverlayEvent::WebmcpSubmit,
        overlay_step_spec(cancel_requested, event).finish is None <==> (event == OverlayEvent::Submit || event
            == OverlayEvent::QueueSubmit || event == OverlayEvent::OtherTransient || event == OverlayEvent::Other
            || (event == OverlayEvent::BeforeWait && !cancel_requested) || event == OverlayEvent::Submitted {
            accepted: false,
        }),
{
}

/// One thing the wait loop does to the UI session, in the order a step
/// lists them.
#[derive(Debug, Clone, Copy, PartialEq, Eq)]
pub enum OverlayEffect {
    RequestCancel,
    ResetCtrlC,
    DeferEvent,
    /// Close the transient overlay.
    CloseTransient,
    /// Redraw the screen after the overlay closed.
    ForceRedraw,
}

/// The effects of a step, in order: the cancel request, the Ctrl-C reset and
/// the requeued event where the step asks for them, then, when the wait
/// ends, closing the overlay and redrawing.
pub open spec fn step_effects(s: OverlayStep) -> Seq<OverlayEffect> {
    (if s.request_cancel {
        seq![OverlayEffect::RequestCancel]
    } else {
        seq![]
    }) + (if s.reset_ctrl_c {
        seq![OverlayEffect::ResetCtrlC]
    } else {
        seq![]
    }) + (if s.defer_event {
        seq![OverlayEffect::DeferEvent]
    } else {
        seq![]
    }) + (if s.finish is Some {
        seq![OverlayEffect::CloseTransient, OverlayEffect::ForceRedraw]
    } else {
        seq![]
    })
}

/// The effects the wait loop carries out for a step, in order.
pub fn overlay_step_effects(step: &OverlayStep) -> (r: Vec<OverlayEffect>)
    ensures
        r@ == step_effects(*step),
{
    let mut r: Vec<OverlayEffect> = Vec::new();
    if step.request_cancel {
        r.push(OverlayEffect::RequestCancel);
    }
    if step.reset_ctrl_c {
        r.push(OverlayEffect::ResetCtrlC);
    }
    if step.defer_event {
        r.push(OverlayEffect::DeferEvent);
    }
    if step.finish.is_some() {
        r.push(OverlayEffect::CloseTransient);
        r.push(OverlayEffect::ForceRedraw);
    }
    proof {
        assert(r@ =~= step_effects(*step));
    }
    r
}

/// The steps of a wait, one per turn: the cancel flag the loop read and the
/// event it got.
pub open spec fn wait_steps(turns: Seq<(bool, OverlayEvent)>) -> Seq<OverlayStep> {
    turns.map_values(|t: (bool, OverlayEvent)| overlay_step_spec(t.0, t.1))
}

/// The effects of a run of steps, in order.
pub open spec fn wait_effects(steps: Seq<OverlayStep>) -> Seq<OverlayEffect>
    decreases steps.len(),
{
    if steps.len() == 0 {
        seq![]
    } else {
        wait_effects(steps.drop_last()) + step_effects(steps.last())
    }
}

/// The effects hold no closing of the overlay and no redraw.
pub open spec fn keeps_overlay_open(e: Seq<OverlayEffect>) -> bool {
    forall|k: int|
        0 <= k < e.len() ==> #[trigger] e[k] != OverlayEffect::CloseTransient && e[k]
            != OverlayEffect::ForceRedraw
}

proof fn lemma_open_steps_keep_overlay_open(steps: Seq<OverlayStep>)
    requires
        forall|i: int| 0 <= i < steps.len() ==> (#[trigger] steps[i]).finish is None,
    ensures
        keeps_overlay_open(wait_effects(steps)),
    decreases steps.len(),
{
    if steps.len() > 0 {
        lemma_open_steps_keep_overlay_open(steps.drop_last());
        let a = wait_effects(steps.drop_last());
        let b = step_effects(steps.last());
        assert(steps.last().finish is None);
        assert(wait_effects(steps) == a + b);
        assert forall|k: int| 0 <= k < (a + b).len() implies (#[trigger] (a + b)[k])
            != OverlayEffect::CloseTransient && (a + b)[k] != OverlayEffect::ForceRedraw by {
            if k >= a.len() {
                assert((a + b)[k] == b[k - a.len()]);
            }
        }
    }
}

/// While the overlay waits, it is neither closed nor redrawn; a wait that
/// ends closes the overlay exactly once, as its second-to-last effect, and
/// redraws once, as its last, whatever the outcome (a deferred event
/// included).
pub proof fn lemma_wait_closes_once(turns: Seq<(bool, OverlayEvent)>)
    requires
        turns.len() > 0,
        forall|i: int| 0 <= i < turns.len() - 1 ==> (#[trigger] wait_steps(turns)[i]).finish is None,
        wait_steps(turns).last().finish is Some,
    ensures
        keeps_overlay_open(wait_effects(wait_steps(turns).drop_last())),
        wait_effects(wait_steps(turns)).len() >= 2,
        keeps_overlay_open(wait_effects(wait_steps(turns)).drop_last().drop_last()),
        wait_effects(wait_steps(turns)).drop_last().last() == OverlayEffect::CloseTransient,
        wait_effects(wait_steps(turns)).last() == OverlayEffect::ForceRedraw,
{
    let steps = wait_steps(turns);
    let open = steps.drop_last();
    assert forall|i: int| 0 <= i < open.len() implies (#[trigger] open[i]).finish is None by {
        assert(open[i] == steps[i]);
    }
    lemma_open_steps_keep_overlay_open(open);
    let a = wait_effects(open);
    let last = steps.last();
    let x = (if last.request_cancel {
        seq![OverlayEffect::RequestCancel]
    } else {
        seq![]
    }) + (if last.reset_ctrl_c {
        seq![OverlayEffect::ResetCtrlC]
    } else {
        seq![]
    }) + (if last.defer_event {
        seq![OverlayEffect::DeferEvent]
    } else {
        seq![]
    });
    assert(keeps_overlay_open(x));
    let all = wait_effects(steps);
    assert(all == a + x + seq![OverlayEffect::CloseTransient, OverlayEffect::ForceRedraw]);
    assert(all.drop_last().drop_last() =~= a + x);
    assert forall|k: int| 0 <= k < (a + x).len() implies (#[trigger] (a + x)[k])
        != OverlayEffect::CloseTransient && (a + x)[k] != OverlayEffect::ForceRedraw by {
        if k >= a.len() {
            assert((a + x)[k] == x[k - a.len()]);
        }
    }
}

} // verus!
