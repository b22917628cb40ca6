use std::collections::VecDeque;

use vtcode_runloop::queue::{InlineQueueState, QueuedInput, SubmittedInput};

type Attachment = (&'static str, &'static str);

fn plain(text: &str) -> SubmittedInput<Attachment> {
    SubmittedInput::new(text, Vec::new())
}

fn image(name: &'static str, mime: &'static str) -> Attachment {
    (name, mime)
}

#[test]
fn pushes_drain_in_fifo_order() {
    let mut queue = InlineQueueState::new();

    queue.push(plain("first"), Some("duck".to_string()));
    queue.push(plain("second"), Some("build".to_string()));
    queue.push(plain("third"), Some("review".to_string()));

    assert_eq!(queue.take_next_submission().map(|queued| queued.input.text).as_deref(), Some("first"));
    assert_eq!(queue.take_next_submission().map(|queued| queued.input.text).as_deref(), Some("second"));
    assert_eq!(queue.take_next_submission().map(|queued| queued.input.text).as_deref(), Some("third"));
}

#[test]
fn prefer_latest_next_promotes_existing_queue_without_reordering_it() {
    let mut queue = InlineQueueState {
        queued_inputs: VecDeque::from([
            QueuedInput::new(plain("first"), Some("duck".to_string())),
            QueuedInput::new(plain("second"), Some("build".to_string())),
            QueuedInput::new(plain("third"), Some("review".to_string())),
        ]),
        prefer_latest_once: false,
    };

    queue.prefer_latest_next();

    assert_eq!(queue.take_next_submission().map(|queued| queued.input.text).as_deref(), Some("third"));
    assert_eq!(queue.take_next_submission().map(|queued| queued.input.text).as_deref(), Some("first"));
    assert_eq!(queue.take_next_submission().map(|queued| queued.input.text).as_deref(), Some("second"));
}

#[test]
fn take_batched_submission_joins_consecutive_batchable_items() {
    let mut queue = InlineQueueState::<Attachment>::new();

    for text in ["first", "second", "third"] {
        queue.push(SubmittedInput::new(text, Vec::new()).batchable(), None);
    }

    let batched = queue.take_batched_submission().expect("batched submission");
    assert_eq!(batched.input.text, "first\n\nsecond\n\nthird");
    assert!(queue.take_batched_submission().is_none());
}

#[test]
fn take_batched_submission_stops_at_plain_enter_attachments_or_agent_change() {
    let mut queue = InlineQueueState::new();

    queue.push(plain("text one"), Some("planner".to_string()));
    queue.push(SubmittedInput::new("with image", vec![image("img", "image/png")]), None);
    queue.push(SubmittedInput::new("text two", Vec::new()).batchable(), None);

    let planner_item = queue.take_batched_submission().expect("planner submission");
    assert_eq!(planner_item.input.text, "text one");

    let with_image = queue.take_batched_submission().expect("attachment submission");
    assert_eq!(with_image.input.text, "with image");

    let batched = queue.take_batched_submission().expect("last submission");
    assert_eq!(batched.input.text, "text two");

    assert!(queue.take_batched_submission().is_none());
}

#[test]
fn take_batched_submission_runs_plain_enter_items_as_their_own_turns() {
    let mut queue = InlineQueueState::<Attachment>::new();

    queue.push(SubmittedInput::new("batch me", Vec::new()).batchable(), None);
    queue.push(plain("plain enter one"), None);
    queue.push(plain("plain enter two"), None);

    let first = queue.take_batched_submission().expect("first submission");
    assert_eq!(first.input.text, "batch me");

    let second = queue.take_batched_submission().expect("second submission");
    assert_eq!(second.input.text, "plain enter one");

    let third = queue.take_batched_submission().expect("third submission");
    assert_eq!(third.input.text, "plain enter two");

    assert!(queue.take_batched_submission().is_none());
}

#[test]
fn take_batched_submission_keeps_attachment_head_single() {
    let mut queue = InlineQueueState::new();

    queue.push(SubmittedInput::new("see image", vec![image("img", "image/png")]), None);
    queue.push(SubmittedInput::new("follow-up", Vec::new()).batchable(), None);

    let first = queue.take_batched_submission().expect("attachment head");
    assert_eq!(first.input.text, "see image");
    assert!(first.input.has_attachments());

    let second = queue.take_batched_submission().expect("follow-up");
    assert_eq!(second.input.text, "follow-up");
    assert!(queue.take_batched_submission().is_none());
}

#[test]
fn take_batched_submission_does_not_merge_after_prefer_latest_promotion() {
    let mut queue = InlineQueueState::<Attachment>::new();

    queue.push(SubmittedInput::new("first", Vec::new()).batchable(), None);
    queue.push(SubmittedInput::new("second", Vec::new()).batchable(), None);
    queue.push(SubmittedInput::new("third", Vec::new()).batchable(), None);

    queue.prefer_latest_next();
    let promoted = queue.take_batched_submission().expect("promoted submission");
    assert_eq!(promoted.input.text, "third");

    let batch = queue.take_batched_submission().expect("remaining batch");
    assert_eq!(batch.input.text, "first\n\nsecond");
    assert!(queue.take_batched_submission().is_none());
}

#[test]
fn take_batched_submission_skips_separator_for_whitespace_items() {
    let mut queue = InlineQueueState::<Attachment>::new();

    queue.push(SubmittedInput::new("first", Vec::new()).batchable(), None);
    queue.push(SubmittedInput::new("   ", Vec::new()).batchable(), None);
    queue.push(SubmittedInput::new("third", Vec::new()).batchable(), None);

    let batch = queue.take_batched_submission().expect("batch");
    assert_eq!(batch.input.text, "first   \n\nthird");
}

#[test]
fn take_batched_submission_caps_batch_size() {
    let mut queue = InlineQueueState::<Attachment>::new();

    for i in 0..100 {
        queue.push(SubmittedInput::new(&format!("msg {i}"), Vec::new()).batchable(), None);
    }

    let batch = queue.take_batched_submission().expect("batch");
    let item_count = batch.input.text.split("\n\n").count();
    assert!(item_count <= 32, "batch must be capped, got {item_count} items");
    assert!(queue.take_batched_submission().is_some(), "leftover items must still drain");
}

#[test]
fn take_batched_submission_caps_batch_bytes() {
    let mut queue = InlineQueueState::<Attachment>::new();
    let big = "x".repeat(40_000);
    queue.push(SubmittedInput::new(&big, Vec::new()).batchable(), None);
    queue.push(SubmittedInput::new(&big, Vec::new()).batchable(), None);
    let first = queue.take_batched_submission().expect("first");
    assert_eq!(first.input.text.len(), 40_000);
    let second = queue.take_batched_submission().expect("second");
    assert_eq!(second.input.text.len(), 40_000);
}

#[test]
fn queued_input_keeps_primary_agent_captured_at_queue_time() {
    let mut queue = InlineQueueState::<Attachment>::new();

    queue.push(plain("first"), Some("planner".to_string()));
    queue.push(plain("second"), Some("builder".to_string()));

    let first = queue.take_next_submission().expect("first queued input");
    assert_eq!(first.input.text, "first");
    assert_eq!(first.primary_agent.as_deref(), Some("planner"));

    let latest = queue.take_next_submission().expect("second queued input");
    assert_eq!(latest.input.text, "second");
    assert_eq!(latest.primary_agent.as_deref(), Some("builder"));
}

#[test]
fn queued_input_preserves_attachments_in_order() {
    let mut queue = InlineQueueState::new();

    let first = image("first", "image/png");
    let second = image("second", "image/jpeg");
    queue.push(SubmittedInput::new("see images", vec![first, second]), None);

    let queued = queue.take_next_submission().expect("queued input");
    assert_eq!(queued.input.text, "see images");
    assert_eq!(queued.input.attachments, vec![first, second]);
}

#[test]
fn preserve_on_interrupt_keeps_fifo_and_resets_promotion() {
    let mut queue = InlineQueueState::<Attachment>::new();

    queue.push(plain("first"), None);
    queue.push(plain("second"), None);
    queue.prefer_latest_next();

    let preserved = queue.preserve_on_interrupt();
    assert_eq!(preserved, 2);

    assert_eq!(queue.take_next_submission().map(|q| q.input.text).as_deref(), Some("first"));
    assert_eq!(queue.take_next_submission().map(|q| q.input.text).as_deref(), Some("second"));
    assert!(queue.take_next_submission().is_none());
}

#[test]
fn labels_and_editing() {
    let mut queue = InlineQueueState::<Attachment>::new();
    queue.push(plain("hello"), Some("  ".to_string()));
    queue.push(plain("world"), Some("agent".to_string()));
    assert_eq!(queue.display_labels(), vec!["hello".to_string(), "agent: world".to_string()]);
    queue.prefer_latest_next();
    assert_eq!(queue.edit_latest().as_deref(), Some("world"));
    assert!(!queue.prefer_latest_once);
    queue.clear();
    assert!(queue.take_next_submission().is_none());
    assert_eq!(queue.edit_latest(), None);
}
