use vibe_kanban::log_stream::{PatchBuffer, StreamEvent, PATCH_FLUSH_WINDOW_MS};
use vibe_kanban::logs::{PatchKind, PatchOp};

fn op(kind: PatchKind, path: &str, value: &str) -> PatchOp {
    PatchOp { kind, path: path.into(), value: value.into() }
}

fn paths(ops: &[PatchOp]) -> Vec<String> {
    ops.iter().map(|o| o.path.clone()).collect()
}

#[test]
fn patches_in_a_window_are_sent_once_coalesced() {
    assert_eq!(PATCH_FLUSH_WINDOW_MS, 50);
    let mut b = PatchBuffer::new();
    let first = b.on_event(StreamEvent::Patch(vec![op(PatchKind::Add, "/entries/5", "1")]));
    assert!(first.arm_timer && first.send_patch.is_none() && !first.stop);
    let second = b.on_event(StreamEvent::Patch(vec![
        op(PatchKind::Replace, "/entries/5", "2"),
        op(PatchKind::Add, "/entries/6", "3"),
    ]));
    assert!(!second.arm_timer && second.send_patch.is_none());
    let flushed = b.on_event(StreamEvent::FlushTimer);
    let sent = flushed.send_patch.unwrap();
    assert_eq!(paths(&sent), vec!["/entries/5".to_string(), "/entries/6".to_string()]);
    assert_eq!(sent[0].value, "2");
    assert!(b.ops.is_empty() && !b.timer_armed);
    assert!(b.on_event(StreamEvent::FlushTimer).send_patch.is_none());
}

#[test]
fn other_messages_and_endings_flush_first() {
    let mut b = PatchBuffer::new();
    b.on_event(StreamEvent::Patch(vec![op(PatchKind::Add, "/entries/1", "x")]));
    let fwd = b.on_event(StreamEvent::Message);
    assert!(fwd.forward_message && fwd.send_patch.is_some() && !fwd.stop);
    assert!(!b.on_event(StreamEvent::ClientMessage).stop);
    b.on_event(StreamEvent::Patch(vec![op(PatchKind::Remove, "/entries/1", "")]));
    let err = b.on_event(StreamEvent::StreamError);
    assert!(err.send_finished && err.stop && err.send_patch.is_some());
    let end = b.on_event(StreamEvent::StreamEnd);
    assert!(end.stop && end.send_patch.is_none() && !end.send_finished);
    let gone = b.on_event(StreamEvent::ClientGone);
    assert!(gone.stop);
}
