use vibe_kanban::log_storage::{jsonl_line, migration_progress, scan_log_line, storage_step, LineOutcome, StreamMessage};

#[test]
fn each_stream_message_has_its_storage_step() {
    let out = storage_step(StreamMessage::Stdout);
    assert!(out.scan_stdout && out.append_line && !out.stop && !out.scan_patch);
    let err = storage_step(StreamMessage::Stderr);
    assert!(err.append_line && !err.scan_stdout);
    assert!(storage_step(StreamMessage::JsonPatch).scan_patch);
    assert!(!storage_step(StreamMessage::JsonPatch).append_line);
    assert!(storage_step(StreamMessage::SessionId).record_session_id);
    assert!(storage_step(StreamMessage::MessageId).record_message_id);
    assert!(storage_step(StreamMessage::Finished).stop);
    let ready = storage_step(StreamMessage::Ready);
    assert!(!ready.stop && !ready.append_line && !ready.scan_stdout && !ready.scan_patch);
}

#[test]
fn log_lines_end_with_one_newline() {
    assert_eq!(jsonl_line("{\"a\":1}".to_string()), "{\"a\":1}\n");
    assert_eq!(jsonl_line("{\"a\":1}\n".to_string()), "{\"a\":1}\n");
    assert_eq!(jsonl_line(String::new()), "\n");
}

#[test]
fn migration_progress_every_hundred() {
    assert_eq!(migration_progress(100, 400), Some("sqlite-migration:25".to_string()));
    assert_eq!(migration_progress(200, 0), Some("sqlite-migration:?".to_string()));
    assert_eq!(migration_progress(101, 400), None);
    assert_eq!(migration_progress(300, 300), Some("sqlite-migration:100".to_string()));
}

#[test]
fn unreadable_lines_are_skipped_with_three_warnings() {
    assert_eq!(scan_log_line("   ", false, 0), (LineOutcome::Skip, 0));
    assert_eq!(scan_log_line("{}", true, 2), (LineOutcome::Emit, 2));
    assert_eq!(scan_log_line("oops", false, 0), (LineOutcome::SkipAndWarn, 1));
    assert_eq!(scan_log_line("oops", false, 2), (LineOutcome::SkipAndWarn, 3));
    assert_eq!(scan_log_line("oops", false, 3), (LineOutcome::Skip, 4));
}
