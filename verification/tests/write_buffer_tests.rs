use vibe_kanban::write_buffer::UiPreferencesWriteBuffer;

#[test]
fn burst_of_edits_starts_one_flush_with_last_edit() {
    let mut buffer = UiPreferencesWriteBuffer::new();
    assert!(buffer.record(7, "first".to_string()));
    assert!(!buffer.record(7, "second".to_string()));
    assert!(buffer.record(8, "other".to_string()));
    assert_eq!(buffer.take(7), Some("second".to_string()));
    assert_eq!(buffer.take(7), None);
    assert_eq!(buffer.take(8), Some("other".to_string()));
}

#[test]
fn edit_after_flush_starts_a_new_flush() {
    let mut buffer = UiPreferencesWriteBuffer::new();
    assert!(buffer.record(1, "a".to_string()));
    assert_eq!(buffer.take(1), Some("a".to_string()));
    assert!(buffer.record(1, "b".to_string()));
}
