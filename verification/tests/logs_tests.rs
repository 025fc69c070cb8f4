use vibe_kanban::logs::{
    apply_entry, coalesce_patch_ops, entry_index, page, HistoryCache, LogEntries, PatchKind,
    PatchOp, ReplayError, CACHE_BYTES, CACHE_TTL_MS, CACHE_TURNS, history_request, LogMessage, Replay,
};

fn op(kind: PatchKind, path: &str, value: &str) -> PatchOp {
    PatchOp {
        kind,
        path: path.into(),
        value: value.into(),
    }
}

fn new_id() -> u128 {
    uuid::Uuid::new_v4().as_u128()
}

#[test]
fn coalesce_patch_ops_keeps_last_write_for_each_path() {
    let ops = vec![
        op(PatchKind::Add, "/entries/5", "{\"value\":1}"),
        op(PatchKind::Replace, "/entries/5", "{\"value\":2}"),
        op(PatchKind::Add, "/entries/6", "{\"value\":3}"),
    ];

    let coalesced = coalesce_patch_ops(ops);

    assert_eq!(coalesced.len(), 2);
    assert_eq!(coalesced[0].path, "/entries/5");
    assert_eq!(coalesced[1].path, "/entries/6");
    match coalesced[0].kind {
        PatchKind::Replace => assert_eq!(coalesced[0].value, "{\"value\":2}"),
        other => panic!("expected replace op, got {other:?}"),
    }
}

#[test]
fn coalesce_patch_ops_preserves_last_operation_kind() {
    let ops = vec![
        op(PatchKind::Add, "/entries/7", "{\"value\":1}"),
        op(PatchKind::Remove, "/entries/7", ""),
    ];

    let coalesced = coalesce_patch_ops(ops);

    assert_eq!(coalesced.len(), 1);
    assert!(matches!(coalesced[0].kind, PatchKind::Remove));
    assert_eq!(coalesced[0].path, "/entries/7");
}

#[test]
fn long_turn_pages_from_tail_without_duplicates_or_skipping_sparse_indices() {
    let mut entries = LogEntries::new();
    for i in (0..10_000usize).filter(|i| i % 7 != 0) {
        entries.upsert(i, i.to_string());
    }
    let expected = entries.entries.iter().map(|e| e.0).collect::<Vec<_>>();
    let mut before = None;
    let mut loaded = Vec::new();
    loop {
        let result = page(&entries, before, 40);
        assert!(result.entries.len() <= 40);
        let mut indices = result.entries.iter().map(|e| e.0).collect::<Vec<_>>();
        indices.extend(loaded);
        loaded = indices;
        before = result.next_before;
        if before.is_none() {
            break;
        }
    }
    assert_eq!(loaded, expected);
}

#[test]
fn cache_evicts_by_size_count_and_revision() {
    let mut cache = HistoryCache::new();
    let keys = (0..6)
        .map(|_| (new_id(), "revision".to_string()))
        .collect::<Vec<_>>();
    let now: u64 = 1_000_000;
    for key in &keys {
        cache.insert(key.0, key.1.clone(), LogEntries::new(), 1, now);
    }
    assert_eq!(cache.turns.len(), CACHE_TURNS);
    assert!(cache.get(keys[0].0, &keys[0].1, now).is_none());
    assert!(cache.get(keys[5].0, &keys[5].1, now).is_some());
    cache.insert(keys[0].0, keys[0].1.clone(), LogEntries::new(), CACHE_BYTES, now);
    assert_eq!(cache.turns.len(), 1);
    cache.insert(keys[1].0, keys[1].1.clone(), LogEntries::new(), CACHE_BYTES + 1, now);
    assert!(cache.get(keys[1].0, &keys[1].1, now).is_none());
    let revision = (keys[0].0, "new revision".to_string());
    cache.insert(revision.0, revision.1.clone(), LogEntries::new(), 1, now);
    assert!(cache.get(keys[0].0, &keys[0].1, now).is_none());
    assert!(cache.get(revision.0, &revision.1, now).is_some());
    let later = cache.turns[0].created_ms + CACHE_TTL_MS;
    assert!(cache.get(revision.0, &revision.1, later).is_none());
}

#[test]
fn replay_returns_final_replacements_and_handles_removals() {
    let mut entries = LogEntries::new();
    let patch = vec![
        op(PatchKind::Add, "/entries/0", "\"old\""),
        op(PatchKind::Replace, "/entries/0", "\"final\""),
        op(PatchKind::Replace, "/entries/2", "\"upsert\""),
        op(PatchKind::Remove, "/entries/0", ""),
    ];
    for o in &patch {
        apply_entry(&mut entries, o).unwrap();
    }
    let result = page(&entries, None, 40);
    assert_eq!(result.entries.len(), 1);
    assert_eq!(result.entries[0].0, 2);
    assert_eq!(result.entries[0].1, "\"upsert\"");
    assert_eq!(result.next_before, None);
    assert!(page(&LogEntries::new(), None, 40).entries.is_empty());
}

#[test]
fn unsupported_paths_and_operations_are_refused() {
    let mut entries = LogEntries::new();
    assert_eq!(
        apply_entry(&mut entries, &op(PatchKind::Add, "/other/0", "1")),
        Err(ReplayError::UnsupportedPath)
    );
    assert_eq!(
        apply_entry(&mut entries, &op(PatchKind::Add, "/entries/x", "1")),
        Err(ReplayError::UnsupportedPath)
    );
    assert_eq!(
        apply_entry(&mut entries, &op(PatchKind::Other, "/entries/1", "1")),
        Err(ReplayError::UnsupportedOperation)
    );
    assert!(entries.entries.is_empty());
    assert_eq!(entry_index("/entries/42"), Some(42));
    assert_eq!(entry_index("/entries/"), None);
    assert_eq!(
        ReplayError::UnsupportedPath.message(),
        "Unsupported conversation patch path"
    );
}

#[test]
fn pages_give_the_newest_entries_first_and_point_at_older_ones() {
    let mut entries = LogEntries::new();
    for i in [1usize, 3, 5, 9] {
        entries.upsert(i, format!("{i}"));
    }
    let newest = page(&entries, None, 2);
    assert_eq!(
        newest.entries.iter().map(|e| e.0).collect::<Vec<_>>(),
        vec![5, 9]
    );
    assert_eq!(newest.next_before, Some(5));
    let older = page(&entries, Some(5), 2);
    assert_eq!(
        older.entries.iter().map(|e| e.0).collect::<Vec<_>>(),
        vec![1, 3]
    );
    assert_eq!(older.next_before, None);
}

#[test]
fn a_cached_revision_reads_back_what_was_written() {
    let mut cache = HistoryCache::new();
    let mut entries = LogEntries::new();
    entries.upsert(4, "\"four\"".into());
    cache.insert(1, "r1".into(), entries, 10, 0);
    let got = cache.get(1, "r1", 5).unwrap();
    assert_eq!(got.entries, vec![(4usize, "\"four\"".to_string())]);
    assert!(cache.get(1, "r2", 5).is_none());
}

#[test]
fn replay_applies_patches_and_numbers_script_output() {
    let mut r = Replay::new();
    r.step(
        LogMessage::Patch(vec![op(PatchKind::Add, "/entries/0", "\"a\""), op(PatchKind::Add, "/entries/1", "\"b\"")]),
        false,
    )
    .unwrap();
    r.step(LogMessage::Patch(vec![op(PatchKind::Remove, "/entries/0", "")]), false).unwrap();
    r.step(LogMessage::Stdout("ignored".to_string()), false).unwrap();
    r.step(LogMessage::Other, false).unwrap();
    assert_eq!(r.entries.entries, vec![(1, "\"b\"".to_string())]);
    assert_eq!(r.raw_index, 0);
    assert!(!r.finished);
    r.step(LogMessage::Finished, false).unwrap();
    assert!(r.finished);

    let mut s = Replay::new();
    s.step(LogMessage::Stdout("hi".to_string()), true).unwrap();
    s.step(LogMessage::Stderr("oops".to_string()), true).unwrap();
    assert_eq!(s.raw_index, 2);
    assert_eq!(
        s.entries.entries,
        vec![
            (0, "{\"content\":\"hi\",\"type\":\"STDOUT\"}".to_string()),
            (1, "{\"content\":\"oops\",\"type\":\"STDERR\"}".to_string()),
        ]
    );
}

#[test]
fn replay_refuses_bad_patches() {
    let mut r = Replay::new();
    assert_eq!(
        r.step(LogMessage::Patch(vec![op(PatchKind::Add, "/entries/0", "1"), op(PatchKind::Add, "/x", "2")]), false),
        Err(ReplayError::UnsupportedPath)
    );
    let mut q = Replay::new();
    assert_eq!(
        q.step(LogMessage::Patch(vec![op(PatchKind::Other, "/entries/0", "1")]), false),
        Err(ReplayError::UnsupportedOperation)
    );
}

#[test]
fn history_requests_need_a_finished_process_and_bounded_limit() {
    assert_eq!(history_request(true, None), Err("Running logs must use the live stream"));
    assert_eq!(history_request(false, None), Ok(40));
    assert_eq!(history_request(false, Some(0)), Ok(1));
    assert_eq!(history_request(false, Some(500)), Ok(200));
    assert_eq!(history_request(false, Some(7)), Ok(7));
}

#[test]
fn raw_output_entries_escape_like_json_strings() {
    let mut s = Replay::new();
    s.step(LogMessage::Stdout("a\"b\\c\n\t\u{1}\u{7f}é".to_string()), true).unwrap();
    assert_eq!(
        s.entries.entries,
        vec![(0, "{\"content\":\"a\\\"b\\\\c\\n\\t\\u0001\u{7f}é\",\"type\":\"STDOUT\"}".to_string())]
    );
}
