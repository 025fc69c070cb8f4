use vibe_kanban::preferences::{
    DurablePreferenceError, PreferenceStore, ProjectNavigationOrder, UpdateProjectNavigationOrder,
    UpdateWorkspaceCardColor,
};
use vibe_kanban::saved_messages::{SavedChatMessageError, SavedMessageStore, UpsertSavedChatMessage};
use vibe_kanban::turns::{find_latest_session_info, TurnRecord};

fn store() -> PreferenceStore {
    PreferenceStore::new(ProjectNavigationOrder {
        project_ids: vec!["project-a".into()],
        revision: 1,
        updated_at_ms: 0,
    })
}

#[test]
fn project_order_rejects_stale_writes_and_keeps_history() {
    let mut prefs = store();
    let updated = prefs
        .update_project_order(
            &UpdateProjectNavigationOrder {
                project_ids: vec!["project-b".into(), "project-a".into()],
                expected_revision: 1,
            },
            10,
        )
        .unwrap();
    assert_eq!(updated.revision, 2);
    assert_eq!(updated.project_ids, vec!["project-b", "project-a"]);

    let stale = prefs.update_project_order(
        &UpdateProjectNavigationOrder {
            project_ids: vec!["project-a".into()],
            expected_revision: 1,
        },
        20,
    );
    assert!(matches!(stale, Err(DurablePreferenceError::Conflict)));
    assert_eq!(prefs.order_history.len(), 1);
    assert_eq!(
        prefs.get().project_order.project_ids,
        vec!["project-b", "project-a"]
    );
}

#[test]
fn workspace_colors_are_independent_and_revision_checked() {
    let mut prefs = store();
    let created = prefs
        .update_workspace_color(
            "workspace-a",
            &UpdateWorkspaceCardColor {
                color: Some("blue".into()),
                expected_revision: None,
            },
            1,
        )
        .unwrap()
        .unwrap();
    assert_eq!(created.revision, 1);

    let stale = prefs.update_workspace_color(
        "workspace-a",
        &UpdateWorkspaceCardColor {
            color: Some("red".into()),
            expected_revision: None,
        },
        2,
    );
    assert!(matches!(stale, Err(DurablePreferenceError::Conflict)));

    prefs
        .update_workspace_color(
            "workspace-a",
            &UpdateWorkspaceCardColor {
                color: None,
                expected_revision: Some(1),
            },
            3,
        )
        .unwrap();
    assert_eq!(prefs.color_history.len(), 2);
    assert!(prefs.get().workspace_colors.is_empty());
}

#[test]
fn colours_are_read_back_ordered_by_workspace() {
    let mut prefs = store();
    for (id, color) in [("w-c", "red"), ("w-a", "blue"), ("w-b", "green")] {
        prefs
            .update_workspace_color(
                id,
                &UpdateWorkspaceCardColor {
                    color: Some(color.into()),
                    expected_revision: None,
                },
                5,
            )
            .unwrap();
    }
    let changed = prefs
        .update_workspace_color(
            "w-c",
            &UpdateWorkspaceCardColor {
                color: Some("pink".into()),
                expected_revision: Some(1),
            },
            6,
        )
        .unwrap()
        .unwrap();
    assert_eq!(changed.revision, 2);
    let read = prefs.get();
    let ids: Vec<&str> = read
        .workspace_colors
        .iter()
        .map(|c| c.workspace_id.as_str())
        .collect();
    assert_eq!(ids, vec!["w-a", "w-b", "w-c"]);
    assert_eq!(read.workspace_colors[2].color, "pink");
    assert_eq!(prefs.color_history.len(), 4);
    assert_eq!(
        DurablePreferenceError::Conflict.message(),
        "Preference revision conflict"
    );
}

#[test]
fn saved_messages_are_independently_upserted_and_deleted() {
    let mut store = SavedMessageStore::new();
    let first = UpsertSavedChatMessage {
        id: "message-1".to_string(),
        title: " First ".to_string(),
        content: "one".to_string(),
        position: 0,
        expected_revision: None,
    };
    store.upsert(&first, 1).unwrap();
    let second = UpsertSavedChatMessage {
        id: "message-2".to_string(),
        title: "Second".to_string(),
        content: "two".to_string(),
        position: 1,
        expected_revision: None,
    };
    store.upsert(&second, 2).unwrap();

    let stale = UpsertSavedChatMessage {
        id: "message-1".to_string(),
        title: " First ".to_string(),
        content: "stale".to_string(),
        position: 0,
        expected_revision: None,
    };
    assert!(matches!(
        store.upsert(&stale, 3),
        Err(SavedChatMessageError::Conflict)
    ));

    let updated = UpsertSavedChatMessage {
        id: "message-1".to_string(),
        title: " First ".to_string(),
        content: "updated".to_string(),
        position: 0,
        expected_revision: Some(1),
    };
    store.upsert(&updated, 4).unwrap();

    let messages = store.find_all();
    assert_eq!(messages.len(), 2);
    assert_eq!(messages[0].title, "First");
    assert_eq!(messages[0].content, "updated");

    assert_eq!(store.delete("message-1", Some(2)).unwrap(), 1);
    let messages = store.find_all();
    assert_eq!(messages.len(), 1);
    assert_eq!(messages[0].id, "message-2");
}

#[test]
fn saved_message_deletes_need_the_current_revision() {
    let mut store = SavedMessageStore::new();
    let m = UpsertSavedChatMessage {
        id: "m".into(),
        title: "t".into(),
        content: "c".into(),
        position: 3,
        expected_revision: None,
    };
    store.upsert(&m, 1).unwrap();
    assert!(matches!(store.delete("m", None), Err(SavedChatMessageError::Conflict)));
    assert!(matches!(store.delete("m", Some(7)), Err(SavedChatMessageError::Conflict)));
    assert_eq!(store.delete("other", None).unwrap(), 0);
    assert!(matches!(store.delete("other", Some(1)), Err(SavedChatMessageError::Conflict)));
    assert_eq!(store.find_all().len(), 1);
}

#[test]
fn saved_messages_list_by_position_then_age_then_id() {
    let mut store = SavedMessageStore::new();
    for (id, position, now) in [("b", 1, 5), ("a", 1, 5), ("c", 0, 9), ("d", 1, 2)] {
        store
            .upsert(
                &UpsertSavedChatMessage {
                    id: id.into(),
                    title: id.into(),
                    content: String::new(),
                    position,
                    expected_revision: None,
                },
                now,
            )
            .unwrap();
    }
    let ids: Vec<String> = store.find_all().into_iter().map(|m| m.id).collect();
    assert_eq!(ids, vec!["c", "d", "a", "b"]);
}

fn turn(created: i64, coding_agent: bool, dropped: bool, session: Option<&str>) -> TurnRecord {
    TurnRecord {
        created_at_ms: created,
        coding_agent,
        dropped,
        agent_session_id: session.map(|s| s.to_string()),
        agent_message_id: session.map(|s| format!("{s}-msg")),
    }
}

#[test]
fn follow_ups_resume_the_latest_recorded_agent_session() {
    let turns = vec![
        turn(1, true, false, Some("s1")),
        turn(5, true, true, Some("dropped")),
        turn(4, false, false, Some("script")),
        turn(3, true, false, Some("s3")),
        turn(6, true, false, None),
    ];
    let info = find_latest_session_info(&turns).unwrap();
    assert_eq!(info.session_id, "s3");
    assert_eq!(info.message_id.as_deref(), Some("s3-msg"));
    assert!(find_latest_session_info(&vec![turn(2, true, false, None)]).is_none());
}
