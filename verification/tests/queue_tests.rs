use vibe_kanban::queue::{
    should_queue_when_steer_is_unavailable, BaseCodingAgent, DraftFollowUpData, ExecutorConfig, QueueStatus,
    QueuedMessageService,
};

fn draft(message: &str) -> DraftFollowUpData {
    DraftFollowUpData {
        message: message.to_string(),
        executor_config: ExecutorConfig { executor: BaseCodingAgent::Codex, variant: None },
    }
}

#[test]
fn unavailable_codex_steer_never_falls_back_to_queue() {
    assert!(!should_queue_when_steer_is_unavailable(&BaseCodingAgent::Codex));
}

#[test]
fn non_codex_follow_up_keeps_queue_fallback() {
    assert!(should_queue_when_steer_is_unavailable(&BaseCodingAgent::ClaudeCode));
}

#[test]
fn takes_oldest_capacity_queue_without_consuming_normal_queue() {
    let mut service = QueuedMessageService::new();
    let normal_session_id = uuid::Uuid::new_v4().as_u128();
    let newer_capacity_session_id = uuid::Uuid::new_v4().as_u128();
    let older_capacity_session_id = uuid::Uuid::new_v4().as_u128();
    let now: i128 = 1_700_000_000_000_000_000;

    service.queue_message(normal_session_id, draft("normal"), now);
    service.queue_for_capacity(newer_capacity_session_id, draft("newer"), now);
    service.queue_for_capacity(older_capacity_session_id, draft("older"), now - 60_000_000_000);

    let taken = service.take_oldest_capacity_queued().expect("capacity message exists");

    assert_eq!(taken.session_id, older_capacity_session_id);
    assert_eq!(taken.data.message, "older");
    assert!(taken.wait_for_capacity);
    assert!(service.get_queued(normal_session_id).is_some());
    assert!(service.get_queued(newer_capacity_session_id).is_some());
    assert!(service.get_queued(older_capacity_session_id).is_none());
}

#[test]
fn queued_follow_ups_are_combined_in_order() {
    let mut service = QueuedMessageService::new();
    let s = 7u128;
    service.queue_message(s, draft("first"), 1);
    let q = service.queue_message(s, draft("second"), 2);
    assert_eq!(q.messages.len(), 2);
    assert_eq!(q.queued_at_ns, 1);
    let data = q.into_follow_up_data();
    assert_eq!(
        data.message,
        "The user sent these follow-up messages while the previous turn was still running. Address them in order.\n\nFollow-up 1:\nfirst\n\nFollow-up 2:\nsecond"
    );
    let single = service.take_queued(s).unwrap();
    assert_eq!(single.messages.len(), 2);
    assert!(!service.has_queued(s));
    assert!(matches!(service.get_status(s), QueueStatus::Empty));
}

#[test]
fn a_single_follow_up_is_sent_as_it_is() {
    let mut service = QueuedMessageService::new();
    let q = service.queue_message(3, draft("only"), 5);
    assert_eq!(q.into_follow_up_data().message, "only");
    assert!(matches!(service.get_status(3), QueueStatus::Queued { .. }));
    assert!(service.cancel_queued(3).is_some());
    assert!(service.cancel_queued(3).is_none());
}

fn claude_draft(message: &str) -> DraftFollowUpData {
    DraftFollowUpData {
        message: message.to_string(),
        executor_config: ExecutorConfig { executor: BaseCodingAgent::ClaudeCode, variant: None },
    }
}

#[test]
fn follow_up_route_cancels_without_consumer_and_steers_or_queues() {
    let mut service = QueuedMessageService::new();
    service.queue_message(1, claude_draft("old"), 10);
    assert_eq!(
        service.admit_follow_up(1, false),
        Err("Cannot queue a follow-up because this session is not currently running")
    );
    assert!(!service.has_queued(1));
    assert_eq!(service.admit_follow_up(1, true), Ok(()));

    assert!(matches!(service.after_steer(1, true, draft("steered"), 20), Ok(QueueStatus::Empty)));
    assert!(!service.has_queued(1));
    assert_eq!(
        service.after_steer(1, false, draft("late"), 20).err(),
        Some("The active Codex turn is not ready to accept a correction. Retry while the agent is working.")
    );
    assert!(!service.has_queued(1));
    match service.after_steer(1, false, claude_draft("later"), 30) {
        Ok(QueueStatus::Queued { message }) => {
            assert_eq!(message.data.message, "later");
            assert_eq!(message.messages.len(), 1);
        },
        _ => panic!("expected the follow-up to be queued"),
    }
    assert!(service.has_queued(1));
}
