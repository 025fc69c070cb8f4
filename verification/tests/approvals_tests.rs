use vibe_kanban::approvals::{
    after_turn, flush_feedback_after_turn, AfterTurn, CompletedTurnStatus,
    dynamic_tool_answer, queued_feedback, DynamicToolAnswer,
    answers_to_codex_format, checkpoint_call_allowed, command_execution_decision,
    denial_feedback, feedback_messages, file_change_decision, plan_completed_action,
    should_log_notification, ApprovalDecision, ApprovalStatus, PlanAction, Question, TurnMode,
};

fn denied(reason: Option<&str>) -> ApprovalStatus {
    ApprovalStatus::Denied {
        reason: reason.map(|r| r.to_string()),
    }
}

#[test]
fn approvals_map_to_decisions() {
    assert_eq!(
        command_execution_decision(true, &denied(Some("no"))),
        (ApprovalDecision::AcceptForSession, None)
    );
    assert_eq!(
        command_execution_decision(false, &ApprovalStatus::Approved),
        (ApprovalDecision::Accept, None)
    );
    assert_eq!(
        file_change_decision(false, &denied(Some("  use the helper  "))),
        (ApprovalDecision::Cancel, Some("use the helper".to_string()))
    );
    assert_eq!(
        file_change_decision(false, &denied(Some("   "))),
        (ApprovalDecision::Decline, None)
    );
    assert_eq!(
        command_execution_decision(false, &ApprovalStatus::TimedOut),
        (ApprovalDecision::Decline, None)
    );
    assert_eq!(
        command_execution_decision(false, &ApprovalStatus::Pending),
        (ApprovalDecision::Decline, None)
    );
    assert_eq!(denial_feedback(&None), None);
}

#[test]
fn plan_reviews_start_the_right_turn() {
    match plan_completed_action(true, &ApprovalStatus::Approved) {
        PlanAction::StartTurn { message, mode } => {
            assert_eq!(message, "Implement the plan.");
            assert_eq!(mode, TurnMode::Default);
        }
        PlanAction::Finish => panic!("an approved plan is implemented"),
    }
    match plan_completed_action(true, &denied(Some(" smaller steps "))) {
        PlanAction::StartTurn { message, mode } => {
            assert_eq!(message, "User feedback on the plan: smaller steps");
            assert_eq!(mode, TurnMode::Plan);
        }
        PlanAction::Finish => panic!("feedback starts another planning turn"),
    }
    assert!(matches!(
        plan_completed_action(true, &denied(None)),
        PlanAction::Finish
    ));
    assert!(matches!(
        plan_completed_action(false, &ApprovalStatus::Approved),
        PlanAction::Finish
    ));
}

#[test]
fn notifications_and_checkpoints_are_filtered() {
    assert!(!should_log_notification("account/rateLimits/updated"));
    assert!(should_log_notification("turn/completed"));
    assert!(checkpoint_call_allowed(Some("t"), Some("u"), "t", "u"));
    assert!(!checkpoint_call_allowed(Some("t"), Some("u"), "t", "other"));
    assert!(!checkpoint_call_allowed(None, Some("u"), "t", "u"));
}

#[test]
fn feedback_is_trimmed_and_blank_messages_dropped() {
    assert_eq!(
        feedback_messages(&vec![" a ".into(), "  ".into(), "b".into()]),
        vec!["a".to_string(), "b".to_string()]
    );
}

#[test]
fn answers_are_keyed_by_question_id() {
    let questions = vec![
        Question {
            id: "q1".into(),
            question: "Which branch?".into(),
        },
        Question {
            id: "q2".into(),
            question: "Unanswered?".into(),
        },
        Question {
            id: "q3".into(),
            question: "Colour?".into(),
        },
    ];
    let answers = vec![
        ("Colour?".to_string(), vec!["red".to_string()]),
        ("Which branch?".to_string(), vec!["main".to_string()]),
        ("Colour?".to_string(), vec!["blue".to_string(), "green".to_string()]),
    ];
    assert_eq!(
        answers_to_codex_format(&questions, &answers),
        vec![
            ("q1".to_string(), vec!["main".to_string()]),
            (
                "q3".to_string(),
                vec!["blue".to_string(), "green".to_string()]
            ),
        ]
    );
}

#[test]
fn dynamic_tool_calls_run_only_the_checkpoint_of_the_current_turn() {
    assert!(matches!(
        dynamic_tool_answer("vk_goal_checkpoint", true, true),
        DynamicToolAnswer::RunCheckpoint
    ));
    match dynamic_tool_answer("vk_goal_checkpoint", false, true) {
        DynamicToolAnswer::Refuse(text) => {
            assert_eq!(text, "Checkpoint must belong to the current root turn.")
        }
        DynamicToolAnswer::RunCheckpoint => panic!("a stale call must be refused"),
    }
    match dynamic_tool_answer("vk_goal_checkpoint", true, false) {
        DynamicToolAnswer::Refuse(text) => assert!(text.starts_with("No active native goal")),
        DynamicToolAnswer::RunCheckpoint => panic!("no goal, no checkpoint"),
    }
    match dynamic_tool_answer("browser", true, true) {
        DynamicToolAnswer::Refuse(text) => {
            assert_eq!(text, "Dynamic tool 'browser' is not supported by this client.")
        }
        DynamicToolAnswer::RunCheckpoint => panic!("unknown tools are refused"),
    }
    assert_eq!(queued_feedback("use rg"), "User feedback: use rg");
}

#[test]
fn finished_turns_flush_feedback_then_continue_only_when_completed() {
    assert!(flush_feedback_after_turn(CompletedTurnStatus::Interrupted, false));
    assert!(flush_feedback_after_turn(CompletedTurnStatus::Completed, true));
    assert!(!flush_feedback_after_turn(CompletedTurnStatus::Completed, false));
    assert_eq!(after_turn(CompletedTurnStatus::Failed, true), AfterTurn::KeepAlive);
    assert_eq!(after_turn(CompletedTurnStatus::Completed, false), AfterTurn::ContinueGoal);
    assert_eq!(after_turn(CompletedTurnStatus::Interrupted, false), AfterTurn::Finish);
    assert_eq!(after_turn(CompletedTurnStatus::Failed, false), AfterTurn::Finish);
}
