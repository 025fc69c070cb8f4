use vibe_kanban::agent_events::{
    is_spawn_agent_tool, is_wait_agent_tool, raw_spawn_events_from_completed_item,
    raw_subagent_events, subagent_job_updates, wait_agent_targets, CodexEvent, CompletedItem,
    JobUpdate, ToolCallStatus, ToolResultPayload, WaitArguments, WaitReport,
    raw_subagent_events_from_stdout, tool_result_of, wait_arguments_of,
};
use vibe_kanban::json::Json;
use vibe_kanban::subagents::SubagentJobStatus;

fn spawn_item(status: &str, receivers: Vec<Option<String>>) -> CompletedItem {
    CompletedItem {
        item_type: Some("collabAgentToolCall".into()),
        tool: Some("spawnAgent".into()),
        status: Some(status.into()),
        receiver_thread_ids: Some(receivers),
    }
}

#[test]
fn raw_codex_spawn_agent_events_preserve_child_thread_ids() {
    let events = vec![CodexEvent {
        method: Some("item/completed".into()),
        item: Some(spawn_item(
            "completed",
            vec![Some("019e0d97-27ff-7c43-b252-28979c51d3e9".into())],
        )),
    }];

    assert_eq!(
        raw_subagent_events(&events),
        vec!["019e0d97-27ff-7c43-b252-28979c51d3e9".to_string()]
    );
}

#[test]
fn raw_codex_spawn_agent_parser_ignores_parent_status_events() {
    let events = vec![
        CodexEvent {
            method: Some("thread/status/changed".into()),
            item: None,
        },
        CodexEvent {
            method: Some("item/completed".into()),
            item: Some(spawn_item("inProgress", vec![])),
        },
    ];

    assert!(raw_subagent_events(&events).is_empty());
}

#[test]
fn blank_or_non_text_receivers_are_skipped() {
    let item = spawn_item(
        "completed",
        vec![Some("a".into()), Some("  ".into()), None, Some("b".into())],
    );
    assert_eq!(
        raw_spawn_events_from_completed_item(Some(&item)),
        vec!["a".to_string(), "b".to_string()]
    );
    assert!(raw_spawn_events_from_completed_item(None).is_empty());
    let mut other = spawn_item("completed", vec![Some("a".into())]);
    other.tool = Some("sendInput".into());
    assert!(raw_spawn_events_from_completed_item(Some(&other)).is_empty());
}

#[test]
fn namespaced_tool_names_are_recognised() {
    assert!(is_spawn_agent_tool("spawn_agent"));
    assert!(is_spawn_agent_tool("collab.spawn_agent"));
    assert!(!is_spawn_agent_tool("respawn_agent"));
    assert!(is_wait_agent_tool("multi.wait_agent"));
    assert!(!is_wait_agent_tool("wait_agents"));
}

#[test]
fn wait_targets_prefer_the_list() {
    let both = WaitArguments {
        targets: Some(vec![Some("x".into()), Some(" ".into())]),
        target: Some("y".into()),
    };
    assert_eq!(wait_agent_targets(Some(&both)), vec!["x".to_string()]);
    let single = WaitArguments {
        targets: None,
        target: Some("y".into()),
    };
    assert_eq!(wait_agent_targets(Some(&single)), vec!["y".to_string()]);
    assert!(wait_agent_targets(None).is_empty());
}

fn statuses(updates: &[JobUpdate]) -> Vec<(String, SubagentJobStatus)> {
    updates
        .iter()
        .map(|u| match u {
            JobUpdate::SetStatus { agent_id, status } => (agent_id.clone(), *status),
            JobUpdate::Spawned { .. } => panic!("unexpected spawn"),
        })
        .collect()
}

#[test]
fn spawn_calls_record_the_agent_or_its_failure() {
    let result = ToolResultPayload {
        agent_id: Some("child".into()),
        nickname: Some("Scout".into()),
        timed_out: None,
        status: None,
    };
    let spawned = subagent_job_updates("spawn_agent", ToolCallStatus::Other, None, Some(&result));
    assert_eq!(spawned.len(), 1);
    match &spawned[0] {
        JobUpdate::Spawned { agent_id, nickname } => {
            assert_eq!(agent_id, "child");
            assert_eq!(nickname.as_deref(), Some("Scout"));
        }
        _ => panic!("expected a spawn"),
    }
    let failed = subagent_job_updates("spawn_agent", ToolCallStatus::Failed, None, Some(&result));
    assert_eq!(
        statuses(&failed),
        vec![("child".to_string(), SubagentJobStatus::Failed)]
    );
}

#[test]
fn wait_calls_mark_targets_and_reports() {
    let args = WaitArguments {
        targets: Some(vec![Some("a".into()), Some("b".into())]),
        target: None,
    };
    let created = subagent_job_updates("wait_agent", ToolCallStatus::Created, Some(&args), None);
    assert_eq!(
        statuses(&created),
        vec![
            ("a".to_string(), SubagentJobStatus::Running),
            ("b".to_string(), SubagentJobStatus::Running)
        ]
    );
    let reported = ToolResultPayload {
        agent_id: None,
        nickname: None,
        timed_out: Some(false),
        status: Some(vec![
            ("a".into(), WaitReport::Completed),
            ("b".into(), WaitReport::NotFound),
            ("c".into(), WaitReport::Other),
        ]),
    };
    let done = subagent_job_updates("wait_agent", ToolCallStatus::Other, Some(&args), Some(&reported));
    assert_eq!(
        statuses(&done),
        vec![
            ("a".to_string(), SubagentJobStatus::Completed),
            ("b".to_string(), SubagentJobStatus::NotFound),
            ("c".to_string(), SubagentJobStatus::Unresolved)
        ]
    );
    let timed_out = ToolResultPayload {
        agent_id: None,
        nickname: None,
        timed_out: Some(true),
        status: None,
    };
    let waiting = subagent_job_updates("wait_agent", ToolCallStatus::Other, Some(&args), Some(&timed_out));
    assert_eq!(waiting.len(), 2);
    assert!(subagent_job_updates("wait_agent", ToolCallStatus::Other, Some(&args), None).is_empty());
    assert!(subagent_job_updates("read_file", ToolCallStatus::Created, Some(&args), None).is_empty());
}

#[test]
fn spawned_agents_are_read_from_json_lines_of_output() {
    let spawn = r#"{"method":"item/completed","params":{"item":{"type":"collabAgentToolCall","tool":"spawnAgent","status":"completed","receiverThreadIds":["agent-1"," ",7,"agent-2"]}}}"#;
    let running = r#"{"method":"item/completed","params":{"item":{"type":"collabAgentToolCall","tool":"spawnAgent","status":"inProgress","receiverThreadIds":["agent-3"]}}}"#;
    let other = r#"{"method":"turn/started","params":{}}"#;
    let stdout = format!("{spawn}\nnot json\n\n{running}\r\n{other}\n{spawn}");
    assert_eq!(
        raw_subagent_events_from_stdout(&stdout),
        vec!["agent-1", "agent-2", "agent-1", "agent-2"]
    );
    assert!(raw_subagent_events_from_stdout("").is_empty());
}

#[test]
fn tool_results_are_parsed_from_text_or_taken_as_they_are() {
    let spawned = tool_result_of(Some(Json::Str(r#"{"agent_id":"a1","nickname":"Scout"}"#.to_string()))).unwrap();
    assert_eq!(spawned.agent_id, Some("a1".to_string()));
    assert_eq!(spawned.nickname, Some("Scout".to_string()));
    assert!(spawned.status.is_none());
    assert!(tool_result_of(Some(Json::Str("not json".to_string()))).is_none());
    assert!(tool_result_of(None).is_none());
    let waited = tool_result_of(Some(Json::Object(vec![
        (
            "status".to_string(),
            Json::Object(vec![
                ("a".to_string(), Json::Str("not_found".to_string())),
                ("b".to_string(), Json::Object(vec![("completed".to_string(), Json::Null)])),
                ("c".to_string(), Json::Null),
            ]),
        ),
        ("timed_out".to_string(), Json::Bool(true)),
    ])))
    .unwrap();
    assert_eq!(waited.timed_out, Some(true));
    assert_eq!(
        waited.status,
        Some(vec![
            ("a".to_string(), WaitReport::NotFound),
            ("b".to_string(), WaitReport::Completed),
            ("c".to_string(), WaitReport::Other),
        ])
    );
    let args = wait_arguments_of(&Json::Object(vec![
        ("target".to_string(), Json::Str("x".to_string())),
        ("targets".to_string(), Json::Array(vec![Json::Str("a".to_string()), Json::Number("3".to_string())])),
    ]));
    assert_eq!(args.targets, Some(vec![Some("a".to_string()), None]));
    assert_eq!(args.target, Some("x".to_string()));
}
