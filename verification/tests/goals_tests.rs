use vibe_kanban::json::Json;
use vibe_kanban::goals::{
    adopt_progress, checkpoint_payload, describe, NO_GOAL_DESCRIPTION, checkpoint_from_message, checkpoint_request, goal_turn_completed, progress_path, Checkpoint, CheckpointError, Entry,
    NativeGoal, Progress, ProgressPathError,
};

fn entries(pairs: &[(&str, &str)]) -> Vec<Entry> {
    pairs.iter().map(|(k, v)| Entry { key: k.to_string(), value: v.to_string() }).collect()
}

fn report(requirements: Vec<Entry>, completed: Vec<Entry>) -> Checkpoint {
    Checkpoint { requirements, completed, disposition: "continue".into(), reason: String::new() }
}

fn fresh() -> Progress {
    Progress::new(String::new(), 0)
}

#[test]
fn thread_ids_cannot_escape_instance_state_directory() {
    let home = Some("/home/user/.codex".to_string());
    for id in ["", "../secret", "a/b", "a\\b", "/tmp/x"] {
        assert!(progress_path(id, home.clone()).is_err());
    }
    assert!(progress_path("test-thread_123", home.clone()).is_ok());
}

#[test]
fn progress_files_live_under_the_codex_home() {
    assert_eq!(
        progress_path("test-thread_123", Some("/home/user/.codex".to_string())).unwrap(),
        "/home/user/.codex/vk-goal-progress/test-thread_123.json"
    );
    assert_eq!(progress_path("t", None), Err(ProgressPathError::NoCodexHome));
    assert_eq!(progress_path("a/b", None), Err(ProgressPathError::InvalidThreadId));
    assert_eq!(ProgressPathError::InvalidThreadId.message(), "Invalid goal thread ID");
}

#[test]
fn substantial_eight_stage_objective_moves_between_requirements() {
    let mut p = fresh();
    let reqs: Vec<(String, String)> =
        (0..8).map(|n| (format!("gap-{n}"), format!("Verify material outcome {n}"))).collect();
    let req_entries: Vec<Entry> =
        reqs.iter().map(|(k, v)| Entry { key: k.clone(), value: v.clone() }).collect();
    p.checkpoint(report(req_entries, vec![])).unwrap();
    for stage in 0..8 {
        assert!(p.finish_turn(&format!("investigate-{stage}")).is_none());
        assert!(p.finish_turn(&format!("implement-{stage}")).is_none());
        p.checkpoint(report(
            vec![],
            vec![Entry { key: format!("gap-{stage}"), value: format!("Integration evidence for {stage}") }],
        ))
        .unwrap();
        assert!(p.finish_turn(&format!("verify-{stage}")).is_none());
        assert_eq!(p.stagnant_turns, 0);
    }
    assert!(p.all_complete());
    assert_eq!(p.turns, 24);
}

#[test]
fn refinement_and_reworded_evidence_do_not_extend_autonomy() {
    let mut p = fresh();
    p.checkpoint(report(entries(&[("ui", "UI parity"), ("api", "API parity")]), entries(&[("ui", "UI checked")])))
        .unwrap();
    assert!(p.finish_turn("first").is_none());
    for n in 1..=6 {
        let evidence = format!("Polished and retested {n}");
        p.checkpoint(report(vec![], entries(&[("ui", evidence.as_str())]))).unwrap();
        assert_eq!(p.finish_turn(&format!("polish-{n}")).is_some(), n == 6);
    }
    assert_eq!(p.completed.len(), 1);
    assert!(!p.all_complete());
    let turns = p.turns;
    p.finish_turn("polish-6");
    assert_eq!(p.turns, turns, "duplicate notifications must be idempotent");
}

#[test]
fn refusal_to_checkpoint_also_stops() {
    let mut p = fresh();
    for n in 0..6 {
        p.finish_turn(&n.to_string());
    }
    assert!(p.pause_reason.is_some());
}

#[test]
fn scope_cannot_shrink_or_rotate_and_invalid_updates_are_atomic() {
    let mut p = fresh();
    p.checkpoint(report(entries(&[("one", "First"), ("two", "Second")]), vec![])).unwrap();
    assert!(p.checkpoint(report(entries(&[("one", "First")]), entries(&[("one", "done")]))).is_err());
    assert!(p.checkpoint(report(vec![], entries(&[("fake", "done")]))).is_err());
    assert!(p.completed.is_empty());
    assert_eq!(p.requirements.len(), 2);
    assert!(!p.all_complete());
}

#[test]
fn hard_limit_bounds_even_claimed_progress_and_resume_keeps_evidence() {
    let mut p = fresh();
    p.requirements = (0..60).map(|n| Entry { key: n.to_string(), value: "Material gap".into() }).collect();
    for n in 0..50 {
        p.completed.push(Entry { key: n.to_string(), value: "evidence".into() });
        assert_eq!(p.finish_turn(&n.to_string()).is_some(), n == 49);
    }
    p.resume();
    assert_eq!(p.completed.len(), 50);
    assert_eq!(p.turns, 0);
    assert!(p.pause_reason.is_none());
}

#[test]
fn substantive_user_input_pauses_without_claiming_completion() {
    let mut p = fresh();
    p.checkpoint(Checkpoint {
        requirements: vec![],
        completed: vec![],
        disposition: "needs_input".into(),
        reason: "Choose the required API compatibility policy".into(),
    })
    .unwrap();
    assert!(p.pause_reason.is_some());
    assert!(!p.all_complete());
}

#[test]
fn checkpoint_errors_name_their_cause() {
    let mut p = fresh();
    let bad = Checkpoint { requirements: vec![], completed: vec![], disposition: "maybe".into(), reason: String::new() };
    assert_eq!(p.checkpoint(bad), Err(CheckpointError::BadDisposition));
    let silent = Checkpoint { requirements: vec![], completed: vec![], disposition: "needs_input".into(), reason: "  ".into() };
    assert_eq!(p.checkpoint(silent), Err(CheckpointError::MissingReason));
    assert_eq!(p.checkpoint(report(entries(&[("", "x")]), vec![])), Err(CheckpointError::BadEntry));
    assert_eq!(CheckpointError::ScopeFixed.message(), "The checklist is fixed. Read it using empty maps; do not redefine scope");
}

#[test]
fn checkpoint_payload_is_the_text_inside_the_last_tag() {
    let text = "Done.\n<vk_goal_checkpoint>{\"a\":1}</vk_goal_checkpoint>\n";
    assert_eq!(checkpoint_payload(text), Some("{\"a\":1}"));
    let two = "<vk_goal_checkpoint>first</vk_goal_checkpoint><vk_goal_checkpoint>second</vk_goal_checkpoint>";
    assert_eq!(checkpoint_payload(two), Some("second"));
    assert_eq!(checkpoint_payload("no checkpoint here"), None);
    assert_eq!(checkpoint_payload("</vk_goal_checkpoint>"), None);
    let big = format!("<vk_goal_checkpoint>{}</vk_goal_checkpoint>", "x".repeat(450_001));
    assert_eq!(checkpoint_payload(&big), None);
}

#[test]
fn stored_progress_is_kept_only_for_the_same_goal() {
    let goal = NativeGoal { thread_id: "t".into(), objective: "Ship it".into(), status: "active".into(), created_at: 7 };
    let mut stored = Progress::new("Ship it".into(), 7);
    stored.turns = 3;
    assert_eq!(adopt_progress(Some(stored), &goal).turns, 3);
    let mut other = Progress::new("Something else".into(), 7);
    other.turns = 3;
    let adopted = adopt_progress(Some(other), &goal);
    assert_eq!(adopted.turns, 0);
    assert_eq!(adopted.objective, "Ship it");
    assert_eq!(adopt_progress(None, &goal).created_at, 7);
}

#[test]
fn goal_turns_pause_in_plan_mode_and_watch_otherwise() {
    let mut p = fresh();
    let paused = goal_turn_completed(true, Some("active"), &mut p, false, "t1");
    assert!(paused.keep_alive);
    assert_eq!(p.turns, 0);
    let none = goal_turn_completed(false, None, &mut p, false, "t1");
    assert!(!none.keep_alive);
    let plan = goal_turn_completed(false, Some("active"), &mut p, true, "t1");
    assert!(plan.keep_alive);
    assert_eq!(plan.pause, Some(("Plan mode requires user review before autonomous implementation.".to_string(), true)));
    assert_eq!(p.turns, 1);
    let next = goal_turn_completed(false, Some("active"), &mut p, false, "t2");
    assert!(next.keep_alive && next.watch_next_turn && next.pause.is_none());
    assert_eq!(p.turns, 2);
    p.requirements = entries(&[("a", "A")]);
    p.completed = entries(&[("a", "checked")]);
    let done = goal_turn_completed(false, Some("complete"), &mut p, false, "t3");
    assert!(!done.keep_alive);
    assert!(!done.report_incomplete);
    p.requirements = entries(&[("a", "A"), ("b", "B")]);
    let claimed = goal_turn_completed(false, Some("complete"), &mut p, false, "t3");
    assert!(claimed.report_incomplete);
    assert_eq!(p.turns, 2);
}

#[test]
fn description_lists_requirements_in_id_order_with_ticks() {
    let mut p = fresh();
    p.checkpoint(report(entries(&[("b", "Second"), ("a", "First")]), entries(&[("b", "done")]))).unwrap();
    p.pause_reason = Some("Waiting".to_string());
    let text = describe("Ship it", "active", Some(1200), Some(5000), &p);
    assert_eq!(
        text,
        "**Goal:** Ship it\n\n**Status:** active\n\n**Requirements verified:** 1 of 2\n\n**Tokens used:** 1200 of 5000\n\nWaiting\n- [ ] First\n- [x] Second"
    );
}

#[test]
fn description_without_usage_or_checklist() {
    let p = fresh();
    assert_eq!(
        describe("Goal", "paused", None, Some(10), &p),
        "**Goal:** Goal\n\n**Status:** paused\n\n**Requirements verified:** 0 of 0"
    );
    assert_eq!(NO_GOAL_DESCRIPTION, "No goal is set. Use /goal followed by the requested outcome.");
}

fn obj(members: Vec<(&str, Json)>) -> Json {
    Json::Object(members.into_iter().map(|(k, v)| (k.to_string(), v)).collect())
}

fn text(s: &str) -> Json {
    Json::Str(s.to_string())
}

#[test]
fn checkpoints_are_read_from_the_end_of_a_message() {
    let msg = "Done.\n<vk_goal_checkpoint>{\"disposition\":\"continue\",\"reason\":\"\"}</vk_goal_checkpoint>\n";
    let parsed = checkpoint_from_message(msg).unwrap();
    match parsed {
        Json::Object(members) => {
            let keys: Vec<&str> = members.iter().map(|(k, _)| k.as_str()).collect();
            assert_eq!(keys, vec!["disposition", "reason"]);
        },
        _ => panic!("expected an object"),
    }
    assert!(checkpoint_from_message("<vk_goal_checkpoint>{oops</vk_goal_checkpoint>").is_none());
    assert!(checkpoint_from_message("no checkpoint here").is_none());
}

#[test]
fn checkpoint_arguments_need_exactly_the_four_fields() {
    let args = obj(vec![
        ("requirements", obj(vec![("a", text("First")), ("b", text("Second"))])),
        ("completed", obj(vec![("a", text("proof"))])),
        ("disposition", text("continue")),
        ("reason", text("")),
    ]);
    let c = checkpoint_request(&args).unwrap();
    assert_eq!(c.requirements.len(), 2);
    assert_eq!(c.completed[0].key, "a");
    assert_eq!(c.disposition, "continue");
    let mut p = fresh();
    p.checkpoint(c).unwrap();
    assert_eq!(p.completed.len(), 1);

    let extra = obj(vec![
        ("requirements", obj(vec![])),
        ("completed", obj(vec![])),
        ("disposition", text("continue")),
        ("reason", text("")),
        ("extra", Json::Null),
    ]);
    assert!(checkpoint_request(&extra).is_none());
    let missing = obj(vec![("requirements", obj(vec![])), ("completed", obj(vec![])), ("disposition", text("continue"))]);
    assert!(checkpoint_request(&missing).is_none());
    let not_text = obj(vec![
        ("requirements", obj(vec![("a", Json::Bool(true))])),
        ("completed", obj(vec![])),
        ("disposition", text("continue")),
        ("reason", text("")),
    ]);
    assert!(checkpoint_request(&not_text).is_none());
    let as_array = Json::Array(vec![obj(vec![]), obj(vec![]), text("needs_input"), text("why")]);
    assert_eq!(checkpoint_request(&as_array).unwrap().reason, "why");
}
