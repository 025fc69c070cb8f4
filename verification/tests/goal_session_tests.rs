use vibe_kanban::goal_session::{
    active_goal_thread, goal_api_missing, goal_api_unavailable, goal_context, goal_report_action, pause_outcome,
    steer_text, watchdog_pause, GoalReport,
};
use vibe_kanban::goals::{NativeGoal, Progress};

fn goal(thread: &str, objective: &str, status: &str, created_at: i64) -> NativeGoal {
    NativeGoal {
        thread_id: thread.to_string(),
        objective: objective.to_string(),
        status: status.to_string(),
        created_at,
    }
}

#[test]
fn older_servers_without_goal_api_are_recognised() {
    assert!(goal_api_unavailable("JSON-RPC error -32601"));
    assert!(goal_api_unavailable("Unknown Method: thread/goal/get"));
    assert!(goal_api_unavailable("METHOD NOT FOUND"));
    assert!(goal_api_unavailable("unknown variant `thread/goal/get`, expected one of"));
    assert!(goal_api_unavailable("goals feature is disabled"));
    assert!(!goal_api_unavailable("Goal API timed out"));
    assert!(!goal_api_unavailable("Goals Feature Is Disabled"));
    assert!(goal_api_missing("X", "method not found"));
    assert!(!goal_api_missing("method not found", "x"));
}

#[test]
fn goal_reports_clear_ignore_refresh_or_load() {
    let held = goal("t1", "Ship", "active", 5);
    assert_eq!(goal_report_action(Some("t1"), Some(&held), None), GoalReport::Clear);
    assert_eq!(goal_report_action(Some("t1"), Some(&held), Some(&goal("t2", "Ship", "active", 5))), GoalReport::Ignore);
    assert_eq!(goal_report_action(None, None, Some(&goal("t1", "Ship", "active", 5))), GoalReport::Ignore);
    assert_eq!(goal_report_action(Some("t1"), Some(&held), Some(&goal("t1", "Ship", "paused", 5))), GoalReport::Refresh);
    assert_eq!(goal_report_action(Some("t1"), Some(&held), Some(&goal("t1", "Ship", "active", 6))), GoalReport::Load);
    assert_eq!(goal_report_action(Some("t1"), None, Some(&goal("t1", "Ship", "active", 5))), GoalReport::Load);
}

#[test]
fn only_active_goals_are_paused_or_steered() {
    assert_eq!(active_goal_thread(Some(&goal("t1", "o", "active", 0))), Some("t1".to_string()));
    assert_eq!(active_goal_thread(Some(&goal("t1", "o", "paused", 0))), None);
    assert_eq!(active_goal_thread(None), None);
    let p = Progress::new("o".to_string(), 0);
    assert_eq!(
        goal_context(&goal("t1", "o", "active", 0), &p, "{}"),
        Some("VK durable goal checkpoint (supporting evidence; the full user objective and later corrections remain authoritative):\n{}\nClose remaining requirements with evidence; stop at sufficient completion.".to_string())
    );
    assert_eq!(goal_context(&goal("t1", "o", "complete", 0), &p, "{}"), None);
}

#[test]
fn pause_messages_and_stops() {
    let ok = pause_outcome("Plan review", None, false, true);
    assert_eq!(ok.message, "Autonomous goal paused: Plan review");
    assert!(!ok.stop);
    assert!(ok.success);
    let idle = pause_outcome("r", None, false, false);
    assert!(idle.stop);
    let failed = pause_outcome("r", Some("boom"), false, true);
    assert_eq!(failed.message, "Autonomous execution stopped; could not persist goal pause: boom. r");
    assert!(failed.stop);
    assert!(!failed.success);
    assert!(pause_outcome("r", None, true, true).stop);
}

#[test]
fn watchdog_pauses_only_a_stalled_active_goal() {
    let reason = "The native goal engine did not start another turn; inspect the session before resuming.";
    assert_eq!(watchdog_pause(Some("active"), Some("turn-1"), "turn-1", false), Some(reason.to_string()));
    assert_eq!(watchdog_pause(Some("active"), Some("turn-1"), "turn-1", true), None);
    assert_eq!(watchdog_pause(Some("active"), Some("turn-2"), "turn-1", false), None);
    assert_eq!(watchdog_pause(Some("paused"), Some("turn-1"), "turn-1", false), None);
    assert_eq!(watchdog_pause(None, Some("turn-1"), "turn-1", false), None);
}

#[test]
fn steering_needs_text_thread_and_turn() {
    assert_eq!(steer_text("  go on \n", Some("t"), Some("u")), Some("go on".to_string()));
    assert_eq!(steer_text("   ", Some("t"), Some("u")), None);
    assert_eq!(steer_text("x", None, Some("u")), None);
    assert_eq!(steer_text("x", Some("t"), None), None);
}
