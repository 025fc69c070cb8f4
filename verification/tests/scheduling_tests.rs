use vibe_kanban::controller::{open_state, ManagedGoal};
use vibe_kanban::goals::{Entry, NativeGoal, Progress};
use vibe_kanban::scheduling::{
    authorize_token, candidate_goal, check_token_file, foreground_active, native_goal_from_row,
    selection_matches, stop_reason_ok, use_draft_config, CandidateError, Unauthorized,
};

const TOKEN: &str = "0123456789abcdef0123456789abcdef";

#[test]
fn bearer_tokens_must_match_the_configured_one() {
    let header = format!("Bearer {TOKEN}");
    assert_eq!(authorize_token(TOKEN, Some(&header)), Ok(()));
    assert_eq!(authorize_token(&format!("  {TOKEN}\n"), Some(&header)), Ok(()));
    assert_eq!(
        authorize_token(TOKEN, Some("Bearer 0123456789abcdef0123456789abcdeX")),
        Err(Unauthorized)
    );
    assert_eq!(authorize_token(TOKEN, Some(TOKEN)), Err(Unauthorized));
    assert_eq!(authorize_token(TOKEN, None), Err(Unauthorized));
    assert_eq!(authorize_token("short", Some("Bearer short")), Err(Unauthorized));
}

#[test]
fn token_files_must_be_private_small_regular_files() {
    assert!(check_token_file(true, 0o600, true, 64));
    assert!(!check_token_file(true, 0o640, true, 64));
    assert!(!check_token_file(false, 0o600, true, 64));
    assert!(!check_token_file(true, 0o600, false, 64));
    assert!(!check_token_file(true, 0o600, true, 1025));
}

#[test]
fn native_rows_use_the_wire_spelling_and_seconds() {
    let g = native_goal_from_row("t".into(), "o".into(), "usage_limited".into(), 12_345);
    assert_eq!(g.status, "usageLimited");
    assert_eq!(g.created_at, 12);
    let g = native_goal_from_row("t".into(), "o".into(), "budget_limited".into(), -1_500);
    assert_eq!(g.status, "budgetLimited");
    assert_eq!(g.created_at, -1);
    let g = native_goal_from_row("t".into(), "o".into(), "paused".into(), 0);
    assert_eq!(g.status, "paused");
}

fn progress() -> Progress {
    let mut p = Progress::new("Ship the release".into(), 99);
    p.requirements.push(Entry {
        key: "r1".into(),
        value: "Build".into(),
    });
    p
}

fn native(objective: &str, created_at: i64) -> NativeGoal {
    NativeGoal {
        thread_id: "t".into(),
        objective: objective.into(),
        status: "paused".into(),
        created_at,
    }
}

fn err(r: Result<ManagedGoal, CandidateError>) -> CandidateError {
    match r {
        Ok(_) => panic!("expected a refusal"),
        Err(e) => e,
    }
}

#[test]
fn candidates_need_an_unfinished_unchanged_goal() {
    let n = native("Ship the release", 99);
    let g = candidate_goal(5, Some("t".into()), &progress(), Some(&n)).unwrap_or_else(|e| {
        panic!("{}", e.message())
    });
    assert_eq!(g.session_id, 5);
    assert!(g.eligible);
    assert!(g.grant.is_none());
    assert_eq!(err(candidate_goal(5, None, &progress(), Some(&n))), CandidateError::NoNativeThread);
    let mut paused = progress();
    paused.pause_reason = Some("Operator decision required".into());
    assert_eq!(
        err(candidate_goal(5, Some("t".into()), &paused, Some(&n))),
        CandidateError::NoUnfinishedGoal
    );
    let mut done = progress();
    done.completed.push(Entry {
        key: "r1".into(),
        value: "Built".into(),
    });
    assert_eq!(
        err(candidate_goal(5, Some("t".into()), &done, Some(&n))),
        CandidateError::NoUnfinishedGoal
    );
    assert_eq!(
        err(candidate_goal(5, Some("t".into()), &progress(), None)),
        CandidateError::NativeGoalGone
    );
    assert_eq!(
        err(candidate_goal(5, Some("t".into()), &progress(), Some(&native("Other", 99)))),
        CandidateError::GoalChanged
    );
    let again = candidate_goal(5, Some("t".into()), &progress(), Some(&n)).unwrap_or_else(|e| {
        panic!("{}", e.message())
    });
    assert!(selection_matches(&g, &again));
}

#[test]
fn unbound_running_agents_mean_foreground_work() {
    let state = open_state(None, "e".into()).unwrap();
    assert!(foreground_active(&vec![(1, true)], &state));
    assert!(!foreground_active(&vec![(1, false)], &state));
    assert!(!foreground_active(&vec![], &state));
    assert!(stop_reason_ok("ok"));
    assert!(!stop_reason_ok(&"x".repeat(501)));
}

#[test]
fn newer_draft_selections_win() {
    assert!(use_draft_config(10, Some(10)));
    assert!(use_draft_config(10, Some(11)));
    assert!(!use_draft_config(10, Some(9)));
    assert!(!use_draft_config(10, None));
}
