use std::collections::HashMap;
use vibe_kanban::subagents::{
    active_counts, codex_edge_status, deduplicate_jobs, increment_active_count, status_rank,
    SubagentJob, SubagentJobCounts, SubagentJobStatus,
};

const SECOND_NS: i128 = 1_000_000_000;

#[test]
fn completed_parent_codex_open_edge_is_not_counted_as_running_when_stale() {
    let completed_at: i128 = 1_700_000_000 * SECOND_NS;

    assert_eq!(
        codex_edge_status("open", Some(completed_at), Some(completed_at)),
        SubagentJobStatus::Completed
    );
    assert_eq!(
        codex_edge_status("open", None, Some(completed_at)),
        SubagentJobStatus::Completed
    );
    assert_eq!(
        codex_edge_status("open", Some(completed_at + 31 * SECOND_NS), Some(completed_at)),
        SubagentJobStatus::Running
    );
    assert_eq!(
        codex_edge_status("open", Some(completed_at), None),
        SubagentJobStatus::Running
    );
}

#[test]
fn edge_statuses_close_or_stay_unresolved() {
    assert_eq!(
        codex_edge_status("closed", None, None),
        SubagentJobStatus::Completed
    );
    assert_eq!(
        codex_edge_status("pending", None, None),
        SubagentJobStatus::Unresolved
    );
    let p: i128 = 0;
    assert_eq!(
        codex_edge_status("open", Some(p + 30 * SECOND_NS), Some(p)),
        SubagentJobStatus::Completed
    );
}

#[test]
fn status_ranks_prefer_live_records() {
    assert_eq!(status_rank(&SubagentJobStatus::Running), 4);
    assert_eq!(status_rank(&SubagentJobStatus::Unresolved), 3);
    assert_eq!(status_rank(&SubagentJobStatus::NotFound), 2);
    assert_eq!(status_rank(&SubagentJobStatus::Failed), 1);
    assert_eq!(status_rank(&SubagentJobStatus::Completed), 0);
}

fn job(id: u128, agent: &str, status: SubagentJobStatus, created: i128, updated: i128) -> SubagentJob {
    SubagentJob {
        id,
        session_id: 7,
        execution_process_id: 9,
        agent_id: agent.into(),
        nickname: None,
        status,
        completed_at_ns: None,
        created_at_ns: created,
        updated_at_ns: updated,
    }
}

#[test]
fn duplicates_keep_the_highest_ranked_record_in_creation_order() {
    let jobs = vec![
        job(1, "b", SubagentJobStatus::Running, 20, 20),
        job(2, "a", SubagentJobStatus::Completed, 10, 10),
        job(3, "b", SubagentJobStatus::Completed, 30, 30),
        job(4, "a", SubagentJobStatus::Failed, 5, 40),
    ];
    let out = deduplicate_jobs(jobs);
    let ids: Vec<u128> = out.iter().map(|j| j.id).collect();
    assert_eq!(ids, vec![4, 1]);
}

#[test]
fn equal_ranks_keep_the_later_record() {
    let jobs = vec![
        job(1, "a", SubagentJobStatus::Running, 1, 1),
        job(2, "a", SubagentJobStatus::Running, 2, 2),
    ];
    let out = deduplicate_jobs(jobs);
    assert_eq!(out.len(), 1);
    assert_eq!(out[0].id, 2);
}

#[test]
fn active_counts_split_running_and_unresolved() {
    let mut jobs = vec![
        job(1, "a", SubagentJobStatus::Running, 1, 1),
        job(2, "b", SubagentJobStatus::NotFound, 1, 1),
        job(3, "c", SubagentJobStatus::Unresolved, 1, 1),
        job(4, "d", SubagentJobStatus::Completed, 1, 1),
    ];
    jobs[3].session_id = 8;
    let counts = active_counts(&jobs);
    assert_eq!(
        counts[&7],
        SubagentJobCounts {
            running: 1,
            unresolved: 2
        }
    );
    assert_eq!(counts[&8], SubagentJobCounts::zero());
    let mut m: HashMap<u128, SubagentJobCounts> = HashMap::new();
    increment_active_count(&mut m, 1, &SubagentJobStatus::Failed);
    assert_eq!(m.len(), 1);
    assert_eq!(m[&1], SubagentJobCounts::zero());
}

#[test]
fn only_completed_and_failed_jobs_are_terminal() {
    assert!(SubagentJobStatus::Completed.is_terminal());
    assert!(SubagentJobStatus::Failed.is_terminal());
    assert!(!SubagentJobStatus::Running.is_terminal());
    assert!(!SubagentJobStatus::Unresolved.is_terminal());
    assert!(!SubagentJobStatus::NotFound.is_terminal());
}
