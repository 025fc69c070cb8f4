use vibe_kanban::board::{
    issue_status_id, link_pull_requests, load_synthetic_pr_states, tasks_without_linked_pr,
    workspace_to_issue, PrRecord, SyntheticWorkspacePrState,
};
use vibe_kanban::compat::{status_columns, LocalTaskStatus, MergeStatus, TaskStatus};

fn pr(workspace: Option<u128>, status: MergeStatus, merged_at: Option<i64>) -> PrRecord {
    PrRecord {
        workspace_id: workspace,
        status,
        merged_at_ms: merged_at,
    }
}

#[test]
fn workspace_pull_request_states_track_open_and_latest_merge() {
    let prs = vec![
        pr(Some(1), MergeStatus::Merged, Some(50)),
        pr(Some(1), MergeStatus::Merged, Some(40)),
        pr(Some(1), MergeStatus::Merged, None),
        pr(Some(2), MergeStatus::Open, None),
        pr(Some(3), MergeStatus::Closed, None),
        pr(Some(9), MergeStatus::Open, None),
        pr(None, MergeStatus::Open, None),
    ];
    let states = load_synthetic_pr_states(&vec![1, 2, 3], &prs);
    assert_eq!(states.len(), 3);
    assert_eq!(
        states[&1],
        SyntheticWorkspacePrState {
            has_open_pr: false,
            latest_merged_at_ms: Some(50)
        }
    );
    assert!(states[&2].has_open_pr);
    assert_eq!(
        states[&3],
        SyntheticWorkspacePrState {
            has_open_pr: false,
            latest_merged_at_ms: None
        }
    );
    assert!(load_synthetic_pr_states(&vec![], &prs).is_empty());
}

#[test]
fn workspaces_are_shown_as_numbered_issues() {
    let open = SyntheticWorkspacePrState {
        has_open_pr: true,
        latest_merged_at_ms: Some(7),
    };
    let issue = workspace_to_issue(Some("OPS::Deploy"), "vk/x", false, 100, 3, Some(open));
    assert_eq!(issue.simple_id, "OPS-3");
    assert_eq!(issue.status_id, "in_review");
    assert_eq!(issue.title, "OPS::Deploy");
    assert_eq!(issue.completed_at_ms, Some(7));
    let archived = workspace_to_issue(None, "vk/fix-login", true, 100, 12, None);
    assert_eq!(archived.simple_id, "VFL-12");
    assert_eq!(archived.status_id, "done");
    assert_eq!(archived.title, "vk/fix-login");
    assert_eq!(archived.completed_at_ms, Some(100));
    let running = workspace_to_issue(None, "main", false, 100, 1, None);
    assert_eq!(running.status_id, "in_progress");
    assert_eq!(running.completed_at_ms, None);
}

#[test]
fn tasks_are_listed_in_the_column_of_their_recorded_status() {
    let tasks = vec![
        LocalTaskStatus {
            description: Some("- Original Status: Blocked".into()),
            status: TaskStatus::Todo,
        },
        LocalTaskStatus {
            description: None,
            status: TaskStatus::InReview,
        },
    ];
    let statuses = status_columns(&tasks, &vec![]);
    assert_eq!(issue_status_id(&statuses, &tasks[0]), "status_blocked");
    assert_eq!(issue_status_id(&statuses, &tasks[1]), "in_review");
    let unknown = LocalTaskStatus {
        description: Some("- Original Status: Elsewhere".into()),
        status: TaskStatus::Done,
    };
    assert_eq!(issue_status_id(&statuses, &unknown), "done");
}

#[test]
fn pull_requests_are_linked_to_project_tasks_through_workspaces() {
    let prs = vec![Some(10), None, Some(11), Some(12), Some(10)];
    let links = vec![(10, 100), (11, 200), (12, 101)];
    let project = vec![100, 101, 102];
    let linked = link_pull_requests(&prs, &links, &project);
    assert_eq!(linked, vec![(0, 100), (3, 101), (4, 100)]);
    assert_eq!(tasks_without_linked_pr(&project, &linked), vec![2]);
    assert_eq!(tasks_without_linked_pr(&project, &vec![]), vec![0, 1, 2]);
}

#[test]
fn project_workspaces_are_those_linked_to_its_tasks() {
    let ws = vec![Some(1u128), None, Some(3), Some(2), Some(1)];
    assert_eq!(vibe_kanban::board::workspaces_of_tasks(&ws, &vec![1, 2]), vec![0, 3, 4]);
    assert_eq!(vibe_kanban::board::workspaces_of_tasks(&ws, &vec![]), Vec::<usize>::new());
}
