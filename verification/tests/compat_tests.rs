use vibe_kanban::compat::{
    ensure_issue_creation_allowed, ensure_mutable_issue, plan_issue_creation, plan_issue_update,
    IssueMutationError, task_to_issue,
    canonical_status_name, compat_statuses, status_columns, ensure_status_metadata, extract_cloud_metadata_value,
    extract_priority, extract_simple_id, extract_status_name, is_in_staging_status,
    normalize_status_key, parse_pr_metadata, parse_task_status, pull_request_status,
    resolve_status_name, should_expose_synthetic_workspace, status_color, status_column,
    status_hidden, status_id_from_name, status_sort_order, synthetic_issue_prefix,
    synthetic_status_id, task_status_id, task_status_name, trim_matching_wrappers,
    LocalTaskStatus, MergeStatus, TaskStatus,
};

#[test]
fn status_keys_keep_lowercase_alphanumerics() {
    assert_eq!(normalize_status_key("In-Progress!"), "inprogress");
    assert_eq!(normalize_status_key("  "), "");
    assert_eq!(parse_task_status("In Staging"), TaskStatus::InReview);
    assert_eq!(parse_task_status("canceled"), TaskStatus::Cancelled);
    assert_eq!(parse_task_status("whatever"), TaskStatus::Todo);
    assert_eq!(canonical_status_name("in_staging"), "In Staging");
    assert_eq!(canonical_status_name("completed"), "Done");
    assert!(is_in_staging_status("In-Staging"));
    assert_eq!(task_status_id(&TaskStatus::InProgress), "in_progress");
    assert_eq!(task_status_name(&TaskStatus::InReview), "In review");
}

#[test]
fn status_columns_derive_from_their_names() {
    assert_eq!(status_id_from_name("In progress"), "in_progress");
    assert_eq!(status_id_from_name("Blocked by QA"), "status_blockedbyqa");
    assert_eq!(status_color("Done"), "145 55% 42%");
    assert_eq!(status_color("Blocked"), "220 70% 52%");
    assert_eq!(status_sort_order("In Staging"), 3);
    assert_eq!(status_sort_order("Blocked"), 100);
    assert!(status_hidden("Canceled"));
    assert!(!status_hidden("Done"));
    let c = status_column("Cancelled", 9);
    assert_eq!(c.id, "cancelled");
    assert!(c.hidden);
    assert_eq!(c.sort_order, 9);
}

#[test]
fn status_names_come_from_recorded_metadata() {
    assert_eq!(
        extract_status_name(Some("intro\n  - Original Status: Blocked  \n"), &TaskStatus::Todo),
        "Blocked"
    );
    assert_eq!(
        extract_status_name(Some("Original Status: QA"), &TaskStatus::Todo),
        "QA"
    );
    assert_eq!(
        extract_status_name(Some("- Original Status:   "), &TaskStatus::Done),
        "Done"
    );
    assert_eq!(extract_status_name(None, &TaskStatus::InProgress), "In progress");
}

#[test]
fn status_metadata_is_replaced_or_appended() {
    assert_eq!(
        ensure_status_metadata(Some("Body".into()), "Done"),
        Some("Body\n\nLocal metadata\n- Original Status: Done".to_string())
    );
    assert_eq!(
        ensure_status_metadata(Some("a\n  Original Status: Old\nb".into()), "New"),
        Some("a\n  - Original Status: New\nb".to_string())
    );
    assert_eq!(
        ensure_status_metadata(None, "Done"),
        Some("Local metadata\n- Original Status: Done".to_string())
    );
}

#[test]
fn cloud_metadata_values_are_unwrapped() {
    assert_eq!(trim_matching_wrappers("`x`", '`'), "x");
    assert_eq!(trim_matching_wrappers("`x", '`'), "`x");
    let d = "Notes\n- Original Priority: `\"High\"`\n- PR: #12 https://h/pr/12\n- PR state: MERGED\n- PR base/head: `dev` <- feat";
    assert_eq!(
        extract_cloud_metadata_value(Some(d), "Original Priority"),
        Some("High".to_string())
    );
    assert_eq!(extract_cloud_metadata_value(Some(d), "Missing"), None);
    assert_eq!(extract_priority(Some(d)), Some("high".to_string()));
    assert_eq!(extract_priority(Some("- Original Priority: someday")), None);
    let pr = parse_pr_metadata(Some(d)).unwrap();
    assert_eq!(pr.number, 12);
    assert_eq!(pr.url, "https://h/pr/12");
    assert_eq!(pr.status, "merged");
    assert_eq!(pr.target_branch_name, "dev");
    let bare = parse_pr_metadata(Some("- PR: 7")).unwrap();
    assert_eq!(bare.url, "");
    assert_eq!(bare.status, "open");
    assert_eq!(bare.target_branch_name, "main");
    assert!(parse_pr_metadata(Some("- PR: seven")).is_none());
    assert!(parse_pr_metadata(None).is_none());
}

#[test]
fn simple_ids_prefer_cloud_metadata_then_the_title() {
    let d = "- Original Cloud Issue ID: OPS-42";
    assert_eq!(
        extract_simple_id("OPS-42 \u{b7} Fix it", Some(d), 3),
        ("OPS-42".to_string(), "Fix it".to_string(), 42)
    );
    assert_eq!(
        extract_simple_id("AB-x \u{b7} Title ", None, 5),
        ("AB-x".to_string(), "Title".to_string(), 5)
    );
    assert_eq!(
        extract_simple_id("Plain", None, 8),
        ("T8".to_string(), "Plain".to_string(), 8)
    );
}

#[test]
fn synthetic_workspaces_get_prefixes_and_statuses() {
    assert_eq!(synthetic_issue_prefix(Some("OSTP::Deploy"), "x"), "OSTP");
    assert_eq!(
        synthetic_issue_prefix(None, "vk/fix-login-page-now"),
        "VFL"
    );
    assert_eq!(synthetic_issue_prefix(Some(" :: x"), "--"), "WS");
    assert!(!should_expose_synthetic_workspace(Some(" Staging Check ")));
    assert!(!should_expose_synthetic_workspace(Some("FR::staging check")));
    assert!(should_expose_synthetic_workspace(Some("Other")));
    assert!(should_expose_synthetic_workspace(None));
    assert_eq!(pull_request_status(&MergeStatus::Merged), "merged");
    assert_eq!(pull_request_status(&MergeStatus::Unknown), "open");
    assert_eq!(synthetic_status_id(true, true, false), "in_review");
    assert_eq!(synthetic_status_id(true, false, false), "done");
    assert_eq!(synthetic_status_id(false, false, true), "done");
    assert_eq!(synthetic_status_id(false, false, false), "in_progress");
}

#[test]
fn default_columns_are_extended_by_task_statuses() {
    let tasks = vec![
        LocalTaskStatus {
            description: Some("- Original Status: Blocked".into()),
            status: TaskStatus::Todo,
        },
        LocalTaskStatus {
            description: None,
            status: TaskStatus::Done,
        },
    ];
    let statuses = status_columns(&tasks, &vec![]);
    let names: Vec<&str> = statuses.iter().map(|s| s.name.as_str()).collect();
    assert_eq!(
        names,
        vec!["To do", "In progress", "In review", "Done", "Cancelled", "Blocked"]
    );
    let orders: Vec<i64> = statuses.iter().map(|s| s.sort_order).collect();
    assert_eq!(orders, vec![0, 1, 2, 3, 4, 5]);
    assert_eq!(statuses[5].id, "status_blocked");
    assert_eq!(resolve_status_name(&tasks, &vec![], "status_blocked", None), "Blocked");
    assert_eq!(resolve_status_name(&tasks, &vec![], "IN-REVIEW", None), "In review");
    assert_eq!(
        resolve_status_name(&tasks, &vec![], "nope", Some(&TaskStatus::InProgress)),
        "In progress"
    );
    assert_eq!(resolve_status_name(&tasks, &vec![], "in_staging", None), "In Staging");
}

#[test]
fn configured_columns_are_sorted_and_deduplicated() {
    let configured = vec![
        status_column("Review", 2),
        status_column("Backlog", 1),
        status_column("review", 0),
    ];
    let statuses = status_columns(&vec![], &configured);
    let names: Vec<&str> = statuses.iter().map(|s| s.name.as_str()).collect();
    assert_eq!(names, vec!["review", "Backlog"]);
}

#[test]
fn issue_changes_record_status_and_detect_staging() {
    let board = vec![LocalTaskStatus {
        description: Some("- Original Status: In Staging".into()),
        status: TaskStatus::InReview,
    }];
    let fallback = plan_issue_update(
        &vec![],
        &vec![],
        Some("Body\n- Original Status: In review".into()),
        TaskStatus::InReview,
        Some("in_staging"),
        None,
    );
    assert_eq!(fallback.status_name, "In review");
    assert!(!fallback.entered_in_staging);
    let plan = plan_issue_update(
        &board,
        &vec![],
        Some("Body\n- Original Status: In review".into()),
        TaskStatus::InReview,
        Some("in_staging"),
        None,
    );
    assert_eq!(plan.status_name, "In Staging");
    assert_eq!(plan.status, TaskStatus::InReview);
    assert!(plan.entered_in_staging);
    assert_eq!(
        plan.description,
        Some("Body\n- Original Status: In Staging".to_string())
    );
    let again = plan_issue_update(
        &board,
        &vec![],
        plan.description.clone(),
        plan.status,
        None,
        Some(Some("New body".into())),
    );
    assert_eq!(again.status_name, "In Staging");
    assert!(!again.entered_in_staging);
    assert_eq!(
        again.description,
        Some("New body\n\nLocal metadata\n- Original Status: In Staging".to_string())
    );
}

#[test]
fn new_issues_default_to_the_first_column() {
    let (name, description, status) = plan_issue_creation(&vec![], &vec![], "nonsense", None);
    assert_eq!(name, "To do");
    assert_eq!(status, TaskStatus::Todo);
    assert_eq!(
        description,
        Some("Local metadata\n- Original Status: To do".to_string())
    );
    let (name, _, status) = plan_issue_creation(&vec![], &vec![], "done", Some("x".into()));
    assert_eq!(name, "Done");
    assert_eq!(status, TaskStatus::Done);
}

#[test]
fn only_tasks_on_real_boards_can_change() {
    assert_eq!(ensure_mutable_issue(true, true), Ok(()));
    assert_eq!(
        ensure_mutable_issue(false, true),
        Err(IssueMutationError::WorkspaceBacked)
    );
    assert_eq!(
        ensure_mutable_issue(false, false),
        Err(IssueMutationError::NotFound)
    );
    assert_eq!(
        ensure_issue_creation_allowed(false, true),
        Err(IssueMutationError::SyntheticBoard)
    );
    assert_eq!(ensure_issue_creation_allowed(true, true), Ok(()));
    assert_eq!(ensure_issue_creation_allowed(false, false), Ok(()));
}

#[test]
fn tasks_become_issues_with_imported_ids_and_priority() {
    let d = "- Original Cloud Issue ID: OPS-42\n- Original Priority: High";
    let issue = task_to_issue("OPS-42 \u{b7} Fix it", Some(d), 3, "todo".to_string());
    assert_eq!(issue.simple_id, "OPS-42");
    assert_eq!(issue.title, "Fix it");
    assert_eq!(issue.issue_number, 42);
    assert_eq!(issue.sort_order, 3);
    assert_eq!(issue.status_id, "todo");
    assert_eq!(issue.priority, Some("high".to_string()));
    let plain = task_to_issue("Plain", None, 8, "done".to_string());
    assert_eq!((plain.simple_id.as_str(), plain.issue_number, plain.priority), ("T8", 8, None));
}

#[test]
fn board_columns_carry_the_project_id() {
    let configured = vec![status_column("Done", 10), status_column("To do", 5)];
    let tasks = vec![
        LocalTaskStatus { description: None, status: TaskStatus::InProgress },
        LocalTaskStatus { description: Some("- Original Status: DONE".into()), status: TaskStatus::Todo },
    ];
    let statuses = compat_statuses(0, &tasks, &configured);
    let names: Vec<&str> = statuses.iter().map(|s| s.column.name.as_str()).collect();
    assert_eq!(names, vec!["To do", "Done", "In progress"]);
    let orders: Vec<i64> = statuses.iter().map(|s| s.column.sort_order).collect();
    assert_eq!(orders, vec![0, 1, 2]);
    for s in &statuses {
        assert_eq!(s.project_id, "00000000-0000-0000-0000-000000000000");
    }
}
