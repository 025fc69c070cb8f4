use vibe_kanban::projects::{
    check_project_name, filter_synthetic_project_candidates, is_sub_agents_repo, merge_project_list,
    normalize_project_name, project_name_key, repo_default_target_branch, repo_target_branch,
    sort_synthetic_projects_for_display, synthetic_project_from_repo, synthetic_project_from_repos, Project, Repo, SyntheticProject,
};

fn id(text: &str) -> u128 {
    uuid::Uuid::parse_str(text).expect("valid uuid").as_u128()
}

fn project(uuid: &str, name: &str, updated_second: i128) -> Project {
    let timestamp = 1_780_448_400_000_000_000i128 + updated_second * 1_000_000_000;
    Project {
        id: id(uuid),
        name: name.to_string(),
        archived: false,
        default_agent_working_dir: None,
        remote_project_id: None,
        created_at_ns: timestamp,
        updated_at_ns: timestamp,
    }
}

fn repo(name: &str, display: &str, path: &str) -> Repo {
    Repo {
        id: 42,
        name: name.to_string(),
        display_name: display.to_string(),
        path: path.to_string(),
        default_target_branch: None,
        default_working_dir: Some("/work".to_string()),
        created_at_ns: 1,
        updated_at_ns: 2,
    }
}

#[test]
fn synthetic_projects_have_stable_display_order() {
    let projects = vec![
        project("33333333-3333-3333-3333-333333333333", "Charlie", 10),
        project("22222222-2222-2222-2222-222222222222", "Bravo", 20),
        project("11111111-1111-1111-1111-111111111111", "Alpha", 20),
    ];
    let projects = sort_synthetic_projects_for_display(projects);
    let names = projects.into_iter().map(|project| project.name).collect::<Vec<_>>();
    assert_eq!(names, vec!["Alpha", "Bravo", "Charlie"]);
}

#[test]
fn project_name_key_matches_kebab_and_camel_variants() {
    assert_eq!(project_name_key("foxtrot-lima"), project_name_key("FoxtrotLima"));
    assert_eq!(project_name_key("intake-shield"), project_name_key("intakeShield"));
}

#[test]
fn synthetic_project_is_hidden_when_repo_belongs_to_real_project() {
    let repo_id = id("99999999-9999-9999-9999-999999999999");
    let synthetic_project = SyntheticProject {
        project: project("77777777-7777-7777-7777-777777777777", "FoxtrotLima", 20),
        repo_ids: vec![repo_id],
    };
    let existing_names = vec![project_name_key("foxtrot-lima")];
    let existing_repo_ids = vec![repo_id];
    let candidates =
        filter_synthetic_project_candidates(&vec![synthetic_project], &vec![], &existing_names, &existing_repo_ids);
    assert!(candidates.is_empty());
}

#[test]
fn synthetic_only_project_is_kept() {
    let synthetic_project = SyntheticProject {
        project: project("88888888-8888-8888-8888-888888888888", "VK Sub-Agent Monitor", 20),
        repo_ids: vec![id("99999999-9999-9999-9999-999999999999")],
    };
    let candidates = filter_synthetic_project_candidates(&vec![synthetic_project], &vec![], &vec![], &vec![]);
    assert_eq!(candidates.len(), 1);
    assert_eq!(candidates[0].id, id("88888888-8888-8888-8888-888888888888"));
}

#[test]
fn names_normalize_to_trimmed_lower_case() {
    assert_eq!(normalize_project_name("  Foxtrot Lima "), "foxtrot lima");
    assert_eq!(project_name_key(" Foxtrot-Lima_2 "), "foxtrotlima2");
}

#[test]
fn sub_agent_repositories_are_recognized_by_name_display_name_or_path() {
    assert!(is_sub_agents_repo(&repo("vk-subagent-monitor", "Monitor", "/r/a")));
    assert!(is_sub_agents_repo(&repo("app", "Sub Agent work", "/r/a")));
    assert!(is_sub_agents_repo(&repo("app", "App", "/r/sub_agent/x")));
    assert!(!is_sub_agents_repo(&repo("app", "App", "/r/app")));
    let p = synthetic_project_from_repo(&repo("app", "App", "/r/app"));
    assert_eq!(p.id, 42);
    assert_eq!(p.name, "App");
    assert_eq!(p.default_agent_working_dir.as_deref(), Some("/work"));
}

#[test]
fn target_branches_fall_back_to_the_repository_default() {
    let mut r = repo("app", "App", "/r/app");
    assert_eq!(repo_default_target_branch(&r), "main");
    r.default_target_branch = Some("develop".into());
    assert_eq!(repo_default_target_branch(&r), "develop");
    let targets = vec![(42u128, Some("release".to_string())), (7u128, Some("other".to_string()))];
    assert_eq!(repo_target_branch(&targets, &r), "release");
    assert_eq!(repo_target_branch(&vec![(42u128, None)], &r), "develop");
    assert_eq!(check_project_name(Some("  ")), Err("Project name cannot be empty"));
    assert_eq!(check_project_name(Some(" New ")), Ok(Some("New")));
    assert_eq!(check_project_name(None), Ok(None));
}

#[test]
fn project_list_adds_uncovered_candidates_and_fills_working_directories() {
    let real = project("11111111-1111-1111-1111-111111111111", "FoxtrotLima", 5);
    let mut synthetic_real = project("22222222-2222-2222-2222-222222222222", "foxtrot-lima", 9);
    synthetic_real.default_agent_working_dir = Some("/work/foxtrot".to_string());
    let fresh = project("33333333-3333-3333-3333-333333333333", "Other", 8);
    let synthetic = vec![
        SyntheticProject { project: synthetic_real, repo_ids: vec![1] },
        SyntheticProject { project: fresh, repo_ids: vec![2] },
    ];
    let list = merge_project_list(vec![real], &synthetic, vec![], &vec![]);
    assert_eq!(list.len(), 2);
    assert_eq!(list[0].name, "FoxtrotLima");
    assert_eq!(list[0].default_agent_working_dir.as_deref(), Some("/work/foxtrot"));
    assert_eq!(list[1].name, "Other");
}

#[test]
fn repository_defaults_take_name_and_directory_of_first_repo() {
    let repos = vec![repo("a", "Alpha", "/a"), repo("b", "Beta", "/b")];
    let p = synthetic_project_from_repos(7, 10, 20, &repos).unwrap();
    assert_eq!(p.id, 7);
    assert_eq!(p.name, "Alpha");
    assert_eq!(p.default_agent_working_dir, Some("/work".to_string()));
    assert_eq!((p.created_at_ns, p.updated_at_ns), (10, 20));
    assert!(!p.archived);
    assert!(synthetic_project_from_repos(7, 10, 20, &vec![]).is_none());
}
