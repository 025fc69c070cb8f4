use vibe_kanban::policy::{
    build_roots, path_starts_with, verify_scope,
    capacity_profile_name, check_build_root_count, check_effective_config, check_resume_request,
    resumed_thread_id, verify_launcher, verify_permissions, verify_provider,
    scheduled_config_overrides, verify_tool_inventory, AdmissionError, EffectiveConfig,
    HooksValue, OverrideValue, ResumeReport, ToolInventory, DISABLED_FEATURES,
    build_root_candidate, configured_build_roots, scheduled_resume_request, BuildRootsError, ConfigValue,
    ResumeParams,
};

fn valid() -> ResumeReport {
    ResumeReport {
        active_profile_id: Some("capacity".into()),
        approval_policy: Some("never".into()),
        cwd: Some("/work".into()),
        runtime_workspace_roots: Some(vec!["/work".into()]),
        sandbox_type: Some("workspaceWrite".into()),
        network_access: Some(false),
        exclude_slash_tmp: Some(true),
        exclude_tmpdir_env_var: Some(true),
        writable_roots: Some(vec![]),
    }
}

#[test]
fn scheduled_profile_cannot_replace_the_supervised_launcher_or_provider() {
    verify_launcher(None, "codex").unwrap();
    verify_launcher(Some("codex"), "codex").unwrap();
    assert!(verify_launcher(Some("ssh remote codex"), "codex").is_err());
    verify_provider(Some("openai"), "openai").unwrap();
    assert!(verify_provider(Some("other-account"), "openai").is_err());
    assert!(verify_provider(None, "openai").is_err());
}

#[test]
fn ignored_or_broadened_native_permissions_fail_admission() {
    verify_permissions(&valid(), "capacity", "/work", &vec![]).unwrap();
    for field in 0..6 {
        let mut changed = valid();
        match field {
            0 => changed.network_access = Some(true),
            1 => changed.writable_roots = Some(vec!["/".into()]),
            2 => changed.active_profile_id = Some(":danger-full-access".into()),
            3 => changed.runtime_workspace_roots = Some(vec!["/work".into(), "/".into()]),
            4 => changed.exclude_slash_tmp = Some(false),
            _ => changed.approval_policy = Some("on-request".into()),
        }
        assert!(
            verify_permissions(&changed, "capacity", "/work", &vec![]).is_err(),
            "{field}"
        );
    }
}

#[test]
fn launcher_comparison_ignores_surrounding_whitespace() {
    assert!(verify_launcher(Some("  codex \n"), "codex").is_ok());
    assert_eq!(
        verify_launcher(Some("codex2"), "codex"),
        Err(AdmissionError::UnapprovedLauncher)
    );
    assert_eq!(
        verify_provider(Some(""), ""),
        Err(AdmissionError::UnapprovedProvider)
    );
}

#[test]
fn declared_build_roots_must_match_exactly() {
    let mut report = valid();
    report.writable_roots = Some(vec!["/build".into()]);
    assert!(verify_permissions(&report, "capacity", "/work", &vec!["/build".into()]).is_ok());
    assert!(verify_permissions(&report, "capacity", "/work", &vec![]).is_err());
    report.writable_roots = None;
    assert_eq!(
        verify_permissions(&report, "capacity", "/work", &vec![]),
        Err(AdmissionError::RestrictedPermissions)
    );
}

#[test]
fn profile_names_replace_dashes() {
    assert_eq!(
        capacity_profile_name("67e55044-10b1-426f"),
        "vk_capacity_67e55044_10b1_426f"
    );
}

#[test]
fn resume_requests_need_a_scoped_workspace_and_no_profile() {
    assert_eq!(
        check_resume_request(true, Some("/work")),
        Err(AdmissionError::AlternateProfile)
    );
    assert_eq!(
        check_resume_request(false, None),
        Err(AdmissionError::MissingWorkspace)
    );
    assert!(check_resume_request(false, Some("/work")).is_ok());
}

#[test]
fn effective_config_must_be_hook_free_and_list_its_servers() {
    assert_eq!(
        check_effective_config(None),
        Err(AdmissionError::CannotVerifyConfig)
    );
    let hooks = EffectiveConfig {
        hooks: HooksValue::Other,
        mcp_servers: Some(vec![]),
    };
    assert_eq!(
        check_effective_config(Some(&hooks)),
        Err(AdmissionError::LifecycleHooks)
    );
    let unknown = EffectiveConfig {
        hooks: HooksValue::Null,
        mcp_servers: None,
    };
    assert_eq!(
        check_effective_config(Some(&unknown)),
        Err(AdmissionError::CannotResolveMcp)
    );
    let ok = EffectiveConfig {
        hooks: HooksValue::EmptyObject,
        mcp_servers: Some(vec!["github".into()]),
    };
    assert_eq!(
        check_effective_config(Some(&ok)).unwrap(),
        vec!["github".to_string()]
    );
}

#[test]
fn tool_inventory_must_be_complete_and_disabled() {
    assert_eq!(
        verify_tool_inventory(&ToolInventory {
            statuses: None,
            last_page: true
        }),
        Err(AdmissionError::CannotVerifyTools)
    );
    assert!(verify_tool_inventory(&ToolInventory {
        statuses: Some(vec![Some("disabled".into())]),
        last_page: true
    })
    .is_ok());
    assert_eq!(
        verify_tool_inventory(&ToolInventory {
            statuses: Some(vec![Some("disabled".into())]),
            last_page: false
        }),
        Err(AdmissionError::ExternalTools)
    );
    assert_eq!(
        verify_tool_inventory(&ToolInventory {
            statuses: Some(vec![None]),
            last_page: true
        }),
        Err(AdmissionError::ExternalTools)
    );
}

#[test]
fn thread_ids_and_build_root_counts_are_checked() {
    assert_eq!(resumed_thread_id(Some("t")), Ok("t"));
    assert_eq!(resumed_thread_id(None), Err(AdmissionError::MissingThread));
    assert!(check_build_root_count(8).is_ok());
    assert_eq!(
        check_build_root_count(9),
        Err(AdmissionError::TooManyBuildRoots)
    );
    assert!(AdmissionError::TooManyBuildRoots
        .message()
        .contains("eight"));
}

#[test]
fn scheduled_resumes_override_permissions_tools_and_features() {
    let overrides = scheduled_config_overrides(
        "vk_capacity_x",
        &vec!["/build".into()],
        &vec!["github".into(), "linear".into()],
    );
    let keys: Vec<&str> = overrides.iter().map(|(k, _)| k.as_str()).collect();
    assert_eq!(&keys[..6], &[
        "default_permissions",
        "agents.max_depth",
        "agents.max_concurrent_threads_per_session",
        "permissions.vk_capacity_x.filesystem",
        "permissions.vk_capacity_x.network.enabled",
        "mcp_servers",
    ]);
    assert_eq!(overrides.len(), 6 + DISABLED_FEATURES.len());
    assert_eq!(keys[6], "features.apps");
    assert_eq!(keys[17], "features.request_permissions_tool");
    assert!(matches!(&overrides[0].1, OverrideValue::Text(p) if p == "vk_capacity_x"));
    assert!(matches!(overrides[1].1, OverrideValue::Number(0)));
    assert!(matches!(overrides[2].1, OverrideValue::Number(1)));
    match &overrides[3].1 {
        OverrideValue::Filesystem(table, workspace_roots) => {
            assert_eq!(
                table,
                &vec![
                    ("/".to_string(), "read".to_string()),
                    ("/build".to_string(), "write".to_string())
                ]
            );
            assert_eq!(workspace_roots, &vec![(".".to_string(), "write".to_string())]);
        },
        _ => panic!("expected the filesystem table"),
    }
    assert!(matches!(overrides[4].1, OverrideValue::Flag(false)));
    match &overrides[5].1 {
        OverrideValue::DisabledServers(names) => assert_eq!(names, &vec!["github", "linear"]),
        _ => panic!("expected the servers"),
    }
    assert!(overrides[6..]
        .iter()
        .all(|(_, v)| matches!(v, OverrideValue::Flag(false))));
}

#[test]
fn writable_workspace_cannot_include_authority_even_through_symlinks() {
    let root = "/tmp/capacity-scope-1";
    let lease = vec![format!("{root}/private/lease")];
    verify_scope(&format!("{root}/work"), &lease).unwrap();
    assert_eq!(verify_scope(root, &lease), Err(AdmissionError::ScopeOverlap));
    // A symlink to the root canonicalizes to the root itself.
    let alias_target = root;
    assert!(verify_scope(alias_target, &lease).is_err());
}

#[test]
fn build_directories_cannot_include_or_live_inside_authority() {
    let root = "/tmp/capacity-build-1";
    let private = vec![format!("{root}/private")];
    for path in [root.to_string(), format!("{root}/private"), format!("{root}/private/cache")] {
        assert!(build_roots(&vec![Some(path)], &private).is_err());
    }
    assert_eq!(
        build_roots(&vec![Some(format!("{root}/build"))], &private)
            .unwrap()
            .len(),
        1
    );
    assert_eq!(
        build_roots(&vec![None], &vec![]),
        Err(AdmissionError::BuildRootInvalid)
    );
}

#[test]
fn build_roots_are_sorted_without_repetition() {
    let roots = vec![Some("/b".to_string()), Some("/a".to_string()), Some("/b".to_string())];
    assert_eq!(build_roots(&roots, &vec![]).unwrap(), vec!["/a", "/b"]);
    assert_eq!(
        build_roots(&vec![Some("/x".to_string()); 9], &vec![]),
        Err(AdmissionError::TooManyBuildRoots)
    );
    assert_eq!(
        build_roots(&vec![Some("/srv".to_string())], &vec!["/srv/keys".to_string()]),
        Err(AdmissionError::ScopeOverlap)
    );
    assert_eq!(
        build_roots(&vec![Some("/srv/keys/x".to_string())], &vec!["/srv/keys".to_string()]),
        Err(AdmissionError::BuildRootInAuthority)
    );
}

#[test]
fn containment_compares_whole_components() {
    assert!(path_starts_with("/a/b", "/a"));
    assert!(path_starts_with("/a", "/a/"));
    assert!(path_starts_with("/a/b", "/"));
    assert!(!path_starts_with("/ab", "/a"));
    assert!(!path_starts_with("a/b", "/a"));
    assert!(path_starts_with("/a/./b", "/a/b"));
}

fn session_request() -> ResumeParams {
    ResumeParams {
        cwd: Some("/work".to_string()),
        approval_policy: Some("\"onRequest\"".to_string()),
        sandbox: Some("\"workspaceWrite\"".to_string()),
        runtime_workspace_roots: None,
        config: Some(vec![
            ("model".to_string(), "\"gpt\"".to_string()),
            ("agents.max_depth".to_string(), "3".to_string()),
        ]),
        other: vec![("threadId".to_string(), "\"t1\"".to_string())],
    }
}

#[test]
fn scheduled_resume_request_drops_sandbox_and_pins_the_workspace() {
    let config = EffectiveConfig { hooks: HooksValue::Absent, mcp_servers: Some(vec!["github".to_string()]) };
    let r = match scheduled_resume_request(session_request(), "/work", "a-b", &vec!["/build".to_string()], Some(&config)) {
        Ok(r) => r,
        Err(e) => panic!("{}", e.message()),
    };
    assert_eq!(r.approval_policy, "never");
    assert_eq!(r.runtime_workspace_roots, vec!["/work".to_string()]);
    assert_eq!(r.cwd, Some("/work".to_string()));
    assert_eq!(r.other, vec![("threadId".to_string(), "\"t1\"".to_string())]);
    let keys: Vec<&str> = r.config.iter().map(|(k, _)| k.as_str()).collect();
    assert_eq!(keys[0], "model");
    assert_eq!(keys[1], "default_permissions");
    assert_eq!(keys.iter().filter(|k| **k == "agents.max_depth").count(), 1);
    assert!(matches!(&r.config[0].1, ConfigValue::Given(v) if v == "\"gpt\""));
    assert!(matches!(&r.config[1].1, ConfigValue::Override(OverrideValue::Text(p)) if p == "vk_capacity_a_b"));
    assert_eq!(r.config.len(), 1 + 6 + DISABLED_FEATURES.len());
}

#[test]
fn scheduled_resume_request_needs_a_verified_configuration() {
    let hooks = EffectiveConfig { hooks: HooksValue::Other, mcp_servers: Some(vec![]) };
    assert!(matches!(
        scheduled_resume_request(session_request(), "/work", "a", &vec![], Some(&hooks)),
        Err(AdmissionError::LifecycleHooks)
    ));
    assert!(matches!(
        scheduled_resume_request(session_request(), "/work", "a", &vec![], None),
        Err(AdmissionError::CannotVerifyConfig)
    ));
    let no_servers = EffectiveConfig { hooks: HooksValue::Null, mcp_servers: None };
    assert!(matches!(
        scheduled_resume_request(session_request(), "/work", "a", &vec![], Some(&no_servers)),
        Err(AdmissionError::CannotResolveMcp)
    ));
}

#[test]
fn configured_build_directories_are_a_json_list_of_absolute_paths() {
    assert_eq!(configured_build_roots(None), Ok(vec![]));
    assert_eq!(configured_build_roots(Some("[]")), Ok(vec![]));
    assert_eq!(
        configured_build_roots(Some("[\"/a\",\"/b\"]")),
        Ok(vec!["/a".to_string(), "/b".to_string()])
    );
    assert!(matches!(configured_build_roots(Some("{}")), Err(BuildRootsError::Unreadable(_))));
    let nine = format!("[{}]", vec!["\"/x\""; 9].join(","));
    assert_eq!(
        configured_build_roots(Some(&nine)),
        Err(BuildRootsError::Refused(AdmissionError::TooManyBuildRoots))
    );
    let relative = configured_build_roots(Some("[\"relative\"]")).unwrap();
    let candidate = build_root_candidate(&relative[0], Some("/cwd/relative".to_string()));
    assert_eq!(candidate, None);
    assert_eq!(build_roots(&vec![candidate], &vec![]), Err(AdmissionError::BuildRootInvalid));
    assert_eq!(build_root_candidate("/abs", Some("/abs".to_string())), Some("/abs".to_string()));
    assert_eq!(build_root_candidate("/missing", None), None);
}
