use vibe_kanban::frontend::{missing_asset, requested_asset, sanitize_asset_path, MissingAsset};
use vibe_kanban::capacity::unit_name;
use vibe_kanban::controller::{open_state, Controller};
use vibe_kanban::systemd::{
    build_unit_name, env_value, systemd_run_args, systemd_run_enabled, unit_name_for,
};

#[test]
fn systemd_switch_reads_the_first_set_variable() {
    assert!(systemd_run_enabled(Some(" YES "), None));
    assert!(systemd_run_enabled(None, Some("1")));
    assert!(!systemd_run_enabled(Some("0"), Some("1")));
    assert!(!systemd_run_enabled(None, None));
    assert!(systemd_run_enabled(Some("On"), Some("no")));
    assert_eq!(
        env_value(Some("  ".into()), Some("2G".into())),
        Some("2G".to_string())
    );
    assert_eq!(
        env_value(Some(" 1G".into()), Some("2G".into())),
        Some(" 1G".to_string())
    );
    assert_eq!(env_value(None, Some("".into())), None);
}

#[test]
fn unit_names_are_cleaned_labels_with_a_uuid() {
    let id = uuid::Uuid::parse_str("67e55044-10b1-426f-9247-bb680e5fe0c8").unwrap();
    assert_eq!(
        unit_name_for("Cursor Agent!", id.as_u128()),
        "vk-exec-cursor-agent-67e5504410b1426f9247bb680e5fe0c8.service"
    );
    assert_eq!(
        unit_name_for("--", id.as_u128()),
        "vk-exec-exec-67e5504410b1426f9247bb680e5fe0c8.service"
    );
    let a = build_unit_name("codex");
    let b = build_unit_name("codex");
    assert!(a.starts_with("vk-exec-codex-") && a.ends_with(".service"));
    assert_eq!(a.len(), "vk-exec-codex-".len() + 32 + ".service".len());
    assert_ne!(a, b);
}

#[test]
fn systemd_run_arguments_are_ordered() {
    let args = systemd_run_args(
        "vk-exec-x.service",
        "VK exec",
        "/work",
        Some("1G".into()),
        None,
        &vec![("A".into(), "1".into())],
        "/bin/codex",
        &vec!["exec".into(), "--json".into()],
    );
    assert_eq!(
        args,
        vec![
            "--user",
            "--pipe",
            "--collect",
            "--quiet",
            "--service-type=exec",
            "--unit",
            "vk-exec-x.service",
            "--working-directory",
            "/work",
            "--description",
            "VK exec",
            "--property=MemoryHigh=1G",
            "--setenv=A=1",
            "/bin/codex",
            "exec",
            "--json",
        ]
    );
}

#[test]
fn asset_paths_stay_inside_the_build() {
    assert_eq!(
        sanitize_asset_path("assets/./app.js"),
        Some("assets/app.js".to_string())
    );
    assert_eq!(sanitize_asset_path("a//b/"), Some("a/b".to_string()));
    assert_eq!(sanitize_asset_path("../secret"), None);
    assert_eq!(sanitize_asset_path("a/../../b"), None);
    assert_eq!(sanitize_asset_path("/etc/passwd"), None);
    assert_eq!(sanitize_asset_path(""), Some(String::new()));
    assert_eq!(requested_asset("//index.html"), "index.html");
    assert_eq!(missing_asset("assets/x.js"), MissingAsset::NotFound);
    assert_eq!(missing_asset("projects/1"), MissingAsset::ServeIndex);
}

#[test]
fn uuids_are_written_in_their_usual_text_forms() {
    let id = uuid::Uuid::new_v4();
    let c = Controller {
        root: "/state".into(),
        guard: "/bin/guard".into(),
        state: open_state(None, "e".into()).unwrap(),
    };
    assert_eq!(c.lease_path(id.as_u128()), format!("/state/{id}.json"));
    assert_eq!(
        unit_name(id.as_u128()),
        format!("vk-capacity-{}.service", id.simple())
    );
    assert_ne!(build_unit_name("x"), build_unit_name("x"));
}

#[test]
fn stopping_a_transient_unit() {
    assert_eq!(
        vibe_kanban::systemd::stop_unit_args("vk-1.service"),
        vec!["--user".to_string(), "stop".to_string(), "vk-1.service".to_string()]
    );
    assert_eq!(
        vibe_kanban::systemd::stop_failure_message("vk-1.service", "no such unit"),
        "systemctl stop vk-1.service failed: no such unit"
    );
}
