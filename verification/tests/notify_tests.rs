use vibe_kanban::notify::{
    bearer_header, build_ntfy_publish_url, env_first, macos_notification_script,
    ntfy_timeout_secs, wsl_to_windows_path, NtfyEnv, NtfyTurnCompletionConfig,
};

fn unset() -> NtfyEnv {
    NtfyEnv {
        turn_url: None,
        url: None,
        turn_topic: None,
        topic: None,
        turn_token: None,
        token: None,
        turn_timeout_secs: None,
    }
}

#[test]
fn builds_ntfy_publish_url_without_duplicate_slashes() {
    let url = build_ntfy_publish_url("https://opntfy.fly.dev/", "/vk-workspace-turns/")
        .expect("valid ntfy URL");

    assert_eq!(url.as_str(), "https://opntfy.fly.dev/vk-workspace-turns");
}

#[test]
fn reads_turn_completion_env_before_generic_ntfy_env() {
    let env = NtfyEnv {
        url: Some("https://generic.example".into()),
        topic: Some("generic-topic".into()),
        token: Some("generic-token".into()),
        turn_url: Some("https://turns.example".into()),
        turn_topic: Some("turn-topic".into()),
        turn_token: Some("turn-token".into()),
        turn_timeout_secs: Some("7".into()),
    };

    let config = NtfyTurnCompletionConfig::from_lookup(&env).expect("configured ntfy");

    assert_eq!(config.publish_url.as_str(), "https://turns.example/turn-topic");
    assert_eq!(config.token.as_deref(), Some("turn-token"));
    assert_eq!(config.timeout_secs, 7);
}

#[test]
fn supports_generic_ntfy_env_as_fallback() {
    let mut env = unset();
    env.url = Some("https://opntfy.fly.dev".into());
    env.topic = Some("vk-workspace-turns".into());

    let config = NtfyTurnCompletionConfig::from_lookup(&env).expect("configured ntfy");

    assert_eq!(
        config.publish_url.as_str(),
        "https://opntfy.fly.dev/vk-workspace-turns"
    );
    assert_eq!(config.token, None);
    assert_eq!(config.timeout_secs, 4);
}

#[test]
fn missing_or_unusable_settings_give_no_configuration() {
    let mut env = unset();
    env.url = Some("https://opntfy.fly.dev".into());
    assert!(NtfyTurnCompletionConfig::from_lookup(&env).is_none());
    env.topic = Some("   ".into());
    assert!(NtfyTurnCompletionConfig::from_lookup(&env).is_none());
    env.topic = Some("t".into());
    env.url = Some("not a url".into());
    assert!(NtfyTurnCompletionConfig::from_lookup(&env).is_none());
    assert_eq!(build_ntfy_publish_url("mailto:x@example.com", "t"), None);
}

#[test]
fn blank_values_fall_through_and_are_trimmed() {
    assert_eq!(
        env_first(&vec![Some("  ".into()), None, Some(" b ".into())]),
        Some("b".to_string())
    );
    assert_eq!(env_first(&vec![None, Some("".into())]), None);
}

#[test]
fn timeouts_default_to_four_seconds() {
    assert_eq!(ntfy_timeout_secs(&None), 4);
    assert_eq!(ntfy_timeout_secs(&Some("0".into())), 4);
    assert_eq!(ntfy_timeout_secs(&Some("x".into())), 4);
    assert_eq!(ntfy_timeout_secs(&Some("12".into())), 12);
}

#[test]
fn notification_texts() {
    assert_eq!(bearer_header("tok"), "Bearer tok");
    assert_eq!(
        macos_notification_script("Say \"hi\"", "done"),
        "display notification \"done\" with title \"Say \\\"hi\\\"\" sound name \"Glass\""
    );
    assert_eq!(
        wsl_to_windows_path("rel/sound.wav", None),
        Some("rel/sound.wav".to_string())
    );
    assert_eq!(
        wsl_to_windows_path("/home/u/a.wav", Some("\\\\wsl$\\Ubuntu")),
        Some("\\\\wsl$\\Ubuntu/home/u/a.wav".to_string())
    );
    assert_eq!(wsl_to_windows_path("/home/u/a.wav", None), None);
}

#[test]
fn the_timeout_setting_is_trimmed_like_the_others() {
    let mut env = unset();
    env.url = Some("https://ntfy.example".into());
    env.topic = Some("t".into());
    env.turn_timeout_secs = Some(" 9 ".into());
    let config = NtfyTurnCompletionConfig::from_lookup(&env).unwrap();
    assert_eq!(config.timeout_secs, 9);
    assert_eq!(config.publish_url, "https://ntfy.example/t");
}
