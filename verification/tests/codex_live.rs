use codex_api_switcher::codex_live::{
    RestoreStep, build_takeover_config, codex_dir_from, is_switcher_config, provider_display_name,
    proxy_base_url, restore_step, should_back_up, switcher_backup_path, takeover_config_text,
};

#[test]
fn takeover_config_is_recognised_as_switcher_config() {
    let config = build_takeover_config(15721, "DeepSeek", "deepseek-v4-flash");
    assert!(config.starts_with(
        "# Managed by Codex API Switcher. Existing config.toml is backed up before takeover.\n"
    ));
    assert!(is_switcher_config(&config));
    assert!(config.contains("model_provider = \"codex-api-switcher\""));
    assert!(config.contains("[model_providers.codex-api-switcher]"));
}

#[test]
fn takeover_over_existing_config_keeps_other_settings() {
    let existing = "model = \"gpt-5\"\napproval_policy = \"never\"\n\n[model_providers.OpenAI]\nname = \"x\"\n\n[model_providers.other]\nname = \"Other\"\n";
    let text = takeover_config_text(Some(existing), 15721, "XIAOMI", "another-model").unwrap();
    assert!(text.contains("approval_policy = \"never\""));
    assert!(text.contains("model = \"another-model\""));
    assert!(text.contains("name = \"XIAOMI · another-model\""));
    assert!(text.contains("[model_providers.other]"));
    assert!(!text.contains("[model_providers.OpenAI]"));
    assert!(text.contains("base_url = \"http://127.0.0.1:15721/v1\""));
    assert!(text.contains("requires_openai_auth = true"));
    assert!(is_switcher_config(&text));
}

#[test]
fn takeover_rejects_invalid_toml_and_non_table_providers() {
    assert!(takeover_config_text(Some("model = ["), 15721, "A", "b").is_err());
    assert_eq!(
        takeover_config_text(Some("model_providers = 5\n"), 15721, "A", "b").unwrap_err(),
        "model_providers in config.toml is not a table"
    );
    let fresh = takeover_config_text(None, 1, "", "  ").unwrap();
    assert!(fresh.contains("model = \"deepseek-v4-flash\""));
    assert!(fresh.contains("name = \"deepseek-v4-flash\""));
    assert!(fresh.contains("base_url = \"http://127.0.0.1:1/v1\""));
}

#[test]
fn display_name_and_urls() {
    assert_eq!(provider_display_name("  DeepSeek ", "m"), "DeepSeek · m");
    assert_eq!(provider_display_name("   ", "m"), "m");
    assert_eq!(proxy_base_url(15721), "http://127.0.0.1:15721/v1");
    assert_eq!(switcher_backup_path("/home/u/.codex"), "/home/u/.codex/config.toml.codex-api-switcher.bak");
    assert_eq!(codex_dir_from(Some("/x".to_string()), Some("/home/u".to_string())), "/x");
    assert_eq!(codex_dir_from(None, Some("/home/u".to_string())), "/home/u/.codex");
    assert_eq!(codex_dir_from(None, None), "./.codex");
}

#[test]
fn switcher_config_detection() {
    assert!(is_switcher_config(
        "model_provider = \"codex-api-switcher\"\n[model_providers.codex-api-switcher]\n"
    ));
    assert!(!is_switcher_config("model_provider = \"codex-api-switcher\"\n"));
    assert!(is_switcher_config(
        "experimental_bearer_token = \"PROXY_MANAGED\"\nrequires_openai_auth = true\nbase_url = \"http://127.0.0.1:9/v1\"\n"
    ));
    assert!(!is_switcher_config("model = \"gpt-5\"\n"));
}

#[test]
fn backup_and_restore_steps() {
    let managed = build_takeover_config(15721, "DeepSeek", "deepseek-v4-flash");
    assert!(should_back_up(Some("model = \"gpt-5\"\n")));
    assert!(!should_back_up(Some(&managed)));
    assert!(!should_back_up(None));
    assert!(restore_step(Some(&managed), true) == RestoreStep::PutBackBackup);
    assert!(restore_step(Some("model = \"mine\"\n"), true) == RestoreStep::DropBackup);
    assert!(restore_step(Some(&managed), false) == RestoreStep::DropConfig);
    assert!(restore_step(Some("model = \"mine\"\n"), false) == RestoreStep::Keep);
    assert!(restore_step(None, true) == RestoreStep::PutBackBackup);
    assert!(restore_step(None, false) == RestoreStep::Keep);
}
