use codex_api_switcher::network_env::{
    append_managed_block, apply_env_content, build_managed_block, default_network_env_backup_root,
    env_backup_to_keep, first_env_value, normalize_proxy_endpoint, parse_env_values, remove_managed_block,
    status_from_content,
};
use codex_api_switcher::official_backup::BackupFileState;

#[test]
fn apply_creates_codex_env_and_restore_removes_it_when_original_was_missing() {
    let content = apply_env_content("", "127.0.0.1:7890").unwrap();
    assert!(content.contains("HTTP_PROXY=http://127.0.0.1:7890"));
    assert!(content.contains("ALL_PROXY=socks5://127.0.0.1:7890"));
    assert!(content.contains("NO_PROXY=localhost,127.0.0.1,::1"));
    let status = status_from_content("/c/.env", Some(&content), true);
    assert!(status.exists);
    assert!(status.configured);
    assert!(status.managed);
    assert!(status.backup_exists);
    assert_eq!(status.proxy_endpoint.as_deref(), Some("127.0.0.1:7890"));
}

#[test]
fn repeated_apply_replaces_the_managed_block_instead_of_appending_duplicates() {
    let first = apply_env_content("CUSTOM_FLAG=1\n", "127.0.0.1:7890").unwrap();
    let second = apply_env_content(&first, "127.0.0.1:7891").unwrap();
    assert_eq!(second.matches("BEGIN CODEXPILOT NETWORK PROXY").count(), 1);
    assert_eq!(second.matches("END CODEXPILOT NETWORK PROXY").count(), 1);
    assert!(second.contains("127.0.0.1:7891"));
    assert!(!second.contains("127.0.0.1:7890"));
    assert!(second.starts_with("CUSTOM_FLAG=1\n\n"));
}

#[test]
fn status_reads_existing_managed_proxy_configuration() {
    let content = apply_env_content("", "127.0.0.1:7890").unwrap();
    let status = status_from_content("/c/.env", Some(&content), false);
    assert!(status.configured);
    assert!(status.has_no_proxy);
    assert_eq!(status.proxy_endpoint.as_deref(), Some("127.0.0.1:7890"));
}

#[test]
fn missing_env_has_empty_status() {
    let status = status_from_content("/c/.env", None, false);
    assert!(!status.exists && !status.configured && !status.managed && !status.has_no_proxy);
    assert_eq!(status.proxy_endpoint, None);
    assert_eq!(status.env_path, "/c/.env");
}

#[test]
fn endpoint_normalization() {
    assert_eq!(normalize_proxy_endpoint(" http://127.0.0.1:7890/x ").unwrap(), "127.0.0.1:7890");
    assert_eq!(normalize_proxy_endpoint("SOCKS5://h:1").unwrap(), "h:1");
    assert_eq!(normalize_proxy_endpoint("   ").unwrap_err(), "proxy endpoint is empty");
    assert_eq!(
        normalize_proxy_endpoint("localhost").unwrap_err(),
        "proxy endpoint must be host:port, for example 127.0.0.1:7890"
    );
    assert!(apply_env_content("", "nohost").is_err());
}

#[test]
fn managed_block_is_removed_and_rest_kept() {
    let block = build_managed_block("h:1");
    let text = append_managed_block("A=1\n\n\n", &block);
    assert!(text.starts_with("A=1\n\n# BEGIN CODEXPILOT NETWORK PROXY\n"));
    assert_eq!(remove_managed_block(&text), "A=1\n\n");
    assert_eq!(append_managed_block("  \n", &block), block);
}

#[test]
fn env_values_follow_the_first_listed_key() {
    let values = parse_env_values("# c\nA = \"x\"\nB='y'\nnoequals\nA=z\n");
    assert_eq!(first_env_value(&values, &vec!["B", "A"]).as_deref(), Some("y"));
    assert_eq!(first_env_value(&values, &vec!["A"]).as_deref(), Some("z"));
    assert_eq!(first_env_value(&values, &vec!["C"]), None);
    assert_eq!(default_network_env_backup_root("/d"), "/d/network-env-backup");
}

#[test]
fn an_existing_env_backup_is_kept() {
    let (first, is_new) = env_backup_to_keep(None, 7, "/codex", false);
    assert!(is_new);
    assert_eq!(first.created_at, 7);
    assert_eq!(first.env_file, BackupFileState::Missing);
    let (kept, is_new) = env_backup_to_keep(Some(first), 8, "/other", true);
    assert!(!is_new);
    assert_eq!(kept.created_at, 7);
    assert_eq!(kept.codex_home, "/codex");
    assert_eq!(kept.env_file, BackupFileState::Missing);
}
