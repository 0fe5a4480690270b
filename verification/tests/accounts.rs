use base64::Engine;
use codex_api_switcher::codex_binary::{codex_binary_candidates, path_directories, version_sort_key};
use codex_api_switcher::accounts::{
    discover_account_in_auth,
    load_projection, normalize_email, sanitize_active_source, switch_target, CodexActiveSource,
    CodexHomeTransaction, LoginPoll, ManagedCodexAccount, ManagedCodexLoginRunner,
    ObservedSystemCodexAccount, SwitchPlan,
};

fn account(id: &str, home: &str) -> ManagedCodexAccount {
    ManagedCodexAccount {
        id: id.to_string(),
        email: format!("{id}@example.com"),
        workspace_label: None,
        workspace_account_id: Some(format!("acct_{id}")),
        auth_fingerprint: None,
        managed_home_path: home.to_string(),
        created_at: 1,
        updated_at: 1,
        last_authenticated_at: Some(1),
    }
}

#[test]
fn switching_to_a_managed_account_saves_live_auth_first() {
    let t = CodexHomeTransaction::new("/home/.codex".to_string(), "/data/live-system-home".to_string());
    let plan = t.switch(
        &CodexActiveSource::LiveSystem,
        &CodexActiveSource::ManagedAccount { id: "managed-1".to_string() },
        Some("/data/managed-home"),
    );
    let SwitchPlan::Switch { snapshot_first, apply } = plan else {
        panic!("expected a switch");
    };
    let snapshot = snapshot_first.unwrap();
    assert_eq!(snapshot.source_home, "/home/.codex");
    assert_eq!(snapshot.target_home, "/data/live-system-home");
    let step = apply.unwrap();
    assert_eq!(step.sync.source_home, "/data/managed-home");
    assert_eq!(step.sync.target_home, "/home/.codex");
    assert_eq!(step.missing_auth_error, "target managed home is missing auth.json");
}

#[test]
fn switching_back_restores_live_auth_from_the_snapshot() {
    let t = CodexHomeTransaction::new("/home/.codex".to_string(), "/data/live-system-home".to_string());
    let plan = t.switch(
        &CodexActiveSource::ManagedAccount { id: "managed-1".to_string() },
        &CodexActiveSource::LiveSystem,
        None,
    );
    let SwitchPlan::Switch { snapshot_first, apply } = plan else {
        panic!("expected a switch");
    };
    assert!(snapshot_first.is_none());
    let step = apply.unwrap();
    assert_eq!(step.sync.source_home, "/data/live-system-home");
    assert_eq!(step.sync.target_home, "/home/.codex");
    assert!(matches!(
        t.switch(&CodexActiveSource::LiveSystem, &CodexActiveSource::LiveSystem, None),
        SwitchPlan::Unchanged
    ));
    let missing = t.switch(
        &CodexActiveSource::LiveSystem,
        &CodexActiveSource::ManagedAccount { id: "x".to_string() },
        None,
    );
    let SwitchPlan::Switch { apply, .. } = missing else {
        panic!("expected a switch");
    };
    assert_eq!(apply.err().as_deref(), Some("target managed home is missing"));
}

#[test]
fn active_source_falls_back_to_live_for_unknown_accounts() {
    let accounts = vec![account("a", "/h/a")];
    assert!(matches!(
        sanitize_active_source(CodexActiveSource::ManagedAccount { id: "b".to_string() }, &accounts),
        CodexActiveSource::LiveSystem
    ));
    assert!(matches!(switch_target("live", &accounts), CodexActiveSource::LiveSystem));
    assert!(matches!(switch_target("a", &accounts), CodexActiveSource::ManagedAccount { id } if id == "a"));
    assert_eq!(normalize_email("  User@Example.COM "), "user@example.com");
}

#[test]
fn projection_lists_live_then_stored_accounts() {
    let live = ObservedSystemCodexAccount {
        email: "live@example.com".to_string(),
        workspace_label: None,
        workspace_account_id: None,
        auth_fingerprint: None,
        codex_home_path: "/home/.codex".to_string(),
    };
    let projection = load_projection(
        CodexActiveSource::ManagedAccount { id: "a".to_string() },
        vec![account("a", "/h/a"), account("b", "/h/b")],
        false,
        Some(live),
    );
    assert_eq!(projection.accounts.len(), 3);
    assert_eq!(projection.accounts[0].id, "live");
    assert!(projection.accounts[0].is_live && !projection.accounts[0].is_active);
    assert_eq!(projection.accounts[1].id, "a");
    assert!(projection.accounts[1].is_active);
    assert!(!projection.accounts[2].is_active);
}

#[test]
fn login_wait_loop_decisions() {
    assert!(matches!(
        ManagedCodexLoginRunner::poll(Some((true, Some(0))), 10, 100),
        LoginPoll::Finished(Ok(m)) if m == "Codex login completed"
    ));
    assert!(matches!(
        ManagedCodexLoginRunner::poll(Some((false, Some(2))), 10, 100),
        LoginPoll::Finished(Err(m)) if m == "Codex login exited with status 2"
    ));
    assert!(matches!(ManagedCodexLoginRunner::poll(None, 10, 100), LoginPoll::Wait));
    assert!(matches!(ManagedCodexLoginRunner::poll(None, 100, 100), LoginPoll::TimedOut(_)));
    assert_eq!(
        ManagedCodexLoginRunner::spawn_error(true, "x".to_string()),
        "Codex CLI not found. Install the Codex CLI and try again."
    );
}

#[test]
fn codex_binary_candidates_reach_nvm_installs_past_a_minimal_path() {
    let versions = vec!["v22.22.3".to_string()];
    let candidates = codex_binary_candidates(Some("/usr/bin:/bin"), Some("/home/me"), &versions);
    assert_eq!(
        candidates,
        vec![
            "/usr/bin/codex".to_string(),
            "/bin/codex".to_string(),
            "/home/me/.nvm/versions/node/v22.22.3/bin/codex".to_string(),
        ]
    );
}

#[test]
fn codex_binary_candidates_put_the_newest_node_first() {
    let versions = vec![
        "v9.11.2".to_string(),
        "v22.22.3".to_string(),
        "v22.3.0".to_string(),
        "v18.20.4".to_string(),
    ];
    let candidates = codex_binary_candidates(None, Some("/h/"), &versions);
    assert_eq!(
        candidates,
        vec![
            "/h/.nvm/versions/node/v22.22.3/bin/codex".to_string(),
            "/h/.nvm/versions/node/v22.3.0/bin/codex".to_string(),
            "/h/.nvm/versions/node/v18.20.4/bin/codex".to_string(),
            "/h/.nvm/versions/node/v9.11.2/bin/codex".to_string(),
        ]
    );
    assert!(codex_binary_candidates(None, None, &versions).is_empty());
}

#[test]
fn path_directories_skip_empty_entries() {
    assert_eq!(path_directories("/a::/b/:"), vec!["/a".to_string(), "/b/".to_string()]);
    assert!(path_directories("").is_empty());
    assert_eq!(version_sort_key("v22.22.3"), vec![-22, -22, -3]);
    assert_eq!(version_sort_key("system"), Vec::<i128>::new());
    assert_eq!(codex_binary_candidates(Some("/b/"), None, &Vec::new()), vec!["/b/codex".to_string()]);
}

#[test]
fn account_in_auth_comes_from_the_id_token_claims() {
    let payload = r#"{"email":"User@Example.com","https://api.openai.com/auth":{"chatgpt_account_id":"acct_9"}}"#;
    let token = format!(
        "h.{}.s",
        base64::engine::general_purpose::URL_SAFE_NO_PAD.encode(payload.as_bytes())
    );
    let auth = format!(r#"{{"tokens":{{"id_token":"{token}"}}}}"#);
    let account = discover_account_in_auth(auth.as_bytes(), "/home/me/.codex").unwrap();
    assert_eq!(account.email, "user@example.com");
    assert_eq!(account.workspace_account_id.as_deref(), Some("acct_9"));
    assert_eq!(account.codex_home_path, "/home/me/.codex");
    assert!(discover_account_in_auth(b"{}", "/h").is_none());
    assert!(discover_account_in_auth(b"not json", "/h").is_none());
}
