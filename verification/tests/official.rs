use codex_api_switcher::json::{Json, JsonNumber};
use codex_api_switcher::official_auth::{auth_object_from_bytes, load_chatgpt_auth_status, repair_auth_object};
use codex_api_switcher::official_backup::{
    BackupFileState, FileAction, backup_state, default_original_backup_root,
    load_original_backup_status, new_manifest, original_backup_to_keep, restore_action,
};
use serde_json::Value;

fn to_json(v: &Value) -> Json {
    match v {
        Value::Null => Json::Null,
        Value::Bool(b) => Json::Bool(*b),
        Value::Number(n) => {
            if let Some(u) = n.as_u64() {
                Json::Number(JsonNumber::PosInt(u))
            } else if let Some(i) = n.as_i64() {
                Json::Number(JsonNumber::NegInt(i))
            } else {
                Json::Number(JsonNumber::Float(n.to_string()))
            }
        }
        Value::String(s) => Json::Str(s.clone()),
        Value::Array(items) => Json::Array(items.iter().map(to_json).collect()),
        Value::Object(map) => Json::Object(map.iter().map(|(k, v)| (k.clone(), to_json(v))).collect()),
    }
}

fn parse(text: &str) -> Json {
    to_json(&serde_json::from_str::<Value>(text).unwrap())
}

#[test]
fn backup_and_restore_returns_codex_files_to_original_contents() {
    let manifest = new_manifest(5, "/codex", true, true);
    assert!(manifest.auth_json == BackupFileState::BackedUp);
    assert!(manifest.config_toml == BackupFileState::BackedUp);
    assert!(restore_action(manifest.auth_json, true) == FileAction::CopyFromBackup);
    assert!(restore_action(manifest.config_toml, false) == FileAction::CopyFromBackup);
    let status = load_original_backup_status(Some(&manifest));
    assert!(status.exists && status.auth_json_backed_up && status.config_toml_backed_up);
    assert_eq!(status.created_at, Some(5));
}

#[test]
fn restore_removes_files_that_were_missing_when_backup_was_created() {
    let manifest = new_manifest(5, "/codex", true, false);
    assert!(manifest.config_toml == BackupFileState::Missing);
    assert!(restore_action(manifest.config_toml, true) == FileAction::Remove);
    assert!(restore_action(BackupFileState::Missing, false) == FileAction::Keep);
    assert!(backup_state(false) == BackupFileState::Missing);
    let status = load_original_backup_status(None);
    assert!(!status.exists);
    assert_eq!(status.created_at, None);
    assert_eq!(default_original_backup_root("/d"), "/d/original-codex-backup");
}

#[test]
fn auth_status_and_repair() {
    let status = load_chatgpt_auth_status(None);
    assert!(!status.has_auth_file && !status.can_repair);

    let mut auth = parse(r#"{"auth_mode":"apikey","OPENAI_API_KEY":"sk","tokens":{"id_token":"t"}}"#);
    let before = load_chatgpt_auth_status(Some(&auth));
    assert!(before.has_auth_file && before.has_tokens && !before.compatible && before.can_repair);
    assert!(repair_auth_object(&mut auth));
    let after = load_chatgpt_auth_status(Some(&auth));
    assert!(after.compatible && !after.can_repair);
    let text: Value = from_json(&auth);
    assert_eq!(text["auth_mode"], "chatgpt");
    assert!(text["OPENAI_API_KEY"].is_null());
    assert!(!repair_auth_object(&mut auth));

    let mut no_tokens = parse(r#"{"auth_mode":"apikey"}"#);
    assert!(!repair_auth_object(&mut no_tokens));
    assert!(!load_chatgpt_auth_status(Some(&no_tokens)).can_repair);
}

#[test]
fn an_existing_backup_manifest_stops_a_second_backup() {
    let (first, is_new) = original_backup_to_keep(None, 5, "/codex", true, false);
    assert!(is_new);
    assert_eq!(first.created_at, 5);
    assert_eq!(first.codex_home, "/codex");
    assert_eq!(first.auth_json, BackupFileState::BackedUp);
    assert_eq!(first.config_toml, BackupFileState::Missing);
    let (kept, is_new) = original_backup_to_keep(Some(first), 99, "/elsewhere", false, true);
    assert!(!is_new);
    assert_eq!(kept.created_at, 5);
    assert_eq!(kept.codex_home, "/codex");
    assert_eq!(kept.auth_json, BackupFileState::BackedUp);
    assert_eq!(kept.config_toml, BackupFileState::Missing);
}

#[test]
fn backup_status_reports_the_backup_once_created() {
    let (manifest, _) = original_backup_to_keep(None, 42, "/codex", false, true);
    let status = load_original_backup_status(Some(&manifest));
    assert!(status.exists);
    assert_eq!(status.created_at, Some(42));
    assert!(!status.auth_json_backed_up);
    assert!(status.config_toml_backed_up);
    let (again, _) = original_backup_to_keep(Some(manifest), 99, "/codex", true, true);
    let status = load_original_backup_status(Some(&again));
    assert_eq!(status.created_at, Some(42));
    assert!(!status.auth_json_backed_up);
}

fn from_json(j: &Json) -> Value {
    match j {
        Json::Null => Value::Null,
        Json::Bool(b) => Value::Bool(*b),
        Json::Number(JsonNumber::PosInt(u)) => Value::from(*u),
        Json::Number(JsonNumber::NegInt(i)) => Value::from(*i),
        Json::Number(JsonNumber::Float(t)) => serde_json::from_str(t).unwrap(),
        Json::Str(s) => Value::String(s.clone()),
        Json::Array(items) => Value::Array(items.iter().map(from_json).collect()),
        Json::Object(es) => Value::Object(es.iter().map(|(k, v)| (k.clone(), from_json(v))).collect()),
    }
}

#[test]
fn auth_object_bytes_give_the_object_or_an_empty_one() {
    assert_eq!(from_json(&auth_object_from_bytes(br#"{"a":1}"#)), serde_json::from_str::<Value>(r#"{"a":1}"#).unwrap());
    assert_eq!(from_json(&auth_object_from_bytes(b"[1]")), serde_json::from_str::<Value>("{}").unwrap());
    assert_eq!(from_json(&auth_object_from_bytes(b"nope")), serde_json::from_str::<Value>("{}").unwrap());
}
