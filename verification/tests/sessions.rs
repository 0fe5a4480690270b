use codex_api_switcher::json::{Json, JsonNumber};
use codex_api_switcher::sessions::{
    CodexSessionSummary, SessionRecord, SidebarTitleRecord, ThreadIndexRecord, add_project_to_state,
    clean_text, finish_thread_records, group_sessions_by_project,
    group_sessions_by_project_with_codex_order, group_visible_sessions_by_project_with_codex_order,
    indexed_session_record, is_subagent_thread, is_visible_user_thread, normalize_project_path,
    normalize_role, preview_entry_from_event, preview_session_text, process_activity_ranks, project_deletion_name,
    global_state_from_text, process_activity_ranks_text, scan_session_text, sidebar_titles_from_text,
    project_name_from_path, saved_workspace_name,
    read_project_labels, read_saved_project_roots, remove_project_from_state, sidebar_title_entry,
    sort_session_records, thread_title, timestamp_folder, timestamp_from_value, title_from_text,
};
use serde_json::Value;

fn to_json(v: &Value) -> Json {
    match v {
        Value::Null => Json::Null,
        Value::Bool(b) => Json::Bool(*b),
        Value::Number(n) => {
            if let Some(u) = n.as_u64() {
                Json::Number(JsonNumber::PosInt(u))
            } else if let Some(i) = n.as_i64() {
                Json::Number(JsonNumber::NegInt(i))
            } else {
                Json::Number(JsonNumber::Float(n.to_string()))
            }
        }
        Value::String(s) => Json::Str(s.clone()),
        Value::Array(items) => Json::Array(items.iter().map(to_json).collect()),
        Value::Object(map) => Json::Object(map.iter().map(|(k, v)| (k.clone(), to_json(v))).collect()),
    }
}

fn parse(text: &str) -> Json {
    to_json(&serde_json::from_str::<Value>(text).unwrap())
}

fn value(j: &Json) -> Value {
    from_json(j)
}

fn thread(id: &str, title: &str, project: &str, created: i64, updated: i64) -> ThreadIndexRecord {
    ThreadIndexRecord {
        id: id.to_string(),
        title: thread_title(title.to_string()),
        created_at: created,
        updated_at: updated,
        updated_at_ms: updated * 1000,
        thread_source: Some("user".to_string()),
        model_provider: "openai".to_string(),
        source: "vscode".to_string(),
        activity_rank: 0,
        sidebar_order: 0,
        rollout_path: format!("/codex/sessions/{id}.jsonl"),
        project_path: normalize_project_path(project),
    }
}

/// The session list as the app builds it from the thread index.
fn listed(
    rows: Vec<ThreadIndexRecord>,
    sidebar: &[(&str, &str)],
    ranks: &[(&str, i64)],
    now: i64,
) -> Vec<CodexSessionSummary> {
    let sidebar: Vec<(String, SidebarTitleRecord)> = sidebar
        .iter()
        .enumerate()
        .filter_map(|(i, (id, name))| {
            sidebar_title_entry(&parse(&format!(r#"{{"id":"{id}","thread_name":"{name}"}}"#)), i)
        })
        .collect();
    let ranks: Vec<(String, i64)> = ranks.iter().map(|(id, r)| (id.to_string(), *r)).collect();
    let records: Vec<SessionRecord> = finish_thread_records(rows, &sidebar, &ranks, now)
        .into_iter()
        .map(|r| {
            let rel = r.rollout_path.trim_start_matches("/codex/sessions/").to_string();
            indexed_session_record(r, rel)
        })
        .collect();
    sort_session_records(&records)
}

#[test]
fn project_paths_and_names() {
    assert_eq!(normalize_project_path("/tmp/project-a/"), "/tmp/project-a");
    assert_eq!(normalize_project_path("  /tmp/x//  "), "/tmp/x");
    assert_eq!(normalize_project_path("/"), "");
    assert_eq!(project_name_from_path("/tmp/project-a"), "project-a");
    assert_eq!(project_name_from_path(""), "未指定项目");
}

#[test]
fn titles_are_cleaned_and_shortened() {
    assert_eq!(clean_text("  a \n b\t c "), "a b c");
    let long = "x".repeat(80);
    let title = title_from_text(&long);
    assert_eq!(title.chars().count(), 73);
    assert!(title.ends_with('…'));
    assert_eq!(title_from_text("short"), "short");
    assert_eq!(thread_title("  ".to_string()), "Untitled Codex session");
    assert_eq!(normalize_role("assistant"), "assistant");
    assert_eq!(normalize_role("developer"), "message");
}

#[test]
fn list_sessions_groups_indexed_sessions_by_project() {
    let sessions = listed(
        vec![
            thread("project-a-old", "Project A older session", "/tmp/project-a", 1_780_707_600, 1_780_707_700),
            thread("project-b-new", "Project B newest session", "/tmp/project-b", 1_780_707_800, 1_780_708_100),
            thread("project-a-new", "Project A newer session", "/tmp/project-a", 1_780_707_900, 1_780_708_000),
        ],
        &[],
        &[],
        1_780_708_200,
    );
    let projects = group_sessions_by_project(&sessions);

    assert_eq!(sessions.len(), 3);
    assert_eq!(projects.len(), 2);
    assert_eq!(projects[0].project_name, "project-b");
    assert_eq!(projects[0].project_path, "/tmp/project-b");
    assert_eq!(projects[0].sessions[0].id, "project-b-new");
    assert_eq!(projects[1].project_name, "project-a");
    assert_eq!(projects[1].sessions.len(), 2);
    assert_eq!(projects[1].sessions[0].id, "project-a-new");
    assert_eq!(projects[1].sessions[1].id, "project-a-old");
}

#[test]
fn group_sessions_prioritizes_codex_activity_before_plain_updated_time() {
    let sessions = listed(
        vec![
            thread("recent-sqlite", "Recent sqlite title", "/tmp/project-a", 1_780_707_600, 1_780_708_000),
            thread("active-process", "Active process title", "/tmp/project-a", 1_780_707_600, 1_780_707_900),
        ],
        &[],
        &[("active-process", 1_780_709_000_000)],
        1_780_708_200,
    );
    let projects = group_sessions_by_project(&sessions);
    assert_eq!(projects[0].sessions[0].id, "active-process");
    assert_eq!(projects[0].sessions[1].id, "recent-sqlite");
}

#[test]
fn group_sessions_orders_active_codex_entries_by_sidebar_index() {
    let sessions = listed(
        vec![
            thread("regular-recent", "Regular recent title", "/tmp/project-a", 1_780_707_600, 1_780_708_200),
            thread("active-old-index", "Active old index title", "/tmp/project-a", 1_780_707_600, 1_780_708_100),
            thread("active-new-index", "Active new index title", "/tmp/project-a", 1_780_707_600, 1_780_708_000),
        ],
        &[
            ("active-old-index", "较早活动会话"),
            ("active-new-index", "较新活动会话"),
            ("regular-recent", "普通最近会话"),
        ],
        &[("active-old-index", 1_780_709_500_000), ("active-new-index", 1_780_709_000_000)],
        1_780_708_300,
    );
    let projects = group_sessions_by_project(&sessions);
    assert_eq!(projects[0].sessions[0].id, "active-new-index");
    assert_eq!(projects[0].sessions[1].id, "active-old-index");
    assert_eq!(projects[0].sessions[2].id, "regular-recent");
    assert_eq!(projects[0].sessions[2].title, "普通最近会话");
}

#[test]
fn group_sessions_merges_projects_with_equivalent_paths() {
    let mut a = thread("project-normal", "Normalized path session", "/tmp/project-a", 1_780_707_600, 1_780_708_000);
    let mut b = thread("project-trailing", "Trailing slash session", "/tmp/project-a", 1_780_707_800, 1_780_708_200);
    a.project_path = "/tmp/project-a".to_string();
    b.project_path = "/tmp/project-a/".to_string();
    let sessions = listed(vec![a, b], &[], &[], 1_780_708_300);
    let projects = group_sessions_by_project(&sessions);
    assert_eq!(projects.len(), 1);
    assert_eq!(projects[0].project_path, "/tmp/project-a");
    assert_eq!(projects[0].sessions.len(), 2);
    assert_eq!(projects[0].sessions[0].id, "project-trailing");
    assert_eq!(projects[0].sessions[1].id, "project-normal");
}

#[test]
fn hidden_threads_are_left_out() {
    let mut subagent = thread("sub", "Review hidden task", "/tmp/project-a", 1, 1_780_708_000);
    subagent.thread_source = Some("subagent".to_string());
    let mut custom = thread("custom", "Custom", "/tmp/project-a", 1, 1_780_708_000);
    custom.model_provider = "custom".to_string();
    let mut legacy_recent = thread("legacy", "Legacy", "/tmp/project-a", 1, 1_780_708_000);
    legacy_recent.thread_source = None;
    let mut legacy_old = thread("stale", "Stale", "/tmp/project-a", 1, 1_000);
    legacy_old.thread_source = None;
    let mut spawned = thread("spawned", "Spawned", "/tmp/project-a", 1, 1_780_708_000);
    spawned.thread_source = None;
    spawned.source = r#"{"subagent":{"thread_spawn":{"parent_thread_id":"parent"}}}"#.to_string();
    assert!(is_subagent_thread(&subagent));
    assert!(is_subagent_thread(&spawned));
    assert!(!is_visible_user_thread(&custom, 1_780_708_100));
    assert!(is_visible_user_thread(&legacy_recent, 1_780_708_100));
    assert!(!is_visible_user_thread(&legacy_old, 1_780_708_100));

    let sessions = listed(
        vec![
            thread("visible", "Visible user session", "/tmp/project-a", 1, 1_780_707_900),
            subagent,
            custom,
            legacy_recent,
            legacy_old,
            spawned,
        ],
        &[],
        &[],
        1_780_708_100,
    );
    let ids: Vec<&str> = sessions.iter().map(|s| s.id.as_str()).collect();
    assert_eq!(ids, vec!["legacy", "visible"]);
}

fn codex_order_sessions() -> Vec<CodexSessionSummary> {
    listed(
        vec![
            thread("project-cp", "CP recent session", "/tmp/cp", 1_780_707_600, 1_780_708_300),
            thread("project-design", "Product Design session", "/tmp/Product Design", 1_780_707_600, 1_780_708_000),
            thread("project-api", "New API session", "/tmp/new-api", 1_780_707_600, 1_780_708_100),
        ],
        &[],
        &[],
        1_780_708_400,
    )
}

#[test]
fn group_sessions_can_follow_codex_project_order() {
    let sessions = codex_order_sessions();
    let roots = vec![
        "/tmp/Product Design".to_string(),
        "/tmp/new-api".to_string(),
        "/tmp/cp".to_string(),
    ];
    let projects = group_sessions_by_project_with_codex_order(&sessions, &roots, &vec![]);
    assert_eq!(projects[0].project_path, "/tmp/Product Design");
    assert_eq!(projects[1].project_path, "/tmp/new-api");
    assert_eq!(projects[2].project_path, "/tmp/cp");
}

#[test]
fn group_sessions_keeps_codex_saved_workspace_roots_without_sessions() {
    let sessions = listed(
        vec![thread("project-cp", "CP session", "/tmp/cp", 1_780_707_600, 1_780_708_300)],
        &[],
        &[],
        1_780_708_400,
    );
    let roots = vec!["/tmp/empty-project".to_string(), "/tmp/cp".to_string()];
    let projects = group_sessions_by_project_with_codex_order(&sessions, &roots, &vec![]);
    assert_eq!(projects.len(), 2);
    assert_eq!(projects[0].project_path, "/tmp/empty-project");
    assert_eq!(projects[0].project_name, "empty-project");
    assert!(projects[0].sessions.is_empty());
    assert_eq!(projects[1].project_path, "/tmp/cp");
    assert_eq!(projects[1].sessions.len(), 1);
}

#[test]
fn hidden_projects_are_left_out_of_the_codex_order() {
    let only_cp: Vec<CodexSessionSummary> =
        codex_order_sessions().iter().filter(|s| s.id == "project-cp").map(|s| s.duplicate()).collect();
    let roots = vec!["/tmp/empty-project".to_string(), "/tmp/cp".to_string()];
    let hidden = vec!["/tmp/empty-project".to_string()];
    let visible = group_visible_sessions_by_project_with_codex_order(&only_cp, &hidden, &roots, &vec![]);
    assert_eq!(visible.len(), 1);
    assert_eq!(visible[0].project_path, "/tmp/cp");
}

#[test]
fn group_sessions_uses_updated_time_when_no_codex_activity_exists() {
    let sessions = listed(
        vec![
            thread("recent-sqlite", "Recent sqlite title", "/tmp/project-a", 1_780_707_600, 1_780_708_000),
            thread("active-sidebar", "Active sqlite title", "/tmp/project-a", 1_780_707_600, 1_780_707_900),
        ],
        &[("recent-sqlite", "最近更新时间"), ("active-sidebar", "当前侧边栏会话")],
        &[],
        1_780_708_300,
    );
    let projects = group_sessions_by_project(&sessions);
    assert_eq!(projects[0].sessions[0].id, "recent-sqlite");
    assert_eq!(projects[0].sessions[1].id, "active-sidebar");
}

#[test]
fn global_state_project_edits() {
    let mut state = parse(
        r#"{"unrelated-setting":true,"electron-saved-workspace-roots":["/tmp/empty-project","/tmp/cp"],
            "electron-workspace-root-labels":{"/tmp/empty-project":"Empty Project","/tmp/cp":"CP"}}"#,
    );
    assert_eq!(read_saved_project_roots(&state), vec!["/tmp/empty-project", "/tmp/cp"]);
    let labels = read_project_labels(&state);
    assert!(labels.contains(&("/tmp/empty-project".to_string(), "Empty Project".to_string())));

    assert!(remove_project_from_state(&mut state, &normalize_project_path("/tmp/empty-project/")));
    assert_eq!(read_saved_project_roots(&state), vec!["/tmp/cp"]);
    assert_eq!(value(&state)["unrelated-setting"], true);
    assert!(value(&state)["electron-workspace-root-labels"].get("/tmp/empty-project").is_none());
    assert!(!remove_project_from_state(&mut state, "/tmp/missing"));

    add_project_to_state(&mut state, "/tmp/empty-project", "Empty Project");
    let roots = read_saved_project_roots(&state);
    assert!(roots.contains(&"/tmp/empty-project".to_string()));
    assert_eq!(value(&state)["electron-workspace-root-labels"]["/tmp/empty-project"], "Empty Project");
}

#[test]
fn preview_entries_skip_tool_noise() {
    let user = parse(
        r#"{"timestamp":"2026-06-06T09:00:00Z","type":"response_item","payload":{"type":"message","role":"user","content":[{"type":"input_text","text":"First message"}]}}"#,
    );
    let entry = preview_entry_from_event(&user).unwrap();
    assert_eq!(entry.role, "user");
    assert_eq!(entry.text, "First message");
    assert_eq!(entry.timestamp, Some(1_780_736_400));
    let tool = parse(
        r#"{"type":"response_item","payload":{"type":"function_call","name":"shell","arguments":"{}"}}"#,
    );
    assert!(preview_entry_from_event(&tool).is_none());
}

#[test]
fn timestamps_and_backup_folders() {
    assert_eq!(timestamp_from_value(&parse(r#"{"timestamp":"1970-01-01T00:01:00Z"}"#)), Some(60));
    assert_eq!(timestamp_from_value(&parse(r#"{"timestamp":"not a time"}"#)), None);
    assert_eq!(timestamp_folder(0), "19700101-000000");
    assert_eq!(timestamp_folder(1_780_736_461), "20260606-090101");
}

#[test]
fn backup_folders_cover_the_calendar_range() {
    assert_eq!(timestamp_folder(-1), "19691231-235959");
    assert_eq!(timestamp_folder(951_782_400), "20000229-000000");
    assert_eq!(timestamp_folder(253_402_300_799), "99991231-235959");
    assert_eq!(timestamp_folder(-377_705_116_800), "-99990101-000000");
    assert_eq!(timestamp_folder(253_402_300_800), "19700101-000000");
    assert_eq!(timestamp_folder(i64::MIN), "19700101-000000");
}

#[test]
fn activity_ranks_keep_the_latest_time() {
    let ranks = process_activity_ranks(&parse(
        r#"[{"conversationId":"a","updatedAtMs":5},{"conversationId":"a","startedAtMs":9},{"conversationId":"b","updatedAtMs":2}]"#,
    ));
    assert!(ranks.contains(&("a".to_string(), 9)));
    assert!(ranks.contains(&("b".to_string(), 2)));
}

#[test]
fn project_deletion_names_and_the_nothing_to_delete_error() {
    assert_eq!(
        project_deletion_name("/work/demo", None, false, "demo"),
        Err("project `/work/demo` has no sessions".to_string())
    );
    assert_eq!(project_deletion_name("/work/demo", None, true, "Demo Label"), Ok("Demo Label".to_string()));
    assert_eq!(project_deletion_name("/work/demo", Some("from-session"), false, "demo"), Ok("from-session".to_string()));
    assert_eq!(project_deletion_name("/work/demo", Some("from-session"), true, "Demo Label"), Ok("Demo Label".to_string()));
}

#[test]
fn saved_workspace_names_prefer_the_last_label() {
    let labels = vec![
        ("/work/demo".to_string(), "First".to_string()),
        ("/work/other".to_string(), "Other".to_string()),
        ("/work/demo".to_string(), "Second".to_string()),
    ];
    assert_eq!(saved_workspace_name(&labels, "/work/demo"), "Second");
    assert_eq!(saved_workspace_name(&labels, "/work/plain"), "plain");
    assert_eq!(saved_workspace_name(&Vec::new(), "/work/plain"), project_name_from_path("/work/plain"));
}

#[test]
fn session_text_scan_reads_metadata_and_skips_broken_lines() {
    let text = [
        r#"{"timestamp":"2026-06-06T00:00:00Z","type":"session_meta","payload":{"id":"sess-1","cwd":"/tmp/project-a/","timestamp":"2026-06-06T00:00:00Z"}}"#,
        "\n",
        "not json\n",
        r#"{"timestamp":"2026-06-06T00:01:00Z","type":"event_msg","payload":{"type":"user_message","message":"Fix the build"}}"#,
        "\r\n",
        r#"{"timestamp":"2026-06-06T00:02:00Z","type":"event_msg","payload":{"type":"agent_message","message":"Done"}}"#,
        "\n",
    ]
    .concat();
    let record = scan_session_text(&text, 5, 123, "/codex/sessions/a.jsonl", "a.jsonl", Some("a".to_string()))
        .unwrap()
        .unwrap();
    assert_eq!(record.summary.id, "sess-1");
    assert_eq!(record.summary.title, "Fix the build");
    assert_eq!(record.summary.project_path, "/tmp/project-a");
    assert_eq!(record.summary.project_name, "project-a");
    assert_eq!(record.summary.message_count, 2);
    assert_eq!(record.summary.created_at, 1_780_704_000);
    assert_eq!(record.summary.updated_at, 1_780_704_120);
    assert_eq!(record.summary.file_size_bytes, 123);
    assert_eq!(record.relative_path, "a.jsonl");

    let empty = scan_session_text("", 5, 0, "/x/b.jsonl", "b.jsonl", Some("b".to_string())).unwrap().unwrap();
    assert_eq!(empty.summary.id, "b");
    assert_eq!(empty.summary.created_at, 5);
    assert_eq!(empty.summary.title, "Untitled Codex session");
    assert!(scan_session_text("", 5, 0, "/x/c", "c", None).unwrap().is_none());
}

#[test]
fn session_text_preview_keeps_the_first_messages() {
    let mut text = String::new();
    for i in 0..25 {
        text.push_str(&format!(
            r#"{{"type":"event_msg","payload":{{"type":"user_message","message":"message {i}"}}}}"#
        ));
        text.push('\n');
        text.push_str("{\"type\":\"response_item\",\"payload\":{\"type\":\"function_call\"}}\n");
    }
    let entries = preview_session_text(&text);
    assert_eq!(entries.len(), 18);
    assert_eq!(entries[0].text, "message 0");
    assert_eq!(entries[17].text, "message 17");
    assert_eq!(entries[0].role, "user");
    assert!(preview_session_text("garbage\n").is_empty());
}

fn from_json(j: &Json) -> Value {
    match j {
        Json::Null => Value::Null,
        Json::Bool(b) => Value::Bool(*b),
        Json::Number(JsonNumber::PosInt(u)) => Value::from(*u),
        Json::Number(JsonNumber::NegInt(i)) => Value::from(*i),
        Json::Number(JsonNumber::Float(t)) => serde_json::from_str(t).unwrap(),
        Json::Str(s) => Value::String(s.clone()),
        Json::Array(items) => Value::Array(items.iter().map(from_json).collect()),
        Json::Object(es) => Value::Object(es.iter().map(|(k, v)| (k.clone(), from_json(v))).collect()),
    }
}

#[test]
fn index_texts_read_titles_ranks_and_global_state() {
    let titles = sidebar_titles_from_text(concat_lines(&[
        r#"{"id":"a","thread_name":"First"}"#,
        "broken",
        r#"{"id":"b","thread_name":"   "}"#,
        r#"{"id":"c","thread_name":"Third"}"#,
    ]).as_str());
    assert_eq!(titles.len(), 2);
    assert_eq!(titles[0].0, "a");
    assert_eq!(titles[0].1.title, "First");
    assert_eq!(titles[0].1.order, 1);
    assert_eq!(titles[1].0, "c");
    assert_eq!(titles[1].1.order, 4);
    let ranks = process_activity_ranks_text(r#"[{"conversationId":"a","updatedAtMs":5},{"conversationId":"a","startedAtMs":9}]"#);
    assert_eq!(ranks, vec![("a".to_string(), 9)]);
    assert!(process_activity_ranks_text("not json").is_empty());
    assert!(global_state_from_text("[1]").unwrap().is_none());
    assert!(global_state_from_text("{").is_err());
    let state = global_state_from_text(r#"{"project-order":["/a"]}"#).unwrap().unwrap();
    assert_eq!(read_saved_project_roots(&state), vec!["/a".to_string()]);
}

fn concat_lines(lines: &[&str]) -> String {
    lines.iter().map(|l| format!("{l}\n")).collect()
}
