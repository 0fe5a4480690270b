use base64::Engine;
use codex_api_switcher::accounts::{
    CodexActiveSource, ManagedCodexAccount, ManagedCodexAccountSet, ObservedSystemCodexAccount,
    default_managed_homes_root_for,
};
use codex_api_switcher::codex_live::build_takeover_config;
use codex_api_switcher::history::ConversationHistoryStore;
use codex_api_switcher::json::{Json, JsonNumber};
use codex_api_switcher::proxy::{chat_completions_url, responses_url};
use codex_api_switcher::store::{AppConfig, Provider};
use codex_api_switcher::transform::{
    CodexChatReasoning, chat_completion_to_response, responses_to_chat_completions,
};
use codex_api_switcher::usage::{
    credentials_from_auth, parse_credentials, usage_home_for_account_id, usage_home_for_source,
    usage_request_needs_managed_store,
};
use serde_json::Value;

fn to_json(v: &Value) -> Json {
    match v {
        Value::Null => Json::Null,
        Value::Bool(b) => Json::Bool(*b),
        Value::Number(n) => {
            if let Some(u) = n.as_u64() {
                Json::Number(JsonNumber::PosInt(u))
            } else if let Some(i) = n.as_i64() {
                Json::Number(JsonNumber::NegInt(i))
            } else {
                Json::Number(JsonNumber::Float(n.to_string()))
            }
        }
        Value::String(s) => Json::Str(s.clone()),
        Value::Array(items) => Json::Array(items.iter().map(to_json).collect()),
        Value::Object(map) => Json::Object(map.iter().map(|(k, v)| (k.clone(), to_json(v))).collect()),
    }
}

fn parse(text: &str) -> Json {
    to_json(&serde_json::from_str::<Value>(text).unwrap())
}

fn value(j: &Json) -> Value {
    from_json(j)
}

fn claims(email: &str, account_id: &str) -> Json {
    parse(&format!(
        r#"{{"email":"{email}","https://api.openai.com/auth":{{"chatgpt_account_id":"{account_id}"}}}}"#
    ))
}

#[test]
fn takeover_config_points_codex_to_local_responses_proxy() {
    let config = build_takeover_config(15721, "DeepSeek", "deepseek-v4-flash");

    assert!(config.contains("base_url = \"http://127.0.0.1:15721/v1\""));
    assert!(config.contains("wire_api = \"responses\""));
    assert!(config.contains("experimental_bearer_token = \"PROXY_MANAGED\""));
    assert!(config.contains("model = \"deepseek-v4-flash\""));
    assert!(config.contains("name = \"DeepSeek · deepseek-v4-flash\""));
}

#[test]
fn empty_provider_config_stays_empty() {
    let mut config = AppConfig {
        providers: vec![],
        current_provider_id: None,
        proxy_port: 15721,
    };

    config.normalize();

    assert!(config.providers.is_empty());
    assert_eq!(config.current_provider_id, None);
}

#[test]
fn invalid_current_provider_normalizes_to_first_provider() {
    let provider = Provider::deepseek_preset();
    let mut config = AppConfig {
        providers: vec![provider],
        current_provider_id: Some("missing".to_string()),
        proxy_port: 15721,
    };

    config.normalize();

    assert_eq!(config.current_provider_id.as_deref(), Some("deepseek"));
}

#[test]
fn provider_endpoint_builders_only_append_missing_api_path() {
    assert_eq!(
        chat_completions_url("https://api.example.com"),
        "https://api.example.com/v1/chat/completions"
    );
    assert_eq!(
        chat_completions_url("https://api.example.com/v1"),
        "https://api.example.com/v1/chat/completions"
    );
    assert_eq!(
        chat_completions_url("https://api.example.com/v1/chat/completions"),
        "https://api.example.com/v1/chat/completions"
    );
    assert_eq!(responses_url("https://api.example.com"), "https://api.example.com/v1/responses");
    assert_eq!(responses_url("https://api.example.com/v1"), "https://api.example.com/v1/responses");
    assert_eq!(
        responses_url("https://api.example.com/v1/responses"),
        "https://api.example.com/v1/responses"
    );
}

#[test]
fn managed_account_set_deduplicates_same_identity() {
    let live = ObservedSystemCodexAccount {
        email: "User@Example.com".to_string(),
        workspace_label: None,
        workspace_account_id: Some("acct_1".to_string()),
        auth_fingerprint: Some("fp1".to_string()),
        codex_home_path: "/tmp/live".to_string(),
    };
    let root = default_managed_homes_root_for("/tmp/data");
    let first = ManagedCodexAccount::from_live_account(&live, format!("{root}/one"), 10);
    let second = ManagedCodexAccount::from_live_account(&live, "/tmp/another".to_string(), 11);

    let set = ManagedCodexAccountSet::new(vec![first, second]);

    assert_eq!(set.accounts.len(), 1);
    assert_eq!(set.accounts[0].email, "user@example.com");
}

fn test_id_token(email: &str, account_id: &str) -> String {
    let payload = format!(
        r#"{{"email":"{email}","https://api.openai.com/auth":{{"chatgpt_account_id":"{account_id}"}}}}"#
    );
    format!(
        "header.{}.sig",
        base64::engine::general_purpose::URL_SAFE_NO_PAD.encode(payload.as_bytes())
    )
}

#[test]
fn usage_credentials_parse_tokens_from_auth_json() {
    let token = test_id_token("user@example.com", "acct_123");
    let credentials = parse_credentials(
        format!(
            r#"{{
                "last_refresh":"1717000000",
                "tokens":{{
                    "access_token":"access",
                    "refresh_token":"refresh",
                    "id_token":"{token}",
                    "account_id":"acct_123"
                }}
            }}"#
        )
        .as_bytes(),
    )
    .unwrap();

    assert_eq!(credentials.access_token, "access");
    assert_eq!(credentials.refresh_token, "refresh");
    assert_eq!(credentials.account_id.as_deref(), Some("acct_123"));
    assert_eq!(credentials.account_email.as_deref(), Some("user@example.com"));
}

#[test]
fn usage_credentials_from_parsed_auth_and_claims() {
    let auth = parse(
        r#"{
            "last_refresh":"1717000000",
            "tokens":{
                "access_token":"access",
                "refresh_token":"refresh",
                "id_token":"header.payload.sig",
                "account_id":"acct_123"
            }
        }"#,
    );
    let id_claims = claims("user@example.com", "acct_123");
    let credentials = credentials_from_auth(&auth, Some(&id_claims)).unwrap();
    assert_eq!(credentials.access_token, "access");
    assert_eq!(credentials.account_email.as_deref(), Some("user@example.com"));
    assert!(parse_credentials(b"not json").is_err());
    assert_eq!(
        parse_credentials(br#"{"OPENAI_API_KEY":"  sk-1  "}"#).unwrap().access_token,
        "sk-1"
    );
    assert_eq!(
        parse_credentials(br#"{"tokens":{}}"#).err().as_deref(),
        Some("Codex auth.json exists but contains no access token")
    );
}

#[test]
fn usage_home_resolution_can_preview_accounts_without_switching() {
    let managed = ManagedCodexAccount {
        id: "managed-1".into(),
        email: "managed@example.com".into(),
        workspace_label: None,
        workspace_account_id: Some("acct_managed".into()),
        auth_fingerprint: None,
        managed_home_path: "/tmp/managed-preview".into(),
        created_at: 0,
        updated_at: 0,
        last_authenticated_at: Some(0),
    };
    let accounts = vec![managed];

    let active_home = usage_home_for_source(
        &CodexActiveSource::ManagedAccount { id: "managed-1".to_string() },
        &accounts,
        "/tmp/live-home",
    )
    .unwrap();
    let preview_home = usage_home_for_account_id(
        Some("managed-1"),
        &CodexActiveSource::LiveSystem,
        &accounts,
        "/tmp/live-home",
        "/tmp/snapshot-home",
    )
    .unwrap();

    assert_eq!(active_home, "/tmp/managed-preview");
    assert_eq!(preview_home, "/tmp/managed-preview");
    assert!(!usage_request_needs_managed_store(
        Some("live"),
        &CodexActiveSource::ManagedAccount { id: "managed-1".to_string() }
    ));
    assert!(usage_request_needs_managed_store(Some("managed-1"), &CodexActiveSource::LiveSystem));
}

#[test]
fn responses_request_maps_to_deepseek_chat_request() {
    let input = parse(
        r#"{
        "model": "placeholder-client-model",
        "instructions": "You are Codex.",
        "input": [{
            "type": "message",
            "role": "user",
            "content": [{"type": "input_text", "text": "hello"}]
        }],
        "reasoning": {"effort": "high"},
        "max_output_tokens": 128,
        "stream": true,
        "tools": [{
            "type": "function",
            "name": "read_file",
            "description": "Read a file",
            "parameters": {"type": "object"}
        }]
    }"#,
    );

    let reasoning = CodexChatReasoning::deepseek();
    let result = value(&responses_to_chat_completions(input, Some("deepseek-v4-flash"), Some(&reasoning)));

    assert_eq!(result["model"], "deepseek-v4-flash");
    assert_eq!(result["messages"][0]["role"], "system");
    assert_eq!(result["messages"][1]["role"], "user");
    assert_eq!(result["messages"][1]["content"], "hello");
    assert_eq!(result["max_tokens"], 128);
    assert_eq!(result["thinking"]["type"], "enabled");
    assert_eq!(result["reasoning_effort"], "high");
    assert_eq!(result["stream_options"]["include_usage"], true);
    assert_eq!(result["tools"][0]["function"]["name"], "read_file");
}

#[test]
fn chat_response_maps_back_to_responses_shape_with_reasoning() {
    let input = parse(
        r#"{
        "id": "chatcmpl_123",
        "created": 123,
        "model": "deepseek-v4-flash",
        "choices": [{
            "finish_reason": "stop",
            "message": {
                "role": "assistant",
                "reasoning_content": "Need answer.",
                "content": "Done"
            }
        }],
        "usage": {"prompt_tokens": 4, "completion_tokens": 2, "total_tokens": 6}
    }"#,
    );

    let result = value(&chat_completion_to_response(input).unwrap());

    assert_eq!(result["object"], "response");
    assert_eq!(result["status"], "completed");
    assert_eq!(result["output"][0]["type"], "reasoning");
    assert_eq!(result["output"][0]["summary"][0]["text"], "Need answer.");
    assert_eq!(result["output"][1]["type"], "message");
    assert_eq!(result["output"][1]["content"][0]["text"], "Done");
    assert_eq!(result["usage"]["input_tokens"], 4);
    assert_eq!(result["usage"]["output_tokens"], 2);
}

#[test]
fn previous_response_id_restores_cached_chat_transcript() {
    let mut history = ConversationHistoryStore::default();
    let first_request = vec![
        parse(r#"{"role": "system", "content": "You are Codex."}"#),
        parse(r#"{"role": "user", "content": "hello"}"#),
    ];
    let first_response = parse(
        r#"{"id": "chatcmpl_1", "choices": [{"message": {"role": "assistant", "content": "hi"}}]}"#,
    );

    assert!(history.record_chat_response(first_request, &first_response).is_some());

    let responses_request = parse(
        r#"{
        "previous_response_id": "resp_chatcmpl_1",
        "instructions": "You are Codex.",
        "input": [{
            "type": "message",
            "role": "user",
            "content": [{"type": "input_text", "text": "continue"}]
        }]
    }"#,
    );
    let mut chat_request =
        responses_to_chat_completions(responses_request.deep_clone(), Some("deepseek-v4-flash"), None);

    assert_eq!(history.enrich_chat_request(&responses_request, &mut chat_request), 2);
    assert_eq!(
        value(&chat_request)["messages"],
        serde_json::from_str::<Value>(
            r#"[
            {"role": "system", "content": "You are Codex."},
            {"role": "user", "content": "hello"},
            {"role": "assistant", "content": "hi"},
            {"role": "user", "content": "continue"}
        ]"#
        )
        .unwrap()
    );
}

#[test]
fn previous_response_id_restores_tool_call_before_tool_output() {
    let mut history = ConversationHistoryStore::default();
    let first_request = vec![parse(r#"{"role": "user", "content": "read file"}"#)];
    let first_response = parse(
        r#"{
        "id": "chatcmpl_tool",
        "choices": [{
            "message": {
                "role": "assistant",
                "content": null,
                "reasoning_content": "Need file contents.",
                "tool_calls": [{
                    "id": "call_1",
                    "type": "function",
                    "function": {"name": "read_file", "arguments": "{\"path\":\"README.md\"}"}
                }]
            }
        }]
    }"#,
    );

    assert!(history.record_chat_response(first_request, &first_response).is_some());

    let responses_request = parse(
        r#"{
        "previous_response_id": "resp_chatcmpl_tool",
        "input": [{"type": "function_call_output", "call_id": "call_1", "output": "file text"}]
    }"#,
    );
    let mut chat_request =
        responses_to_chat_completions(responses_request.deep_clone(), Some("deepseek-v4-flash"), None);

    history.enrich_chat_request(&responses_request, &mut chat_request);
    let chat_request = value(&chat_request);

    assert_eq!(chat_request["messages"][0]["role"], "user");
    assert_eq!(chat_request["messages"][1]["role"], "assistant");
    assert_eq!(chat_request["messages"][1]["tool_calls"][0]["id"], "call_1");
    assert_eq!(chat_request["messages"][2]["role"], "tool");
    assert_eq!(chat_request["messages"][2]["tool_call_id"], "call_1");
}

#[test]
fn streamed_response_id_can_be_used_by_next_request() {
    let mut history = ConversationHistoryStore::default();
    assert!(history
        .record_stream_response(
            "resp_stream_1",
            vec![parse(r#"{"role": "user", "content": "hello"}"#)],
            "streamed hi",
            "short reasoning",
        )
        .is_some());

    let responses_request = parse(
        r#"{
        "previous_response_id": "resp_stream_1",
        "input": [{
            "type": "message",
            "role": "user",
            "content": [{"type": "input_text", "text": "continue"}]
        }]
    }"#,
    );
    let mut chat_request =
        responses_to_chat_completions(responses_request.deep_clone(), Some("deepseek-v4-flash"), None);

    history.enrich_chat_request(&responses_request, &mut chat_request);

    assert_eq!(
        value(&chat_request)["messages"],
        serde_json::from_str::<Value>(
            r#"[
            {"role": "user", "content": "hello"},
            {"role": "assistant", "content": "streamed hi"},
            {"role": "user", "content": "continue"}
        ]"#
        )
        .unwrap()
    );
}

fn from_json(j: &Json) -> Value {
    match j {
        Json::Null => Value::Null,
        Json::Bool(b) => Value::Bool(*b),
        Json::Number(JsonNumber::PosInt(u)) => Value::from(*u),
        Json::Number(JsonNumber::NegInt(i)) => Value::from(*i),
        Json::Number(JsonNumber::Float(t)) => serde_json::from_str(t).unwrap(),
        Json::Str(s) => Value::String(s.clone()),
        Json::Array(items) => Value::Array(items.iter().map(from_json).collect()),
        Json::Object(es) => Value::Object(es.iter().map(|(k, v)| (k.clone(), from_json(v))).collect()),
    }
}
