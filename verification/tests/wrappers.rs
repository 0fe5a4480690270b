use codex_api_switcher::proxy::sse_event;
use base64::Engine;
use codex_api_switcher::accounts::{email_from_claims, id_token_payload, observed_account_from_claims};
use codex_api_switcher::json::{Json, JsonNumber};
use codex_api_switcher::store::{ApiFormat, Provider};
use codex_api_switcher::transform::{chat_usage_to_responses_usage, responses_to_chat_completions};
use serde_json::Value;

fn to_json(v: &Value) -> Json {
    match v {
        Value::Null => Json::Null,
        Value::Bool(b) => Json::Bool(*b),
        Value::Number(n) => {
            if let Some(u) = n.as_u64() {
                Json::Number(JsonNumber::PosInt(u))
            } else if let Some(i) = n.as_i64() {
                Json::Number(JsonNumber::NegInt(i))
            } else {
                Json::Number(JsonNumber::Float(n.to_string()))
            }
        }
        Value::String(s) => Json::Str(s.clone()),
        Value::Array(items) => Json::Array(items.iter().map(to_json).collect()),
        Value::Object(map) => Json::Object(map.iter().map(|(k, v)| (k.clone(), to_json(v))).collect()),
    }
}

fn parse(text: &str) -> Json {
    to_json(&serde_json::from_str::<Value>(text).unwrap())
}

#[test]
fn blank_provider_id_gets_a_uuid() {
    let provider = Provider {
        id: "  ".to_string(),
        name: "P".to_string(),
        base_url: "https://x".to_string(),
        api_key: "k".to_string(),
        model: "m".to_string(),
        api_format: ApiFormat::OpenAiChat,
    };
    let with_id = provider.with_generated_id();
    assert_eq!(with_id.id.len(), 36);
    assert_eq!(with_id.id.matches('-').count(), 4);
    assert!(with_id.id.chars().all(|c| c.is_ascii_digit() || ('a'..='f').contains(&c) || c == '-'));
    let kept = Provider::deepseek_preset().with_generated_id();
    assert_eq!(kept.id, "deepseek");
}

#[test]
fn id_token_payload_is_base64url_decoded() {
    let payload = r#"{"email":"User@Example.com","https://api.openai.com/auth":{"chatgpt_account_id":"acct_1"}}"#;
    let token = format!(
        "header.{}.sig",
        base64::engine::general_purpose::URL_SAFE_NO_PAD.encode(payload.as_bytes())
    );
    let bytes = id_token_payload(&token).unwrap();
    assert_eq!(String::from_utf8(bytes).unwrap(), payload);
    assert!(id_token_payload("no-dots").is_none());
    assert!(id_token_payload("a.!!!.c").is_none());

    let claims = parse(payload);
    assert_eq!(email_from_claims(&claims).as_deref(), Some("user@example.com"));
    let observed = observed_account_from_claims(&claims, "/home/.codex").unwrap();
    assert_eq!(observed.workspace_account_id.as_deref(), Some("acct_1"));
    assert_eq!(observed.codex_home_path, "/home/.codex");
}

#[test]
fn function_call_arguments_are_rewritten_compactly() {
    let body = parse(
        r#"{"input":[{"type":"function_call","call_id":"c1","name":"f","arguments":"{ \"a\" : 1 }"},
                     {"type":"function_call","call_id":"c2","name":"g","arguments":"not json"}]}"#,
    );
    let chat = responses_to_chat_completions(body, None, None);
    let chat: Value = from_json(&chat);
    assert_eq!(chat["messages"][0]["tool_calls"][0]["function"]["arguments"], "{\"a\":1}");
    assert_eq!(chat["messages"][0]["tool_calls"][1]["function"]["arguments"], "not json");
}

#[test]
fn event_data_writes_object_members_in_key_order() {
    let usage = to_json(&serde_json::from_str::<Value>(
        r#"{"prompt_tokens":3,"completion_tokens":4,"prompt_tokens_details":{"cached_tokens":1},"completion_tokens_details":{"reasoning_tokens":2}}"#,
    ).unwrap());
    let converted = chat_usage_to_responses_usage(Some(&usage));
    assert_eq!(
        json_line(&converted),
        r#"{"input_tokens":3,"input_tokens_details":{"cached_tokens":1},"output_tokens":4,"output_tokens_details":{"reasoning_tokens":2},"total_tokens":7}"#
    );
    let object = Json::Object(vec![
        ("b".to_string(), Json::Null),
        ("ab".to_string(), Json::Bool(true)),
        ("a".to_string(), Json::Str("x\n\"y".to_string())),
        ("é".to_string(), Json::Number(JsonNumber::PosInt(1))),
        ("Z".to_string(), Json::Array(vec![Json::Object(vec![("y".to_string(), Json::Null), ("x".to_string(), Json::Null)])])),
    ]);
    let text = json_line(&object);
    let reparsed: Value = serde_json::from_str(&text).unwrap();
    assert_eq!(text, serde_json::to_string(&reparsed).unwrap());
    assert_eq!(text, r#"{"Z":[{"x":null,"y":null}],"a":"x\n\"y","ab":true,"b":null,"é":1}"#);
}

fn from_json(j: &Json) -> Value {
    match j {
        Json::Null => Value::Null,
        Json::Bool(b) => Value::Bool(*b),
        Json::Number(JsonNumber::PosInt(u)) => Value::from(*u),
        Json::Number(JsonNumber::NegInt(i)) => Value::from(*i),
        Json::Number(JsonNumber::Float(t)) => serde_json::from_str(t).unwrap(),
        Json::Str(s) => Value::String(s.clone()),
        Json::Array(items) => Value::Array(items.iter().map(from_json).collect()),
        Json::Object(es) => Value::Object(es.iter().map(|(k, v)| (k.clone(), from_json(v))).collect()),
    }
}

/// The data line of an event carrying `j`: the library's JSON text of it.
fn json_line(j: &Json) -> String {
    let event = sse_event("e", j);
    event.strip_prefix("event: e\ndata: ").unwrap().strip_suffix("\n\n").unwrap().to_string()
}
