use serde_json::Value;
use codex_api_switcher::history::ConversationHistoryStore;
use codex_api_switcher::json::{Json, JsonNumber};
use codex_api_switcher::proxy::{chat_completions_url, responses_url};
use codex_api_switcher::store::{ApiFormat, AppConfig, Provider};

fn provider(id: &str) -> Provider {
    Provider {
        id: id.to_string(),
        name: format!("{id} name"),
        base_url: "https://api.example.com".to_string(),
        api_key: "key".to_string(),
        model: "m".to_string(),
        api_format: ApiFormat::OpenAiChat,
    }
}

fn config(ids: &[&str], current: Option<&str>) -> AppConfig {
    AppConfig {
        providers: ids.iter().map(|id| provider(id)).collect(),
        current_provider_id: current.map(str::to_string),
        proxy_port: 15721,
    }
}

#[test]
fn json_member_set_then_read() {
    let mut v = Json::object();
    v.set("a", Json::uint(1));
    v.set("b", Json::string("x"));
    v.set("a", Json::boolean(true));
    assert_eq!(v.get_bool("a"), Some(true));
    assert_eq!(v.get_str("b").map(String::as_str), Some("x"));
    assert_eq!(from_json(&v), serde_json::from_str::<Value>("{\"a\":true,\"b\":\"x\"}").unwrap());
}

#[test]
fn recording_keeps_earlier_transcripts() {
    let mut history = ConversationHistoryStore::default();
    assert!(history.record_stream_response("resp_1", vec![], "one", "").is_some());
    assert!(history.record_stream_response("resp_2", vec![], "two", "").is_some());
    assert_eq!(history.len(), 2);
    assert!(history.cached("resp_1").is_some());
    assert!(history.cached("resp_2").is_some());
    assert!(history.cached("resp_3").is_none());
    assert!(history.record_stream_response("resp_4", vec![], "", "").is_none());
    assert_eq!(history.len(), 2);
}

#[test]
fn endpoint_builders_are_idempotent() {
    for base in ["https://a.example", "https://a.example/", "https://a.example/v1", "https://a.example/v1/chat/completions/"] {
        let once = chat_completions_url(base);
        assert_eq!(chat_completions_url(&once), once);
        let once = responses_url(base);
        assert_eq!(responses_url(&once), once);
    }
}

#[test]
fn normalize_is_idempotent_and_current_exists() {
    let mut c = config(&["a", "b"], Some("zzz"));
    c.normalize();
    assert_eq!(c.current_provider_id.as_deref(), Some("a"));
    c.normalize();
    assert_eq!(c.current_provider_id.as_deref(), Some("a"));
    assert_eq!(c.current_provider().map(|p| p.id.as_str()), Some("a"));
}

#[test]
fn upsert_then_find_replaces_by_id() {
    let mut c = config(&["a"], Some("a"));
    let mut changed = provider("a");
    changed.model = "new-model".to_string();
    c.upsert_provider(changed);
    assert_eq!(c.providers.len(), 1);
    assert_eq!(c.providers[0].model, "new-model");
    c.upsert_provider(provider("b"));
    assert_eq!(c.providers.len(), 2);
    assert_eq!(c.providers[1].id, "b");
}

#[test]
fn delete_and_switch_providers() {
    let mut c = config(&["a", "b"], Some("a"));
    assert_eq!(c.switch_provider("missing").unwrap_err(), "provider `missing` does not exist");
    c.switch_provider("b").unwrap();
    assert_eq!(c.current_provider_id.as_deref(), Some("b"));
    c.delete_provider("b").unwrap();
    assert_eq!(c.providers.len(), 1);
    assert_eq!(c.current_provider_id.as_deref(), Some("a"));
    assert_eq!(c.delete_provider("a").unwrap_err(), "cannot delete the last provider");
}

fn from_json(j: &Json) -> Value {
    match j {
        Json::Null => Value::Null,
        Json::Bool(b) => Value::Bool(*b),
        Json::Number(JsonNumber::PosInt(u)) => Value::from(*u),
        Json::Number(JsonNumber::NegInt(i)) => Value::from(*i),
        Json::Number(JsonNumber::Float(t)) => serde_json::from_str(t).unwrap(),
        Json::Str(s) => Value::String(s.clone()),
        Json::Array(items) => Value::Array(items.iter().map(from_json).collect()),
        Json::Object(es) => Value::Object(es.iter().map(|(k, v)| (k.clone(), from_json(v))).collect()),
    }
}
