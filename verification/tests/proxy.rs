use codex_api_switcher::history::ConversationHistoryStore;
use codex_api_switcher::json::{Json, JsonNumber};
use codex_api_switcher::proxy::{
    SseBlock, StreamState, chunk_is_supported, classify_sse_block, complete_stream,
    finish_chat_completion_bytes, handle_chat_chunk, sse_data, sse_event, sse_keepalive, sse_step, stream_broken_event, take_sse_block,
};
use codex_api_switcher::transform::responses_to_chat_completions;
use serde_json::Value;

fn to_json(v: &Value) -> Json {
    match v {
        Value::Null => Json::Null,
        Value::Bool(b) => Json::Bool(*b),
        Value::Number(n) => {
            if let Some(u) = n.as_u64() {
                Json::Number(JsonNumber::PosInt(u))
            } else if let Some(i) = n.as_i64() {
                Json::Number(JsonNumber::NegInt(i))
            } else {
                Json::Number(JsonNumber::Float(n.to_string()))
            }
        }
        Value::String(s) => Json::Str(s.clone()),
        Value::Array(items) => Json::Array(items.iter().map(to_json).collect()),
        Value::Object(map) => Json::Object(map.iter().map(|(k, v)| (k.clone(), to_json(v))).collect()),
    }
}

fn parse(text: &str) -> Json {
    to_json(&serde_json::from_str::<Value>(text).unwrap())
}

fn value(j: &Json) -> Value {
    from_json(j)
}

/// Runs a whole upstream chat stream through the library as the proxy does:
/// one `sse_step` for the text, then the close at the end of the stream
/// where it has not ended.
fn convert_stream(sse: &str, history: &mut ConversationHistoryStore, request_messages: Vec<Json>) -> String {
    let mut buffer = String::new();
    let mut state = StreamState::new_stream();
    let (events, finished) = sse_step(&mut state, history, &mut buffer, sse, &request_messages);
    let mut output: String = events.concat();
    if !finished {
        for event in complete_stream(&mut state, history, request_messages) {
            output.push_str(&event);
        }
    }
    output
}

#[test]
fn response_stream_sends_keepalive_while_upstream_is_quiet() {
    assert_eq!(sse_keepalive(), ": codexpilot-keepalive\n\n");
}

#[test]
fn streamed_chat_tool_call_emits_response_function_call_and_records_history() {
    let mut history = ConversationHistoryStore::default();
    let request_messages = vec![parse(r#"{"role": "user", "content": "read file"}"#)];
    let sse = [
        "data: {\"id\":\"chatcmpl_tool\",\"created\":123,\"model\":\"deepseek-v4-flash\",\"choices\":[{\"delta\":{\"tool_calls\":[{\"index\":0,\"id\":\"call_1\",\"type\":\"function\",\"function\":{\"name\":\"read_file\",\"arguments\":\"{\\\"path\\\"\"}}]},\"finish_reason\":null}]}\n\n",
        "data: {\"id\":\"chatcmpl_tool\",\"created\":123,\"model\":\"deepseek-v4-flash\",\"choices\":[{\"delta\":{\"tool_calls\":[{\"index\":0,\"function\":{\"arguments\":\":\\\"README.md\\\"}\"}}]},\"finish_reason\":null}]}\n\n",
        "data: {\"id\":\"chatcmpl_tool\",\"created\":123,\"model\":\"deepseek-v4-flash\",\"choices\":[{\"delta\":{},\"finish_reason\":\"tool_calls\"}]}\n\n",
        "data: [DONE]\n\n",
    ]
    .concat();

    let output = convert_stream(&sse, &mut history, request_messages);

    assert!(output.contains("response.function_call_arguments.delta"));
    assert!(output.contains("\"type\":\"function_call\""));
    assert!(output.contains("\"call_id\":\"call_1\""));
    assert!(output.contains("\"name\":\"read_file\""));
    assert!(output.contains("\"arguments\":\"{\\\"path\\\":\\\"README.md\\\"}\""));

    let responses_request = parse(
        r#"{
        "previous_response_id": "resp_chatcmpl_tool",
        "input": [{"type": "function_call_output", "call_id": "call_1", "output": "file text"}]
    }"#,
    );
    let mut chat_request =
        responses_to_chat_completions(responses_request.deep_clone(), Some("deepseek-v4-flash"), None);

    history.enrich_chat_request(&responses_request, &mut chat_request);
    let chat_request = value(&chat_request);

    assert_eq!(chat_request["messages"][1]["role"], "assistant");
    assert_eq!(chat_request["messages"][1]["tool_calls"][0]["id"], "call_1");
    assert_eq!(chat_request["messages"][1]["tool_calls"][0]["function"]["name"], "read_file");
    assert_eq!(chat_request["messages"][2]["role"], "tool");
    assert_eq!(chat_request["messages"][2]["tool_call_id"], "call_1");
}

#[test]
fn streamed_text_answer_completes_and_is_recorded() {
    let mut history = ConversationHistoryStore::default();
    let sse = [
        "data: {\"id\":\"chatcmpl_9\",\"created\":7,\"model\":\"m\",\"choices\":[{\"delta\":{\"reasoning_content\":\"think\"}}]}\n\n",
        "data: {\"id\":\"chatcmpl_9\",\"created\":7,\"model\":\"m\",\"choices\":[{\"delta\":{\"content\":\"Hel\"}}]}\n\n",
        "data: {\"id\":\"chatcmpl_9\",\"created\":7,\"model\":\"m\",\"choices\":[{\"delta\":{\"content\":\"lo\"},\"finish_reason\":\"stop\"}]}\n\n",
        "data: [DONE]\n\n",
    ]
    .concat();
    let output = convert_stream(&sse, &mut history, vec![parse(r#"{"role":"user","content":"hi"}"#)]);

    assert!(output.contains("event: response.created"));
    assert!(output.contains("event: response.output_text.delta"));
    assert!(output.contains("event: response.completed"));
    assert!(output.contains("\"text\":\"Hello\""));
    let cached = history.cached("resp_chatcmpl_9").unwrap();
    assert_eq!(cached.len(), 2);
    assert_eq!(value(&cached[1])["content"], "Hello");
    assert!(value(&cached[1])["reasoning_content"].is_null());
}

#[test]
fn sse_blocks_split_on_crlf_only_without_lf_pair() {
    let mut buffer = "data: a\r\n\r\ndata: b".to_string();
    assert_eq!(take_sse_block(&mut buffer).as_deref(), Some("data: a"));
    assert_eq!(buffer, "data: b");
}

#[test]
fn sse_blocks_split_on_blank_lines_and_keep_the_rest() {
    let mut buffer = "data: a\n\ndata: b".to_string();
    assert_eq!(take_sse_block(&mut buffer).as_deref(), Some("data: a"));
    assert_eq!(buffer, "data: b");
    assert_eq!(take_sse_block(&mut buffer), None);
    assert_eq!(buffer, "data: b");
}

#[test]
fn sse_data_joins_data_lines() {
    assert_eq!(sse_data("event: x\ndata: one\ndata:two"), "one\ntwo");
    assert!(matches!(classify_sse_block("data: [DONE]"), SseBlock::Done));
    assert!(matches!(classify_sse_block("event: ping"), SseBlock::Skip));
}

#[test]
fn sse_event_frames_event_and_data() {
    let event = sse_event("response.created", &parse(r#"{"a":1}"#));
    assert_eq!(event, "event: response.created\ndata: {\"a\":1}\n\n");
}

#[test]
fn broken_stream_reports_failed_response() {
    let state = StreamState::new_stream();
    let event = stream_broken_event(&state);
    assert!(event.starts_with("event: response.failed\n"));
    assert!(event.contains("\"status\":\"failed\""));
}

#[test]
fn sse_step_waits_for_whole_blocks_and_skips_what_is_no_json() {
    let mut history = ConversationHistoryStore::default();
    let messages = vec![parse(r#"{"role":"user","content":"hi"}"#)];
    let mut state = StreamState::new_stream();
    let mut buffer = String::new();
    let (events, finished) = sse_step(&mut state, &mut history, &mut buffer, "data: {\"id\":\"chatcmpl_1\",\"choices\":[{\"delta\":{\"content\":\"He", &messages);
    assert!(events.is_empty());
    assert!(!finished);
    assert!(buffer.starts_with("data: "));
    let (events, finished) = sse_step(&mut state, &mut history, &mut buffer, "llo\"}}]}\n\ndata: not json\n\n: comment\n\n", &messages);
    assert!(!finished);
    assert!(buffer.is_empty());
    let text: String = events.concat();
    assert!(text.contains("event: response.created"));
    assert!(text.contains("\"delta\":\"Hello\""));
    let (events, finished) = sse_step(&mut state, &mut history, &mut buffer, "data: [DONE]\n\ndata: {\"late\":true}\n\n", &messages);
    assert!(finished);
    assert!(events.concat().contains("event: response.completed"));
    assert_eq!(buffer, "data: {\"late\":true}\n\n");
}

#[test]
fn sse_step_ends_the_stream_on_a_chunk_it_cannot_take() {
    let mut history = ConversationHistoryStore::default();
    let mut state = StreamState::new_stream();
    let mut buffer = String::new();
    let chunk = "data: {\"choices\":[{\"delta\":{\"tool_calls\":[{\"index\":18446744073709551615}]}}]}\n\ndata: [DONE]\n\n";
    let (events, finished) = sse_step(&mut state, &mut history, &mut buffer, chunk, &Vec::new());
    assert!(finished);
    assert_eq!(events.len(), 1);
    assert!(events[0].starts_with("event: response.failed\n"));
    assert_eq!(buffer, "data: [DONE]\n\n");
}

fn from_json(j: &Json) -> Value {
    match j {
        Json::Null => Value::Null,
        Json::Bool(b) => Value::Bool(*b),
        Json::Number(JsonNumber::PosInt(u)) => Value::from(*u),
        Json::Number(JsonNumber::NegInt(i)) => Value::from(*i),
        Json::Number(JsonNumber::Float(t)) => serde_json::from_str(t).unwrap(),
        Json::Str(s) => Value::String(s.clone()),
        Json::Array(items) => Value::Array(items.iter().map(from_json).collect()),
        Json::Object(es) => Value::Object(es.iter().map(|(k, v)| (k.clone(), from_json(v))).collect()),
    }
}

#[test]
fn chat_answer_bytes_are_finished_or_refused() {
    let mut history = ConversationHistoryStore::default();
    let messages = vec![parse(r#"{"role":"user","content":"hi"}"#)];
    assert!(finish_chat_completion_bytes(&mut history, messages.iter().map(Json::deep_clone).collect(), b"not json").is_err());
    assert_eq!(
        finish_chat_completion_bytes(&mut history, messages.iter().map(Json::deep_clone).collect(), br#"{"choices":[]}"#).err(),
        Some("missing chat choices".to_string())
    );
    let huge = br#"{"choices":[{"message":{"role":"assistant","content":"x"}}],"usage":{"prompt_tokens":18446744073709551615,"completion_tokens":1}}"#;
    assert_eq!(
        finish_chat_completion_bytes(&mut history, messages.iter().map(Json::deep_clone).collect(), huge).err(),
        Some("chat usage totals are out of range".to_string())
    );
    let ok = br#"{"id":"chatcmpl_7","model":"m","choices":[{"message":{"role":"assistant","content":"Hello"},"finish_reason":"stop"}]}"#;
    let converted = from_json(&finish_chat_completion_bytes(&mut history, messages, ok).unwrap());
    assert_eq!(converted["output"][0]["content"][0]["text"], "Hello");
}
