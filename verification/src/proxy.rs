use vstd::prelude::*;

use crate::json::{
    as_array, as_str, as_u64, items_view, jget, jpath, json_of_bytes, json_of_text, parse_json_bytes, json_text, jstr, parse_json_text, obj2, obj3, obj4, obj5, obj6, obj7,
    str_field, to_json_text, uint, Json, JsonView,
};
use crate::history::{clone_messages, assistant_of, enriched, recorded, stream_recorded, transcript, ConversationHistoryStore};
use crate::store::Provider;
use crate::text::{decimal, u64_text};
use crate::transform::{
    chat_usage_to_responses_usage, extract_reasoning_text, extracted_reasoning, first_choice,
    nonempty, response_id_from_chat_id, response_id_of, response_status_from_finish_reason,
    status_of, usage_fits, usage_of, usage_within_limits, zero_usage, chat_completion_to_response,
    chat_request_of, deepseek_reasoning, response_of, responses_to_chat_completions,
    CodexChatReasoning,
};
use crate::text::{
    lines_of, split_lf, strip_cr, chars_of, concat, ends_with, find_first, find_first_of, is_blank, join, owned, push_range,
    string_of_range, trim, trim_start, trimmed, trimmed_start_chars,
};

verus! {

broadcast use vstd::std_specs::vec::group_vec_axioms;

/// `s` without its trailing `/` characters (`trim_end_matches('/')`).
pub open spec fn strip_slashes(s: Seq<char>) -> Seq<char>
    decreases s.len(),
{
    if s.len() > 0 && s.last() == '/' {
        strip_slashes(s.drop_last())
    } else {
        s
    }
}

/// The endpoint `path` under a provider base URL: the base itself where it
/// already names it, the path after a trailing `/v1`, else `/v1` and the path.
pub open spec fn endpoint_url(base: Seq<char>, path: Seq<char>) -> Seq<char> {
    let t = strip_slashes(base);
    if ends_with(t, path) {
        t
    } else if ends_with(t, "/v1"@) {
        t + path
    } else {
        t + "/v1"@ + path
    }
}

fn slash_free_end(v: &Vec<char>) -> (r: usize)
    ensures
        r <= v@.len(),
        v@.subrange(0, r as int) == strip_slashes(v@),
{
    let mut end = v.len();
    assert(v@.subrange(0, end as int) =~= v@);
    while end > 0 && v[end - 1] == '/'
        invariant
            end <= v@.len(),
            strip_slashes(v@.subrange(0, end as int)) == strip_slashes(v@),
        decreases end,
    {
        assert(v@.subrange(0, end as int).drop_last() =~= v@.subrange(0, end - 1));
        end = end - 1;
    }
    end
}

fn endpoint(base_url: &str, path: &str) -> (r: String)
    ensures
        r@ == endpoint_url(base_url@, path@),
{
    let v = chars_of(base_url);
    let end = slash_free_end(&v);
    let trimmed_base = string_of_range(&v, 0, end);
    if crate::text::has_suffix(trimmed_base.as_str(), path) {
        trimmed_base
    } else if crate::text::has_suffix(trimmed_base.as_str(), "/v1") {
        concat(trimmed_base.as_str(), path)
    } else {
        let with_version = concat(trimmed_base.as_str(), "/v1");
        let r = concat(with_version.as_str(), path);
        r
    }
}

/// The chat completions endpoint of a provider base URL.
pub fn chat_completions_url(base_url: &str) -> (r: String)
    ensures
        r@ == endpoint_url(base_url@, "/chat/completions"@),
{
    endpoint(base_url, "/chat/completions")
}

/// The Responses endpoint of a provider base URL.
pub fn responses_url(base_url: &str) -> (r: String)
    ensures
        r@ == endpoint_url(base_url@, "/responses"@),
{
    endpoint(base_url, "/responses")
}

proof fn lemma_ends_with_append(x: Seq<char>, p: Seq<char>)
    ensures
        ends_with(x + p, p),
{
    assert((x + p).subrange((x + p).len() - p.len(), (x + p).len() as int) =~= p);
}

/// An endpoint URL is its own endpoint: building it again adds nothing.
pub proof fn law_endpoint_idempotent(base: Seq<char>, path: Seq<char>)
    requires
        path.len() > 0,
        path.last() != '/',
    ensures
        endpoint_url(endpoint_url(base, path), path) == endpoint_url(base, path),
        ends_with(endpoint_url(base, path), path),
{
    let t = strip_slashes(base);
    let r = endpoint_url(base, path);
    if ends_with(t, path) {
        assert(r == t);
    } else if ends_with(t, "/v1"@) {
        lemma_ends_with_append(t, path);
    } else {
        lemma_ends_with_append(t + "/v1"@, path);
    }
    assert(r.last() == path.last()) by {
        assert(r.subrange(r.len() - path.len(), r.len() as int)[path.len() - 1] == path[path.len() - 1]);
    }
    assert(strip_slashes(r) == r);
}

/// One server-sent event: its name line, its JSON data line, a blank line.
pub open spec fn sse_text(event: Seq<char>, data: JsonView) -> Seq<char> {
    "event: "@ + event + "\ndata: "@ + json_text(data) + "\n\n"@
}

pub open spec fn texts(v: Seq<String>) -> Seq<Seq<char>> {
    v.map_values(|s: String| s@)
}

/// The text of the server-sent event `event` carrying `data`.
pub fn sse_event(event: &str, data: &Json) -> (r: String)
    ensures
        r@ == sse_text(event@, data.view()),
{
    let head = concat("event: ", event);
    let with_data = concat(head.as_str(), "\ndata: ");
    let body = to_json_text(data);
    let line = concat(with_data.as_str(), body.as_str());
    let r = concat(line.as_str(), "\n\n");
    r
}

/// Appends the event `event` carrying `data` to `events`.
fn push_event(events: &mut Vec<String>, event: &str, data: Json)
    ensures
        texts(final(events)@) == texts(old(events)@).push(sse_text(event@, data.view())),
{
    let e = sse_event(event, &data);
    let ghost before = texts(events@);
    events.push(e);
    assert(texts(events@) =~= before.push(sse_text(event@, data.view())));
}

/// The comment line sent while the upstream is quiet.
pub fn sse_keepalive() -> (r: String)
    ensures
        r@ == ": codexpilot-keepalive\n\n"@,
{
    owned(": codexpilot-keepalive\n\n")
}

/// What `take_sse_block` cuts off the front of `buffer`: the text before the
/// first blank line (`\n\n`, else `\r\n\r\n`) and the rest after it.
pub open spec fn sse_split(buffer: Seq<char>) -> Option<(Seq<char>, Seq<char>)> {
    match find_first(buffer, "\n\n"@) {
        Some(i) => Some((buffer.take(i), buffer.skip(i + 2))),
        None => match find_first(buffer, "\r\n\r\n"@) {
            Some(i) => Some((buffer.take(i), buffer.skip(i + 4))),
            None => None,
        },
    }
}

/// Removes the first complete event block from `buffer` and returns it.
pub fn take_sse_block(buffer: &mut String) -> (r: Option<String>)
    ensures
        match sse_split(old(buffer)@) {
            Some((block, rest)) => r matches Some(b) && b@ == block && final(buffer)@ == rest,
            None => r is None && final(buffer)@ == old(buffer)@,
        },
{
    let v = chars_of(buffer.as_str());
    let lf = chars_of("\n\n");
    let crlf = chars_of("\r\n\r\n");
    proof {
        reveal_strlit("\n\n");
        reveal_strlit("\r\n\r\n");
    }
    match find_first_of(&v, &lf) {
        Some(i) => {
            proof {
                crate::text::lemma_find_first_from_occurs(v@, lf@, 0);
            }
            let (block, rest) = cut_block(&v, i, 2);
            *buffer = rest;
            return Some(block);
        },
        None => {},
    }
    match find_first_of(&v, &crlf) {
        Some(i) => {
            proof {
                crate::text::lemma_find_first_from_occurs(v@, crlf@, 0);
            }
            let (block, rest) = cut_block(&v, i, 4);
            *buffer = rest;
            Some(block)
        },
        None => None,
    }
}

fn cut_block(v: &Vec<char>, index: usize, width: usize) -> (r: (String, String))
    requires
        index + width <= v.len(),
    ensures
        r.0@ == v@.take(index as int),
        r.1@ == v@.skip(index + width),
{
    let block = string_of_range(v, 0, index);
    let rest = string_of_range(v, index + width, v.len());
    assert(block@ =~= v@.take(index as int));
    assert(rest@ =~= v@.skip(index + width));
    (block, rest)
}

/// The `data:` payloads of an event block's lines, leading whitespace
/// trimmed.
pub open spec fn data_payloads(lines: Seq<Seq<char>>) -> Seq<Seq<char>>
    decreases lines.len(),
{
    if lines.len() == 0 {
        Seq::empty()
    } else {
        let rest = data_payloads(lines.drop_last());
        let l = lines.last();
        if l.len() >= 5 && l.take(5) == "data:"@ {
            rest.push(trim_start(l.skip(5)))
        } else {
            rest
        }
    }
}

/// The data of an event block: its payloads joined by `\n`.
pub open spec fn sse_data_of(block: Seq<char>) -> Seq<char> {
    join(data_payloads(lines_of(block)), "\n"@)
}

/// The payload of a `data:` line, leading whitespace trimmed.
fn data_payload(line: &Vec<char>) -> (r: Option<String>)
    ensures
        match r {
            Some(p) => line@.len() >= 5 && line@.take(5) == "data:"@ && p@ == trim_start(line@.skip(5)),
            None => !(line@.len() >= 5 && line@.take(5) == "data:"@),
        },
{
    let prefix = chars_of("data:");
    proof {
        reveal_strlit("data:");
    }
    if !crate::text::matches_at(line, &prefix, 0) {
        assert(line@.len() >= 5 && line@.take(5) == "data:"@ ==> line@.subrange(0, 5) == prefix@);
        return None;
    }
    assert(line@.take(5) =~= line@.subrange(0, 5));
    let rest = crate::text::sub_vec(line, 5, line.len());
    assert(rest@ =~= line@.skip(5));
    Some(trimmed_start_chars(&rest))
}

/// The data of an event block (its `data:` lines, joined by `\n`).
pub fn sse_data(block: &str) -> (r: String)
    ensures
        r@ == sse_data_of(block@),
{
    let v = chars_of(block);
    let mut payloads: Vec<String> = Vec::new();
    let mut current: Vec<char> = Vec::new();
    let ghost mut done: Seq<Seq<char>> = Seq::empty();
    let mut i: usize = 0;
    assert(v@.take(0) =~= Seq::<char>::empty());
    while i < v.len()
        invariant
            i <= v@.len(),
            split_lf(v@.take(i as int)) == done.push(current@),
            texts(payloads@) == data_payloads(done.map_values(|l: Seq<char>| strip_cr(l))),
        decreases v@.len() - i,
    {
        let c = v[i];
        assert(v@.take(i + 1).drop_last() =~= v@.take(i as int));
        if c == '\n' {
            let mut line = current;
            if line.len() > 0 && line[line.len() - 1] == '\r' {
                line.pop();
            }
            assert(line@ == strip_cr(current@));
            let ghost mapped = done.map_values(|l: Seq<char>| strip_cr(l));
            assert(done.push(current@).map_values(|l: Seq<char>| strip_cr(l)) =~= mapped.push(line@));
            assert(mapped.push(line@).drop_last() =~= mapped);
            match data_payload(&line) {
                Some(p) => {
                    let ghost before = texts(payloads@);
                    payloads.push(p);
                    assert(texts(payloads@) =~= before.push(p@));
                },
                None => {},
            }
            proof {
                done = done.push(current@);
            }
            current = Vec::new();
            assert(current@ =~= Seq::<char>::empty());
        } else {
            let ghost old_current = current@;
            current.push(c);
            assert(done.push(current@) =~= done.push(old_current).update(done.len() as int, old_current.push(c)));
        }
        i = i + 1;
    }
    assert(v@.take(v@.len() as int) =~= v@);
    proof {
        crate::text::lemma_split_lf_nonempty(v@);
        assert(split_lf(v@).drop_last() =~= done);
    }
    if current.len() > 0 {
        let ghost mapped = done.map_values(|l: Seq<char>| strip_cr(l));
        assert(mapped.push(current@).drop_last() =~= mapped);
        match data_payload(&current) {
            Some(p) => {
                let ghost before = texts(payloads@);
                payloads.push(p);
                assert(texts(payloads@) =~= before.push(p@));
            },
            None => {},
        }
        assert(data_payloads(mapped.push(current@)) == texts(payloads@));
    }
    crate::text::join_strings(&payloads, "\n")
}

/// What an event block asks of the stream.
pub enum SseBlock {
    /// No data: nothing to do.
    Skip,
    /// `[DONE]`: the answer is complete.
    Done,
    /// A chunk to parse as JSON.
    Data(String),
}

/// Classifies an event block by its data.
pub fn classify_sse_block(block: &str) -> (r: SseBlock)
    ensures
        ({
            let d = sse_data_of(block@);
            if is_blank(d) {
                r is Skip
            } else if trim(d) == "[DONE]"@ {
                r is Done
            } else {
                r matches SseBlock::Data(x) && x@ == d
            }
        }),
{
    let data = sse_data(block);
    if crate::text::blank(data.as_str()) {
        return SseBlock::Skip;
    }
    let t = trimmed(data.as_str());
    if crate::text::str_eq(t.as_str(), "[DONE]") {
        SseBlock::Done
    } else {
        SseBlock::Data(data)
    }
}


/// A tool call being streamed by a chat provider.
pub struct StreamToolCall {
    pub id: String,
    pub name: String,
    pub arguments: String,
    /// Whether its `response.output_item.added` event was sent.
    pub output_added: bool,
}

pub struct CallView {
    pub id: Seq<char>,
    pub name: Seq<char>,
    pub arguments: Seq<char>,
    pub output_added: bool,
}

impl StreamToolCall {
    pub open spec fn view(&self) -> CallView {
        CallView {
            id: self.id@,
            name: self.name@,
            arguments: self.arguments@,
            output_added: self.output_added,
        }
    }
}

pub open spec fn empty_call() -> CallView {
    CallView { id: Seq::empty(), name: Seq::empty(), arguments: Seq::empty(), output_added: false }
}

pub open spec fn calls_view(calls: Seq<StreamToolCall>) -> Seq<CallView> {
    calls.map_values(|c: StreamToolCall| c.view())
}

pub open spec fn call_has_content(c: CallView) -> bool {
    c.id.len() > 0 || c.name.len() > 0 || c.arguments.len() > 0
}

/// The call id: the provider's, else `call_<index>`.
pub open spec fn call_id_of(c: CallView, index: nat) -> Seq<char> {
    if c.id.len() == 0 {
        "call_"@ + decimal(index)
    } else {
        c.id
    }
}

pub open spec fn item_id_of(c: CallView, index: nat) -> Seq<char> {
    "fc_"@ + call_id_of(c, index)
}

/// The call as a chat `tool_calls` entry.
pub open spec fn chat_call_of(c: CallView, index: nat) -> JsonView {
    obj3(
        "function"@,
        obj2("arguments"@, jstr(c.arguments), "name"@, jstr(c.name)),
        "id"@,
        jstr(call_id_of(c, index)),
        "type"@,
        jstr("function"@),
    )
}

/// The call as a Responses `function_call` item.
pub open spec fn response_item_of(c: CallView, index: nat, status: Seq<char>) -> JsonView {
    obj6(
        "arguments"@,
        jstr(c.arguments),
        "call_id"@,
        jstr(call_id_of(c, index)),
        "id"@,
        jstr(item_id_of(c, index)),
        "name"@,
        jstr(c.name),
        "status"@,
        jstr(status),
        "type"@,
        jstr("function_call"@),
    )
}

impl StreamToolCall {
    /// A call with nothing received yet.
    pub fn empty() -> (r: Self)
        ensures
            r.view() == empty_call(),
    {
        StreamToolCall {
            id: String::new(),
            name: String::new(),
            arguments: String::new(),
            output_added: false,
        }
    }

    /// Whether any of id, name or arguments arrived.
    pub fn has_content(&self) -> (r: bool)
        ensures
            r == call_has_content(self.view()),
    {
        !self.id.as_str().is_empty() || !self.name.as_str().is_empty()
            || !self.arguments.as_str().is_empty()
    }

    pub fn call_id(&self, index: usize) -> (r: String)
        ensures
            r@ == call_id_of(self.view(), index as nat),
    {
        if self.id.as_str().is_empty() {
            let n = u64_text(index as u64);
            concat("call_", n.as_str())
        } else {
            owned(self.id.as_str())
        }
    }

    pub fn item_id(&self, index: usize) -> (r: String)
        ensures
            r@ == item_id_of(self.view(), index as nat),
    {
        let id = self.call_id(index);
        concat("fc_", id.as_str())
    }

    pub fn to_chat_tool_call(&self, index: usize) -> (r: Json)
        ensures
            r.view() == chat_call_of(self.view(), index as nat),
    {
        let function = Json::obj2(
            "arguments",
            Json::string(self.arguments.as_str()),
            "name",
            Json::string(self.name.as_str()),
        );
        Json::obj3(
            "function",
            function,
            "id",
            Json::from_string(self.call_id(index)),
            "type",
            Json::string("function"),
        )
    }

    pub fn to_response_item(&self, index: usize, status: &str) -> (r: Json)
        ensures
            r.view() == response_item_of(self.view(), index as nat, status@),
    {
        Json::obj6(
            "arguments",
            Json::string(self.arguments.as_str()),
            "call_id",
            Json::from_string(self.call_id(index)),
            "id",
            Json::from_string(self.item_id(index)),
            "name",
            Json::string(self.name.as_str()),
            "status",
            Json::string(status),
            "type",
            Json::string("function_call"),
        )
    }
}

/// What a chat stream has produced so far, for the Responses stream built
/// from it.
pub struct StreamState {
    pub response_started: bool,
    pub response_id: String,
    pub model: String,
    pub created_at: u64,
    pub text: String,
    pub reasoning: String,
    /// Usage already converted to Responses form.
    pub usage: Option<Json>,
    pub finish_reason: Option<String>,
    pub tool_calls: Vec<StreamToolCall>,
}

pub struct StreamView {
    pub response_started: bool,
    pub response_id: Seq<char>,
    pub model: Seq<char>,
    pub created_at: u64,
    pub text: Seq<char>,
    pub reasoning: Seq<char>,
    pub usage: Option<JsonView>,
    pub finish_reason: Option<Seq<char>>,
    pub tool_calls: Seq<CallView>,
}

impl StreamState {
    pub open spec fn view(&self) -> StreamView {
        StreamView {
            response_started: self.response_started,
            response_id: self.response_id@,
            model: self.model@,
            created_at: self.created_at,
            text: self.text@,
            reasoning: self.reasoning@,
            usage: match &self.usage {
                Some(u) => Some(u.view()),
                None => None,
            },
            finish_reason: match &self.finish_reason {
                Some(f) => Some(f@),
                None => None,
            },
            tool_calls: calls_view(self.tool_calls@),
        }
    }
}

/// The state before any chunk, answering under `id`.
pub open spec fn fresh_stream(id: Seq<char>) -> StreamView {
    StreamView {
        response_started: false,
        response_id: id,
        model: Seq::empty(),
        created_at: 0,
        text: Seq::empty(),
        reasoning: Seq::empty(),
        usage: None,
        finish_reason: None,
        tool_calls: Seq::empty(),
    }
}

impl StreamState {
    /// A state with nothing received, answering under `response_id`.
    pub fn with_response_id(response_id: &str) -> (r: Self)
        ensures
            r.view() == fresh_stream(response_id@),
    {
        let r = StreamState {
            response_started: false,
            response_id: owned(response_id),
            model: String::new(),
            created_at: 0,
            text: String::new(),
            reasoning: String::new(),
            usage: None,
            finish_reason: None,
            tool_calls: Vec::new(),
        };
        assert(r.view().tool_calls =~= Seq::<CallView>::empty());
        r
    }

    /// The state a converted chat stream starts from.
    pub fn new_stream() -> (r: Self)
        ensures
            r.view() == fresh_stream("resp_codex_api_switcher"@),
    {
        StreamState::with_response_id("resp_codex_api_switcher")
    }
}

impl Default for StreamState {
    fn default() -> (r: Self)
        ensures
            r.view() == fresh_stream(Seq::empty()),
    {
        let r = StreamState::with_response_id("");
        proof {
            reveal_strlit("");
        }
        assert(""@ =~= Seq::<char>::empty());
        r
    }
}

/// The Responses object of the stream so far.
pub open spec fn base_response_of(s: StreamView, status: Seq<char>, output: Seq<JsonView>) -> JsonView {
    obj7(
        "created_at"@,
        uint(s.created_at),
        "id"@,
        jstr(s.response_id),
        "model"@,
        jstr(s.model),
        "object"@,
        jstr("response"@),
        "output"@,
        JsonView::Array(output),
        "status"@,
        jstr(status),
        "usage"@,
        match s.usage {
            Some(u) => u,
            None => zero_usage(),
        },
    )
}

/// The Responses object of the stream so far, with the given status and
/// output items.
pub fn base_response(state: &StreamState, status: &str, output: Vec<Json>) -> (r: Json)
    ensures
        r.view() == base_response_of(state.view(), status@, crate::json::items_view(output@)),
{
    let usage = match &state.usage {
        Some(u) => u.deep_clone(),
        None => Json::obj3("input_tokens", Json::uint(0), "output_tokens", Json::uint(0), "total_tokens", Json::uint(0)),
    };
    Json::obj7(
        "created_at",
        Json::uint(state.created_at),
        "id",
        Json::string(state.response_id.as_str()),
        "model",
        Json::string(state.model.as_str()),
        "object",
        Json::string("response"),
        "output",
        Json::from_items(output),
        "status",
        Json::string(status),
        "usage",
        usage,
    )
}

/// The `response.failed` event for an upstream that could not be reached.
pub open spec fn failed_event_of(s: StreamView, message: Seq<char>) -> Seq<char> {
    sse_text(
        "response.failed"@,
        obj3(
            "error"@,
            obj2("message"@, jstr(message), "type"@, jstr("proxy_error"@)),
            "response"@,
            base_response_of(s, "failed"@, Seq::empty()),
            "type"@,
            jstr("response.failed"@),
        ),
    )
}

pub fn response_failed_event(state: &StreamState, message: String) -> (r: String)
    ensures
        r@ == failed_event_of(state.view(), message@),
{
    let error = Json::obj2("message", Json::from_string(message), "type", Json::string("proxy_error"));
    let none: Vec<Json> = Vec::new();
    assert(crate::json::items_view(none@) =~= Seq::<JsonView>::empty());
    let data = Json::obj3(
        "error",
        error,
        "response",
        base_response(state, "failed", none),
        "type",
        Json::string("response.failed"),
    );
    sse_event("response.failed", &data)
}

/// The `response.failed` event for an upstream stream that broke off.
pub open spec fn broken_event_of(s: StreamView) -> Seq<char> {
    sse_text(
        "response.failed"@,
        obj2("response"@, base_response_of(s, "failed"@, Seq::empty()), "type"@, jstr("response.failed"@)),
    )
}

pub fn stream_broken_event(state: &StreamState) -> (r: String)
    ensures
        r@ == broken_event_of(state.view()),
{
    let none: Vec<Json> = Vec::new();
    assert(crate::json::items_view(none@) =~= Seq::<JsonView>::empty());
    let data = Json::obj2("response", base_response(state, "failed", none), "type", Json::string("response.failed"));
    sse_event("response.failed", &data)
}


/// `response.created` or `response.in_progress` for the stream so far.
pub open spec fn lifecycle_event(kind: Seq<char>, s: StreamView) -> Seq<char> {
    sse_text(kind, obj2("response"@, base_response_of(s, "in_progress"@, Seq::empty()), "type"@, jstr(kind)))
}

/// The chunk's id, model, creation time and usage taken into the state.
pub open spec fn header_state(s: StreamView, chunk: JsonView) -> StreamView {
    let s1 = match str_field(chunk, "id"@) {
        Some(id) => StreamView { response_id: response_id_of(Some(id)), ..s },
        None => s,
    };
    let s2 = match str_field(chunk, "model"@) {
        Some(m) => StreamView { model: m, ..s1 },
        None => s1,
    };
    let s3 = match as_u64(jget(chunk, "created"@)) {
        Some(c) => StreamView { created_at: c, ..s2 },
        None => s2,
    };
    match jget(chunk, "usage"@) {
        Some(u) => if u is Null {
            s3
        } else {
            StreamView { usage: Some(usage_of(Some(u))), ..s3 }
        },
        None => s3,
    }
}

/// The opening events, sent once.
pub open spec fn start_step(s: StreamView) -> (StreamView, Seq<Seq<char>>) {
    if s.response_started {
        (s, Seq::empty())
    } else {
        let s1 = StreamView { response_started: true, ..s };
        (s1, seq![lifecycle_event("response.created"@, s1), lifecycle_event("response.in_progress"@, s1)])
    }
}

pub open spec fn reasoning_item_id(s: StreamView) -> Seq<char> {
    "rs_"@ + s.response_id
}

pub open spec fn message_item_id(s: StreamView) -> Seq<char> {
    s.response_id + "_msg"@
}

/// Reasoning in a delta: the reasoning item is opened on the first piece,
/// then each piece is sent as a summary delta.
pub open spec fn reasoning_step(s: StreamView, delta: JsonView) -> (StreamView, Seq<Seq<char>>) {
    match extracted_reasoning(delta) {
        None => (s, Seq::empty()),
        Some(r) => {
            let id = reasoning_item_id(s);
            let opening = if s.reasoning.len() == 0 {
                seq![
                    sse_text(
                        "response.output_item.added"@,
                        obj3(
                            "item"@,
                            obj4(
                                "id"@,
                                jstr(id),
                                "status"@,
                                jstr("in_progress"@),
                                "summary"@,
                                JsonView::Array(Seq::empty()),
                                "type"@,
                                jstr("reasoning"@),
                            ),
                            "output_index"@,
                            uint(0),
                            "type"@,
                            jstr("response.output_item.added"@),
                        ),
                    ),
                    sse_text(
                        "response.reasoning_summary_part.added"@,
                        obj5(
                            "item_id"@,
                            jstr(id),
                            "output_index"@,
                            uint(0),
                            "part"@,
                            obj2("text"@, jstr(Seq::empty()), "type"@, jstr("summary_text"@)),
                            "summary_index"@,
                            uint(0),
                            "type"@,
                            jstr("response.reasoning_summary_part.added"@),
                        ),
                    ),
                ]
            } else {
                Seq::empty()
            };
            let piece = sse_text(
                "response.reasoning_summary_text.delta"@,
                obj5(
                    "delta"@,
                    jstr(r),
                    "item_id"@,
                    jstr(id),
                    "output_index"@,
                    uint(0),
                    "summary_index"@,
                    uint(0),
                    "type"@,
                    jstr("response.reasoning_summary_text.delta"@),
                ),
            );
            (StreamView { reasoning: s.reasoning + r, ..s }, opening.push(piece))
        },
    }
}

/// Where the message item stands in the output: after the reasoning item,
/// if there is one.
pub open spec fn message_index(s: StreamView) -> u64 {
    if s.reasoning.len() == 0 {
        0
    } else {
        1
    }
}

/// Text in a delta: the message item is opened on the first piece, then
/// each piece is sent as a text delta.
pub open spec fn text_step(s: StreamView, delta: JsonView) -> (StreamView, Seq<Seq<char>>) {
    match nonempty(str_field(delta, "content"@)) {
        None => (s, Seq::empty()),
        Some(c) => {
            let id = message_item_id(s);
            let oi = message_index(s);
            let opening = if s.text.len() == 0 {
                seq![
                    sse_text(
                        "response.output_item.added"@,
                        obj3(
                            "item"@,
                            obj5(
                                "content"@,
                                JsonView::Array(Seq::empty()),
                                "id"@,
                                jstr(id),
                                "role"@,
                                jstr("assistant"@),
                                "status"@,
                                jstr("in_progress"@),
                                "type"@,
                                jstr("message"@),
                            ),
                            "output_index"@,
                            uint(oi),
                            "type"@,
                            jstr("response.output_item.added"@),
                        ),
                    ),
                    sse_text(
                        "response.content_part.added"@,
                        obj5(
                            "content_index"@,
                            uint(0),
                            "item_id"@,
                            jstr(id),
                            "output_index"@,
                            uint(oi),
                            "part"@,
                            obj3(
                                "annotations"@,
                                JsonView::Array(Seq::empty()),
                                "text"@,
                                jstr(Seq::empty()),
                                "type"@,
                                jstr("output_text"@),
                            ),
                            "type"@,
                            jstr("response.content_part.added"@),
                        ),
                    ),
                ]
            } else {
                Seq::empty()
            };
            let piece = sse_text(
                "response.output_text.delta"@,
                obj5(
                    "content_index"@,
                    uint(0),
                    "delta"@,
                    jstr(c),
                    "item_id"@,
                    jstr(id),
                    "output_index"@,
                    uint(oi),
                    "type"@,
                    jstr("response.output_text.delta"@),
                ),
            );
            (StreamView { text: s.text + c, ..s }, opening.push(piece))
        },
    }
}


/// The index a tool call delta names, else its position in the list.
pub open spec fn delta_index(delta: JsonView, fallback: nat) -> nat {
    match as_u64(jget(delta, "index"@)) {
        Some(n) => n as nat,
        None => fallback,
    }
}

/// The calls, with empty ones added until `index` exists.
pub open spec fn padded(calls: Seq<CallView>, index: nat) -> Seq<CallView> {
    if index < calls.len() {
        calls
    } else {
        calls + Seq::new((index + 1 - calls.len()) as nat, |i: int| empty_call())
    }
}

/// Where tool call `index` stands in the output: after the reasoning and
/// message items that exist.
pub open spec fn tool_output_index(s: StreamView, index: nat) -> nat {
    (if s.reasoning.len() > 0 {
        1nat
    } else {
        0nat
    }) + (if s.text.len() > 0 {
        1nat
    } else {
        0nat
    }) + index
}

/// One tool call delta: the call is created if new, takes a non-empty id
/// and name, is announced once, and collects its argument pieces.
pub open spec fn tool_delta_step(s: StreamView, delta: JsonView, fallback: nat) -> (
    StreamView,
    Seq<Seq<char>>,
) {
    let index = delta_index(delta, fallback);
    let calls = padded(s.tool_calls, index);
    let oi = tool_output_index(s, index);
    let c0 = calls[index as int];
    let c1 = match nonempty(str_field(delta, "id"@)) {
        Some(id) => CallView { id: id, ..c0 },
        None => c0,
    };
    let c2 = match nonempty(as_str(jpath(delta, "function"@, "name"@))) {
        Some(n) => CallView { name: n, ..c1 },
        None => c1,
    };
    let added = if !c2.output_added {
        seq![
            sse_text(
                "response.output_item.added"@,
                obj3(
                    "item"@,
                    response_item_of(c2, index, "in_progress"@),
                    "output_index"@,
                    uint(oi as u64),
                    "type"@,
                    jstr("response.output_item.added"@),
                ),
            ),
        ]
    } else {
        Seq::empty()
    };
    let c3 = CallView { output_added: true, ..c2 };
    match nonempty(as_str(jpath(delta, "function"@, "arguments"@))) {
        Some(a) => {
            let c4 = CallView { arguments: c3.arguments + a, ..c3 };
            let piece = sse_text(
                "response.function_call_arguments.delta"@,
                obj4(
                    "delta"@,
                    jstr(a),
                    "item_id"@,
                    jstr(item_id_of(c4, index)),
                    "output_index"@,
                    uint(oi as u64),
                    "type"@,
                    jstr("response.function_call_arguments.delta"@),
                ),
            );
            (StreamView { tool_calls: calls.update(index as int, c4), ..s }, added.push(piece))
        },
        None => (StreamView { tool_calls: calls.update(index as int, c3), ..s }, added),
    }
}

/// The tool call deltas of one chunk, in order.
pub open spec fn tool_deltas(s: StreamView, deltas: Seq<JsonView>) -> (StreamView, Seq<Seq<char>>)
    decreases deltas.len(),
{
    if deltas.len() == 0 {
        (s, Seq::empty())
    } else {
        let (s1, e1) = tool_deltas(s, deltas.drop_last());
        let (s2, e2) = tool_delta_step(s1, deltas.last(), (deltas.len() - 1) as nat);
        (s2, e1 + e2)
    }
}

/// Every tool call index, with room for the two items before it.
pub open spec fn tool_indices_fit(deltas: Seq<JsonView>) -> bool {
    forall|i: int| 0 <= i < deltas.len() ==> delta_index(#[trigger] deltas[i], i as nat) + 2 < usize::MAX
}

/// One delta: reasoning, then text, then tool calls.
pub open spec fn delta_step(s: StreamView, delta: JsonView) -> (StreamView, Seq<Seq<char>>) {
    let (s1, e1) = reasoning_step(s, delta);
    let (s2, e2) = text_step(s1, delta);
    match as_array(jget(delta, "tool_calls"@)) {
        Some(deltas) => {
            let (s3, e3) = tool_deltas(s2, deltas);
            (s3, e1 + e2 + e3)
        },
        None => (s2, e1 + e2),
    }
}

/// One chat stream chunk: its header, the opening events once, its first
/// choice's delta, and the finish reason it gives.
pub open spec fn chunk_step(s: StreamView, chunk: JsonView) -> (StreamView, Seq<Seq<char>>) {
    let (s1, e1) = start_step(header_state(s, chunk));
    match first_choice(chunk) {
        None => (s1, e1),
        Some(choice) => {
            let (s2, e2) = match jget(choice, "delta"@) {
                Some(d) => delta_step(s1, d),
                None => (s1, Seq::empty()),
            };
            let s3 = match str_field(choice, "finish_reason"@) {
                Some(r) => StreamView { finish_reason: Some(r), ..s2 },
                None => s2,
            };
            (s3, e1 + e2)
        },
    }
}

/// Chunks whose conversion cannot overflow: usage totals fit in `u64`, and
/// tool call indices leave room for the output positions.
pub open spec fn chunk_supported(chunk: JsonView) -> bool {
    &&& match jget(chunk, "usage"@) {
        Some(u) => u is Null || usage_fits(Some(u)),
        None => true,
    }
    &&& match first_choice(chunk) {
        Some(c) => match jget(c, "delta"@) {
            Some(d) => match as_array(jget(d, "tool_calls"@)) {
                Some(deltas) => tool_indices_fit(deltas),
                None => true,
            },
            None => true,
        },
        None => true,
    }
}

fn apply_chunk_header(state: &mut StreamState, chunk: &Json)
    requires
        match jget(chunk.view(), "usage"@) {
            Some(u) => u is Null || usage_fits(Some(u)),
            None => true,
        },
    ensures
        final(state).view() == header_state(old(state).view(), chunk.view()),
{
    match chunk.get_str("id") {
        Some(id) => {
            state.response_id = response_id_from_chat_id(Some(id.as_str()));
        },
        None => {},
    }
    match chunk.get_str("model") {
        Some(m) => {
            state.model = owned(m.as_str());
        },
        None => {},
    }
    match chunk.get_u64("created") {
        Some(c) => {
            state.created_at = c;
        },
        None => {},
    }
    match chunk.get("usage") {
        Some(u) => {
            if !u.is_null() {
                state.usage = Some(chat_usage_to_responses_usage(Some(u)));
            }
        },
        None => {},
    }
}

fn start_response(state: &mut StreamState, events: &mut Vec<String>)
    ensures
        ({
            let (s1, e) = start_step(old(state).view());
            final(state).view() == s1 && texts(final(events)@) == texts(old(events)@) + e
        }),
{
    if !state.response_started {
        state.response_started = true;
        let ghost before = texts(events@);
        let none: Vec<Json> = Vec::new();
        assert(crate::json::items_view(none@) =~= Seq::<JsonView>::empty());
        let created = Json::obj2(
            "response",
            base_response(state, "in_progress", none),
            "type",
            Json::string("response.created"),
        );
        push_event(events, "response.created", created);
        let none: Vec<Json> = Vec::new();
        assert(crate::json::items_view(none@) =~= Seq::<JsonView>::empty());
        let progress = Json::obj2(
            "response",
            base_response(state, "in_progress", none),
            "type",
            Json::string("response.in_progress"),
        );
        push_event(events, "response.in_progress", progress);
        let ghost e = start_step(old(state).view()).1;
        assert(texts(events@) =~= before + e);
    } else {
        assert(texts(events@) =~= texts(old(events)@) + Seq::<Seq<char>>::empty());
    }
}

fn handle_reasoning_delta(state: &mut StreamState, delta: &Json, events: &mut Vec<String>)
    ensures
        ({
            let (s1, e) = reasoning_step(old(state).view(), delta.view());
            final(state).view() == s1 && texts(final(events)@) == texts(old(events)@) + e
        }),
{
    let ghost before = texts(events@);
    match extract_reasoning_text(delta) {
        Some(r) => {
            let id = concat("rs_", state.response_id.as_str());
            if state.reasoning.as_str().is_empty() {
                let item = Json::obj4(
                    "id",
                    Json::string(id.as_str()),
                    "status",
                    Json::string("in_progress"),
                    "summary",
                    Json::empty_array(),
                    "type",
                    Json::string("reasoning"),
                );
                let added = Json::obj3(
                    "item",
                    item,
                    "output_index",
                    Json::uint(0),
                    "type",
                    Json::string("response.output_item.added"),
                );
                push_event(events, "response.output_item.added", added);
                let part = Json::obj2("text", Json::string(""), "type", Json::string("summary_text"));
                let part_added = Json::obj5(
                    "item_id",
                    Json::string(id.as_str()),
                    "output_index",
                    Json::uint(0),
                    "part",
                    part,
                    "summary_index",
                    Json::uint(0),
                    "type",
                    Json::string("response.reasoning_summary_part.added"),
                );
                push_event(events, "response.reasoning_summary_part.added", part_added);
                proof {
                    reveal_strlit("");
                }
                assert(""@ =~= Seq::<char>::empty());
            }
            let ghost mid = texts(events@);
            let piece = Json::obj5(
                "delta",
                Json::string(r.as_str()),
                "item_id",
                Json::string(id.as_str()),
                "output_index",
                Json::uint(0),
                "summary_index",
                Json::uint(0),
                "type",
                Json::string("response.reasoning_summary_text.delta"),
            );
            push_event(events, "response.reasoning_summary_text.delta", piece);
            state.reasoning = concat(state.reasoning.as_str(), r.as_str());
            let ghost e = reasoning_step(old(state).view(), delta.view()).1;
            assert(texts(events@) =~= before + e);
        },
        None => {
            assert(texts(events@) =~= before + Seq::<Seq<char>>::empty());
        },
    }
}

fn handle_text_delta(state: &mut StreamState, delta: &Json, events: &mut Vec<String>)
    ensures
        ({
            let (s1, e) = text_step(old(state).view(), delta.view());
            final(state).view() == s1 && texts(final(events)@) == texts(old(events)@) + e
        }),
{
    let ghost before = texts(events@);
    let content = match delta.get_str("content") {
        Some(c) => if c.as_str().is_empty() {
            None
        } else {
            Some(owned(c.as_str()))
        },
        None => None,
    };
    match content {
        Some(c) => {
            let id = concat(state.response_id.as_str(), "_msg");
            let oi: u64 = if state.reasoning.as_str().is_empty() {
                0
            } else {
                1
            };
            if state.text.as_str().is_empty() {
                let item = Json::obj5(
                    "content",
                    Json::empty_array(),
                    "id",
                    Json::string(id.as_str()),
                    "role",
                    Json::string("assistant"),
                    "status",
                    Json::string("in_progress"),
                    "type",
                    Json::string("message"),
                );
                let added = Json::obj3(
                    "item",
                    item,
                    "output_index",
                    Json::uint(oi),
                    "type",
                    Json::string("response.output_item.added"),
                );
                push_event(events, "response.output_item.added", added);
                let part = Json::obj3(
                    "annotations",
                    Json::empty_array(),
                    "text",
                    Json::string(""),
                    "type",
                    Json::string("output_text"),
                );
                let part_added = Json::obj5(
                    "content_index",
                    Json::uint(0),
                    "item_id",
                    Json::string(id.as_str()),
                    "output_index",
                    Json::uint(oi),
                    "part",
                    part,
                    "type",
                    Json::string("response.content_part.added"),
                );
                push_event(events, "response.content_part.added", part_added);
                proof {
                    reveal_strlit("");
                }
                assert(""@ =~= Seq::<char>::empty());
            }
            let piece = Json::obj5(
                "content_index",
                Json::uint(0),
                "delta",
                Json::string(c.as_str()),
                "item_id",
                Json::string(id.as_str()),
                "output_index",
                Json::uint(oi),
                "type",
                Json::string("response.output_text.delta"),
            );
            push_event(events, "response.output_text.delta", piece);
            state.text = concat(state.text.as_str(), c.as_str());
            let ghost e = text_step(old(state).view(), delta.view()).1;
            assert(texts(events@) =~= before + e);
        },
        None => {
            assert(texts(events@) =~= before + Seq::<Seq<char>>::empty());
        },
    }
}


/// Where tool call `tool_index` stands among the output items.
fn tool_call_output_index(state: &StreamState, tool_index: usize) -> (r: usize)
    requires
        tool_index + 2 < usize::MAX,
    ensures
        r == tool_output_index(state.view(), tool_index as nat),
{
    let after_reasoning: usize = if state.reasoning.as_str().is_empty() {
        0
    } else {
        1
    };
    let after_text: usize = if state.text.as_str().is_empty() {
        0
    } else {
        1
    };
    after_reasoning + after_text + tool_index
}

fn nonempty_text(s: Option<&String>) -> (r: Option<String>)
    ensures
        match r {
            Some(t) => nonempty(
                match s {
                    Some(x) => Some(x@),
                    None => None,
                },
            ) == Some(t@),
            None => nonempty(
                match s {
                    Some(x) => Some(x@),
                    None => None,
                },
            ) is None,
        },
{
    match s {
        Some(x) => if x.as_str().is_empty() {
            None
        } else {
            Some(owned(x.as_str()))
        },
        None => None,
    }
}

fn path_str<'a>(v: &'a Json, a: &str, b: &str) -> (r: Option<&'a String>)
    ensures
        match r {
            Some(x) => as_str(jpath(v.view(), a@, b@)) == Some(x@),
            None => as_str(jpath(v.view(), a@, b@)) is None,
        },
{
    match v.get_path(a, b) {
        Some(x) => x.as_str(),
        None => None,
    }
}

fn handle_tool_call_delta(state: &mut StreamState, delta: &Json, fallback: usize, events: &mut Vec<String>)
    requires
        delta_index(delta.view(), fallback as nat) + 2 < usize::MAX,
    ensures
        ({
            let (s1, e) = tool_delta_step(old(state).view(), delta.view(), fallback as nat);
            final(state).view() == s1 && texts(final(events)@) == texts(old(events)@) + e
        }),
{
    let ghost s0 = state.view();
    let ghost before = texts(events@);
    let index: usize = match delta.get_u64("index") {
        Some(v) => v as usize,
        None => fallback,
    };
    assert(index as nat == delta_index(delta.view(), fallback as nat));
    let mut calls: Vec<StreamToolCall> = Vec::new();
    std::mem::swap(&mut calls, &mut state.tool_calls);
    let ghost old_calls = calls_view(calls@);
    assert(old_calls == s0.tool_calls);
    assert(calls_view(calls@) =~= old_calls + Seq::new((calls@.len() - old_calls.len()) as nat, |i: int| empty_call()));
    while calls.len() <= index
        invariant
            index + 2 < usize::MAX,
            old_calls.len() <= calls@.len(),
            calls@.len() <= index + 1 || calls@.len() == old_calls.len(),
            calls_view(calls@) == old_calls + Seq::new((calls@.len() - old_calls.len()) as nat, |i: int| empty_call()),
        decreases index + 1 - calls@.len(),
    {
        let ghost prev = calls_view(calls@);
        calls.push(StreamToolCall::empty());
        assert(calls_view(calls@) =~= old_calls + Seq::new((calls@.len() - old_calls.len()) as nat, |i: int| empty_call())) by {
            assert(calls_view(calls@) =~= prev.push(empty_call()));
        }
    }
    let ghost padded_calls = padded(old_calls, index as nat);
    assert(calls_view(calls@) =~= padded_calls);
    let output_index = tool_call_output_index(state, index);
    assert(calls@[index as int].view() == padded_calls[index as int]);
    let id = match nonempty_text(delta.get_str("id")) {
        Some(x) => x,
        None => owned(calls[index].id.as_str()),
    };
    let name = match nonempty_text(path_str(delta, "function", "name")) {
        Some(x) => x,
        None => owned(calls[index].name.as_str()),
    };
    let was_added = calls[index].output_added;
    let mut call = StreamToolCall {
        id: id,
        name: name,
        arguments: owned(calls[index].arguments.as_str()),
        output_added: true,
    };
    if !was_added {
        let item = call.to_response_item(index, "in_progress");
        let added = Json::obj3(
            "item",
            item,
            "output_index",
            Json::uint(output_index as u64),
            "type",
            Json::string("response.output_item.added"),
        );
        push_event(events, "response.output_item.added", added);
    }
    let ghost mid = texts(events@);
    match nonempty_text(path_str(delta, "function", "arguments")) {
        Some(a) => {
            call.arguments = concat(call.arguments.as_str(), a.as_str());
            let piece = Json::obj4(
                "delta",
                Json::string(a.as_str()),
                "item_id",
                Json::from_string(call.item_id(index)),
                "output_index",
                Json::uint(output_index as u64),
                "type",
                Json::string("response.function_call_arguments.delta"),
            );
            push_event(events, "response.function_call_arguments.delta", piece);
        },
        None => {},
    }
    let ghost cv = call.view();
    calls.set(index, call);
    assert(calls_view(calls@) =~= padded_calls.update(index as int, cv));
    state.tool_calls = calls;
    let ghost e = tool_delta_step(s0, delta.view(), fallback as nat).1;
    assert(texts(events@) =~= before + e);
}

/// Applies the tool call deltas of one chunk, returning the events they
/// cause.
pub fn handle_chat_tool_call_deltas(state: &mut StreamState, tool_calls: &Vec<Json>) -> (events: Vec<String>)
    requires
        tool_indices_fit(crate::json::items_view(tool_calls@)),
    ensures
        ({
            let (s1, e) = tool_deltas(old(state).view(), crate::json::items_view(tool_calls@));
            final(state).view() == s1 && texts(events@) == e
        }),
{
    let ghost s0 = state.view();
    let ghost tv = crate::json::items_view(tool_calls@);
    let mut events: Vec<String> = Vec::new();
    let mut i: usize = 0;
    assert(tv.take(0) =~= Seq::<JsonView>::empty());
    assert(texts(events@) =~= Seq::<Seq<char>>::empty());
    while i < tool_calls.len()
        invariant
            i <= tool_calls@.len(),
            tv == crate::json::items_view(tool_calls@),
            tool_indices_fit(tv),
            ({
                let (s1, e) = tool_deltas(s0, tv.take(i as int));
                state.view() == s1 && texts(events@) == e
            }),
        decreases tool_calls@.len() - i,
    {
        assert(tv.take(i + 1).drop_last() =~= tv.take(i as int));
        assert(tv.take(i + 1).last() == tool_calls@[i as int].view());
        assert(delta_index(tv[i as int], (i as int) as nat) + 2 < usize::MAX);
        handle_tool_call_delta(state, &tool_calls[i], i, &mut events);
        i = i + 1;
    }
    assert(tv.take(tool_calls@.len() as int) =~= tv);
    events
}

/// Applies one chat stream chunk to the state, returning the Responses
/// events it causes.
pub fn handle_chat_chunk(state: &mut StreamState, chunk: &Json) -> (events: Vec<String>)
    requires
        chunk_supported(chunk.view()),
    ensures
        ({
            let (s1, e) = chunk_step(old(state).view(), chunk.view());
            final(state).view() == s1 && texts(events@) == e
        }),
{
    let mut events: Vec<String> = Vec::new();
    assert(texts(events@) =~= Seq::<Seq<char>>::empty());
    apply_chunk_header(state, chunk);
    start_response(state, &mut events);
    let choice = match chunk.get_array("choices") {
        Some(cs) => {
            if cs.len() == 0 {
                return events;
            }
            assert(cs@[0].view() == crate::json::items_view(cs@)[0]);
            &cs[0]
        },
        None => return events,
    };
    let ghost e1 = texts(events@);
    match choice.get("delta") {
        Some(d) => {
            handle_reasoning_delta(state, d, &mut events);
            handle_text_delta(state, d, &mut events);
            match d.get_array("tool_calls") {
                Some(tcs) => {
                    let mut more = handle_chat_tool_call_deltas(state, tcs);
                    let ghost a = events@;
                    let ghost b = more@;
                    events.append(&mut more);
                    assert(texts(events@) =~= texts(a) + texts(b));
                },
                None => {},
            }
        },
        None => {
            assert(texts(events@) =~= e1 + Seq::<Seq<char>>::empty());
        },
    }
    match choice.get_str("finish_reason") {
        Some(r) => {
            state.finish_reason = Some(owned(r.as_str()));
        },
        None => {},
    }
    events
}


pub open spec fn item_done_event(item: JsonView, oi: u64) -> Seq<char> {
    sse_text(
        "response.output_item.done"@,
        obj3("item"@, item, "output_index"@, uint(oi), "type"@, jstr("response.output_item.done"@)),
    )
}

pub open spec fn reasoning_summary_item(s: StreamView) -> JsonView {
    obj3(
        "id"@,
        jstr(reasoning_item_id(s)),
        "summary"@,
        JsonView::Array(seq![obj2("text"@, jstr(s.reasoning), "type"@, jstr("summary_text"@))]),
        "type"@,
        jstr("reasoning"@),
    )
}

pub open spec fn message_item(s: StreamView) -> JsonView {
    obj5(
        "content"@,
        JsonView::Array(
            seq![
                obj3(
                    "annotations"@,
                    JsonView::Array(Seq::empty()),
                    "text"@,
                    jstr(s.text),
                    "type"@,
                    jstr("output_text"@),
                ),
            ],
        ),
        "id"@,
        jstr(message_item_id(s)),
        "role"@,
        jstr("assistant"@),
        "status"@,
        jstr("completed"@),
        "type"@,
        jstr("message"@),
    )
}

/// The closing of the reasoning item, if any: its output item and events.
pub open spec fn reasoning_final(s: StreamView) -> (Seq<JsonView>, Seq<Seq<char>>) {
    if s.reasoning.len() > 0 {
        let item = reasoning_summary_item(s);
        (
            seq![item],
            seq![
                sse_text(
                    "response.reasoning_summary_text.done"@,
                    obj5(
                        "item_id"@,
                        jstr(reasoning_item_id(s)),
                        "output_index"@,
                        uint(0),
                        "summary_index"@,
                        uint(0),
                        "text"@,
                        jstr(s.reasoning),
                        "type"@,
                        jstr("response.reasoning_summary_text.done"@),
                    ),
                ),
                item_done_event(item, 0),
            ],
        )
    } else {
        (Seq::empty(), Seq::empty())
    }
}

/// The closing of the message item, if any.
pub open spec fn text_final(s: StreamView) -> (Seq<JsonView>, Seq<Seq<char>>) {
    if s.text.len() > 0 {
        let item = message_item(s);
        let oi = message_index(s);
        (
            seq![item],
            seq![
                sse_text(
                    "response.output_text.done"@,
                    obj5(
                        "content_index"@,
                        uint(0),
                        "item_id"@,
                        jstr(message_item_id(s)),
                        "output_index"@,
                        uint(oi),
                        "text"@,
                        jstr(s.text),
                        "type"@,
                        jstr("response.output_text.done"@),
                    ),
                ),
                item_done_event(item, oi),
            ],
        )
    } else {
        (Seq::empty(), Seq::empty())
    }
}

/// The closing of the first `n` tool calls that have content, each taking
/// the next output position after `base`.
pub open spec fn tools_final(calls: Seq<CallView>, n: nat, base: Seq<JsonView>) -> (
    Seq<JsonView>,
    Seq<Seq<char>>,
)
    decreases n,
{
    if n == 0 {
        (base, Seq::empty())
    } else {
        let (out, ev) = tools_final(calls, (n - 1) as nat, base);
        let c = calls[n - 1];
        if call_has_content(c) {
            let oi = out.len() as u64;
            let item = response_item_of(c, (n - 1) as nat, "completed"@);
            (
                out.push(item),
                ev + seq![
                    sse_text(
                        "response.function_call_arguments.done"@,
                        obj4(
                            "arguments"@,
                            jstr(c.arguments),
                            "item_id"@,
                            jstr(item_id_of(c, (n - 1) as nat)),
                            "output_index"@,
                            uint(oi),
                            "type"@,
                            jstr("response.function_call_arguments.done"@),
                        ),
                    ),
                    item_done_event(item, oi),
                ],
            )
        } else {
            (out, ev)
        }
    }
}

/// The events that close a stream: each output item is finished, then
/// `response.completed` carries them all.
pub open spec fn finalize_events(s: StreamView) -> Seq<Seq<char>> {
    let (o1, e1) = reasoning_final(s);
    let (o2, e2) = text_final(s);
    let (o3, e3) = tools_final(s.tool_calls, s.tool_calls.len(), o1 + o2);
    e1 + e2 + e3 + seq![
        sse_text(
            "response.completed"@,
            obj2(
                "response"@,
                base_response_of(s, status_of(s.finish_reason), o3),
                "type"@,
                jstr("response.completed"@),
            ),
        ),
    ]
}

fn finalize_reasoning(state: &StreamState, output: &mut Vec<Json>, events: &mut Vec<String>)
    ensures
        ({
            let (o, e) = reasoning_final(state.view());
            crate::json::items_view(final(output)@) == crate::json::items_view(old(output)@) + o
                && texts(final(events)@) == texts(old(events)@) + e
        }),
{
    let ghost o0 = crate::json::items_view(output@);
    let ghost e0 = texts(events@);
    if !state.reasoning.as_str().is_empty() {
        let id = concat("rs_", state.response_id.as_str());
        let summary_part = Json::obj2(
            "text",
            Json::string(state.reasoning.as_str()),
            "type",
            Json::string("summary_text"),
        );
        let summary = vec![summary_part];
        assert(crate::json::items_view(summary@) =~= seq![summary@[0].view()]);
        let item = Json::obj3(
            "id",
            Json::string(id.as_str()),
            "summary",
            Json::from_items(summary),
            "type",
            Json::string("reasoning"),
        );
        let done = Json::obj5(
            "item_id",
            Json::string(id.as_str()),
            "output_index",
            Json::uint(0),
            "summary_index",
            Json::uint(0),
            "text",
            Json::string(state.reasoning.as_str()),
            "type",
            Json::string("response.reasoning_summary_text.done"),
        );
        push_event(events, "response.reasoning_summary_text.done", done);
        let item_done = Json::obj3(
            "item",
            item.deep_clone(),
            "output_index",
            Json::uint(0),
            "type",
            Json::string("response.output_item.done"),
        );
        push_event(events, "response.output_item.done", item_done);
        let ghost iv = item.view();
        output.push(item);
        assert(crate::json::items_view(output@) =~= o0 + seq![iv]);
        assert(texts(events@) =~= e0 + reasoning_final(state.view()).1);
    } else {
        assert(crate::json::items_view(output@) =~= o0 + Seq::<JsonView>::empty());
        assert(texts(events@) =~= e0 + Seq::<Seq<char>>::empty());
    }
}

fn finalize_text(state: &StreamState, output: &mut Vec<Json>, events: &mut Vec<String>)
    ensures
        ({
            let (o, e) = text_final(state.view());
            crate::json::items_view(final(output)@) == crate::json::items_view(old(output)@) + o
                && texts(final(events)@) == texts(old(events)@) + e
        }),
{
    let ghost o0 = crate::json::items_view(output@);
    let ghost e0 = texts(events@);
    if !state.text.as_str().is_empty() {
        let oi: u64 = if state.reasoning.as_str().is_empty() {
            0
        } else {
            1
        };
        let id = concat(state.response_id.as_str(), "_msg");
        let part = Json::obj3(
            "annotations",
            Json::empty_array(),
            "text",
            Json::string(state.text.as_str()),
            "type",
            Json::string("output_text"),
        );
        let content = vec![part];
        assert(crate::json::items_view(content@) =~= seq![content@[0].view()]);
        let item = Json::obj5(
            "content",
            Json::from_items(content),
            "id",
            Json::string(id.as_str()),
            "role",
            Json::string("assistant"),
            "status",
            Json::string("completed"),
            "type",
            Json::string("message"),
        );
        let done = Json::obj5(
            "content_index",
            Json::uint(0),
            "item_id",
            Json::string(id.as_str()),
            "output_index",
            Json::uint(oi),
            "text",
            Json::string(state.text.as_str()),
            "type",
            Json::string("response.output_text.done"),
        );
        push_event(events, "response.output_text.done", done);
        let item_done = Json::obj3(
            "item",
            item.deep_clone(),
            "output_index",
            Json::uint(oi),
            "type",
            Json::string("response.output_item.done"),
        );
        push_event(events, "response.output_item.done", item_done);
        let ghost iv = item.view();
        output.push(item);
        assert(crate::json::items_view(output@) =~= o0 + seq![iv]);
        assert(texts(events@) =~= e0 + text_final(state.view()).1);
    } else {
        assert(crate::json::items_view(output@) =~= o0 + Seq::<JsonView>::empty());
        assert(texts(events@) =~= e0 + Seq::<Seq<char>>::empty());
    }
}

/// Finishes the stream: closes every output item and sends
/// `response.completed`; the state itself is left as it is.
pub fn finalize_stream(state: &mut StreamState) -> (events: Vec<String>)
    ensures
        final(state).view() == old(state).view(),
        texts(events@) == finalize_events(old(state).view()),
{
    let ghost s = state.view();
    let mut events: Vec<String> = Vec::new();
    let mut output: Vec<Json> = Vec::new();
    assert(texts(events@) =~= Seq::<Seq<char>>::empty());
    assert(crate::json::items_view(output@) =~= Seq::<JsonView>::empty());
    finalize_reasoning(state, &mut output, &mut events);
    finalize_text(state, &mut output, &mut events);
    let ghost base = reasoning_final(s).0 + text_final(s).0;
    let ghost e12 = reasoning_final(s).1 + text_final(s).1;
    assert(crate::json::items_view(output@) =~= base);
    assert(texts(events@) =~= e12);
    let mut index: usize = 0;
    while index < state.tool_calls.len()
        invariant
            index <= state.tool_calls@.len(),
            state.view() == s,
            ({
                let (o, e) = tools_final(s.tool_calls, index as nat, base);
                crate::json::items_view(output@) == o && texts(events@) == e12 + e
            }),
        decreases state.tool_calls@.len() - index,
    {
        let call = &state.tool_calls[index];
        assert(call.view() == s.tool_calls[index as int]);
        if call.has_content() {
            let oi = output.len() as u64;
            let item = call.to_response_item(index, "completed");
            let done = Json::obj4(
                "arguments",
                Json::string(call.arguments.as_str()),
                "item_id",
                Json::from_string(call.item_id(index)),
                "output_index",
                Json::uint(oi),
                "type",
                Json::string("response.function_call_arguments.done"),
            );
            let ghost e_before = texts(events@);
            let ghost o_before = crate::json::items_view(output@);
            push_event(&mut events, "response.function_call_arguments.done", done);
            let item_done = Json::obj3(
                "item",
                item.deep_clone(),
                "output_index",
                Json::uint(oi),
                "type",
                Json::string("response.output_item.done"),
            );
            push_event(&mut events, "response.output_item.done", item_done);
            let ghost iv = item.view();
            output.push(item);
            assert(crate::json::items_view(output@) =~= o_before.push(iv));
            assert(texts(events@) =~= e12 + tools_final(s.tool_calls, (index + 1) as nat, base).1);
        }
        index = index + 1;
    }
    assert(s.tool_calls.len() == state.tool_calls@.len());
    let status = response_status_from_finish_reason(
        match &state.finish_reason {
            Some(f) => Some(f.as_str()),
            None => None,
        },
    );
    let completed = Json::obj2(
        "response",
        base_response(state, status, output),
        "type",
        Json::string("response.completed"),
    );
    let ghost e3 = texts(events@);
    push_event(&mut events, "response.completed", completed);
    assert(texts(events@) =~= finalize_events(s));
    events
}


fn indices_fit(deltas: &Vec<Json>) -> (r: bool)
    ensures
        r == tool_indices_fit(crate::json::items_view(deltas@)),
{
    let ghost dv = crate::json::items_view(deltas@);
    let mut i: usize = 0;
    while i < deltas.len()
        invariant
            i <= deltas@.len(),
            dv == crate::json::items_view(deltas@),
            forall|j: int| 0 <= j < i ==> delta_index(#[trigger] dv[j], j as nat) + 2 < usize::MAX,
        decreases deltas@.len() - i,
    {
        assert(dv[i as int] == deltas@[i as int].view());
        let index: u64 = match deltas[i].get_u64("index") {
            Some(n) => n,
            None => i as u64,
        };
        if index >= (usize::MAX - 2) as u64 {
            assert(delta_index(dv[i as int], (i as int) as nat) + 2 >= usize::MAX);
            return false;
        }
        i = i + 1;
    }
    true
}

/// Whether `handle_chat_chunk` takes `chunk`: usage totals fit in `u64`
/// and tool call indices leave room for the output positions.
pub fn chunk_is_supported(chunk: &Json) -> (r: bool)
    ensures
        r == chunk_supported(chunk.view()),
{
    match chunk.get("usage") {
        Some(u) => {
            if !u.is_null() && !usage_within_limits(u) {
                return false;
            }
        },
        None => {},
    }
    let choice = match chunk.get_array("choices") {
        Some(cs) => {
            if cs.len() == 0 {
                return true;
            }
            assert(cs@[0].view() == crate::json::items_view(cs@)[0]);
            &cs[0]
        },
        None => return true,
    };
    match choice.get("delta") {
        Some(d) => match d.get_array("tool_calls") {
            Some(deltas) => indices_fit(deltas),
            None => true,
        },
        None => true,
    }
}

/// The tool calls with content, as chat `tool_calls` entries.
pub open spec fn chat_calls(calls: Seq<CallView>) -> Seq<JsonView>
    decreases calls.len(),
{
    if calls.len() == 0 {
        Seq::empty()
    } else {
        let rest = chat_calls(calls.drop_last());
        if call_has_content(calls.last()) {
            rest.push(chat_call_of(calls.last(), (calls.len() - 1) as nat))
        } else {
            rest
        }
    }
}

impl StreamState {
    /// The streamed tool calls that received anything, in chat form.
    pub fn chat_tool_calls(&self) -> (r: Vec<Json>)
        ensures
            crate::json::items_view(r@) == chat_calls(self.view().tool_calls),
    {
        let ghost cv = self.view().tool_calls;
        let mut r: Vec<Json> = Vec::new();
        let mut i: usize = 0;
        assert(cv.take(0) =~= Seq::<CallView>::empty());
        assert(crate::json::items_view(r@) =~= Seq::<JsonView>::empty());
        while i < self.tool_calls.len()
            invariant
                i <= self.tool_calls@.len(),
                cv == self.view().tool_calls,
                crate::json::items_view(r@) == chat_calls(cv.take(i as int)),
            decreases self.tool_calls@.len() - i,
        {
            assert(cv.take(i + 1).drop_last() =~= cv.take(i as int));
            assert(cv.take(i + 1).last() == self.tool_calls@[i as int].view());
            if self.tool_calls[i].has_content() {
                let c = self.tool_calls[i].to_chat_tool_call(i);
                let ghost before = crate::json::items_view(r@);
                let ghost c_view = c.view();
                r.push(c);
                assert(crate::json::items_view(r@) =~= before.push(c_view));
            }
            i = i + 1;
        }
        assert(cv.take(self.tool_calls@.len() as int) =~= cv);
        r
    }
}


/// Ends a converted stream: the answer is recorded for later requests, then
/// the closing events are returned.
pub fn complete_stream(
    state: &mut StreamState,
    history: &mut ConversationHistoryStore,
    request_messages: Vec<Json>,
) -> (events: Vec<String>)
    ensures
        final(state).view() == old(state).view(),
        texts(events@) == finalize_events(old(state).view()),
        final(history)@ == stream_recorded(
            old(history)@,
            old(state).view().response_id,
            crate::json::items_view(request_messages@),
            old(state).view().text,
            old(state).view().reasoning,
            chat_calls(old(state).view().tool_calls),
        ),
{
    let calls = state.chat_tool_calls();
    let _ = history.record_stream_response_with_tool_calls(
        state.response_id.as_str(),
        request_messages,
        state.text.as_str(),
        state.reasoning.as_str(),
        calls,
    );
    finalize_stream(state)
}

/// The text left after a block is cut off is shorter than the buffer.
pub proof fn lemma_sse_split_shorter(buffer: Seq<char>)
    ensures
        sse_split(buffer) matches Some((block, rest)) ==> rest.len() < buffer.len(),
{
    reveal_strlit("\n\n");
    reveal_strlit("\r\n\r\n");
    crate::text::lemma_find_first_from_occurs(buffer, "\n\n"@, 0);
    crate::text::lemma_find_first_from_occurs(buffer, "\r\n\r\n"@, 0);
}

/// What converting the upstream text `buffer` does, block by block, from
/// the stream `s` and the history `h`, for the request `msgs`: the state,
/// the history and the text left over afterwards, the Responses events, and
/// whether the stream has ended. A block without data is skipped; `[DONE]`
/// records the answer and closes the stream; data that is no JSON is
/// skipped; a chunk the stream cannot take ends it with `response.failed`;
/// any other chunk is applied. An unfinished block waits in the buffer.
pub open spec fn sse_run(
    s: StreamView,
    h: Seq<(Seq<char>, Seq<JsonView>)>,
    buffer: Seq<char>,
    msgs: Seq<JsonView>,
) -> (StreamView, Seq<(Seq<char>, Seq<JsonView>)>, Seq<char>, Seq<Seq<char>>, bool)
    decreases buffer.len(),
{
    match sse_split(buffer) {
        None => (s, h, buffer, Seq::empty(), false),
        Some((block, rest)) => {
            proof {
                lemma_sse_split_shorter(buffer);
            }
            let d = sse_data_of(block);
            if is_blank(d) {
                sse_run(s, h, rest, msgs)
            } else if trim(d) == "[DONE]"@ {
                (
                    s,
                    stream_recorded(h, s.response_id, msgs, s.text, s.reasoning, chat_calls(s.tool_calls)),
                    rest,
                    finalize_events(s),
                    true,
                )
            } else {
                match json_of_text(d) {
                    None => sse_run(s, h, rest, msgs),
                    Some(c) => if chunk_supported(c) {
                        let (s1, e) = chunk_step(s, c);
                        let r = sse_run(s1, h, rest, msgs);
                        (r.0, r.1, r.2, e + r.3, r.4)
                    } else {
                        (s, h, rest, seq![broken_event_of(s)], true)
                    },
                }
            }
        },
    }
}

/// Feeds text from the upstream chat stream to the conversion: `incoming`
/// joins what `buffer` holds, every complete block is handled as `sse_run`
/// says, and the events are returned with whether the stream has ended
/// (after `[DONE]`, or on a chunk it cannot take).
pub fn sse_step(
    state: &mut StreamState,
    history: &mut ConversationHistoryStore,
    buffer: &mut String,
    incoming: &str,
    request_messages: &Vec<Json>,
) -> (r: (Vec<String>, bool))
    ensures
        ({
            let run = sse_run(old(state).view(), old(history)@, old(buffer)@ + incoming@, items_view(request_messages@));
            &&& final(state).view() == run.0
            &&& final(history)@ == run.1
            &&& final(buffer)@ == run.2
            &&& texts(r.0@) == run.3
            &&& r.1 == run.4
        }),
{
    *buffer = concat(buffer.as_str(), incoming);
    let ghost msgs = items_view(request_messages@);
    let ghost run0 = sse_run(state.view(), history@, buffer@, msgs);
    let mut events: Vec<String> = Vec::new();
    assert(run0 == sse_run(old(state).view(), old(history)@, old(buffer)@ + incoming@, msgs));
    loop
        invariant
            msgs == items_view(request_messages@),
            run0 == sse_run(old(state).view(), old(history)@, old(buffer)@ + incoming@, msgs),
            ({
                let r = sse_run(state.view(), history@, buffer@, msgs);
                run0 == (r.0, r.1, r.2, texts(events@) + r.3, r.4)
            }),
        decreases buffer@.len(),
    {
        let ghost b = buffer@;
        let ghost ev = texts(events@);
        proof {
            lemma_sse_split_shorter(b);
        }
        let block = match take_sse_block(buffer) {
            Some(x) => x,
            None => {
                assert(ev + Seq::<Seq<char>>::empty() =~= ev);
                return (events, false);
            },
        };
        match classify_sse_block(block.as_str()) {
            SseBlock::Skip => {},
            SseBlock::Done => {
                let messages = clone_messages(request_messages);
                let mut more = complete_stream(state, history, messages);
                let ghost m = more@;
                events.append(&mut more);
                assert(texts(events@) =~= ev + texts(m));
                return (events, true);
            },
            SseBlock::Data(d) => {
                match parse_json_text(d.as_str()) {
                    Err(_) => {},
                    Ok(c) => {
                        if !chunk_is_supported(&c) {
                            let e = stream_broken_event(state);
                            events.push(e);
                            assert(texts(events@) =~= ev + seq![broken_event_of(state.view())]);
                            return (events, true);
                        }
                        let mut more = handle_chat_chunk(state, &c);
                        let ghost m = more@;
                        events.append(&mut more);
                        assert(texts(events@) =~= ev + texts(m));
                        assert(ev + texts(m) + sse_run(state.view(), history@, buffer@, msgs).3 =~= ev + (texts(m)
                            + sse_run(state.view(), history@, buffer@, msgs).3));
                    },
                }
            },
        }
    }
}

/// The body of an error answer.
pub open spec fn error_body_of(message: Seq<char>, kind: Seq<char>) -> JsonView {
    crate::json::obj1("error"@, obj2("message"@, jstr(message), "type"@, jstr(kind)))
}

/// The answer to a request the proxy could not serve.
pub fn proxy_error_body(message: String) -> (r: Json)
    ensures
        r.view() == error_body_of(message@, "proxy_error"@),
{
    Json::obj1("error", Json::obj2("message", Json::from_string(message), "type", Json::string("proxy_error")))
}

/// The answer passed on when the provider refused a request.
pub fn upstream_error_body(message: String) -> (r: Json)
    ensures
        r.view() == error_body_of(message@, "upstream_error"@),
{
    Json::obj1("error", Json::obj2("message", Json::from_string(message), "type", Json::string("upstream_error")))
}

/// What is sent to a chat provider for one Responses request.
pub struct ChatForward {
    pub url: String,
    pub request_body: Json,
    /// The messages sent, to be recorded with the answer.
    pub request_messages: Vec<Json>,
    /// Whether the client asked for a stream.
    pub stream: bool,
}

/// Builds the chat request for a Responses request: converted for the
/// provider's model with DeepSeek's reasoning switches, and preceded by the
/// cached conversation it continues.
pub fn prepare_chat_forward(history: &ConversationHistoryStore, body: &Json, provider: &Provider) -> (r:
    ChatForward)
    ensures
        r.url@ == endpoint_url(provider.base_url@, "/chat/completions"@),
        r.stream == (crate::json::as_bool(jget(body.view(), "stream"@)) == Some(true)),
        r.request_body.view() == enriched(
            history@,
            body.view(),
            chat_request_of(body.view(), Some(provider.model@), Some(deepseek_reasoning())),
        ),
        crate::json::items_view(r.request_messages@) == match as_array(jget(r.request_body.view(), "messages"@)) {
            Some(m) => m,
            None => Seq::empty(),
        },
{
    let stream = match body.get_bool("stream") {
        Some(b) => b,
        None => false,
    };
    let reasoning = CodexChatReasoning::deepseek();
    let mut request_body = responses_to_chat_completions(body.deep_clone(), Some(provider.model.as_str()), Some(&reasoning));
    let _ = history.enrich_chat_request(body, &mut request_body);
    let request_messages = match request_body.get_array("messages") {
        Some(m) => {
            let mut copy: Vec<Json> = Vec::new();
            let mut i: usize = 0;
            assert(crate::json::items_view(copy@) =~= crate::json::items_view(m@).take(0));
            while i < m.len()
                invariant
                    i <= m@.len(),
                    crate::json::items_view(copy@) == crate::json::items_view(m@).take(i as int),
                decreases m@.len() - i,
            {
                let c = m[i].deep_clone();
                let ghost cv = c.view();
                let ghost before = crate::json::items_view(copy@);
                copy.push(c);
                assert(crate::json::items_view(copy@) =~= before.push(cv));
                assert(crate::json::items_view(m@).take(i + 1) =~= crate::json::items_view(m@).take(i as int).push(cv));
                i = i + 1;
            }
            assert(crate::json::items_view(m@).take(m@.len() as int) =~= crate::json::items_view(m@));
            copy
        },
        None => {
            let v: Vec<Json> = Vec::new();
            assert(crate::json::items_view(v@) =~= Seq::<JsonView>::empty());
            v
        },
    };
    ChatForward {
        url: chat_completions_url(provider.base_url.as_str()),
        request_body: request_body,
        request_messages: request_messages,
        stream: stream,
    }
}

/// Converts a chat provider's answer to the Responses shape and records it
/// for later requests.
pub fn finish_chat_completion(
    history: &mut ConversationHistoryStore,
    request_messages: Vec<Json>,
    chat_response: Json,
) -> (r: Result<Json, String>)
    requires
        (first_choice(chat_response.view()) is Some && jget(first_choice(chat_response.view())->0, "message"@) is Some)
            ==> usage_fits(jget(chat_response.view(), "usage"@)),
    ensures
        match r {
            Ok(v) => first_choice(chat_response.view()) is Some && jget(
                first_choice(chat_response.view())->0,
                "message"@,
            ) is Some && v.view() == response_of(
                chat_response.view(),
                first_choice(chat_response.view())->0,
                jget(first_choice(chat_response.view())->0, "message"@)->0,
            ) && final(history)@ == recorded(
                old(history)@,
                response_id_of(str_field(chat_response.view(), "id"@)),
                transcript(
                    crate::json::items_view(request_messages@),
                    assistant_of(chat_response.view())->0,
                ),
            ),
            Err(e) => final(history)@ == old(history)@ && ((first_choice(chat_response.view()) is None
                && e@ == "missing chat choices"@) || (first_choice(chat_response.view()) is Some && jget(
                first_choice(chat_response.view())->0,
                "message"@,
            ) is None && e@ == "missing chat message"@)),
        },
{
    let converted = chat_completion_to_response(chat_response.deep_clone());
    match converted {
        Ok(v) => {
            let _ = history.record_chat_response(request_messages, &chat_response);
            Ok(v)
        },
        Err(e) => Err(e),
    }
}

/// Whether a chat answer has a message in its first choice.
pub open spec fn has_chat_message(c: JsonView) -> bool {
    first_choice(c) is Some && jget(first_choice(c)->0, "message"@) is Some
}

/// What finishing a chat answer `c` does, as `finish_chat_completion` says:
/// the Responses answer with the exchange recorded, or the error with the
/// history unchanged.
pub open spec fn chat_finished(
    before: Seq<(Seq<char>, Seq<JsonView>)>,
    after: Seq<(Seq<char>, Seq<JsonView>)>,
    msgs: Seq<JsonView>,
    c: JsonView,
    r: Result<JsonView, Seq<char>>,
) -> bool {
    match r {
        Ok(v) => has_chat_message(c) && v == response_of(c, first_choice(c)->0, jget(first_choice(c)->0, "message"@)->0)
            && after == recorded(before, response_id_of(str_field(c, "id"@)), transcript(msgs, assistant_of(c)->0)),
        Err(e) => after == before && ((first_choice(c) is None && e == "missing chat choices"@) || (first_choice(
            c,
        ) is Some && jget(first_choice(c)->0, "message"@) is None && e == "missing chat message"@)),
    }
}

/// Finishes a chat answer given as the bytes of its body: an error where
/// they are no JSON, or where its usage totals do not fit in `u64`; else as
/// `finish_chat_completion` says.
pub fn finish_chat_completion_bytes(
    history: &mut ConversationHistoryStore,
    request_messages: Vec<Json>,
    raw: &[u8],
) -> (r: Result<Json, String>)
    ensures
        match json_of_bytes(raw@) {
            None => r is Err && final(history)@ == old(history)@,
            Some(c) => if has_chat_message(c) && !usage_fits(jget(c, "usage"@)) {
                r matches Err(e) && e@ == "chat usage totals are out of range"@ && final(history)@ == old(history)@
            } else {
                chat_finished(
                    old(history)@,
                    final(history)@,
                    items_view(request_messages@),
                    c,
                    match r {
                        Ok(v) => Ok(v.view()),
                        Err(e) => Err(e@),
                    },
                )
            },
        },
{
    let chat = match parse_json_bytes(raw) {
        Ok(c) => c,
        Err(e) => return Err(e),
    };
    let has_message = match chat.get_array("choices") {
        Some(cs) => if cs.len() > 0 {
            assert(cs@[0].view() == items_view(cs@)[0]);
            cs[0].get("message").is_some()
        } else {
            false
        },
        None => false,
    };
    if has_message {
        match chat.get("usage") {
            Some(u) => {
                if !usage_within_limits(u) {
                    return Err(owned("chat usage totals are out of range"));
                }
            },
            None => {},
        }
    }
    finish_chat_completion(history, request_messages, chat)
}

proof fn lemma_tool_deltas_keep_usage(s: StreamView, deltas: Seq<JsonView>)
    ensures
        tool_deltas(s, deltas).0.usage == s.usage,
    decreases deltas.len(),
{
    if deltas.len() > 0 {
        lemma_tool_deltas_keep_usage(s, deltas.drop_last());
    }
}

proof fn lemma_chunk_step_usage(s: StreamView, chunk: JsonView)
    ensures
        chunk_step(s, chunk).0.usage == header_state(s, chunk).usage,
{
    let (s1, e1) = start_step(header_state(s, chunk));
    match first_choice(chunk) {
        None => {},
        Some(choice) => {
            match jget(choice, "delta"@) {
                Some(d) => {
                    let (a, ea) = reasoning_step(s1, d);
                    let (b, eb) = text_step(a, d);
                    match as_array(jget(d, "tool_calls"@)) {
                        Some(deltas) => lemma_tool_deltas_keep_usage(b, deltas),
                        None => {},
                    }
                },
                None => {},
            }
        },
    }
}

/// A stream chunk that carries usage sets the stream's usage from it: its
/// prompt and completion token counts become the input and output token
/// counts that the closing `response.completed` event reports.
pub proof fn law_chunk_usage_taken(s: StreamView, chunk: JsonView, u: JsonView, p: u64, c: u64)
    requires
        jget(chunk, "usage"@) == Some(u),
        as_u64(jget(u, "prompt_tokens"@)) == Some(p),
        as_u64(jget(u, "completion_tokens"@)) == Some(c),
        p + c <= u64::MAX,
    ensures
        chunk_step(s, chunk).0.usage is Some,
        jget(chunk_step(s, chunk).0.usage->0, "input_tokens"@) == Some(uint(p)),
        jget(chunk_step(s, chunk).0.usage->0, "output_tokens"@) == Some(uint(c)),
{
    lemma_chunk_step_usage(s, chunk);
    crate::transform::law_usage_counts_kept(u, p, c);
    assert(!(u is Null));
}

/// A stream chunk without usage (or with a null one) leaves the stream's
/// usage as it was.
pub proof fn law_chunk_without_usage_keeps(s: StreamView, chunk: JsonView)
    requires
        jget(chunk, "usage"@) is None || jget(chunk, "usage"@) == Some(JsonView::Null),
    ensures
        chunk_step(s, chunk).0.usage == s.usage,
{
    lemma_chunk_step_usage(s, chunk);
}

/// The closing `response.completed` event reports the stream's usage (zero
/// counts where no chunk gave any).
pub proof fn law_completed_reports_usage(s: StreamView)
    ensures
        exists|r: JsonView|
            #![trigger jget(r, "usage"@)]
            finalize_events(s).last() == sse_text(
                "response.completed"@,
                obj2("response"@, r, "type"@, jstr("response.completed"@)),
            ) && jget(r, "usage"@) == Some(
                match s.usage {
                    Some(u) => u,
                    None => zero_usage(),
                },
            ),
{
    reveal_strlit("created_at");
    reveal_strlit("id");
    reveal_strlit("model");
    reveal_strlit("object");
    reveal_strlit("output");
    reveal_strlit("status");
    reveal_strlit("usage");
    let (o1, e1) = reasoning_final(s);
    let (o2, e2) = text_final(s);
    let (o3, e3) = tools_final(s.tool_calls, s.tool_calls.len(), o1 + o2);
    let r = base_response_of(s, status_of(s.finish_reason), o3);
    let es = r->Object_0;
    assert(es[0].0 == "created_at"@ && es[1].0 == "id"@ && es[2].0 == "model"@ && es[3].0 == "object"@
        && es[4].0 == "output"@ && es[5].0 == "status"@ && es[6].0 == "usage"@);
    assert("model"@[0] != "usage"@[0]);
    assert(es[0].0.len() != "usage"@.len() && es[1].0.len() != "usage"@.len() && es[2].0 != "usage"@
        && es[3].0.len() != "usage"@.len() && es[4].0.len() != "usage"@.len() && es[5].0.len() != "usage"@.len());
    crate::json::lemma_entries_get_at(es, "usage"@, 6);
    assert(jget(r, "usage"@) == Some(
        match s.usage {
            Some(u) => u,
            None => zero_usage(),
        },
    ));
}

} // verus!
