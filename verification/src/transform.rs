use vstd::prelude::*;

use crate::json::{
    as_array, as_bool, as_str, as_u64, items_view, jget, jpath, jset, json_text, jstr, obj1, obj2,
    obj3, obj4, obj5, obj6, obj7, or_else, str_field, to_json_text, uint, Json, JsonView,
};
use crate::text::{
    blank, chars_of, concat, decimal, find_first, find_first_of, has_prefix, is_blank, join,
    join_strings, owned, starts_with, str_eq, sub_vec, trim, trim_start, trim_start_bound,
    trimmed_chars, trimmed_start_chars, u64_text, matches_at,
};

verus! {

broadcast use vstd::std_specs::vec::group_vec_axioms;

/// How an OpenAI-chat provider takes reasoning switches.
pub struct CodexChatReasoning {
    pub supports_thinking: bool,
    pub supports_effort: bool,
    pub thinking_param: String,
    pub effort_param: String,
    pub effort_value_mode: String,
    pub output_format: String,
}

pub struct ReasoningView {
    pub supports_thinking: bool,
    pub supports_effort: bool,
    pub thinking_param: Seq<char>,
    pub effort_param: Seq<char>,
    pub effort_value_mode: Seq<char>,
    pub output_format: Seq<char>,
}

pub open spec fn deepseek_reasoning() -> ReasoningView {
    ReasoningView {
        supports_thinking: true,
        supports_effort: true,
        thinking_param: "thinking"@,
        effort_param: "reasoning_effort"@,
        effort_value_mode: "deepseek"@,
        output_format: "reasoning_content"@,
    }
}

impl CodexChatReasoning {
    pub open spec fn view(&self) -> ReasoningView {
        ReasoningView {
            supports_thinking: self.supports_thinking,
            supports_effort: self.supports_effort,
            thinking_param: self.thinking_param@,
            effort_param: self.effort_param@,
            effort_value_mode: self.effort_value_mode@,
            output_format: self.output_format@,
        }
    }

    /// The reasoning switches of DeepSeek's chat API.
    pub fn deepseek() -> (r: Self)
        ensures
            r.view() == deepseek_reasoning(),
    {
        CodexChatReasoning {
            supports_thinking: true,
            supports_effort: true,
            thinking_param: owned("thinking"),
            effort_param: owned("reasoning_effort"),
            effort_value_mode: owned("deepseek"),
            output_format: owned("reasoning_content"),
        }
    }
}

/// What `serde_json` makes of JSON text: the text parsed with
/// `serde_json::from_str` and written back with `serde_json::to_string`, or
/// `None` where it is not JSON.
pub uninterp spec fn reformatted_json(text: Seq<char>) -> Option<Seq<char>>;

/// Parses `text` with `serde_json::from_str` and writes it back with
/// `serde_json::to_string`. The contract only ties the result to the name
/// `reformatted_json`; what that text is, is left to serde_json. The two
/// calls share one name because what passes between them is a
/// `serde_json::Value`, an outside value that no name here is taken over.
#[verifier::external_body]
fn reformat_json(text: &str) -> (r: Option<String>)
    ensures
        match r {
            Some(s) => reformatted_json(text@) == Some(s@),
            None => reformatted_json(text@) is None,
        },
{
    match serde_json::from_str::<serde_json::Value>(text) {
        Ok(value) => serde_json::to_string(&value).ok(),
        Err(_) => None,
    }
}

// ----- specifications -------------------------------------------------------

pub open spec fn default_model() -> Seq<char> {
    "deepseek-v4-flash"@
}

/// The model a chat request names: the provider's model where it is not
/// blank, else the request's own, else DeepSeek's flash model.
pub open spec fn chosen_model(body: JsonView, upstream: Option<Seq<char>>) -> Seq<char> {
    if upstream is Some && !is_blank(upstream->0) {
        upstream->0
    } else {
        match str_field(body, "model"@) {
            Some(m) => m,
            None => default_model(),
        }
    }
}

pub open spec fn instruction_part(part: JsonView) -> Option<Seq<char>> {
    or_else(str_field(part, "text"@), as_str(Some(part)))
}

pub open spec fn instruction_parts(parts: Seq<JsonView>) -> Seq<Seq<char>>
    decreases parts.len(),
{
    if parts.len() == 0 {
        Seq::empty()
    } else {
        let rest = instruction_parts(parts.drop_last());
        match instruction_part(parts.last()) {
            Some(t) => rest.push(t),
            None => rest,
        }
    }
}

/// The text of a Responses `instructions` value.
pub open spec fn instruction_text_of(v: JsonView) -> Seq<char> {
    match v {
        JsonView::Str(t) => t,
        JsonView::Array(parts) => join(instruction_parts(parts), "\n\n"@),
        _ => Seq::empty(),
    }
}

/// `item.call_id`, else `item.id`, else `call_0`.
pub open spec fn item_call_id(item: JsonView) -> Seq<char> {
    match as_str(or_else(jget(item, "call_id"@), jget(item, "id"@))) {
        Some(id) => id,
        None => "call_0"@,
    }
}

/// The arguments text of a function call.
pub open spec fn canonical_arguments(v: Option<JsonView>) -> Seq<char> {
    match v {
        Some(JsonView::Str(t)) => match reformatted_json(t) {
            Some(c) => c,
            None => t,
        },
        Some(x) => json_text(x),
        None => Seq::empty(),
    }
}

/// A Responses `function_call` item as a chat tool call.
pub open spec fn function_call_to_chat(item: JsonView) -> JsonView {
    obj3(
        "id"@,
        jstr(item_call_id(item)),
        "type"@,
        jstr("function"@),
        "function"@,
        obj2(
            "name"@,
            jstr(
                match str_field(item, "name"@) {
                    Some(n) => n,
                    None => Seq::empty(),
                },
            ),
            "arguments"@,
            jstr(canonical_arguments(jget(item, "arguments"@))),
        ),
    )
}

/// A Responses `function_call_output` item as a chat `tool` message.
pub open spec fn tool_output_message(item: JsonView) -> JsonView {
    obj3(
        "role"@,
        jstr("tool"@),
        "tool_call_id"@,
        jstr(item_call_id(item)),
        "content"@,
        jstr(
            match str_field(item, "output"@) {
                Some(o) => o,
                None => Seq::empty(),
            },
        ),
    )
}

/// The chat role for a Responses message role.
pub open spec fn chat_role(role: Seq<char>) -> Seq<char> {
    if role == "system"@ || role == "developer"@ {
        "system"@
    } else if role == "assistant"@ {
        "assistant"@
    } else if role == "tool"@ {
        "tool"@
    } else {
        "user"@
    }
}

pub open spec fn is_text_part_type(t: Seq<char>) -> bool {
    t == "input_text"@ || t == "output_text"@ || t == "text"@
}

/// Walks content parts: the texts seen, the chat parts built, and whether a
/// non-text part was seen.
pub open spec fn content_fold(parts: Seq<JsonView>) -> (Seq<Seq<char>>, Seq<JsonView>, bool)
    decreases parts.len(),
{
    if parts.len() == 0 {
        (Seq::empty(), Seq::empty(), false)
    } else {
        let st = content_fold(parts.drop_last());
        let part = parts.last();
        let t = match str_field(part, "type"@) {
            Some(t) => t,
            None => Seq::empty(),
        };
        if is_text_part_type(t) {
            match str_field(part, "text"@) {
                Some(text) => (
                    st.0.push(text),
                    st.1.push(obj2("type"@, jstr("text"@), "text"@, jstr(text))),
                    st.2,
                ),
                None => st,
            }
        } else if t == "input_image"@ {
            match jget(part, "image_url"@) {
                Some(iu) => {
                    let url = if iu is Object {
                        iu
                    } else {
                        obj1(
                            "url"@,
                            jstr(
                                match as_str(Some(iu)) {
                                    Some(u) => u,
                                    None => Seq::empty(),
                                },
                            ),
                        )
                    };
                    (st.0, st.1.push(obj2("type"@, jstr("image_url"@), "image_url"@, url)), true)
                },
                None => (st.0, st.1, true),
            }
        } else {
            st
        }
    }
}

/// Responses message content as chat message content.
pub open spec fn content_to_chat(content: JsonView) -> JsonView {
    match content {
        JsonView::Array(parts) => {
            let st = content_fold(parts);
            if st.2 {
                JsonView::Array(st.1)
            } else {
                JsonView::Str(join(st.0, "\n"@))
            }
        },
        _ => content,
    }
}

/// A Responses message item as a chat message.
pub open spec fn message_to_chat(item: JsonView) -> JsonView {
    obj2(
        "role"@,
        jstr(
            chat_role(
                match str_field(item, "role"@) {
                    Some(r) => r,
                    None => "user"@,
                },
            ),
        ),
        "content"@,
        match jget(item, "content"@) {
            Some(c) => content_to_chat(c),
            None => JsonView::Null,
        },
    )
}

/// The assistant message that carries pending tool calls.
pub open spec fn tool_call_message(pending: Seq<JsonView>) -> JsonView {
    obj4(
        "role"@,
        jstr("assistant"@),
        "content"@,
        JsonView::Null,
        "reasoning_content"@,
        jstr("tool call"@),
        "tool_calls"@,
        JsonView::Array(pending),
    )
}

/// Messages so far, and the tool calls not yet flushed.
pub open spec fn flush(st: (Seq<JsonView>, Seq<JsonView>)) -> (Seq<JsonView>, Seq<JsonView>) {
    if st.1.len() == 0 {
        st
    } else {
        (st.0.push(tool_call_message(st.1)), Seq::empty())
    }
}

/// One Responses input item applied to the conversion state.
pub open spec fn input_step(st: (Seq<JsonView>, Seq<JsonView>), item: JsonView) -> (
    Seq<JsonView>,
    Seq<JsonView>,
) {
    match str_field(item, "type"@) {
        Some(t) => if t == "function_call"@ {
            (st.0, st.1.push(function_call_to_chat(item)))
        } else if t == "function_call_output"@ {
            let f = flush(st);
            (f.0.push(tool_output_message(item)), f.1)
        } else if t == "message"@ {
            let f = flush(st);
            (f.0.push(message_to_chat(item)), f.1)
        } else {
            st
        },
        None => {
            let f = flush(st);
            (f.0.push(message_to_chat(item)), f.1)
        },
    }
}

pub open spec fn input_fold(init: Seq<JsonView>, items: Seq<JsonView>) -> (
    Seq<JsonView>,
    Seq<JsonView>,
)
    decreases items.len(),
{
    if items.len() == 0 {
        (init, Seq::empty())
    } else {
        input_step(input_fold(init, items.drop_last()), items.last())
    }
}

/// The chat messages after the Responses `input` value is appended to `init`.
pub open spec fn input_messages(init: Seq<JsonView>, input: JsonView) -> Seq<JsonView> {
    match input {
        JsonView::Str(t) => init.push(obj2("role"@, jstr("user"@), "content"@, jstr(t))),
        JsonView::Array(items) => flush(input_fold(init, items)).0,
        JsonView::Object(_) => flush(input_step((init, Seq::empty()), input)).0,
        _ => init,
    }
}

pub open spec fn is_system_message(m: JsonView) -> bool {
    str_field(m, "role"@) == Some("system"@)
}

/// System texts to merge, and the other messages in order.
pub open spec fn collapse_fold(msgs: Seq<JsonView>) -> (Seq<Seq<char>>, Seq<JsonView>)
    decreases msgs.len(),
{
    if msgs.len() == 0 {
        (Seq::empty(), Seq::empty())
    } else {
        let st = collapse_fold(msgs.drop_last());
        let m = msgs.last();
        if is_system_message(m) {
            match str_field(m, "content"@) {
                Some(t) => if !is_blank(t) {
                    (st.0.push(t), st.1)
                } else {
                    st
                },
                None => st,
            }
        } else {
            (st.0, st.1.push(m))
        }
    }
}

/// One system message first, holding every system text, then the rest.
pub open spec fn collapse_system(msgs: Seq<JsonView>) -> Seq<JsonView> {
    let st = collapse_fold(msgs);
    if st.0.len() == 0 {
        st.1
    } else {
        seq![obj2("role"@, jstr("system"@), "content"@, jstr(join(st.0, "\n\n"@)))] + st.1
    }
}

pub open spec fn reasoning_effort(body: JsonView) -> Option<Seq<char>> {
    as_str(jpath(body, "reasoning"@, "effort"@))
}

/// Whether the request asks for reasoning; `None` when it does not say.
pub open spec fn reasoning_requested(body: JsonView) -> Option<bool> {
    match reasoning_effort(body) {
        Some(e) => Some(!(e == "none"@ || e == "off"@ || e == "disabled"@)),
        None => match jget(body, "reasoning"@) {
            Some(v) => Some(v != JsonView::Null),
            None => None,
        },
    }
}

/// The effort value sent upstream.
pub open spec fn mapped_effort(mode: Seq<char>, effort: Seq<char>) -> Seq<char> {
    if mode == "deepseek"@ {
        if effort == "max"@ || effort == "xhigh"@ {
            "max"@
        } else {
            "high"@
        }
    } else {
        effort
    }
}

pub open spec fn apply_thinking(result: JsonView, c: ReasoningView, enabled: bool) -> JsonView {
    if c.supports_thinking {
        if c.thinking_param == "thinking"@ {
            jset(
                result,
                "thinking"@,
                obj1(
                    "type"@,
                    jstr(
                        if enabled {
                            "enabled"@
                        } else {
                            "disabled"@
                        },
                    ),
                ),
            )
        } else if c.thinking_param == "enable_thinking"@ {
            jset(result, "enable_thinking"@, JsonView::Bool(enabled))
        } else if c.thinking_param == "reasoning_split"@ {
            jset(result, "reasoning_split"@, JsonView::Bool(enabled))
        } else {
            result
        }
    } else {
        result
    }
}

/// The chat request after the provider's reasoning switches are set.
pub open spec fn apply_reasoning_of(
    result: JsonView,
    body: JsonView,
    config: Option<ReasoningView>,
) -> JsonView {
    match config {
        None => result,
        Some(c) => match reasoning_requested(body) {
            None => result,
            Some(enabled) => {
                let r1 = apply_thinking(result, c, enabled);
                if !enabled || !c.supports_effort {
                    r1
                } else {
                    match reasoning_effort(body) {
                        None => r1,
                        Some(e) => if c.effort_param == "reasoning_effort"@ {
                            jset(r1, "reasoning_effort"@, jstr(mapped_effort(c.effort_value_mode, e)))
                        } else {
                            r1
                        },
                    }
                }
            },
        },
    }
}

/// A Responses tool as a chat tool; `None` for tools that are not functions.
pub open spec fn tool_to_chat(tool: JsonView) -> Option<JsonView> {
    if str_field(tool, "type"@) != Some("function"@) {
        None
    } else if jget(tool, "function"@) is Some {
        Some(tool)
    } else {
        Some(
            obj2(
                "type"@,
                jstr("function"@),
                "function"@,
                obj3(
                    "name"@,
                    jstr(
                        match str_field(tool, "name"@) {
                            Some(n) => n,
                            None => Seq::empty(),
                        },
                    ),
                    "description"@,
                    match jget(tool, "description"@) {
                        Some(d) => d,
                        None => JsonView::Null,
                    },
                    "parameters"@,
                    match jget(tool, "parameters"@) {
                        Some(p) => p,
                        None => JsonView::Object(Seq::empty()),
                    },
                ),
            ),
        )
    }
}

pub open spec fn chat_tools(tools: Seq<JsonView>) -> Seq<JsonView>
    decreases tools.len(),
{
    if tools.len() == 0 {
        Seq::empty()
    } else {
        let rest = chat_tools(tools.drop_last());
        match tool_to_chat(tools.last()) {
            Some(t) => rest.push(t),
            None => rest,
        }
    }
}

/// A Responses `tool_choice` as a chat `tool_choice`.
pub open spec fn tool_choice_to_chat(tc: JsonView) -> JsonView {
    if tc is Object && str_field(tc, "type"@) == Some("function"@) {
        obj2(
            "type"@,
            jstr("function"@),
            "function"@,
            obj1(
                "name"@,
                jstr(
                    match str_field(tc, "name"@) {
                        Some(n) => n,
                        None => Seq::empty(),
                    },
                ),
            ),
        )
    } else {
        tc
    }
}

/// `result[key] = body[key]` where the body has the key.
pub open spec fn copy_key(result: JsonView, body: JsonView, key: Seq<char>) -> JsonView {
    match jget(body, key) {
        Some(v) => jset(result, key, v),
        None => result,
    }
}

/// The leading system message built from `instructions`, if any.
pub open spec fn instruction_messages(body: JsonView) -> Seq<JsonView> {
    match jget(body, "instructions"@) {
        Some(i) => {
            let t = instruction_text_of(i);
            if !is_blank(t) {
                seq![obj2("role"@, jstr("system"@), "content"@, jstr(t))]
            } else {
                Seq::empty()
            }
        },
        None => Seq::empty(),
    }
}

/// All chat messages of a Responses request, before system messages merge.
pub open spec fn request_messages(body: JsonView) -> Seq<JsonView> {
    let sys = instruction_messages(body);
    match jget(body, "input"@) {
        Some(input) => input_messages(sys, input),
        None => sys,
    }
}

/// The limits and sampling fields of the chat request.
pub open spec fn copy_limits(r: JsonView, body: JsonView) -> JsonView {
    let r1 = match jget(body, "max_output_tokens"@) {
        Some(m) => jset(r, "max_tokens"@, m),
        None => r,
    };
    let r2 = copy_key(r1, body, "max_tokens"@);
    let r3 = copy_key(r2, body, "max_completion_tokens"@);
    let r4 = copy_key(r3, body, "temperature"@);
    let r5 = copy_key(r4, body, "top_p"@);
    copy_key(r5, body, "stream"@)
}

pub open spec fn apply_tools(r: JsonView, body: JsonView) -> JsonView {
    let r1 = match as_array(jget(body, "tools"@)) {
        Some(tools) => {
            let ts = chat_tools(tools);
            if ts.len() > 0 {
                jset(r, "tools"@, JsonView::Array(ts))
            } else {
                r
            }
        },
        None => r,
    };
    match jget(body, "tool_choice"@) {
        Some(tc) => jset(r1, "tool_choice"@, tool_choice_to_chat(tc)),
        None => r1,
    }
}

/// The chat-completions request for a Responses request.
pub open spec fn chat_request_of(
    body: JsonView,
    upstream: Option<Seq<char>>,
    reasoning: Option<ReasoningView>,
) -> JsonView {
    let r1 = jset(JsonView::Object(Seq::empty()), "model"@, jstr(chosen_model(body, upstream)));
    let r2 = jset(r1, "messages"@, JsonView::Array(collapse_system(request_messages(body))));
    let r3 = copy_limits(r2, body);
    let r4 = apply_reasoning_of(r3, body, reasoning);
    let r5 = apply_tools(r4, body);
    if as_bool(jget(r5, "stream"@)) == Some(true) {
        jset(r5, "stream_options"@, obj1("include_usage"@, JsonView::Bool(true)))
    } else {
        r5
    }
}

// ----- executable conversion ------------------------------------------------

fn str_or_empty(s: Option<&String>) -> (r: String)
    ensures
        r@ == match s {
            Some(x) => x@,
            None => Seq::<char>::empty(),
        },
{
    match s {
        Some(x) => x.clone(),
        None => String::new(),
    }
}

fn instruction_text(value: &Json) -> (r: String)
    ensures
        r@ == instruction_text_of(value.view()),
{
    match value {
        Json::Str(t) => t.clone(),
        Json::Array(parts) => {
            let ghost pv = items_view(parts@);
            let mut texts: Vec<String> = Vec::new();
            let mut i: usize = 0;
            while i < parts.len()
                invariant
                    i <= parts@.len(),
                    pv == items_view(parts@),
                    texts@.map_values(|p: String| p@) == instruction_parts(pv.take(i as int)),
                decreases parts@.len() - i,
            {
                let part = &parts[i];
                let t = match part.get_str("text") {
                    Some(t) => Some(t),
                    None => part.as_str(),
                };
                proof {
                    assert(pv.take(i + 1).drop_last() =~= pv.take(i as int));
                    assert(pv.take(i + 1).last() == part.view());
                }
                match t {
                    Some(t) => {
                        texts.push(t.clone());
                        assert(texts@.map_values(|p: String| p@) =~= instruction_parts(pv.take(i as int)).push(t@));
                    },
                    None => {},
                }
                i = i + 1;
            }
            assert(pv.take(parts@.len() as int) =~= pv);
            join_strings(&texts, "\n\n")
        },
        _ => String::new(),
    }
}

fn response_item_call_id(item: &Json) -> (r: String)
    ensures
        r@ == item_call_id(item.view()),
{
    let v = match item.get("call_id") {
        Some(v) => Some(v),
        None => item.get("id"),
    };
    match v {
        Some(v) => match v.as_str() {
            Some(s) => s.clone(),
            None => owned("call_0"),
        },
        None => owned("call_0"),
    }
}

fn canonicalize_arguments(value: Option<&Json>) -> (r: String)
    ensures
        r@ == canonical_arguments(
            match value {
                Some(v) => Some(v.view()),
                None => None,
            },
        ),
{
    match value {
        Some(Json::Str(text)) => match reformat_json(text.as_str()) {
            Some(c) => c,
            None => text.clone(),
        },
        Some(v) => to_json_text(v),
        None => String::new(),
    }
}

fn responses_function_call_to_chat(item: &Json) -> (r: Json)
    ensures
        r.view() == function_call_to_chat(item.view()),
{
    let name = str_or_empty(item.get_str("name"));
    let args = canonicalize_arguments(item.get("arguments"));
    Json::obj3(
        "id",
        Json::from_string(response_item_call_id(item)),
        "type",
        Json::string("function"),
        "function",
        Json::obj2("name", Json::from_string(name), "arguments", Json::from_string(args)),
    )
}

fn tool_output_to_chat(item: &Json) -> (r: Json)
    ensures
        r.view() == tool_output_message(item.view()),
{
    Json::obj3(
        "role",
        Json::string("tool"),
        "tool_call_id",
        Json::from_string(response_item_call_id(item)),
        "content",
        Json::from_string(str_or_empty(item.get_str("output"))),
    )
}

fn chat_role_for(role: &str) -> (r: String)
    ensures
        r@ == chat_role(role@),
{
    if str_eq(role, "system") || str_eq(role, "developer") {
        owned("system")
    } else if str_eq(role, "assistant") {
        owned("assistant")
    } else if str_eq(role, "tool") {
        owned("tool")
    } else {
        owned("user")
    }
}

fn responses_content_to_chat_content(content: &Json) -> (r: Json)
    ensures
        r.view() == content_to_chat(content.view()),
{
    match content {
        Json::Array(parts) => {
            let ghost pv = items_view(parts@);
            let mut texts: Vec<String> = Vec::new();
            let mut rich: Vec<Json> = Vec::new();
            let mut has_non_text = false;
            let mut i: usize = 0;
            while i < parts.len()
                invariant
                    i <= parts@.len(),
                    pv == items_view(parts@),
                    content_fold(pv.take(i as int)) == (
                        texts@.map_values(|p: String| p@),
                        items_view(rich@),
                        has_non_text,
                    ),
                decreases parts@.len() - i,
            {
                let part = &parts[i];
                proof {
                    assert(pv.take(i + 1).drop_last() =~= pv.take(i as int));
                    assert(pv.take(i + 1).last() == part.view());
                }
                let t = str_or_empty(part.get_str("type"));
                if str_eq(t.as_str(), "input_text") || str_eq(t.as_str(), "output_text")
                    || str_eq(t.as_str(), "text") {
                    match part.get_str("text") {
                        Some(text) => {
                            texts.push(text.clone());
                            rich.push(Json::obj2("type", Json::string("text"), "text", Json::from_string(text.clone())));
                            assert(texts@.map_values(|p: String| p@) =~= content_fold(pv.take(i as int)).0.push(text@));
                            assert(items_view(rich@) =~= content_fold(pv.take(i as int)).1.push(obj2("type"@, jstr("text"@), "text"@, jstr(text@))));
                        },
                        None => {},
                    }
                } else if str_eq(t.as_str(), "input_image") {
                    has_non_text = true;
                    match part.get("image_url") {
                        Some(iu) => {
                            let url = if iu.is_object() {
                                iu.deep_clone()
                            } else {
                                Json::obj1("url", Json::from_string(str_or_empty(iu.as_str())))
                            };
                            let item = Json::obj2("type", Json::string("image_url"), "image_url", url);
                            let ghost iv = item.view();
                            rich.push(item);
                            assert(items_view(rich@) =~= content_fold(pv.take(i as int)).1.push(iv));
                        },
                        None => {},
                    }
                }
                i = i + 1;
            }
            assert(pv.take(parts@.len() as int) =~= pv);
            if has_non_text {
                Json::from_items(rich)
            } else {
                Json::from_string(join_strings(&texts, "\n"))
            }
        },
        _ => content.deep_clone(),
    }
}

fn responses_message_to_chat(item: &Json) -> (r: Json)
    ensures
        r.view() == message_to_chat(item.view()),
{
    let role = match item.get_str("role") {
        Some(r) => chat_role_for(r.as_str()),
        None => chat_role_for("user"),
    };
    let content = match item.get("content") {
        Some(c) => responses_content_to_chat_content(c),
        None => Json::null(),
    };
    Json::obj2("role", Json::from_string(role), "content", content)
}

fn flush_tool_calls(messages: &mut Vec<Json>, pending: &mut Vec<Json>)
    ensures
        (items_view(final(messages)@), items_view(final(pending)@)) == flush(
            (items_view(old(messages)@), items_view(old(pending)@)),
        ),
{
    if pending.len() == 0 {
        assert(items_view(pending@) =~= Seq::<JsonView>::empty());
        return;
    }
    let mut calls: Vec<Json> = Vec::new();
    std::mem::swap(&mut calls, pending);
    let m = Json::obj4(
        "role",
        Json::string("assistant"),
        "content",
        Json::null(),
        "reasoning_content",
        Json::string("tool call"),
        "tool_calls",
        Json::from_items(calls),
    );
    let ghost mv = m.view();
    messages.push(m);
    assert(items_view(messages@) =~= items_view(old(messages)@).push(mv));
    assert(items_view(pending@) =~= Seq::<JsonView>::empty());
}

fn append_responses_item(item: &Json, messages: &mut Vec<Json>, pending: &mut Vec<Json>)
    ensures
        (items_view(final(messages)@), items_view(final(pending)@)) == input_step(
            (items_view(old(messages)@), items_view(old(pending)@)),
            item.view(),
        ),
{
    match item.get_str("type") {
        Some(t) => {
            if str_eq(t.as_str(), "function_call") {
                let c = responses_function_call_to_chat(item);
                let ghost cv = c.view();
                pending.push(c);
                assert(items_view(pending@) =~= items_view(old(pending)@).push(cv));
            } else if str_eq(t.as_str(), "function_call_output") {
                flush_tool_calls(messages, pending);
                let ghost mid = items_view(messages@);
                let m = tool_output_to_chat(item);
                let ghost mv = m.view();
                messages.push(m);
                assert(items_view(messages@) =~= mid.push(mv));
            } else if str_eq(t.as_str(), "message") {
                flush_tool_calls(messages, pending);
                let ghost mid = items_view(messages@);
                let m = responses_message_to_chat(item);
                let ghost mv = m.view();
                messages.push(m);
                assert(items_view(messages@) =~= mid.push(mv));
            }
        },
        None => {
            flush_tool_calls(messages, pending);
            let ghost mid = items_view(messages@);
            let m = responses_message_to_chat(item);
            let ghost mv = m.view();
            messages.push(m);
            assert(items_view(messages@) =~= mid.push(mv));
        },
    }
}

fn append_responses_input(input: &Json, messages: &mut Vec<Json>)
    ensures
        items_view(final(messages)@) == input_messages(items_view(old(messages)@), input.view()),
{
    let ghost init = items_view(messages@);
    match input {
        Json::Str(text) => {
            let m = Json::obj2("role", Json::string("user"), "content", Json::from_string(text.clone()));
            let ghost mv = m.view();
            messages.push(m);
            assert(items_view(messages@) =~= init.push(mv));
        },
        Json::Array(items) => {
            let ghost iv = items_view(items@);
            let mut pending: Vec<Json> = Vec::new();
            let mut i: usize = 0;
            assert(items_view(pending@) =~= Seq::<JsonView>::empty());
            while i < items.len()
                invariant
                    i <= items@.len(),
                    iv == items_view(items@),
                    (items_view(messages@), items_view(pending@)) == input_fold(init, iv.take(i as int)),
                decreases items@.len() - i,
            {
                proof {
                    assert(iv.take(i + 1).drop_last() =~= iv.take(i as int));
                    assert(iv.take(i + 1).last() == items@[i as int].view());
                }
                append_responses_item(&items[i], messages, &mut pending);
                i = i + 1;
            }
            assert(iv.take(items@.len() as int) =~= iv);
            flush_tool_calls(messages, &mut pending);
        },
        Json::Object(_) => {
            let mut pending: Vec<Json> = Vec::new();
            assert(items_view(pending@) =~= Seq::<JsonView>::empty());
            append_responses_item(input, messages, &mut pending);
            flush_tool_calls(messages, &mut pending);
        },
        _ => {},
    }
}

fn is_system(message: &Json) -> (r: bool)
    ensures
        r == is_system_message(message.view()),
{
    match message.get_str("role") {
        Some(r) => str_eq(r.as_str(), "system"),
        None => false,
    }
}

fn collapse_system_messages(messages: Vec<Json>) -> (r: Vec<Json>)
    ensures
        items_view(r@) == collapse_system(items_view(messages@)),
{
    let ghost mv = items_view(messages@);
    let mut system: Vec<String> = Vec::new();
    let mut rest: Vec<Json> = Vec::new();
    let mut i: usize = 0;
    while i < messages.len()
        invariant
            i <= messages@.len(),
            mv == items_view(messages@),
            collapse_fold(mv.take(i as int)) == (system@.map_values(|p: String| p@), items_view(rest@)),
        decreases messages@.len() - i,
    {
        let m = &messages[i];
        proof {
            assert(mv.take(i + 1).drop_last() =~= mv.take(i as int));
            assert(mv.take(i + 1).last() == m.view());
        }
        if is_system(m) {
            match m.get_str("content") {
                Some(t) => {
                    if !blank(t.as_str()) {
                        system.push(t.clone());
                        assert(system@.map_values(|p: String| p@) =~= collapse_fold(mv.take(i as int)).0.push(t@));
                    }
                },
                None => {},
            }
        } else {
            let c = m.deep_clone();
            let ghost cv = c.view();
            rest.push(c);
            assert(items_view(rest@) =~= collapse_fold(mv.take(i as int)).1.push(cv));
        }
        i = i + 1;
    }
    assert(mv.take(messages@.len() as int) =~= mv);
    if system.len() == 0 {
        rest
    } else {
        let joined = join_strings(&system, "\n\n");
        let head = Json::obj2("role", Json::string("system"), "content", Json::from_string(joined));
        let mut out: Vec<Json> = Vec::new();
        let ghost hv = head.view();
        out.push(head);
        let mut j: usize = 0;
        let ghost rv = items_view(rest@);
        while j < rest.len()
            invariant
                j <= rest@.len(),
                rv == items_view(rest@),
                items_view(out@) == seq![hv] + rv.take(j as int),
            decreases rest@.len() - j,
        {
            let c = rest[j].deep_clone();
            let ghost cv = c.view();
            let ghost before = items_view(out@);
            out.push(c);
            assert(items_view(out@) =~= before.push(cv));
            assert(rv[j as int] == cv);
            assert(rv.take(j + 1) =~= rv.take(j as int).push(rv[j as int]));
            assert(items_view(out@) =~= seq![hv] + rv.take(j + 1));
            j = j + 1;
        }
        assert(rv.take(rest@.len() as int) =~= rv);
        out
    }
}

fn reasoning_effort_of(body: &Json) -> (r: Option<&String>)
    ensures
        match r {
            Some(s) => reasoning_effort(body.view()) == Some(s@),
            None => reasoning_effort(body.view()) is None,
        },
{
    match body.get_path("reasoning", "effort") {
        Some(v) => v.as_str(),
        None => None,
    }
}

fn requested_reasoning(body: &Json) -> (r: Option<bool>)
    ensures
        r == reasoning_requested(body.view()),
{
    match reasoning_effort_of(body) {
        Some(e) => Some(!(str_eq(e.as_str(), "none") || str_eq(e.as_str(), "off") || str_eq(e.as_str(), "disabled"))),
        None => match body.get("reasoning") {
            Some(v) => Some(!v.is_null()),
            None => None,
        },
    }
}

fn apply_reasoning(result: &mut Json, body: &Json, config: Option<&CodexChatReasoning>)
    requires
        old(result).view() is Object,
    ensures
        final(result).view() == apply_reasoning_of(
            old(result).view(),
            body.view(),
            match config {
                Some(c) => Some(c.view()),
                None => None,
            },
        ),
        final(result).view() is Object,
{
    let config = match config {
        Some(c) => c,
        None => return,
    };
    let enabled = match requested_reasoning(body) {
        Some(e) => e,
        None => return,
    };
    if config.supports_thinking {
        if str_eq(config.thinking_param.as_str(), "thinking") {
            let t = if enabled { Json::string("enabled") } else { Json::string("disabled") };
            result.set("thinking", Json::obj1("type", t));
        } else if str_eq(config.thinking_param.as_str(), "enable_thinking") {
            result.set("enable_thinking", Json::boolean(enabled));
        } else if str_eq(config.thinking_param.as_str(), "reasoning_split") {
            result.set("reasoning_split", Json::boolean(enabled));
        }
    }
    if !enabled || !config.supports_effort {
        return;
    }
    let effort = match reasoning_effort_of(body) {
        Some(e) => e,
        None => return,
    };
    let mapped = if str_eq(config.effort_value_mode.as_str(), "deepseek") {
        if str_eq(effort.as_str(), "max") || str_eq(effort.as_str(), "xhigh") {
            owned("max")
        } else {
            owned("high")
        }
    } else {
        effort.clone()
    };
    if str_eq(config.effort_param.as_str(), "reasoning_effort") {
        result.set("reasoning_effort", Json::from_string(mapped));
    }
}

fn responses_tool_to_chat_tool(tool: &Json) -> (r: Option<Json>)
    ensures
        match r {
            Some(t) => tool_to_chat(tool.view()) == Some(t.view()),
            None => tool_to_chat(tool.view()) is None,
        },
{
    let is_function = match tool.get_str("type") {
        Some(t) => str_eq(t.as_str(), "function"),
        None => false,
    };
    if !is_function {
        return None;
    }
    if tool.get("function").is_some() {
        return Some(tool.deep_clone());
    }
    let name = str_or_empty(tool.get_str("name"));
    let description = match tool.get("description") {
        Some(d) => d.deep_clone(),
        None => Json::null(),
    };
    let parameters = match tool.get("parameters") {
        Some(p) => p.deep_clone(),
        None => Json::object(),
    };
    Some(
        Json::obj2(
            "type",
            Json::string("function"),
            "function",
            Json::obj3("name", Json::from_string(name), "description", description, "parameters", parameters),
        ),
    )
}

fn responses_tool_choice_to_chat(tc: &Json) -> (r: Json)
    ensures
        r.view() == tool_choice_to_chat(tc.view()),
{
    let is_function = tc.is_object() && match tc.get_str("type") {
        Some(t) => str_eq(t.as_str(), "function"),
        None => false,
    };
    if is_function {
        let name = str_or_empty(tc.get_str("name"));
        Json::obj2("type", Json::string("function"), "function", Json::obj1("name", Json::from_string(name)))
    } else {
        tc.deep_clone()
    }
}

fn copy_field(result: &mut Json, body: &Json, key: &str)
    requires
        old(result).view() is Object,
    ensures
        final(result).view() == copy_key(old(result).view(), body.view(), key@),
        final(result).view() is Object,
{
    match body.get(key) {
        Some(v) => result.set(key, v.deep_clone()),
        None => {},
    }
}

/// Converts a Responses API request into a chat-completions request.
pub fn responses_to_chat_completions(
    body: Json,
    upstream_model: Option<&str>,
    reasoning: Option<&CodexChatReasoning>,
) -> (r: Json)
    ensures
        r.view() == chat_request_of(
            body.view(),
            match upstream_model {
                Some(m) => Some(m@),
                None => None,
            },
            match reasoning {
                Some(c) => Some(c.view()),
                None => None,
            },
        ),
{
    let mut result = Json::object();
    let model = match upstream_model {
        Some(m) if !blank(m) => owned(m),
        _ => match body.get_str("model") {
            Some(m) => m.clone(),
            None => owned("deepseek-v4-flash"),
        },
    };
    result.set("model", Json::from_string(model));

    let mut messages: Vec<Json> = Vec::new();
    match body.get("instructions") {
        Some(instructions) => {
            let text = instruction_text(instructions);
            if !blank(text.as_str()) {
                messages.push(Json::obj2("role", Json::string("system"), "content", Json::from_string(text)));
            }
        },
        None => {},
    }
    proof {
        assert(items_view(messages@) =~= instruction_messages(body.view()));
    }
    match body.get("input") {
        Some(input) => append_responses_input(input, &mut messages),
        None => {},
    }
    let collapsed = collapse_system_messages(messages);
    result.set("messages", Json::from_items(collapsed));

    match body.get("max_output_tokens") {
        Some(m) => result.set("max_tokens", m.deep_clone()),
        None => {},
    }
    copy_field(&mut result, &body, "max_tokens");
    copy_field(&mut result, &body, "max_completion_tokens");
    copy_field(&mut result, &body, "temperature");
    copy_field(&mut result, &body, "top_p");
    copy_field(&mut result, &body, "stream");

    apply_reasoning(&mut result, &body, reasoning);

    let ghost before_tools = result.view();
    match body.get_array("tools") {
        Some(tools) => {
            let ghost tv = items_view(tools@);
            let mut converted: Vec<Json> = Vec::new();
            let mut i: usize = 0;
            while i < tools.len()
                invariant
                    i <= tools@.len(),
                    tv == items_view(tools@),
                    items_view(converted@) == chat_tools(tv.take(i as int)),
                decreases tools@.len() - i,
            {
                proof {
                    assert(tv.take(i + 1).drop_last() =~= tv.take(i as int));
                    assert(tv.take(i + 1).last() == tools@[i as int].view());
                }
                match responses_tool_to_chat_tool(&tools[i]) {
                    Some(t) => {
                        let ghost cv = t.view();
                        converted.push(t);
                        assert(items_view(converted@) =~= chat_tools(tv.take(i as int)).push(cv));
                    },
                    None => {},
                }
                i = i + 1;
            }
            assert(tv.take(tools@.len() as int) =~= tv);
            if converted.len() > 0 {
                result.set("tools", Json::from_items(converted));
            }
        },
        None => {},
    }
    match body.get("tool_choice") {
        Some(tc) => result.set("tool_choice", responses_tool_choice_to_chat(tc)),
        None => {},
    }
    let streaming = match result.get_bool("stream") {
        Some(b) => b,
        None => false,
    };
    if streaming {
        result.set("stream_options", Json::obj1("include_usage", Json::boolean(true)));
    }
    result
}

// ----- chat completion back to a Responses object ---------------------------

/// `<think>reasoning</think>answer` at the start of a message: the trimmed
/// reasoning and the answer without its leading whitespace.
pub open spec fn think_split(text: Seq<char>) -> Option<(Seq<char>, Seq<char>)> {
    let t = trim_start(text);
    if !starts_with(t, "<think>"@) {
        None
    } else {
        let body = t.subrange("<think>"@.len() as int, t.len() as int);
        match find_first(body, "</think>"@) {
            Some(close) => Some(
                (
                    trim(body.subrange(0, close)),
                    trim_start(body.subrange(close + "</think>"@.len(), body.len() as int)),
                ),
            ),
            None => None,
        }
    }
}

/// The Responses id for a chat completion id.
pub open spec fn response_id_of(id: Option<Seq<char>>) -> Seq<char> {
    let i = match id {
        Some(x) => x,
        None => "ccswitcher"@,
    };
    if starts_with(i, "resp_"@) {
        i
    } else {
        "resp_"@ + i
    }
}

/// The Responses status for a chat finish reason.
pub open spec fn status_of(reason: Option<Seq<char>>) -> Seq<char> {
    if reason == Some("length"@) {
        "incomplete"@
    } else {
        "completed"@
    }
}

pub open spec fn zero_usage() -> JsonView {
    obj3("input_tokens"@, uint(0), "output_tokens"@, uint(0), "total_tokens"@, uint(0))
}

pub open spec fn u64_or_zero(v: Option<u64>) -> u64 {
    match v {
        Some(n) => n,
        None => 0,
    }
}

pub open spec fn usage_input(u: JsonView) -> u64 {
    u64_or_zero(as_u64(or_else(jget(u, "prompt_tokens"@), jget(u, "input_tokens"@))))
}

pub open spec fn usage_output(u: JsonView) -> u64 {
    u64_or_zero(as_u64(or_else(jget(u, "completion_tokens"@), jget(u, "output_tokens"@))))
}

/// The input and output token counts add up without overflow (the
/// conversion adds them even where the total is given).
pub open spec fn usage_fits(u: Option<JsonView>) -> bool {
    match u {
        Some(u) => usage_input(u) + usage_output(u) <= u64::MAX,
        None => true,
    }
}

/// Chat usage as Responses usage.
pub open spec fn usage_of(u: Option<JsonView>) -> JsonView {
    match u {
        None => zero_usage(),
        Some(u) => {
            let input = usage_input(u);
            let output = usage_output(u);
            let total = match as_u64(jget(u, "total_tokens"@)) {
                Some(t) => t,
                None => (input + output) as u64,
            };
            let r = obj3(
                "input_tokens"@,
                uint(input),
                "output_tokens"@,
                uint(output),
                "total_tokens"@,
                uint(total),
            );
            let r1 = match as_u64(
                or_else(
                    jpath(u, "prompt_tokens_details"@, "cached_tokens"@),
                    jpath(u, "input_tokens_details"@, "cached_tokens"@),
                ),
            ) {
                Some(c) => jset(r, "input_tokens_details"@, obj1("cached_tokens"@, uint(c))),
                None => r,
            };
            match as_u64(
                or_else(
                    jpath(u, "completion_tokens_details"@, "reasoning_tokens"@),
                    jpath(u, "output_tokens_details"@, "reasoning_tokens"@),
                ),
            ) {
                Some(c) => jset(r1, "output_tokens_details"@, obj1("reasoning_tokens"@, uint(c))),
                None => r1,
            }
        },
    }
}

pub open spec fn nonempty(s: Option<Seq<char>>) -> Option<Seq<char>> {
    match s {
        Some(t) => if t.len() > 0 {
            Some(t)
        } else {
            None
        },
        None => None,
    }
}

/// Reasoning text carried by a chat message or delta.
pub open spec fn extracted_reasoning(v: JsonView) -> Option<Seq<char>> {
    or_else(
        nonempty(str_field(v, "reasoning_content"@)),
        or_else(
            nonempty(str_field(v, "reasoning"@)),
            match jget(v, "reasoning"@) {
                Some(r) => or_else(
                    nonempty(str_field(r, "content"@)),
                    or_else(nonempty(str_field(r, "text"@)), nonempty(str_field(r, "summary"@))),
                ),
                None => None,
            },
        ),
    )
}

/// Reasoning of a chat message: its reasoning fields, else a leading
/// `<think>` block of its content.
pub open spec fn chat_reasoning(message: JsonView) -> Option<Seq<char>> {
    or_else(
        extracted_reasoning(message),
        match str_field(message, "content"@) {
            Some(c) => match think_split(c) {
                Some(p) => Some(p.0),
                None => None,
            },
            None => None,
        },
    )
}

pub open spec fn output_text_part(text: Seq<char>) -> JsonView {
    obj3(
        "type"@,
        jstr("output_text"@),
        "text"@,
        jstr(text),
        "annotations"@,
        JsonView::Array(Seq::empty()),
    )
}

/// The Responses message item for a chat message's text content.
pub open spec fn message_output_item(message: JsonView, id: Seq<char>) -> Option<JsonView> {
    match str_field(message, "content"@) {
        Some(t) => {
            let text = match think_split(t) {
                Some(p) => p.1,
                None => t,
            };
            if text.len() > 0 {
                Some(
                    obj5(
                        "id"@,
                        jstr(id + "_msg"@),
                        "type"@,
                        jstr("message"@),
                        "status"@,
                        jstr("completed"@),
                        "role"@,
                        jstr("assistant"@),
                        "content"@,
                        JsonView::Array(seq![output_text_part(text)]),
                    ),
                )
            } else {
                None
            }
        },
        None => None,
    }
}

/// The call id of the chat tool call at `index`.
pub open spec fn tool_call_id(call: JsonView, index: nat) -> Seq<char> {
    match nonempty(str_field(call, "id"@)) {
        Some(i) => i,
        None => "call_"@ + decimal(index),
    }
}

/// A chat tool call as a Responses `function_call` item.
pub open spec fn tool_call_item(call: JsonView, index: nat, reasoning: Option<Seq<char>>) -> JsonView {
    let call_id = tool_call_id(call, index);
    let function = match jget(call, "function"@) {
        Some(f) => f,
        None => JsonView::Null,
    };
    let item = obj6(
        "id"@,
        jstr("fc_"@ + call_id),
        "type"@,
        jstr("function_call"@),
        "status"@,
        jstr("completed"@),
        "call_id"@,
        jstr(call_id),
        "name"@,
        jstr(
            match str_field(function, "name"@) {
                Some(n) => n,
                None => Seq::empty(),
            },
        ),
        "arguments"@,
        jstr(canonical_arguments(jget(function, "arguments"@))),
    );
    match reasoning {
        Some(r) => if !is_blank(r) {
            jset(item, "reasoning_content"@, jstr(r))
        } else {
            item
        },
        None => item,
    }
}

pub open spec fn tool_call_items(message: JsonView, reasoning: Option<Seq<char>>) -> Seq<JsonView> {
    match as_array(jget(message, "tool_calls"@)) {
        Some(calls) => Seq::new(calls.len(), |i: int| tool_call_item(calls[i], i as nat, reasoning)),
        None => Seq::empty(),
    }
}

pub open spec fn reasoning_item(id: Seq<char>, text: Seq<char>) -> JsonView {
    obj3(
        "id"@,
        jstr("rs_"@ + id),
        "type"@,
        jstr("reasoning"@),
        "summary"@,
        JsonView::Array(seq![obj2("type"@, jstr("summary_text"@), "text"@, jstr(text))]),
    )
}

/// The output items of a Responses object for a chat message.
pub open spec fn response_output(message: JsonView, id: Seq<char>) -> Seq<JsonView> {
    let reasoning = chat_reasoning(message);
    let out1 = match nonempty(reasoning) {
        Some(r) => seq![reasoning_item(id, r)],
        None => Seq::empty(),
    };
    let out2 = match message_output_item(message, id) {
        Some(m) => out1.push(m),
        None => out1,
    };
    out2 + tool_call_items(message, reasoning)
}

/// The first chat choice.
pub open spec fn first_choice(body: JsonView) -> Option<JsonView> {
    match as_array(jget(body, "choices"@)) {
        Some(cs) => if cs.len() > 0 {
            Some(cs[0])
        } else {
            None
        },
        None => None,
    }
}

/// The Responses object for a chat completion whose first choice is
/// `choice`, holding `message`.
pub open spec fn response_of(body: JsonView, choice: JsonView, message: JsonView) -> JsonView {
    let id = response_id_of(str_field(body, "id"@));
    let finish = str_field(choice, "finish_reason"@);
    let resp = obj7(
        "id"@,
        jstr(id),
        "object"@,
        jstr("response"@),
        "created_at"@,
        uint(u64_or_zero(as_u64(jget(body, "created"@)))),
        "status"@,
        jstr(status_of(finish)),
        "model"@,
        jstr(
            match str_field(body, "model"@) {
                Some(m) => m,
                None => Seq::empty(),
            },
        ),
        "output"@,
        JsonView::Array(response_output(message, id)),
        "usage"@,
        usage_of(jget(body, "usage"@)),
    );
    if finish == Some("length"@) {
        jset(resp, "incomplete_details"@, obj1("reason"@, jstr("max_output_tokens"@)))
    } else {
        resp
    }
}

/// The leading `<think>` block of `text`, split off.
pub fn split_leading_think_block(text: &str) -> (r: Option<(String, String)>)
    ensures
        match r {
            Some(p) => think_split(text@) == Some((p.0@, p.1@)),
            None => think_split(text@) is None,
        },
{
    let v = chars_of(text);
    let lo = trim_start_bound(&v);
    let ghost t = v@.subrange(lo as int, v@.len() as int);
    let open = chars_of("<think>");
    if !matches_at(&v, &open, lo) {
        assert(!starts_with(t, "<think>"@)) by {
            if starts_with(t, "<think>"@) {
                assert(v@.subrange(lo as int, lo + open@.len()) =~= t.subrange(0, open@.len() as int));
            }
        }
        return None;
    }
    assert(starts_with(t, "<think>"@)) by {
        assert(v@.subrange(lo as int, lo + open@.len()) =~= t.subrange(0, open@.len() as int));
    }
    assert(lo + open@.len() <= v@.len());
    assert(open.len() == open@.len());
    assert(v.len() == v@.len());
    let body = sub_vec(&v, lo + open.len(), v.len());
    assert(body@ =~= t.subrange("<think>"@.len() as int, t.len() as int));
    let close_pat = chars_of("</think>");
    match find_first_of(&body, &close_pat) {
        Some(close) => {
            proof {
                crate::text::lemma_find_first_from_occurs(body@, close_pat@, 0);
                assert(crate::text::occurs_at(body@, close_pat@, close as int));
            }
            let inner = sub_vec(&body, 0, close);
            let after = sub_vec(&body, close + close_pat.len(), body.len());
            let reasoning = trimmed_chars(&inner);
            let answer = trimmed_start_chars(&after);
            Some((reasoning, answer))
        },
        None => None,
    }
}

/// The Responses id for a chat completion id.
pub fn response_id_from_chat_id(id: Option<&str>) -> (r: String)
    ensures
        r@ == response_id_of(
            match id {
                Some(i) => Some(i@),
                None => None,
            },
        ),
{
    let i = match id {
        Some(x) => x,
        None => "ccswitcher",
    };
    if has_prefix(i, "resp_") {
        owned(i)
    } else {
        concat("resp_", i)
    }
}

/// The Responses status for a chat finish reason.
pub fn response_status_from_finish_reason(reason: Option<&str>) -> (r: &'static str)
    ensures
        r@ == status_of(
            match reason {
                Some(x) => Some(x@),
                None => None,
            },
        ),
{
    match reason {
        Some(x) => if str_eq(x, "length") {
            "incomplete"
        } else {
            "completed"
        },
        None => "completed",
    }
}

fn u64_field_or(a: Option<&Json>, b: Option<&Json>) -> (r: Option<u64>)
    ensures
        r == as_u64(
            or_else(
                match a {
                    Some(x) => Some(x.view()),
                    None => None,
                },
                match b {
                    Some(x) => Some(x.view()),
                    None => None,
                },
            ),
        ),
{
    match a {
        Some(x) => x.as_u64(),
        None => match b {
            Some(y) => y.as_u64(),
            None => None,
        },
    }
}

/// Whether the input and output token counts of `usage` add up within
/// `u64` (what `chat_usage_to_responses_usage` needs).
pub fn usage_within_limits(usage: &Json) -> (r: bool)
    ensures
        r == usage_fits(Some(usage.view())),
{
    let input = match u64_field_or(usage.get("prompt_tokens"), usage.get("input_tokens")) {
        Some(n) => n,
        None => 0,
    };
    let output = match u64_field_or(usage.get("completion_tokens"), usage.get("output_tokens")) {
        Some(n) => n,
        None => 0,
    };
    input <= u64::MAX - output
}

/// Chat usage as Responses usage.
pub fn chat_usage_to_responses_usage(usage: Option<&Json>) -> (r: Json)
    requires
        usage_fits(
            match usage {
                Some(u) => Some(u.view()),
                None => None,
            },
        ),
    ensures
        r.view() == usage_of(
            match usage {
                Some(u) => Some(u.view()),
                None => None,
            },
        ),
{
    let usage = match usage {
        Some(u) => u,
        None => {
            return Json::obj3(
                "input_tokens",
                Json::uint(0),
                "output_tokens",
                Json::uint(0),
                "total_tokens",
                Json::uint(0),
            );
        },
    };
    let input = match u64_field_or(usage.get("prompt_tokens"), usage.get("input_tokens")) {
        Some(n) => n,
        None => 0,
    };
    let output = match u64_field_or(usage.get("completion_tokens"), usage.get("output_tokens")) {
        Some(n) => n,
        None => 0,
    };
    let total = match usage.get_u64("total_tokens") {
        Some(t) => t,
        None => input + output,
    };
    let mut result = Json::obj3(
        "input_tokens",
        Json::uint(input),
        "output_tokens",
        Json::uint(output),
        "total_tokens",
        Json::uint(total),
    );
    match u64_field_or(
        usage.get_path("prompt_tokens_details", "cached_tokens"),
        usage.get_path("input_tokens_details", "cached_tokens"),
    ) {
        Some(c) => result.set("input_tokens_details", Json::obj1("cached_tokens", Json::uint(c))),
        None => {},
    }
    match u64_field_or(
        usage.get_path("completion_tokens_details", "reasoning_tokens"),
        usage.get_path("output_tokens_details", "reasoning_tokens"),
    ) {
        Some(c) => result.set("output_tokens_details", Json::obj1("reasoning_tokens", Json::uint(c))),
        None => {},
    }
    result
}

fn nonempty_str(s: Option<&String>) -> (r: Option<String>)
    ensures
        match r {
            Some(t) => nonempty(
                match s {
                    Some(x) => Some(x@),
                    None => None,
                },
            ) == Some(t@),
            None => nonempty(
                match s {
                    Some(x) => Some(x@),
                    None => None,
                },
            ) is None,
        },
{
    match s {
        Some(t) => if !t.as_str().is_empty() {
            Some(t.clone())
        } else {
            None
        },
        None => None,
    }
}

/// Reasoning text carried by a chat message or delta.
pub fn extract_reasoning_text(value: &Json) -> (r: Option<String>)
    ensures
        match r {
            Some(t) => extracted_reasoning(value.view()) == Some(t@),
            None => extracted_reasoning(value.view()) is None,
        },
{
    match nonempty_str(value.get_str("reasoning_content")) {
        Some(t) => return Some(t),
        None => {},
    }
    match nonempty_str(value.get_str("reasoning")) {
        Some(t) => return Some(t),
        None => {},
    }
    match value.get("reasoning") {
        Some(reasoning) => {
            match nonempty_str(reasoning.get_str("content")) {
                Some(t) => return Some(t),
                None => {},
            }
            match nonempty_str(reasoning.get_str("text")) {
                Some(t) => return Some(t),
                None => {},
            }
            nonempty_str(reasoning.get_str("summary"))
        },
        None => None,
    }
}

fn chat_reasoning_text(message: &Json) -> (r: Option<String>)
    ensures
        match r {
            Some(t) => chat_reasoning(message.view()) == Some(t@),
            None => chat_reasoning(message.view()) is None,
        },
{
    match extract_reasoning_text(message) {
        Some(t) => Some(t),
        None => match message.get_str("content") {
            Some(c) => match split_leading_think_block(c.as_str()) {
                Some((reasoning, _answer)) => Some(reasoning),
                None => None,
            },
            None => None,
        },
    }
}

fn chat_message_to_response_output_item(message: &Json, response_id: &str) -> (r: Option<Json>)
    ensures
        match r {
            Some(m) => message_output_item(message.view(), response_id@) == Some(m.view()),
            None => message_output_item(message.view(), response_id@) is None,
        },
{
    match message.get_str("content") {
        Some(t) => {
            let text = match split_leading_think_block(t.as_str()) {
                Some((_reasoning, answer)) => answer,
                None => t.clone(),
            };
            if text.as_str().is_empty() {
                return None;
            }
            let part = Json::obj3(
                "type",
                Json::string("output_text"),
                "text",
                Json::from_string(text),
                "annotations",
                Json::empty_array(),
            );
            let ghost pv = part.view();
            let parts = vec![part];
            assert(items_view(parts@) =~= seq![pv]);
            Some(
                Json::obj5(
                    "id",
                    Json::from_string(concat(response_id, "_msg")),
                    "type",
                    Json::string("message"),
                    "status",
                    Json::string("completed"),
                    "role",
                    Json::string("assistant"),
                    "content",
                    Json::from_items(parts),
                ),
            )
        },
        None => None,
    }
}

fn chat_tool_calls_to_response_items(message: &Json, reasoning: Option<&str>) -> (r: Vec<Json>)
    ensures
        items_view(r@) == tool_call_items(
            message.view(),
            match reasoning {
                Some(x) => Some(x@),
                None => None,
            },
        ),
{
    let ghost rv = match reasoning {
        Some(x) => Some(x@),
        None => None,
    };
    let mut output: Vec<Json> = Vec::new();
    match message.get_array("tool_calls") {
        Some(calls) => {
            let ghost cv = items_view(calls@);
            let mut index: usize = 0;
            while index < calls.len()
                invariant
                    index <= calls@.len(),
                    cv == items_view(calls@),
                    items_view(output@) == Seq::new(index as nat, |i: int| tool_call_item(cv[i], i as nat, rv)),
                    rv == match reasoning {
                        Some(x) => Some(x@),
                        None => None,
                    },
                decreases calls@.len() - index,
            {
                let call = &calls[index];
                let call_id = match nonempty_str(call.get_str("id")) {
                    Some(id) => id,
                    None => concat("call_", u64_text(index as u64).as_str()),
                };
                let name = match call.get("function") {
                    Some(f) => str_or_empty(f.get_str("name")),
                    None => String::new(),
                };
                let args = match call.get("function") {
                    Some(f) => canonicalize_arguments(f.get("arguments")),
                    None => canonicalize_arguments(None),
                };
                let mut item = Json::obj6(
                    "id",
                    Json::from_string(concat("fc_", call_id.as_str())),
                    "type",
                    Json::string("function_call"),
                    "status",
                    Json::string("completed"),
                    "call_id",
                    Json::from_string(call_id),
                    "name",
                    Json::from_string(name),
                    "arguments",
                    Json::from_string(args),
                );
                match reasoning {
                    Some(r) => if !blank(r) {
                        item.set("reasoning_content", Json::string(r));
                    },
                    None => {},
                }
                let ghost iv = item.view();
                assert(iv == tool_call_item(cv[index as int], index as nat, rv));
                let ghost before = items_view(output@);
                output.push(item);
                assert(items_view(output@) =~= before.push(iv));
                assert forall|i: int| 0 <= i < index + 1 implies #[trigger] items_view(output@)[i] == tool_call_item(cv[i], i as nat, rv) by {
                    if i < index {
                        assert(before[i] == Seq::new(index as nat, |i: int| tool_call_item(cv[i], i as nat, rv))[i]);
                    }
                }
                assert(items_view(output@) =~= Seq::new((index + 1) as nat, |i: int| tool_call_item(cv[i], i as nat, rv)));
                index = index + 1;
            }
        },
        None => {},
    }
    output
}

/// Converts a chat-completions response into a Responses API object.
pub fn chat_completion_to_response(body: Json) -> (r: Result<Json, String>)
    requires
        (first_choice(body.view()) is Some && jget(first_choice(body.view())->0, "message"@) is Some)
            ==> usage_fits(jget(body.view(), "usage"@)),
    ensures
        match r {
            Ok(v) => first_choice(body.view()) is Some && jget(first_choice(body.view())->0, "message"@) is Some
                && v.view() == response_of(
                    body.view(),
                    first_choice(body.view())->0,
                    jget(first_choice(body.view())->0, "message"@)->0,
                ),
            Err(e) => (first_choice(body.view()) is None && e@ == "missing chat choices"@) || (
            first_choice(body.view()) is Some && jget(first_choice(body.view())->0, "message"@) is None
                && e@ == "missing chat message"@),
        },
{
    let choice = match body.get_array("choices") {
        Some(choices) => {
            if choices.len() == 0 {
                return Err(owned("missing chat choices"));
            }
            assert(choices@[0].view() == items_view(choices@)[0]);
            &choices[0]
        },
        None => return Err(owned("missing chat choices")),
    };
    let message = match choice.get("message") {
        Some(m) => m,
        None => return Err(owned("missing chat message")),
    };
    let response_id = match body.get_str("id") {
        Some(id) => response_id_from_chat_id(Some(id.as_str())),
        None => response_id_from_chat_id(None),
    };
    let model = str_or_empty(body.get_str("model"));
    let created_at = match body.get_u64("created") {
        Some(c) => c,
        None => 0,
    };
    let finish_reason = choice.get_str("finish_reason");
    let reasoning = chat_reasoning_text(message);
    let mut output: Vec<Json> = Vec::new();
    let ghost id = response_id@;
    match &reasoning {
        Some(r) => if !r.as_str().is_empty() {
            let summary_part = Json::obj2("type", Json::string("summary_text"), "text", Json::from_string(r.clone()));
            let ghost sv = summary_part.view();
            let parts = vec![summary_part];
            assert(items_view(parts@) =~= seq![sv]);
            let item = Json::obj3(
                "id",
                Json::from_string(concat("rs_", response_id.as_str())),
                "type",
                Json::string("reasoning"),
                "summary",
                Json::from_items(parts),
            );
            let ghost iv = item.view();
            output.push(item);
            assert(items_view(output@) =~= seq![iv]);
        },
        None => {},
    }
    let ghost out1 = items_view(output@);
    assert(out1 == match nonempty(chat_reasoning(message.view())) {
        Some(r) => seq![reasoning_item(id, r)],
        None => Seq::<JsonView>::empty(),
    });
    match chat_message_to_response_output_item(message, response_id.as_str()) {
        Some(m) => {
            let ghost mv = m.view();
            output.push(m);
            assert(items_view(output@) =~= out1.push(mv));
        },
        None => {},
    }
    let ghost out2 = items_view(output@);
    let calls = match &reasoning {
        Some(r) => chat_tool_calls_to_response_items(message, Some(r.as_str())),
        None => chat_tool_calls_to_response_items(message, None),
    };
    let ghost cv = items_view(calls@);
    let mut k: usize = 0;
    while k < calls.len()
        invariant
            k <= calls@.len(),
            cv == items_view(calls@),
            items_view(output@) == out2 + cv.take(k as int),
        decreases calls@.len() - k,
    {
        let c = calls[k].deep_clone();
        let ghost before = items_view(output@);
        output.push(c);
        assert(cv.take(k + 1) =~= cv.take(k as int).push(cv[k as int]));
        assert(items_view(output@) =~= before.push(cv[k as int]));
        k = k + 1;
    }
    assert(cv.take(calls@.len() as int) =~= cv);
    let status = match finish_reason {
        Some(f) => response_status_from_finish_reason(Some(f.as_str())),
        None => response_status_from_finish_reason(None),
    };
    let is_length = match finish_reason {
        Some(f) => str_eq(f.as_str(), "length"),
        None => false,
    };
    let usage = chat_usage_to_responses_usage(body.get("usage"));
    let mut response = Json::obj7(
        "id",
        Json::from_string(response_id),
        "object",
        Json::string("response"),
        "created_at",
        Json::uint(created_at),
        "status",
        Json::string(status),
        "model",
        Json::from_string(model),
        "output",
        Json::from_items(output),
        "usage",
        usage,
    );
    if is_length {
        response.set("incomplete_details", Json::obj1("reason", Json::string("max_output_tokens")));
    }
    Ok(response)
}

// ----- laws -----------------------------------------------------------------

/// A developer or system message of a Responses request becomes a chat
/// message of role `system` (never `user`), keeping its text.
pub proof fn law_developer_message_is_system(item: JsonView, text: Seq<char>)
    requires
        str_field(item, "role"@) == Some("developer"@) || str_field(item, "role"@) == Some("system"@),
        jget(item, "content"@) == Some(JsonView::Str(text)),
    ensures
        str_field(message_to_chat(item), "role"@) == Some("system"@),
        str_field(message_to_chat(item), "content"@) == Some(text),
{
    reveal_strlit("role");
    reveal_strlit("content");
    reveal_strlit("system");
    reveal_strlit("developer");
    let m = message_to_chat(item);
    assert("role"@.len() != "content"@.len());
    assert(m->Object_0[0].0 != "content"@);
    crate::json::lemma_entries_get_at(m->Object_0, "role"@, 0);
    crate::json::lemma_entries_get_at(m->Object_0, "content"@, 1);
}

/// A user message stays a user message.
pub proof fn law_user_message_is_user(item: JsonView)
    requires
        str_field(item, "role"@) == Some("user"@),
    ensures
        str_field(message_to_chat(item), "role"@) == Some("user"@),
{
    reveal_strlit("role");
    reveal_strlit("content");
    reveal_strlit("system");
    reveal_strlit("developer");
    reveal_strlit("user");
    reveal_strlit("assistant");
    reveal_strlit("tool");
}

/// Assistant and tool messages keep their roles.
pub proof fn law_assistant_and_tool_roles_kept(item: JsonView)
    ensures
        str_field(item, "role"@) == Some("assistant"@) ==> str_field(message_to_chat(item), "role"@) == Some(
            "assistant"@,
        ),
        str_field(item, "role"@) == Some("tool"@) ==> str_field(message_to_chat(item), "role"@) == Some("tool"@),
{
    reveal_strlit("role");
    reveal_strlit("system");
    reveal_strlit("developer");
    reveal_strlit("assistant");
    reveal_strlit("tool");
    assert("assistant"@[0] != "developer"@[0]);
}

proof fn lemma_join_contains(parts: Seq<Seq<char>>, sep: Seq<char>, k: int)
    requires
        0 <= k < parts.len(),
    ensures
        crate::text::contains(join(parts, sep), parts[k]),
    decreases parts.len(),
{
    if parts.len() == 1 {
        assert(crate::text::occurs_at(join(parts, sep), parts[k], 0)) by {
            assert(join(parts, sep).subrange(0, parts[k].len() as int) =~= parts[k]);
        }
    } else if k == parts.len() - 1 {
        let j = join(parts, sep);
        let at: int = (join(parts.drop_last(), sep).len() + sep.len()) as int;
        assert(j.subrange(at, at + parts[k].len()) =~= parts[k]);
        assert(crate::text::occurs_at(j, parts[k], at));
    } else {
        lemma_join_contains(parts.drop_last(), sep, k);
        assert(parts.drop_last()[k] == parts[k]);
        let inner = join(parts.drop_last(), sep);
        let i = choose|i: int| crate::text::occurs_at(inner, parts[k], i);
        let j = join(parts, sep);
        assert(j.subrange(i, i + parts[k].len()) =~= inner.subrange(i, i + parts[k].len()));
        assert(crate::text::occurs_at(j, parts[k], i));
    }
}

proof fn lemma_collapse_fold(msgs: Seq<JsonView>, i: int, t: Seq<char>)
    requires
        0 <= i < msgs.len(),
    ensures
        (is_system_message(msgs[i]) && str_field(msgs[i], "content"@) == Some(t) && !is_blank(t))
            ==> collapse_fold(msgs).0.contains(t),
        !is_system_message(msgs[i]) ==> collapse_fold(msgs).1.contains(msgs[i]),
        forall|j: int| 0 <= j < collapse_fold(msgs).1.len() ==> !is_system_message(#[trigger] collapse_fold(msgs).1[j]),
    decreases msgs.len(),
{
    let st = collapse_fold(msgs.drop_last());
    if i < msgs.len() - 1 {
        lemma_collapse_fold(msgs.drop_last(), i, t);
        assert(msgs.drop_last()[i] == msgs[i]);
        if is_system_message(msgs[i]) && str_field(msgs[i], "content"@) == Some(t) && !is_blank(t) {
            let k = choose|k: int| 0 <= k < st.0.len() && st.0[k] == t;
            assert(collapse_fold(msgs).0[k] == t);
        }
        if !is_system_message(msgs[i]) {
            let k = choose|k: int| 0 <= k < st.1.len() && st.1[k] == msgs[i];
            assert(collapse_fold(msgs).1[k] == msgs[i]);
        }
    } else {
        let last = msgs.last();
        if is_system_message(last) && str_field(last, "content"@) == Some(t) && !is_blank(t) {
            assert(collapse_fold(msgs).0.last() == t);
        }
        if !is_system_message(last) {
            assert(collapse_fold(msgs).1.last() == last);
        }
    }
    if msgs.len() > 1 {
        lemma_collapse_fold(msgs.drop_last(), 0, t);
    }
}

/// The system texts of the chat messages (developer and system
/// instructions) go into one leading message of role `system`: it holds
/// every non-blank system text, and no later message has that role; every
/// other message is kept.
pub proof fn law_system_texts_lead(msgs: Seq<JsonView>, i: int, t: Seq<char>)
    requires
        0 <= i < msgs.len(),
    ensures
        (is_system_message(msgs[i]) && str_field(msgs[i], "content"@) == Some(t) && !is_blank(t)) ==> {
            &&& str_field(collapse_system(msgs)[0], "role"@) == Some("system"@)
            &&& str_field(collapse_system(msgs)[0], "content"@) is Some
            &&& crate::text::contains(str_field(collapse_system(msgs)[0], "content"@)->0, t)
        },
        !is_system_message(msgs[i]) ==> collapse_system(msgs).contains(msgs[i]),
        forall|j: int| 1 <= j < collapse_system(msgs).len() ==> !is_system_message(#[trigger] collapse_system(msgs)[j]),
{
    lemma_collapse_fold(msgs, i, t);
    let st = collapse_fold(msgs);
    reveal_strlit("role");
    reveal_strlit("content");
    if st.0.len() > 0 {
        let lead = collapse_system(msgs)[0];
        assert(lead == obj2("role"@, jstr("system"@), "content"@, jstr(join(st.0, "\n\n"@))));
        assert("role"@.len() != "content"@.len());
        assert(lead->Object_0[0].0 != "content"@);
        crate::json::lemma_entries_get_at(lead->Object_0, "role"@, 0);
        crate::json::lemma_entries_get_at(lead->Object_0, "content"@, 1);
    }
    if is_system_message(msgs[i]) && str_field(msgs[i], "content"@) == Some(t) && !is_blank(t) {
        let k = choose|k: int| 0 <= k < st.0.len() && st.0[k] == t;
        lemma_join_contains(st.0, "\n\n"@, k);
    }
    if !is_system_message(msgs[i]) {
        let k = choose|k: int| 0 <= k < st.1.len() && st.1[k] == msgs[i];
        if st.0.len() > 0 {
            assert(collapse_system(msgs)[k + 1] == msgs[i]);
        } else {
            assert(collapse_system(msgs)[k] == msgs[i]);
        }
    }
    assert forall|j: int| 1 <= j < collapse_system(msgs).len() implies !is_system_message(
        #[trigger] collapse_system(msgs)[j],
    ) by {
        if st.0.len() > 0 {
            assert(collapse_system(msgs)[j] == st.1[j - 1]);
        } else {
            assert(collapse_system(msgs)[j] == st.1[j]);
        }
    }
}

/// A message item of a Responses input: type `message`, or no type.
pub open spec fn is_message_item(item: JsonView) -> bool {
    str_field(item, "type"@) == Some("message"@) || str_field(item, "type"@) is None
}

proof fn lemma_step_extends(st: (Seq<JsonView>, Seq<JsonView>), item: JsonView)
    ensures
        st.0.is_prefix_of(input_step(st, item).0),
        st.0.is_prefix_of(flush(st).0),
{
    let f = flush(st);
    assert(st.0.is_prefix_of(f.0));
    assert(f.0.is_prefix_of(f.0.push(message_to_chat(item))));
    assert(f.0.is_prefix_of(f.0.push(tool_output_message(item))));
}

proof fn lemma_fold_keeps_messages(init: Seq<JsonView>, items: Seq<JsonView>, k: int)
    requires
        0 <= k < items.len(),
        is_message_item(items[k]),
    ensures
        input_fold(init, items).0.contains(message_to_chat(items[k])),
    decreases items.len(),
{
    let prev = input_fold(init, items.drop_last());
    reveal_strlit("message");
    reveal_strlit("function_call");
    reveal_strlit("function_call_output");
    if k == items.len() - 1 {
        let f = flush(prev);
        assert("message"@.len() != "function_call"@.len() && "message"@.len() != "function_call_output"@.len());
        assert(items.last() == items[k]);
        assert(input_fold(init, items) == input_step(prev, items.last()));
        assert(input_fold(init, items).0 == f.0.push(message_to_chat(items[k])));
        assert(input_fold(init, items).0.last() == message_to_chat(items[k]));
    } else {
        assert(items.drop_last()[k] == items[k]);
        lemma_fold_keeps_messages(init, items.drop_last(), k);
        lemma_step_extends(prev, items.last());
        let j = choose|j: int| 0 <= j < prev.0.len() && prev.0[j] == message_to_chat(items[k]);
        assert(input_fold(init, items).0[j] == message_to_chat(items[k]));
    }
}

/// The developer (or system) instructions of a Responses request reach the
/// provider in the single leading chat message, of role `system`: for a
/// developer or system message item of the input with non-blank text, the
/// chat messages begin with a system message that holds that text, and no
/// later message is a system message.
pub proof fn law_developer_text_leads_chat_messages(body: JsonView, items: Seq<JsonView>, k: int, t: Seq<char>)
    requires
        jget(body, "input"@) == Some(JsonView::Array(items)),
        0 <= k < items.len(),
        is_message_item(items[k]),
        str_field(items[k], "role"@) == Some("developer"@) || str_field(items[k], "role"@) == Some("system"@),
        jget(items[k], "content"@) == Some(JsonView::Str(t)),
        !is_blank(t),
    ensures
        ({
            let msgs = collapse_system(request_messages(body));
            &&& str_field(msgs[0], "role"@) == Some("system"@)
            &&& str_field(msgs[0], "content"@) is Some
            &&& crate::text::contains(str_field(msgs[0], "content"@)->0, t)
            &&& forall|j: int| 1 <= j < msgs.len() ==> !is_system_message(#[trigger] msgs[j])
        }),
{
    let sys = instruction_messages(body);
    let st = input_fold(sys, items);
    lemma_fold_keeps_messages(sys, items, k);
    lemma_step_extends(st, JsonView::Null);
    let m = message_to_chat(items[k]);
    let all = flush(st).0;
    assert(request_messages(body) == all);
    let i = choose|i: int| 0 <= i < st.0.len() && st.0[i] == m;
    assert(all[i] == m);
    law_developer_message_is_system(items[k], t);
    reveal_strlit("role");
    reveal_strlit("system");
    assert(is_system_message(m));
    law_system_texts_lead(all, i, t);
}

/// Every function call item answers to the provider's tool call: a call
/// with a non-empty id keeps it as `call_id`, and its item id is `fc_`
/// followed by it; only a call without one is named by its position.
pub proof fn law_tool_call_ids_kept(message: JsonView, reasoning: Option<Seq<char>>, i: int, id: Seq<char>)
    requires
        as_array(jget(message, "tool_calls"@)) is Some,
        0 <= i < as_array(jget(message, "tool_calls"@))->0.len(),
    ensures
        ({
            let call = as_array(jget(message, "tool_calls"@))->0[i];
            let item = tool_call_items(message, reasoning)[i];
            &&& tool_call_items(message, reasoning).len() == as_array(jget(message, "tool_calls"@))->0.len()
            &&& str_field(item, "type"@) == Some("function_call"@)
            &&& (str_field(call, "id"@) == Some(id) && id.len() > 0) ==> str_field(item, "call_id"@) == Some(id)
                && str_field(item, "id"@) == Some("fc_"@ + id)
            &&& (str_field(call, "id"@) is None || str_field(call, "id"@) == Some(Seq::<char>::empty()))
                ==> str_field(item, "call_id"@) == Some(
                "call_"@ + decimal(i as nat),
            ) && str_field(item, "id"@) == Some("fc_call_"@ + decimal(i as nat))
        }),
{
    reveal_strlit("id");
    reveal_strlit("type");
    reveal_strlit("status");
    reveal_strlit("call_id");
    reveal_strlit("name");
    reveal_strlit("arguments");
    reveal_strlit("reasoning_content");
    reveal_strlit("function_call");
    reveal_strlit("fc_");
    reveal_strlit("call_");
    reveal_strlit("fc_call_");
    let call = as_array(jget(message, "tool_calls"@))->0[i];
    let base = tool_call_item(call, i as nat, None);
    let es = base->Object_0;
    assert(es[0].0 == "id"@ && es[1].0 == "type"@ && es[2].0 == "status"@);
    assert("id"@.len() != "type"@.len() && "id"@.len() != "call_id"@.len() && "type"@.len() != "call_id"@.len()
        && "status"@.len() != "call_id"@.len());
    assert(es[0].0 != "type"@ && es[0].0 != "call_id"@ && es[1].0 != "call_id"@ && es[2].0 != "call_id"@);
    crate::json::lemma_entries_get_at(base->Object_0, "id"@, 0);
    crate::json::lemma_entries_get_at(base->Object_0, "type"@, 1);
    crate::json::lemma_entries_get_at(base->Object_0, "call_id"@, 3);
    let item = tool_call_item(call, i as nat, reasoning);
    assert("fc_"@ + ("call_"@ + decimal(i as nat)) =~= "fc_call_"@ + decimal(i as nat));
    match reasoning {
        Some(r) => {
            crate::json::law_set_then_get(base, "reasoning_content"@, jstr(r), "call_id"@);
            crate::json::law_set_then_get(base, "reasoning_content"@, jstr(r), "id"@);
            crate::json::law_set_then_get(base, "reasoning_content"@, jstr(r), "type"@);
        },
        None => {},
    }
}

/// In the Responses object made from a chat answer, the last items are one
/// function call per tool call of the message, in order, each answering to
/// the provider's call id (`fc_` + id as item id) where the call has a
/// non-empty id, and to `call_<index>` only where it has none.
pub proof fn law_response_function_calls(message: JsonView, id: Seq<char>, i: int, cid: Seq<char>)
    requires
        as_array(jget(message, "tool_calls"@)) is Some,
        0 <= i < as_array(jget(message, "tool_calls"@))->0.len(),
    ensures
        ({
            let calls = as_array(jget(message, "tool_calls"@))->0;
            let out = response_output(message, id);
            let item = out[out.len() - calls.len() + i];
            &&& out.len() >= calls.len()
            &&& str_field(item, "type"@) == Some("function_call"@)
            &&& (str_field(calls[i], "id"@) == Some(cid) && cid.len() > 0) ==> str_field(item, "call_id"@) == Some(cid)
                && str_field(item, "id"@) == Some("fc_"@ + cid)
            &&& (str_field(calls[i], "id"@) is None || str_field(calls[i], "id"@) == Some(Seq::<char>::empty()))
                ==> str_field(item, "call_id"@) == Some("call_"@ + decimal(i as nat))
        }),
{
    let reasoning = chat_reasoning(message);
    law_tool_call_ids_kept(message, reasoning, i, cid);
    let calls = as_array(jget(message, "tool_calls"@))->0;
    let out = response_output(message, id);
    let items = tool_call_items(message, reasoning);
    let head = out.subrange(0, out.len() - items.len());
    assert(out == head + items) by {
        assert(out.subrange(out.len() - items.len(), out.len() as int) =~= items);
        assert(out =~= head + out.subrange(out.len() - items.len(), out.len() as int));
    }
    assert(out[out.len() - calls.len() + i] == items[i]);
}

/// Chat usage in Responses form counts the same tokens: the prompt and
/// completion token counts become the input and output token counts, and
/// the total is the given total, else their sum.
pub proof fn law_usage_counts_kept(u: JsonView, p: u64, c: u64)
    requires
        as_u64(jget(u, "prompt_tokens"@)) == Some(p),
        as_u64(jget(u, "completion_tokens"@)) == Some(c),
        p + c <= u64::MAX,
    ensures
        jget(usage_of(Some(u)), "input_tokens"@) == Some(uint(p)),
        jget(usage_of(Some(u)), "output_tokens"@) == Some(uint(c)),
        jget(usage_of(Some(u)), "total_tokens"@) == Some(uint(
            match as_u64(jget(u, "total_tokens"@)) {
                Some(t) => t,
                None => (p + c) as u64,
            },
        )),
{
    reveal_strlit("input_tokens");
    reveal_strlit("output_tokens");
    reveal_strlit("total_tokens");
    reveal_strlit("input_tokens_details");
    reveal_strlit("output_tokens_details");
    let total = match as_u64(jget(u, "total_tokens"@)) {
        Some(t) => t,
        None => (p + c) as u64,
    };
    let r = obj3("input_tokens"@, uint(p), "output_tokens"@, uint(c), "total_tokens"@, uint(total));
    let es = r->Object_0;
    assert("input_tokens"@.len() != "output_tokens"@.len());
    assert("input_tokens"@ != "total_tokens"@) by {
        assert("input_tokens"@[0] != "total_tokens"@[0]);
    }
    assert("output_tokens"@ != "total_tokens"@) by {
        assert("output_tokens"@[0] != "total_tokens"@[0]);
    }
    crate::json::lemma_entries_get_at(es, "input_tokens"@, 0);
    crate::json::lemma_entries_get_at(es, "output_tokens"@, 1);
    crate::json::lemma_entries_get_at(es, "total_tokens"@, 2);
    assert("input_tokens_details"@.len() != "input_tokens"@.len() && "input_tokens_details"@.len() != "output_tokens"@.len()
        && "input_tokens_details"@.len() != "total_tokens"@.len());
    assert("output_tokens_details"@.len() != "input_tokens"@.len() && "output_tokens_details"@.len()
        != "output_tokens"@.len() && "output_tokens_details"@.len() != "total_tokens"@.len());
    let r1 = match as_u64(
        or_else(
            jpath(u, "prompt_tokens_details"@, "cached_tokens"@),
            jpath(u, "input_tokens_details"@, "cached_tokens"@),
        ),
    ) {
        Some(x) => {
            let d = obj1("cached_tokens"@, uint(x));
            crate::json::law_set_then_get(r, "input_tokens_details"@, d, "input_tokens"@);
            crate::json::law_set_then_get(r, "input_tokens_details"@, d, "output_tokens"@);
            crate::json::law_set_then_get(r, "input_tokens_details"@, d, "total_tokens"@);
            jset(r, "input_tokens_details"@, d)
        },
        None => r,
    };
    match as_u64(
        or_else(
            jpath(u, "completion_tokens_details"@, "reasoning_tokens"@),
            jpath(u, "output_tokens_details"@, "reasoning_tokens"@),
        ),
    ) {
        Some(x) => {
            let d = obj1("reasoning_tokens"@, uint(x));
            crate::json::law_set_then_get(r1, "output_tokens_details"@, d, "input_tokens"@);
            crate::json::law_set_then_get(r1, "output_tokens_details"@, d, "output_tokens"@);
            crate::json::law_set_then_get(r1, "output_tokens_details"@, d, "total_tokens"@);
        },
        None => {},
    }
}

} // verus!
