use vstd::prelude::*;

use crate::json::{as_str, jget, jset, json_of_bytes, jstr, parse_json_bytes, str_field, Json, JsonView};

verus! {

/// The `auth.json` object the bytes hold: the parsed object, or an empty
/// object where they hold no JSON object.
pub open spec fn auth_object_of(raw: Seq<u8>) -> JsonView {
    match json_of_bytes(raw) {
        Some(JsonView::Object(es)) => JsonView::Object(es),
        _ => JsonView::Object(Seq::empty()),
    }
}

/// The `auth.json` object the bytes hold (`auth_object_of`).
pub fn auth_object_from_bytes(raw: &[u8]) -> (r: Json)
    ensures
        r.view() == auth_object_of(raw@),
{
    match parse_json_bytes(raw) {
        Ok(v) => if v.is_object() {
            v
        } else {
            Json::object()
        },
        Err(_) => Json::object(),
    }
}

/// Whether Codex's `auth.json` lets Codex sign in with ChatGPT.
pub struct ChatGptAuthStatus {
    pub has_auth_file: bool,
    pub auth_mode_chatgpt: bool,
    pub api_key_disabled: bool,
    pub has_tokens: bool,
    pub compatible: bool,
    pub can_repair: bool,
}

pub struct AuthStatusView {
    pub has_auth_file: bool,
    pub auth_mode_chatgpt: bool,
    pub api_key_disabled: bool,
    pub has_tokens: bool,
    pub compatible: bool,
    pub can_repair: bool,
}

impl ChatGptAuthStatus {
    pub open spec fn view(&self) -> AuthStatusView {
        AuthStatusView {
            has_auth_file: self.has_auth_file,
            auth_mode_chatgpt: self.auth_mode_chatgpt,
            api_key_disabled: self.api_key_disabled,
            has_tokens: self.has_tokens,
            compatible: self.compatible,
            can_repair: self.can_repair,
        }
    }
}

pub open spec fn mode_is_chatgpt(auth: JsonView) -> bool {
    str_field(auth, "auth_mode"@) == Some("chatgpt"@)
}

pub open spec fn key_disabled(auth: JsonView) -> bool {
    match jget(auth, "OPENAI_API_KEY"@) {
        Some(k) => k is Null,
        None => true,
    }
}

pub open spec fn has_tokens_of(auth: JsonView) -> bool {
    match jget(auth, "tokens"@) {
        Some(JsonView::Object(es)) => es.len() > 0,
        _ => false,
    }
}

/// The status of an `auth.json` object (none: no file): compatible when it
/// selects ChatGPT sign-in, has no API key and has tokens; repairable when
/// it has tokens but is not compatible.
pub open spec fn status_of(auth: Option<JsonView>) -> AuthStatusView {
    match auth {
        None => AuthStatusView {
            has_auth_file: false,
            auth_mode_chatgpt: false,
            api_key_disabled: false,
            has_tokens: false,
            compatible: false,
            can_repair: false,
        },
        Some(a) => {
            let compatible = mode_is_chatgpt(a) && key_disabled(a) && has_tokens_of(a);
            AuthStatusView {
                has_auth_file: true,
                auth_mode_chatgpt: mode_is_chatgpt(a),
                api_key_disabled: key_disabled(a),
                has_tokens: has_tokens_of(a),
                compatible: compatible,
                can_repair: has_tokens_of(a) && !compatible,
            }
        },
    }
}

fn status_from_object(auth: Option<&Json>) -> (r: ChatGptAuthStatus)
    ensures
        r.view() == status_of(
            match auth {
                Some(a) => Some(a.view()),
                None => None,
            },
        ),
{
    let auth = match auth {
        Some(a) => a,
        None => {
            return ChatGptAuthStatus {
                has_auth_file: false,
                auth_mode_chatgpt: false,
                api_key_disabled: false,
                has_tokens: false,
                compatible: false,
                can_repair: false,
            };
        },
    };
    let auth_mode_chatgpt = match auth.get_str("auth_mode") {
        Some(m) => crate::text::str_eq(m.as_str(), "chatgpt"),
        None => false,
    };
    let api_key_disabled = match auth.get("OPENAI_API_KEY") {
        Some(k) => k.is_null(),
        None => true,
    };
    let has_tokens = match auth.get("tokens") {
        Some(Json::Object(es)) => es.len() > 0,
        _ => false,
    };
    let compatible = auth_mode_chatgpt && api_key_disabled && has_tokens;
    ChatGptAuthStatus {
        has_auth_file: true,
        auth_mode_chatgpt,
        api_key_disabled,
        has_tokens,
        compatible,
        can_repair: has_tokens && !compatible,
    }
}

/// The ChatGPT sign-in status of a Codex home, given its `auth.json` as an
/// object (none where the file does not exist).
pub fn load_chatgpt_auth_status(auth: Option<&Json>) -> (r: ChatGptAuthStatus)
    ensures
        r.view() == status_of(
            match auth {
                Some(a) => Some(a.view()),
                None => None,
            },
        ),
{
    status_from_object(auth)
}

/// `auth.json` switched to ChatGPT sign-in with its API key cleared.
pub open spec fn repaired(auth: JsonView) -> JsonView {
    jset(jset(auth, "auth_mode"@, jstr("chatgpt"@)), "OPENAI_API_KEY"@, JsonView::Null)
}

/// Repairs an `auth.json` object where its status allows; returns whether
/// it changed.
pub fn repair_auth_object(auth: &mut Json) -> (changed: bool)
    requires
        old(auth).view() is Object,
    ensures
        changed == status_of(Some(old(auth).view())).can_repair,
        changed ==> final(auth).view() == repaired(old(auth).view()),
        !changed ==> final(auth).view() == old(auth).view(),
{
    let status = status_from_object(Some(&*auth));
    if status.can_repair {
        auth.set("auth_mode", Json::string("chatgpt"));
        auth.set("OPENAI_API_KEY", Json::null());
        true
    } else {
        false
    }
}

/// A repaired `auth.json` is compatible with ChatGPT sign-in.
pub proof fn law_repair_makes_compatible(auth: JsonView)
    requires
        auth is Object,
        status_of(Some(auth)).can_repair,
    ensures
        status_of(Some(repaired(auth))).compatible,
{
    let a1 = jset(auth, "auth_mode"@, jstr("chatgpt"@));
    crate::json::law_set_then_get(auth, "auth_mode"@, jstr("chatgpt"@), "tokens"@);
    crate::json::law_set_then_get(a1, "OPENAI_API_KEY"@, JsonView::Null, "tokens"@);
    crate::json::law_set_then_get(auth, "auth_mode"@, jstr("chatgpt"@), "auth_mode"@);
    crate::json::law_set_then_get(a1, "OPENAI_API_KEY"@, JsonView::Null, "auth_mode"@);
    crate::json::law_set_then_get(a1, "OPENAI_API_KEY"@, JsonView::Null, "OPENAI_API_KEY"@);
    assert("tokens"@ != "auth_mode"@) by {
        reveal_strlit("tokens");
        reveal_strlit("auth_mode");
        assert("tokens"@[0] != "auth_mode"@[0]);
    }
    assert("tokens"@ != "OPENAI_API_KEY"@) by {
        reveal_strlit("tokens");
        reveal_strlit("OPENAI_API_KEY");
        assert("tokens"@[0] != "OPENAI_API_KEY"@[0]);
    }
    assert("auth_mode"@ != "OPENAI_API_KEY"@) by {
        reveal_strlit("auth_mode");
        reveal_strlit("OPENAI_API_KEY");
        assert("auth_mode"@[0] != "OPENAI_API_KEY"@[0]);
    }
}

} // verus!
