use vstd::prelude::*;

use crate::accounts::{
    account_index, accounts_view, account_position, claims_email, email_from_claims, id_token_claims,
    opt_view, token_claims,
    CodexActiveSource, ManagedCodexAccount, SourceView,
};
use crate::json::{as_str, jget, jset, json_of_bytes, obj4, or_else, parse_json_bytes, str_field, Json, JsonView};
use crate::text::{concat, is_blank, owned, signed_decimal, str_eq, trim, trimmed};
use crate::transform::nonempty;

verus! {

broadcast use vstd::std_specs::vec::group_vec_axioms;

/// The tokens Codex keeps in `auth.json`.
pub struct CodexOAuthCredentials {
    pub access_token: String,
    pub refresh_token: String,
    pub id_token: Option<String>,
    pub account_id: Option<String>,
    pub account_email: Option<String>,
    pub last_refresh: Option<String>,
}

pub struct CredView {
    pub access_token: Seq<char>,
    pub refresh_token: Seq<char>,
    pub id_token: Option<Seq<char>>,
    pub account_id: Option<Seq<char>>,
    pub account_email: Option<Seq<char>>,
    pub last_refresh: Option<Seq<char>>,
}

impl CodexOAuthCredentials {
    pub open spec fn view(&self) -> CredView {
        CredView {
            access_token: self.access_token@,
            refresh_token: self.refresh_token@,
            id_token: opt_view(self.id_token),
            account_id: opt_view(self.account_id),
            account_email: opt_view(self.account_email),
            last_refresh: opt_view(self.last_refresh),
        }
    }
}

pub open spec fn trimmed_opt(s: Option<Seq<char>>) -> Option<Seq<char>> {
    match s {
        Some(x) => Some(trim(x)),
        None => None,
    }
}

/// A token field under its snake case name, else its camel case name.
pub open spec fn token_field(tokens: JsonView, snake: Seq<char>, camel: Seq<char>) -> Option<Seq<char>> {
    as_str(or_else(jget(tokens, snake), jget(tokens, camel)))
}

/// The credentials of a parsed `auth.json`: its API key if it has a
/// non-blank one, else its tokens; `claims` is the decoded payload of its
/// id token, which gives the e-mail.
pub open spec fn credentials_of(auth: JsonView, claims: Option<JsonView>) -> Result<CredView, Seq<char>> {
    let key = match str_field(auth, "OPENAI_API_KEY"@) {
        Some(k) => nonempty(Some(trim(k))),
        None => None,
    };
    match key {
        Some(k) => Ok(
            CredView {
                access_token: k,
                refresh_token: Seq::empty(),
                id_token: None,
                account_id: None,
                account_email: None,
                last_refresh: None,
            },
        ),
        None => match jget(auth, "tokens"@) {
            Some(JsonView::Object(_)) => {
                let tokens = jget(auth, "tokens"@)->0;
                match nonempty(trimmed_opt(token_field(tokens, "access_token"@, "accessToken"@))) {
                    None => Err("Codex auth.json exists but contains no access token"@),
                    Some(access) => {
                        let id_token = token_field(tokens, "id_token"@, "idToken"@);
                        Ok(
                            CredView {
                                access_token: access,
                                refresh_token: match token_field(tokens, "refresh_token"@, "refreshToken"@) {
                                    Some(r) => trim(r),
                                    None => Seq::empty(),
                                },
                                id_token: id_token,
                                account_id: nonempty(
                                    trimmed_opt(token_field(tokens, "account_id"@, "accountId"@)),
                                ),
                                account_email: match (id_token, claims) {
                                    (Some(_), Some(c)) => claims_email(c),
                                    _ => None,
                                },
                                last_refresh: str_field(auth, "last_refresh"@),
                            },
                        )
                    },
                }
            },
            _ => Err("Codex auth.json exists but contains no tokens"@),
        },
    }
}

fn token_text(tokens: &Json, snake: &str, camel: &str) -> (r: Option<String>)
    ensures
        opt_view(r) == token_field(tokens.view(), snake@, camel@),
{
    let v = match tokens.get(snake) {
        Some(v) => v,
        None => match tokens.get(camel) {
            Some(v) => v,
            None => return None,
        },
    };
    match v.as_str() {
        Some(s) => Some(owned(s.as_str())),
        None => None,
    }
}

fn trimmed_nonempty(s: Option<String>) -> (r: Option<String>)
    ensures
        opt_view(r) == nonempty(trimmed_opt(opt_view(s))),
{
    match s {
        Some(x) => {
            let t = trimmed(x.as_str());
            if t.as_str().is_empty() {
                None
            } else {
                Some(t)
            }
        },
        None => None,
    }
}

/// The claims of the id token that a parsed `auth.json` holds.
pub open spec fn auth_claims(auth: JsonView) -> Option<JsonView> {
    match jget(auth, "tokens"@) {
        Some(t) => match token_field(t, "id_token"@, "idToken"@) {
            Some(tok) => token_claims(tok),
            None => None,
        },
        None => None,
    }
}

/// The value the bytes of an `auth.json` hold, where they are JSON, else an
/// empty object (what saved credentials are written into).
pub fn auth_value_or_empty(raw: &[u8]) -> (r: Json)
    ensures
        r.view() == match json_of_bytes(raw@) {
            Some(v) => v,
            None => JsonView::Object(Seq::empty()),
        },
{
    match parse_json_bytes(raw) {
        Ok(v) => v,
        Err(_) => Json::object(),
    }
}

/// Reads the credentials out of the bytes of an `auth.json`: an error where
/// they are no JSON, else as `credentials_of` says, the e-mail coming from
/// the claims of its id token.
pub fn parse_credentials(raw: &[u8]) -> (r: Result<CodexOAuthCredentials, String>)
    ensures
        match json_of_bytes(raw@) {
            None => r is Err,
            Some(auth) => match credentials_of(auth, auth_claims(auth)) {
                Ok(c) => r matches Ok(x) && x.view() == c,
                Err(e) => r matches Err(x) && x@ == e,
            },
        },
{
    let auth = match parse_json_bytes(raw) {
        Ok(a) => a,
        Err(e) => return Err(e),
    };
    let claims = match auth.get("tokens") {
        Some(t) => match token_text(t, "id_token", "idToken") {
            Some(tok) => id_token_claims(tok.as_str()),
            None => None,
        },
        None => None,
    };
    credentials_from_auth(&auth, claims.as_ref())
}

/// Reads the credentials out of a parsed `auth.json`, as `credentials_of`
/// says; `id_token_claims` is the parsed payload of its id token, where that
/// decodes.
pub fn credentials_from_auth(auth: &Json, id_token_claims: Option<&Json>) -> (r: Result<CodexOAuthCredentials, String>)
    ensures
        match credentials_of(
            auth.view(),
            match id_token_claims {
                Some(c) => Some(c.view()),
                None => None,
            },
        ) {
            Ok(c) => r matches Ok(x) && x.view() == c,
            Err(e) => r matches Err(x) && x@ == e,
        },
{
    match auth.get_str("OPENAI_API_KEY") {
        Some(k) => {
            let t = trimmed(k.as_str());
            if !t.as_str().is_empty() {
                return Ok(
                    CodexOAuthCredentials {
                        access_token: t,
                        refresh_token: String::new(),
                        id_token: None,
                        account_id: None,
                        account_email: None,
                        last_refresh: None,
                    },
                );
            }
        },
        None => {},
    }
    let tokens = match auth.get("tokens") {
        Some(t) => {
            if !t.is_object() {
                return Err(owned("Codex auth.json exists but contains no tokens"));
            }
            t
        },
        None => return Err(owned("Codex auth.json exists but contains no tokens")),
    };
    let access = match trimmed_nonempty(token_text(tokens, "access_token", "accessToken")) {
        Some(a) => a,
        None => return Err(owned("Codex auth.json exists but contains no access token")),
    };
    let refresh = match token_text(tokens, "refresh_token", "refreshToken") {
        Some(r) => trimmed(r.as_str()),
        None => String::new(),
    };
    let id_token = token_text(tokens, "id_token", "idToken");
    let account_email = match (&id_token, id_token_claims) {
        (Some(_), Some(c)) => email_from_claims(c),
        _ => None,
    };
    let last_refresh = match auth.get_str("last_refresh") {
        Some(s) => Some(owned(s.as_str())),
        None => None,
    };
    Ok(
        CodexOAuthCredentials {
            access_token: access,
            refresh_token: refresh,
            id_token: id_token,
            account_id: trimmed_nonempty(token_text(tokens, "account_id", "accountId")),
            account_email: account_email,
            last_refresh: last_refresh,
        },
    )
}

/// The Codex home whose usage the active source shows.
pub fn usage_home_for_source(
    active_source: &CodexActiveSource,
    stored_accounts: &Vec<ManagedCodexAccount>,
    live_home: &str,
) -> (r: Result<String, String>)
    ensures
        match active_source.view() {
            SourceView::LiveSystem => r matches Ok(h) && h@ == live_home@,
            SourceView::ManagedAccount(id) => match account_index(accounts_view(stored_accounts@), id) {
                Some(i) => r matches Ok(h) && h@ == accounts_view(stored_accounts@)[i].managed_home_path,
                None => r matches Err(e) && e@ == "target managed account is missing"@,
            },
        },
{
    match active_source {
        CodexActiveSource::LiveSystem => Ok(owned(live_home)),
        CodexActiveSource::ManagedAccount { id } => match account_position(stored_accounts, id.as_str()) {
            Some(i) => Ok(owned(stored_accounts[i].managed_home_path.as_str())),
            None => Err(owned("target managed account is missing")),
        },
    }
}

/// The Codex home whose usage an account id asks for: none means the
/// active source, `live` the live system account (kept in the snapshot
/// home while a managed account is active), any other id a stored account.
pub fn usage_home_for_account_id(
    account_id: Option<&str>,
    active_source: &CodexActiveSource,
    stored_accounts: &Vec<ManagedCodexAccount>,
    live_home: &str,
    snapshot_home: &str,
) -> (r: Result<String, String>)
    ensures
        match account_id {
            None => match active_source.view() {
                SourceView::LiveSystem => r matches Ok(h) && h@ == live_home@,
                SourceView::ManagedAccount(id) => match account_index(accounts_view(stored_accounts@), id) {
                    Some(i) => r matches Ok(h) && h@ == accounts_view(stored_accounts@)[i].managed_home_path,
                    None => r matches Err(e) && e@ == "target managed account is missing"@,
                },
            },
            Some(a) => if a@ == "live"@ {
                r matches Ok(h) && h@ == if active_source.view() is ManagedAccount {
                    snapshot_home@
                } else {
                    live_home@
                }
            } else {
                match account_index(accounts_view(stored_accounts@), a@) {
                    Some(i) => r matches Ok(h) && h@ == accounts_view(stored_accounts@)[i].managed_home_path,
                    None => r matches Err(e) && e@ == "target managed account is missing"@,
                }
            },
        },
{
    match account_id {
        None => usage_home_for_source(active_source, stored_accounts, live_home),
        Some(a) => {
            if str_eq(a, "live") {
                match active_source {
                    CodexActiveSource::ManagedAccount { .. } => Ok(owned(snapshot_home)),
                    CodexActiveSource::LiveSystem => Ok(owned(live_home)),
                }
            } else {
                match account_position(stored_accounts, a) {
                    Some(i) => Ok(owned(stored_accounts[i].managed_home_path.as_str())),
                    None => Err(owned("target managed account is missing")),
                }
            }
        },
    }
}

/// Whether answering a usage request needs the stored managed accounts.
pub fn usage_request_needs_managed_store(account_id: Option<&str>, active_source: &CodexActiveSource) -> (r:
    bool)
    ensures
        r == match account_id {
            Some(a) => a@ != "live"@,
            None => active_source.view() is ManagedAccount,
        },
{
    match account_id {
        Some(a) => !str_eq(a, "live"),
        None => match active_source {
            CodexActiveSource::ManagedAccount { .. } => true,
            CodexActiveSource::LiveSystem => false,
        },
    }
}

pub open spec fn is_digit(c: char) -> bool {
    '0' <= c && c <= '9'
}

/// The value of a string of decimal digits.
pub open spec fn digits_value(s: Seq<char>) -> nat
    decreases s.len(),
{
    if s.len() == 0 {
        0
    } else {
        digits_value(s.drop_last()) * 10 + ((s.last() as int) - ('0' as int)) as nat
    }
}

/// The digits of a number's text: without one leading `+`.
pub open spec fn digits_part(s: Seq<char>) -> Seq<char> {
    if s.len() > 0 && s[0] == '+' {
        s.skip(1)
    } else {
        s
    }
}

pub open spec fn all_digits(d: Seq<char>) -> bool {
    forall|i: int| 0 <= i < d.len() ==> is_digit(#[trigger] d[i])
}

/// `str::parse::<u64>`: an optional `+`, then at least one decimal digit,
/// and a value that fits.
pub open spec fn parsed_u64(s: Seq<char>) -> Option<u64> {
    let d = digits_part(s);
    if d.len() > 0 && all_digits(d) && digits_value(d) <= u64::MAX {
        Some(digits_value(d) as u64)
    } else {
        None
    }
}

proof fn lemma_digits_value_grows(d: Seq<char>, k: int)
    requires
        0 <= k <= d.len(),
        all_digits(d),
    ensures
        digits_value(d.take(k)) <= digits_value(d),
    decreases d.len() - k,
{
    if k < d.len() {
        lemma_digits_value_grows(d, k + 1);
        assert(d.take(k + 1).drop_last() =~= d.take(k));
    } else {
        assert(d.take(k) =~= d);
    }
}

/// `s.parse::<u64>().ok()`.
pub fn parse_u64(s: &str) -> (r: Option<u64>)
    ensures
        r == parsed_u64(s@),
{
    let v = crate::text::chars_of(s);
    let start: usize = if v.len() > 0 && v[0] == '+' {
        1
    } else {
        0
    };
    let ghost d = digits_part(v@);
    assert(d =~= v@.subrange(start as int, v@.len() as int));
    if start >= v.len() {
        return None;
    }
    let mut value: u64 = 0;
    let mut i: usize = start;
    while i < v.len()
        invariant
            start <= i <= v@.len(),
            v@ == s@,
            d == digits_part(s@),
            d =~= v@.subrange(start as int, v@.len() as int),
            forall|j: int| 0 <= j < i - start ==> is_digit(#[trigger] d[j]),
            value == digits_value(d.take(i - start)),
        decreases v@.len() - i,
    {
        let c = v[i];
        assert(d[i - start] == c);
        if !('0' <= c && c <= '9') {
            assert(!is_digit(d[i - start]));
            assert(!all_digits(d));
            return None;
        }
        let digit: u64 = ((c as u32) - ('0' as u32)) as u64;
        assert(d.take(i + 1 - start).drop_last() =~= d.take(i - start));
        if value > (u64::MAX - digit) / 10 {
            assert(digits_value(d.take(i + 1 - start)) > u64::MAX) by (nonlinear_arith)
                requires
                    value > (u64::MAX - digit) / 10,
                    digits_value(d.take(i + 1 - start)) == value * 10 + digit,
                    digit <= 9,
            ;
            proof {
                if all_digits(d) {
                    lemma_digits_value_grows(d, i + 1 - start);
                    assert(digits_value(d) > u64::MAX);
                }
            }
            return None;
        }
        value = value * 10 + digit;
        i = i + 1;
    }
    assert(d.take(d.len() as int) =~= d);
    Some(value)
}


/// How old (in seconds) the last token refresh may be: eight days.
pub const REFRESH_AFTER_SECONDS: u64 = 691200;

/// Whether tokens last refreshed at `last_refresh` (seconds since the epoch,
/// as text) are due for a refresh at `now`.
pub open spec fn refresh_due(last_refresh: Seq<char>, now: i64) -> bool {
    match parsed_u64(last_refresh) {
        Some(value) => {
            let n = now as u64;
            (if n >= value {
                n - value
            } else {
                0
            }) > REFRESH_AFTER_SECONDS
        },
        None => false,
    }
}

pub fn needs_refresh(last_refresh: &str, now: i64) -> (r: bool)
    ensures
        r == refresh_due(last_refresh@, now),
{
    match parse_u64(last_refresh) {
        Some(value) => {
            let n = now as u64;
            n.saturating_sub(value) > REFRESH_AFTER_SECONDS
        },
        None => false,
    }
}

/// Whether the credentials can be refreshed at all.
pub fn can_refresh(credentials: &CodexOAuthCredentials) -> (r: bool)
    ensures
        r == (credentials.view().refresh_token.len() > 0),
{
    !credentials.refresh_token.as_str().is_empty()
}

/// Whether a failed usage request is retried after a token refresh.
pub fn should_retry_after_refresh(message: &str, credentials: &CodexOAuthCredentials) -> (r: bool)
    ensures
        r == (message@ == "unauthorized"@ && credentials.view().refresh_token.len() > 0),
{
    str_eq(message, "unauthorized") && can_refresh(credentials)
}

pub open spec fn nonblank_opt(s: Option<Seq<char>>) -> Option<Seq<char>> {
    match s {
        Some(x) => if is_blank(x) {
            None
        } else {
            Some(x)
        },
        None => None,
    }
}

/// The credentials after a token refresh answered with the given tokens
/// at `now`: non-blank new tokens replace the old ones, the e-mail comes
/// from the id token kept (`id_token_claims` is its parsed payload).
pub open spec fn refreshed_of(
    c: CredView,
    access: Option<Seq<char>>,
    refresh: Option<Seq<char>>,
    id_token: Option<Seq<char>>,
    claims: Option<JsonView>,
    now: i64,
) -> CredView {
    let id = match id_token {
        Some(t) => Some(t),
        None => c.id_token,
    };
    CredView {
        access_token: match nonblank_opt(access) {
            Some(a) => a,
            None => c.access_token,
        },
        refresh_token: match nonblank_opt(refresh) {
            Some(r) => r,
            None => c.refresh_token,
        },
        id_token: id,
        account_id: c.account_id,
        account_email: match (id, claims) {
            (Some(_), Some(cl)) => claims_email(cl),
            _ => None,
        },
        last_refresh: Some(signed_decimal(now as int)),
    }
}

fn nonblank(s: Option<String>) -> (r: Option<String>)
    ensures
        opt_view(r) == nonblank_opt(opt_view(s)),
{
    match s {
        Some(x) => if crate::text::blank(x.as_str()) {
            None
        } else {
            Some(x)
        },
        None => None,
    }
}

pub fn refreshed_credentials(
    credentials: CodexOAuthCredentials,
    access_token: Option<String>,
    refresh_token: Option<String>,
    id_token: Option<String>,
    id_token_claims: Option<&Json>,
    now: i64,
) -> (r: CodexOAuthCredentials)
    ensures
        r.view() == refreshed_of(
            credentials.view(),
            opt_view(access_token),
            opt_view(refresh_token),
            opt_view(id_token),
            match id_token_claims {
                Some(c) => Some(c.view()),
                None => None,
            },
            now,
        ),
{
    let id = match id_token {
        Some(t) => Some(t),
        None => credentials.id_token,
    };
    let email = match (&id, id_token_claims) {
        (Some(_), Some(c)) => email_from_claims(c),
        _ => None,
    };
    CodexOAuthCredentials {
        access_token: match nonblank(access_token) {
            Some(a) => a,
            None => credentials.access_token,
        },
        refresh_token: match nonblank(refresh_token) {
            Some(r) => r,
            None => credentials.refresh_token,
        },
        account_email: email,
        id_token: id,
        account_id: credentials.account_id,
        last_refresh: Some(crate::text::i64_text(now)),
    }
}

pub open spec fn opt_json(s: Option<Seq<char>>) -> JsonView {
    match s {
        Some(x) => JsonView::Str(x),
        None => JsonView::Null,
    }
}

/// `auth.json` with the credentials written into it: its `tokens` replaced
/// and its `last_refresh` set (to `now` where the credentials have none).
pub open spec fn auth_with_credentials(auth: JsonView, c: CredView, now: i64) -> JsonView {
    let tokens = obj4(
        "access_token"@,
        JsonView::Str(c.access_token),
        "account_id"@,
        opt_json(c.account_id),
        "id_token"@,
        opt_json(c.id_token),
        "refresh_token"@,
        JsonView::Str(c.refresh_token),
    );
    jset(
        jset(auth, "tokens"@, tokens),
        "last_refresh"@,
        JsonView::Str(
            match c.last_refresh {
                Some(l) => l,
                None => signed_decimal(now as int),
            },
        ),
    )
}

fn opt_text_json(s: &Option<String>) -> (r: Json)
    ensures
        r.view() == opt_json(opt_view(*s)),
{
    match s {
        Some(x) => Json::string(x.as_str()),
        None => Json::null(),
    }
}

/// Writes the credentials into a parsed `auth.json`, which must be an
/// object.
pub fn credentials_into_auth(auth: &mut Json, credentials: &CodexOAuthCredentials, now: i64) -> (r: Result<
    (),
    String,
>)
    ensures
        old(auth).view() is Object ==> r is Ok && final(auth).view() == auth_with_credentials(
            old(auth).view(),
            credentials.view(),
            now,
        ),
        !(old(auth).view() is Object) ==> (r matches Err(e) && e@ == "Codex auth.json root must be a JSON object"@
            && final(auth).view() == old(auth).view()),
{
    if !auth.is_object() {
        return Err(owned("Codex auth.json root must be a JSON object"));
    }
    let tokens = Json::obj4(
        "access_token",
        Json::string(credentials.access_token.as_str()),
        "account_id",
        opt_text_json(&credentials.account_id),
        "id_token",
        opt_text_json(&credentials.id_token),
        "refresh_token",
        Json::string(credentials.refresh_token.as_str()),
    );
    auth.set("tokens", tokens);
    let last = match &credentials.last_refresh {
        Some(l) => owned(l.as_str()),
        None => crate::text::i64_text(now),
    };
    auth.set("last_refresh", Json::from_string(last));
    Ok(())
}

/// The usage endpoint, under an overriding base URL where one is given and
/// not blank.
pub open spec fn usage_url_of(base_override: Option<Seq<char>>) -> Seq<char> {
    match base_override {
        Some(b) if crate::proxy::strip_slashes(trim(b)).len() > 0 => crate::proxy::strip_slashes(trim(b))
            + "/wham/usage"@,
        _ => "https://chatgpt.com/backend-api/wham/usage"@,
    }
}

pub fn usage_url(base_override: Option<&str>) -> (r: String)
    ensures
        r@ == usage_url_of(
            match base_override {
                Some(b) => Some(b@),
                None => None,
            },
        ),
{
    match base_override {
        Some(b) => {
            let t = trimmed(b);
            let v = crate::text::chars_of(t.as_str());
            let mut end = v.len();
            assert(v@.subrange(0, end as int) =~= v@);
            while end > 0 && v[end - 1] == '/'
                invariant
                    end <= v@.len(),
                    crate::proxy::strip_slashes(v@.subrange(0, end as int)) == crate::proxy::strip_slashes(v@),
                decreases end,
            {
                assert(v@.subrange(0, end as int).drop_last() =~= v@.subrange(0, end - 1));
                end = end - 1;
            }
            if end > 0 {
                let base = crate::text::string_of_range(&v, 0, end);
                return concat(base.as_str(), "/wham/usage");
            }
            assert(v@.subrange(0, 0) =~= Seq::<char>::empty());
            owned("https://chatgpt.com/backend-api/wham/usage")
        },
        None => owned("https://chatgpt.com/backend-api/wham/usage"),
    }
}

/// The error a usage response status means, if any.
pub fn usage_status_error(status: u16, body: &str) -> (r: Option<String>)
    ensures
        status == 401 ==> (r matches Some(m) && m@ == "unauthorized"@),
        status != 401 && 200 <= status <= 299 ==> r is None,
        status != 401 && !(200 <= status <= 299) ==> (r matches Some(m) && m@ == "Codex usage API error "@
            + signed_decimal(status as int) + ": "@ + body@),
{
    if status == 401 {
        return Some(owned("unauthorized"));
    }
    if 200 <= status && status <= 299 {
        return None;
    }
    let code = crate::text::i64_text(status as i64);
    let head = concat("Codex usage API error ", code.as_str());
    let with_sep = concat(head.as_str(), ": ");
    Some(concat(with_sep.as_str(), body))
}

/// The error a token refresh response status means, if any.
pub fn refresh_status_error(status: u16) -> (r: Option<String>)
    ensures
        200 <= status <= 299 ==> r is None,
        !(200 <= status <= 299) ==> (r matches Some(m) && m@ == "Codex token refresh failed with status "@
            + signed_decimal(status as int)),
{
    if 200 <= status && status <= 299 {
        return None;
    }
    let code = crate::text::i64_text(status as i64);
    Some(concat("Codex token refresh failed with status ", code.as_str()))
}

} // verus!
