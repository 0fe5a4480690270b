use vstd::prelude::*;

use toml_edit::DocumentMut;

use crate::store::{join_path, joined};
use crate::text::{blank, concat, concat3, contains, decimal, has_substring, is_blank, owned, trim, trimmed, u64_text};

verus! {

/// What a TOML document holds at a key path.
pub enum TomlItem {
    Text(Seq<char>),
    Flag(bool),
    Table,
    Other,
}

#[verifier::external_type_specification]
#[verifier::external_body]
pub struct ExDocumentMut(toml_edit::DocumentMut);

/// The items of a `toml_edit` document by key path, through tables and
/// inline tables; a table (or inline table) is listed as `Table` beside its
/// own items, and an entry that holds nothing is left out.
pub uninterp spec fn toml_items(doc: DocumentMut) -> Map<Seq<Seq<char>>, TomlItem>;

/// The text `toml_edit` renders a document as (`Display`).
pub uninterp spec fn toml_text(doc: DocumentMut) -> Seq<char>;

/// The items `toml_edit` parses a text into, or `None` where the text is no
/// TOML document.
pub uninterp spec fn toml_parsed(text: Seq<char>) -> Option<Map<Seq<Seq<char>>, TomlItem>>;

/// Whether `path` lies at or below `prefix`.
pub open spec fn under(path: Seq<Seq<char>>, prefix: Seq<Seq<char>>) -> bool {
    prefix.len() <= path.len() && path.subrange(0, prefix.len() as int) == prefix
}

/// The items with everything at or below `prefix` taken out.
pub open spec fn cleared(items: Map<Seq<Seq<char>>, TomlItem>, prefix: Seq<Seq<char>>) -> Map<
    Seq<Seq<char>>,
    TomlItem,
> {
    Map::new(|p: Seq<Seq<char>>| items.contains_key(p) && !under(p, prefix), |p: Seq<Seq<char>>| items[p])
}

/// The items with `prefix` replaced by `item` (a whole subtree goes).
pub open spec fn placed(items: Map<Seq<Seq<char>>, TomlItem>, prefix: Seq<Seq<char>>, item: TomlItem) -> Map<
    Seq<Seq<char>>,
    TomlItem,
> {
    cleared(items, prefix).insert(prefix, item)
}

pub open spec fn is_table_at(items: Map<Seq<Seq<char>>, TomlItem>, path: Seq<Seq<char>>) -> bool {
    items.contains_key(path) && items[path] is Table
}

/// An empty document (`DocumentMut::new`).
#[verifier::external_body]
fn new_document() -> (doc: DocumentMut)
    ensures
        toml_items(doc).dom().is_empty(),
{
    DocumentMut::new()
}

/// `text.parse::<DocumentMut>()`, with the parse error as its message.
#[verifier::external_body]
fn parse_document(text: &str) -> (r: Result<DocumentMut, String>)
    ensures
        match r {
            Ok(d) => toml_parsed(text@) == Some(toml_items(d)),
            Err(_) => toml_parsed(text@) is None,
        },
{
    text.parse::<DocumentMut>().map_err(|e| e.to_string())
}

/// `doc.to_string()`: the result is the named rendering of `doc`. Nothing
/// is stated of how that text relates to the items: `toml_edit` keeps the
/// text of parsed items but documents that it does not keep the order of
/// dotted keys nor a missing final newline, and its encoder leaves out an
/// implicit table that has nothing under it, so the text read back need not
/// give the same items either.
#[verifier::external_body]
fn document_text(doc: &DocumentMut) -> (r: String)
    ensures
        r@ == toml_text(*doc),
{
    doc.to_string()
}

/// `doc[key] = value(v)` for a string.
#[verifier::external_body]
fn set_top_text(doc: &mut DocumentMut, key: &str, v: &str)
    ensures
        toml_items(*final(doc)) == placed(toml_items(*old(doc)), seq![key@], TomlItem::Text(v@)),
{
    doc[key] = toml_edit::value(v);
}

/// `doc[key] = value(b)` for a boolean.
#[verifier::external_body]
fn set_top_flag(doc: &mut DocumentMut, key: &str, b: bool)
    ensures
        toml_items(*final(doc)) == placed(toml_items(*old(doc)), seq![key@], TomlItem::Flag(b)),
{
    doc[key] = toml_edit::value(b);
}

/// `doc.as_table().contains_key(key)`.
#[verifier::external_body]
fn has_top_key(doc: &DocumentMut, key: &str) -> (r: bool)
    ensures
        r == toml_items(*doc).contains_key(seq![key@]),
{
    doc.as_table().contains_key(key)
}

/// Whether the top-level `key` holds a table or an inline table
/// (`Item::is_table_like`).
#[verifier::external_body]
fn is_top_table(doc: &DocumentMut, key: &str) -> (r: bool)
    ensures
        r == is_table_at(toml_items(*doc), seq![key@]),
{
    match doc.get(key) {
        Some(item) => item.is_table_like(),
        None => false,
    }
}

/// `doc[key] = Item::Table(Table::new())`.
#[verifier::external_body]
fn set_top_table(doc: &mut DocumentMut, key: &str)
    ensures
        toml_items(*final(doc)) == placed(toml_items(*old(doc)), seq![key@], TomlItem::Table),
{
    doc[key] = toml_edit::Item::Table(toml_edit::Table::new());
}

/// `doc[table].as_table_like_mut()` and `remove(key)` on it.
#[verifier::external_body]
fn remove_in_table(doc: &mut DocumentMut, table: &str, key: &str)
    requires
        is_table_at(toml_items(*old(doc)), seq![table@]),
    ensures
        toml_items(*final(doc)) == cleared(toml_items(*old(doc)), seq![table@, key@]),
{
    if let Some(t) = doc[table].as_table_like_mut() {
        t.remove(key);
    }
}

/// `doc[table][key] = Item::Table(Table::new())`.
#[verifier::external_body]
fn set_table_in(doc: &mut DocumentMut, table: &str, key: &str)
    requires
        is_table_at(toml_items(*old(doc)), seq![table@]),
    ensures
        toml_items(*final(doc)) == placed(toml_items(*old(doc)), seq![table@, key@], TomlItem::Table),
{
    doc[table][key] = toml_edit::Item::Table(toml_edit::Table::new());
}

/// `doc[table][key][field] = value(v)` for a string.
#[verifier::external_body]
fn set_text_in(doc: &mut DocumentMut, table: &str, key: &str, field: &str, v: &str)
    requires
        is_table_at(toml_items(*old(doc)), seq![table@]),
        is_table_at(toml_items(*old(doc)), seq![table@, key@]),
    ensures
        toml_items(*final(doc)) == placed(
            toml_items(*old(doc)),
            seq![table@, key@, field@],
            TomlItem::Text(v@),
        ),
{
    doc[table][key][field] = toml_edit::value(v);
}

/// `doc[table][key][field] = value(b)` for a boolean.
#[verifier::external_body]
fn set_flag_in(doc: &mut DocumentMut, table: &str, key: &str, field: &str, b: bool)
    requires
        is_table_at(toml_items(*old(doc)), seq![table@]),
        is_table_at(toml_items(*old(doc)), seq![table@, key@]),
    ensures
        toml_items(*final(doc)) == placed(
            toml_items(*old(doc)),
            seq![table@, key@, field@],
            TomlItem::Flag(b),
        ),
{
    doc[table][key][field] = toml_edit::value(b);
}

/// The Codex directory: `CODEX_HOME` where it is set, else `.codex` in the
/// home directory (or in `.` without one).
pub fn codex_dir_from(codex_home: Option<String>, home: Option<String>) -> (r: String)
    ensures
        r@ == match (codex_home, home) {
            (Some(dir), _) => dir@,
            (None, Some(h)) => joined(h@, ".codex"@),
            (None, None) => joined("."@, ".codex"@),
        },
{
    match codex_home {
        Some(dir) => dir,
        None => match home {
            Some(h) => join_path(h.as_str(), ".codex"),
            None => join_path(".", ".codex"),
        },
    }
}

/// Where the Codex config is kept while the switcher manages it.
pub fn switcher_backup_path(codex_dir: &str) -> (r: String)
    ensures
        r@ == joined(codex_dir@, "config.toml.codex-api-switcher.bak"@),
{
    join_path(codex_dir, "config.toml.codex-api-switcher.bak")
}

/// The Codex config file in `codex_dir`.
pub fn config_toml_path(codex_dir: &str) -> (r: String)
    ensures
        r@ == joined(codex_dir@, "config.toml"@),
{
    join_path(codex_dir, "config.toml")
}

/// Whether a config text is one the switcher wrote: the provider entry it
/// adds, or the proxy token with a local base URL.
pub open spec fn switcher_config(text: Seq<char>) -> bool {
    (contains(text, "model_provider = \"codex-api-switcher\""@) && contains(
        text,
        "[model_providers.codex-api-switcher]"@,
    )) || (contains(text, "experimental_bearer_token = \"PROXY_MANAGED\""@) && contains(
        text,
        "requires_openai_auth = true"@,
    ) && contains(text, "base_url = \"http://127.0.0.1:"@))
}

pub fn is_switcher_config(text: &str) -> (r: bool)
    ensures
        r == switcher_config(text@),
{
    let legacy = has_substring(text, "model_provider = \"codex-api-switcher\"") && has_substring(
        text,
        "[model_providers.codex-api-switcher]",
    );
    let managed_openai = has_substring(text, "experimental_bearer_token = \"PROXY_MANAGED\"")
        && has_substring(text, "requires_openai_auth = true") && has_substring(
        text,
        "base_url = \"http://127.0.0.1:",
    );
    legacy || managed_openai
}

/// The provider name Codex shows: `provider · model`, or the model alone
/// for a blank provider name.
pub open spec fn display_name_of(provider_name: Seq<char>, model: Seq<char>) -> Seq<char> {
    if trim(provider_name).len() == 0 {
        model
    } else {
        trim(provider_name) + " · "@ + model
    }
}

pub fn provider_display_name(provider_name: &str, model: &str) -> (r: String)
    ensures
        r@ == display_name_of(provider_name@, model@),
{
    let name = trimmed(provider_name);
    if name.as_str().is_empty() {
        owned(model)
    } else {
        concat3(name.as_str(), " · ", model)
    }
}

/// The model Codex is set to: the trimmed model, `deepseek-v4-flash` for a
/// blank one.
pub open spec fn model_value_of(model: Seq<char>) -> Seq<char> {
    if is_blank(model) {
        "deepseek-v4-flash"@
    } else {
        trim(model)
    }
}

/// The local proxy's base URL on `port`.
pub open spec fn proxy_base_url_of(port: u16) -> Seq<char> {
    "http://127.0.0.1:"@ + decimal(port as nat) + "/v1"@
}

pub fn proxy_base_url(port: u16) -> (r: String)
    ensures
        r@ == proxy_base_url_of(port),
{
    let digits = u64_text(port as u64);
    concat3("http://127.0.0.1:", digits.as_str(), "/v1")
}

pub open spec fn switcher_key() -> Seq<char> {
    "codex-api-switcher"@
}

pub open spec fn providers_key() -> Seq<char> {
    "model_providers"@
}

/// The provider entry path `model_providers.codex-api-switcher.<field>`.
pub open spec fn provider_field(field: Seq<char>) -> Seq<Seq<char>> {
    seq![providers_key(), switcher_key(), field]
}

/// The document items after a takeover: Codex pointed at the local proxy
/// through the switcher's provider entry, the `OpenAI` provider entry
/// dropped, everything else kept.
pub open spec fn takeover_items(
    items: Map<Seq<Seq<char>>, TomlItem>,
    port: u16,
    provider_name: Seq<char>,
    model: Seq<char>,
) -> Map<Seq<Seq<char>>, TomlItem> {
    let m = model_value_of(model);
    let a = placed(items, seq!["model_provider"@], TomlItem::Text(switcher_key()));
    let b = placed(a, seq!["model"@], TomlItem::Text(m));
    let c = placed(b, seq!["model_reasoning_effort"@], TomlItem::Text("high"@));
    let d = placed(c, seq!["disable_response_storage"@], TomlItem::Flag(true));
    let e = if d.contains_key(seq![providers_key()]) {
        d
    } else {
        placed(d, seq![providers_key()], TomlItem::Table)
    };
    let f = cleared(e, seq![providers_key(), "OpenAI"@]);
    let g = placed(f, seq![providers_key(), switcher_key()], TomlItem::Table);
    let h = placed(g, provider_field("name"@), TomlItem::Text(display_name_of(provider_name, m)));
    let i = placed(h, provider_field("base_url"@), TomlItem::Text(proxy_base_url_of(port)));
    let j = placed(i, provider_field("wire_api"@), TomlItem::Text("responses"@));
    let k = placed(j, provider_field("requires_openai_auth"@), TomlItem::Flag(true));
    placed(k, provider_field("experimental_bearer_token"@), TomlItem::Text("PROXY_MANAGED"@))
}

/// A takeover can edit the document: `model_providers` is absent or a table.
pub open spec fn takeover_fits(items: Map<Seq<Seq<char>>, TomlItem>) -> bool {
    !items.contains_key(seq![providers_key()]) || items[seq![providers_key()]] is Table
}

/// Points a Codex config document at the local proxy.
pub fn apply_takeover_config(doc: &mut DocumentMut, port: u16, provider_name: &str, model: &str)
    requires
        takeover_fits(toml_items(*old(doc))),
    ensures
        toml_items(*final(doc)) == takeover_items(toml_items(*old(doc)), port, provider_name@, model@),
{
    let ghost m0 = toml_items(*doc);
    let base_url = proxy_base_url(port);
    let model_value = if blank(model) {
        owned("deepseek-v4-flash")
    } else {
        trimmed(model)
    };
    let display_name = provider_display_name(provider_name, model_value.as_str());
    set_top_text(doc, "model_provider", "codex-api-switcher");
    set_top_text(doc, "model", model_value.as_str());
    set_top_text(doc, "model_reasoning_effort", "high");
    set_top_flag(doc, "disable_response_storage", true);
    let ghost d = toml_items(*doc);
    proof {
        reveal_strlit("model_providers");
        reveal_strlit("model_provider");
        reveal_strlit("model");
        reveal_strlit("model_reasoning_effort");
        reveal_strlit("disable_response_storage");
        let pk = seq![providers_key()];
        assert("model_providers"@.len() == 15);
        assert(pk.subrange(0, 1) =~= pk);
        assert(pk[0] != "model_provider"@) by {
            assert(pk[0].len() != "model_provider"@.len());
        }
        assert(pk[0] != "model"@) by {
            assert(pk[0].len() != "model"@.len());
        }
        assert(pk[0] != "model_reasoning_effort"@) by {
            assert(pk[0].len() != "model_reasoning_effort"@.len());
        }
        assert(pk[0] != "disable_response_storage"@) by {
            assert(pk[0].len() != "disable_response_storage"@.len());
        }
        assert(!under(pk, seq!["model_provider"@]));
        assert(!under(pk, seq!["model"@]));
        assert(!under(pk, seq!["model_reasoning_effort"@]));
        assert(!under(pk, seq!["disable_response_storage"@]));
        assert(d.contains_key(pk) == m0.contains_key(pk));
        if m0.contains_key(pk) {
            assert(d[pk] == m0[pk]);
        }
    }
    if !has_top_key(doc, "model_providers") {
        set_top_table(doc, "model_providers");
    }
    remove_in_table(doc, "model_providers", "OpenAI");
    set_table_in(doc, "model_providers", "codex-api-switcher");
    set_text_in(doc, "model_providers", "codex-api-switcher", "name", display_name.as_str());
    set_text_in(doc, "model_providers", "codex-api-switcher", "base_url", base_url.as_str());
    set_text_in(doc, "model_providers", "codex-api-switcher", "wire_api", "responses");
    set_flag_in(doc, "model_providers", "codex-api-switcher", "requires_openai_auth", true);
    set_text_in(doc, "model_providers", "codex-api-switcher", "experimental_bearer_token", "PROXY_MANAGED");
}

/// The first line of a config written from scratch.
pub open spec fn takeover_header() -> Seq<char> {
    "# Managed by Codex API Switcher. Existing config.toml is backed up before takeover.\n"@
}

proof fn lemma_empty_fits(items: Map<Seq<Seq<char>>, TomlItem>)
    requires
        items.dom().is_empty(),
    ensures
        items == Map::<Seq<Seq<char>>, TomlItem>::empty(),
        takeover_fits(items),
{
    assert(items =~= Map::<Seq<Seq<char>>, TomlItem>::empty()) by {
        assert forall|p: Seq<Seq<char>>| !items.contains_key(p) by {
            assert(!items.dom().contains(p));
        }
    }
}

/// A takeover config written from scratch: the header line, then the
/// rendered document that `takeover_items` describes.
pub fn build_takeover_config(port: u16, provider_name: &str, model: &str) -> (r: String)
    ensures
        exists|d: DocumentMut|
            toml_items(d) == takeover_items(Map::empty(), port, provider_name@, model@) && r@
                == takeover_header() + toml_text(d),
{
    let mut doc = new_document();
    proof {
        lemma_empty_fits(toml_items(doc));
    }
    apply_takeover_config(&mut doc, port, provider_name, model);
    let text = document_text(&doc);
    let r = concat(
        "# Managed by Codex API Switcher. Existing config.toml is backed up before takeover.\n",
        text.as_str(),
    );
    assert(toml_items(doc) == takeover_items(Map::empty(), port, provider_name@, model@) && r@
        == takeover_header() + toml_text(doc));
    r
}

/// The message for a config whose `model_providers` is no table.
pub open spec fn providers_not_table() -> Seq<char> {
    "model_providers in config.toml is not a table"@
}

/// The config text a takeover writes over `existing` (the current
/// config.toml, if there is one): its items as `takeover_items` says, or the
/// parse error, or an error where `model_providers` is no table.
pub fn takeover_config_text(existing: Option<&str>, port: u16, provider_name: &str, model: &str) -> (r:
    Result<String, String>)
    ensures
        match existing {
            None => r is Ok && exists|d: DocumentMut|
                toml_items(d) == takeover_items(Map::empty(), port, provider_name@, model@) && r->Ok_0@
                    == toml_text(d),
            Some(t) => match toml_parsed(t@) {
                None => r is Err,
                Some(items) => if takeover_fits(items) {
                    r is Ok && exists|d: DocumentMut|
                        toml_items(d) == takeover_items(items, port, provider_name@, model@) && r->Ok_0@
                            == toml_text(d)
                } else {
                    (r matches Err(e) && e@ == providers_not_table())
                },
            },
        },
{
    let mut doc = match existing {
        Some(t) => match parse_document(t) {
            Ok(d) => d,
            Err(e) => {
                return Err(e);
            },
        },
        None => {
            let d = new_document();
            proof {
                lemma_empty_fits(toml_items(d));
            }
            d
        },
    };
    if has_top_key(&doc, "model_providers") && !is_top_table(&doc, "model_providers") {
        proof {
            reveal_strlit("model_providers");
        }
        return Err(owned("model_providers in config.toml is not a table"));
    }
    proof {
        reveal_strlit("model_providers");
    }
    let ghost before = toml_items(doc);
    apply_takeover_config(&mut doc, port, provider_name, model);
    let text = document_text(&doc);
    assert(toml_items(doc) == takeover_items(before, port, provider_name@, model@) && text@ == toml_text(doc));
    Ok(text)
}

/// Whether a takeover first copies the current config aside: there is one,
/// and the switcher did not write it.
pub fn should_back_up(config: Option<&str>) -> (r: bool)
    ensures
        r == match config {
            Some(t) => !switcher_config(t@),
            None => false,
        },
{
    match config {
        Some(t) => !is_switcher_config(t),
        None => false,
    }
}

/// What handing the config back to the user does with the files.
#[derive(PartialEq, Eq, Structural)]
pub enum RestoreStep {
    /// Leave both files as they are.
    Keep,
    /// Delete the backup only.
    DropBackup,
    /// Copy the backup over the config, then delete the backup.
    PutBackBackup,
    /// Delete the config the switcher wrote.
    DropConfig,
}

pub open spec fn restore_step_of(config: Option<Seq<char>>, backup_exists: bool) -> RestoreStep {
    match config {
        Some(t) => if backup_exists {
            if switcher_config(t) {
                RestoreStep::PutBackBackup
            } else {
                RestoreStep::DropBackup
            }
        } else if switcher_config(t) {
            RestoreStep::DropConfig
        } else {
            RestoreStep::Keep
        },
        None => if backup_exists {
            RestoreStep::PutBackBackup
        } else {
            RestoreStep::Keep
        },
    }
}

/// The step that gives the user's config back, from the current config text
/// (if the file exists) and whether a backup exists.
pub fn restore_step(config: Option<&str>, backup_exists: bool) -> (r: RestoreStep)
    ensures
        r == restore_step_of(
            match config {
                Some(t) => Some(t@),
                None => None,
            },
            backup_exists,
        ),
{
    match config {
        Some(t) => {
            if backup_exists {
                if is_switcher_config(t) {
                    RestoreStep::PutBackBackup
                } else {
                    RestoreStep::DropBackup
                }
            } else if is_switcher_config(t) {
                RestoreStep::DropConfig
            } else {
                RestoreStep::Keep
            }
        },
        None => {
            if backup_exists {
                RestoreStep::PutBackBackup
            } else {
                RestoreStep::Keep
            }
        },
    }
}

/// A config the user wrote is backed up by a takeover, and handing back
/// over a switcher config (or over a missing one) puts that backup back.
pub proof fn law_backup_then_restore(original: Seq<char>, managed: Option<Seq<char>>)
    requires
        !switcher_config(original),
        match managed {
            Some(t) => switcher_config(t),
            None => true,
        },
    ensures
        restore_step_of(managed, true) == RestoreStep::PutBackBackup,
{
}

proof fn lemma_single_under(a: Seq<char>, b: Seq<char>)
    ensures
        under(seq![a], seq![b]) ==> a == b,
{
    if under(seq![a], seq![b]) {
        assert(seq![a].subrange(0, 1) =~= seq![a]);
        assert(seq![a][0] == seq![b][0]);
    }
}

/// A takeover points Codex at the local proxy: the switcher provider, the
/// chosen model, and a provider entry with the proxy URL and token; the
/// `OpenAI` entry is gone.
pub proof fn law_takeover_points_at_proxy(
    items: Map<Seq<Seq<char>>, TomlItem>,
    port: u16,
    provider_name: Seq<char>,
    model: Seq<char>,
)
    ensures
        ({
            let t = takeover_items(items, port, provider_name, model);
            &&& t[seq!["model_provider"@]] == TomlItem::Text(switcher_key())
            &&& t[seq!["model"@]] == TomlItem::Text(model_value_of(model))
            &&& t[provider_field("base_url"@)] == TomlItem::Text(proxy_base_url_of(port))
            &&& t[provider_field("name"@)] == TomlItem::Text(
                display_name_of(provider_name, model_value_of(model)),
            )
            &&& t[provider_field("wire_api"@)] == TomlItem::Text("responses"@)
            &&& t[provider_field("requires_openai_auth"@)] == TomlItem::Flag(true)
            &&& t[provider_field("experimental_bearer_token"@)] == TomlItem::Text("PROXY_MANAGED"@)
            &&& !t.contains_key(seq![providers_key(), "OpenAI"@])
        }),
{
    reveal_strlit("model_provider");
    reveal_strlit("model");
    reveal_strlit("model_providers");
    reveal_strlit("codex-api-switcher");
    reveal_strlit("OpenAI");
    reveal_strlit("name");
    reveal_strlit("base_url");
    reveal_strlit("wire_api");
    reveal_strlit("requires_openai_auth");
    reveal_strlit("experimental_bearer_token");
    let fields = seq![
        "name"@,
        "base_url"@,
        "wire_api"@,
        "requires_openai_auth"@,
        "experimental_bearer_token"@,
    ];
    assert(fields[0].len() == 4 && fields[1].len() == 8 && fields[2].len() == 8 && fields[3].len() == 20
        && fields[4].len() == 25);
    assert(fields[1][0] != fields[2][0]);
    assert(forall|a: int, b: int| 0 <= a < b < 5 ==> fields[a] != fields[b]);
    assert(forall|a: int, b: int| 0 <= a < 5 && 0 <= b < 5 && a != b ==> !under(
        provider_field(fields[a]),
        provider_field(fields[b]),
    )) by {
        assert forall|a: int, b: int| 0 <= a < 5 && 0 <= b < 5 && a != b implies !under(
            provider_field(fields[a]),
            provider_field(fields[b]),
        ) by {
            if under(provider_field(fields[a]), provider_field(fields[b])) {
                assert(provider_field(fields[a]).subrange(0, 3) =~= provider_field(fields[a]));
                assert(provider_field(fields[a])[2] == provider_field(fields[b])[2]);
            }
        }
    }
    assert("OpenAI"@ != "codex-api-switcher"@) by {
        assert("OpenAI"@.len() != "codex-api-switcher"@.len());
    }
    reveal_strlit("model_reasoning_effort");
    reveal_strlit("disable_response_storage");
    let tops = seq!["model_provider"@, "model"@, "model_reasoning_effort"@, "disable_response_storage"@];
    assert(tops[0].len() == 14 && tops[1].len() == 5 && tops[2].len() == 22 && tops[3].len() == 24);
    assert(providers_key().len() == 15);
    let m = model_value_of(model);
    let a = placed(items, seq![tops[0]], TomlItem::Text(switcher_key()));
    let b = placed(a, seq![tops[1]], TomlItem::Text(m));
    let c = placed(b, seq![tops[2]], TomlItem::Text("high"@));
    let d = placed(c, seq![tops[3]], TomlItem::Flag(true));
    let e = if d.contains_key(seq![providers_key()]) {
        d
    } else {
        placed(d, seq![providers_key()], TomlItem::Table)
    };
    let f = cleared(e, seq![providers_key(), "OpenAI"@]);
    let g = placed(f, seq![providers_key(), switcher_key()], TomlItem::Table);
    let h = placed(g, provider_field(fields[0]), TomlItem::Text(display_name_of(provider_name, m)));
    let i = placed(h, provider_field(fields[1]), TomlItem::Text(proxy_base_url_of(port)));
    let j = placed(i, provider_field(fields[2]), TomlItem::Text("responses"@));
    let k = placed(j, provider_field(fields[3]), TomlItem::Flag(true));
    let t = placed(k, provider_field(fields[4]), TomlItem::Text("PROXY_MANAGED"@));
    assert(t == takeover_items(items, port, provider_name, model));
    let p0 = seq![tops[0]];
    let p1 = seq![tops[1]];
    assert(p0.subrange(0, 1) =~= p0);
    assert(p1.subrange(0, 1) =~= p1);
    lemma_single_under(tops[0], tops[1]);
    lemma_single_under(tops[0], tops[2]);
    lemma_single_under(tops[0], tops[3]);
    lemma_single_under(tops[0], providers_key());
    lemma_single_under(tops[1], tops[2]);
    lemma_single_under(tops[1], tops[3]);
    lemma_single_under(tops[1], providers_key());
    assert(a[p0] == TomlItem::Text(switcher_key()));
    assert(b[p0] == a[p0] && b[p1] == TomlItem::Text(m));
    assert(t[p0] == TomlItem::Text(switcher_key()));
    assert(t[p1] == TomlItem::Text(m));
    let po = seq![providers_key(), "OpenAI"@];
    assert(po.subrange(0, 2) =~= po);
    assert(!f.contains_key(po));
    assert(!under(po, seq![providers_key(), switcher_key()]));
    assert(!t.contains_key(po));
}

/// A takeover keeps every setting outside what it writes: other top-level
/// keys and the other provider entries stay as they were.
pub proof fn law_takeover_keeps_rest(
    items: Map<Seq<Seq<char>>, TomlItem>,
    port: u16,
    provider_name: Seq<char>,
    model: Seq<char>,
    q: Seq<Seq<char>>,
)
    requires
        !under(q, seq!["model_provider"@]),
        !under(q, seq!["model"@]),
        !under(q, seq!["model_reasoning_effort"@]),
        !under(q, seq!["disable_response_storage"@]),
        !under(q, seq![providers_key(), "OpenAI"@]),
        !under(q, seq![providers_key(), switcher_key()]),
        q != seq![providers_key()],
        items.contains_key(seq![providers_key()]) || !under(q, seq![providers_key()]),
    ensures
        takeover_items(items, port, provider_name, model).contains_key(q) == items.contains_key(q),
        items.contains_key(q) ==> takeover_items(items, port, provider_name, model)[q] == items[q],
{
    let pc = seq![providers_key(), switcher_key()];
    assert forall|f: Seq<char>| !under(q, #[trigger] provider_field(f)) by {
        if under(q, provider_field(f)) {
            assert(q.subrange(0, 2) =~= pc) by {
                assert(q.subrange(0, 3) == provider_field(f));
            }
        }
    }
    assert(q.subrange(0, q.len() as int) =~= q);
    let m = model_value_of(model);
    let a = placed(items, seq!["model_provider"@], TomlItem::Text(switcher_key()));
    let b = placed(a, seq!["model"@], TomlItem::Text(m));
    let c = placed(b, seq!["model_reasoning_effort"@], TomlItem::Text("high"@));
    let d = placed(c, seq!["disable_response_storage"@], TomlItem::Flag(true));
    assert(d.contains_key(q) == items.contains_key(q));
    assert(items.contains_key(q) ==> d[q] == items[q]);
    assert(d.contains_key(seq![providers_key()]) == items.contains_key(seq![providers_key()])) by {
        reveal_strlit("model_provider");
        reveal_strlit("model");
        reveal_strlit("model_providers");
        reveal_strlit("model_reasoning_effort");
        reveal_strlit("disable_response_storage");
        assert(providers_key().len() == 15 && "model_provider"@.len() == 14 && "model"@.len() == 5
            && "model_reasoning_effort"@.len() == 22 && "disable_response_storage"@.len() == 24);
        let pk = seq![providers_key()];
        assert(pk.subrange(0, 1) =~= pk);
        lemma_single_under(providers_key(), "model_provider"@);
        lemma_single_under(providers_key(), "model"@);
        lemma_single_under(providers_key(), "model_reasoning_effort"@);
        lemma_single_under(providers_key(), "disable_response_storage"@);
    }
    let e = if d.contains_key(seq![providers_key()]) {
        d
    } else {
        placed(d, seq![providers_key()], TomlItem::Table)
    };
    assert(e.contains_key(q) == items.contains_key(q));
    assert(items.contains_key(q) ==> e[q] == items[q]);
}

} // verus!
