use vstd::prelude::*;

use crate::text::{blank, is_blank, is_ws, owned, str_eq, trim, trim_end, trim_start};
use crate::DEFAULT_PROXY_PORT;

verus! {

broadcast use vstd::std_specs::vec::group_vec_axioms;

/// The API a provider speaks.
#[derive(Clone, Copy, Debug, PartialEq, Eq, Structural)]
pub enum ApiFormat {
    OpenAiChat,
    OpenAiResponses,
}

/// An upstream model provider.
pub struct Provider {
    pub id: String,
    pub name: String,
    pub base_url: String,
    pub api_key: String,
    pub model: String,
    pub api_format: ApiFormat,
}

pub struct ProviderView {
    pub id: Seq<char>,
    pub name: Seq<char>,
    pub base_url: Seq<char>,
    pub api_key: Seq<char>,
    pub model: Seq<char>,
    pub api_format: ApiFormat,
}

impl Provider {
    pub open spec fn view(&self) -> ProviderView {
        ProviderView {
            id: self.id@,
            name: self.name@,
            base_url: self.base_url@,
            api_key: self.api_key@,
            model: self.model@,
            api_format: self.api_format,
        }
    }
}

pub open spec fn deepseek_view() -> ProviderView {
    ProviderView {
        id: "deepseek"@,
        name: "DeepSeek"@,
        base_url: "https://api.deepseek.com"@,
        api_key: Seq::empty(),
        model: "deepseek-v4-flash"@,
        api_format: ApiFormat::OpenAiChat,
    }
}

/// A character of a hyphenated lower-case UUID.
pub open spec fn uuid_char(c: char) -> bool {
    ('0' <= c && c <= '9') || ('a' <= c && c <= 'f') || c == '-'
}

/// `id` has the form of a hyphenated lower-case UUID: 36 characters, each a
/// lower-case hex digit or a hyphen.
pub open spec fn uuid_form(id: Seq<char>) -> bool {
    id.len() == 36 && forall|i: int| 0 <= i < id.len() ==> uuid_char(#[trigger] id[i])
}

/// `g` is `p` with a UUID filled in as its id where `p` had a blank one.
pub open spec fn generated_from(p: ProviderView, g: ProviderView) -> bool {
    if is_blank(p.id) {
        uuid_form(g.id) && !is_blank(g.id) && g == ProviderView { id: g.id, ..p }
    } else {
        g == p
    }
}

/// `uuid::Uuid::new_v4().to_string()`: a fresh random UUID in its
/// hyphenated form, 36 characters of lower-case hex digits and hyphens.
/// Which UUID comes back is left open.
#[verifier::external_body]
pub(crate) fn new_uuid_text() -> (r: String)
    ensures
        r@.len() == 36,
        forall|i: int| 0 <= i < r@.len() ==> uuid_char(#[trigger] r@[i]),
{
    uuid::Uuid::new_v4().to_string()
}

proof fn lemma_not_blank(s: Seq<char>)
    requires
        s.len() > 0,
        forall|i: int| 0 <= i < s.len() ==> !is_ws(#[trigger] s[i]),
    ensures
        !is_blank(s),
{
    assert(trim_start(s) == s);
    assert(trim_end(s) == s);
}

impl Provider {
    /// The DeepSeek provider offered to new users.
    pub fn deepseek_preset() -> (r: Self)
        ensures
            r.view() == deepseek_view(),
    {
        Provider {
            id: owned("deepseek"),
            name: owned("DeepSeek"),
            base_url: owned("https://api.deepseek.com"),
            api_key: String::new(),
            model: owned("deepseek-v4-flash"),
            api_format: ApiFormat::OpenAiChat,
        }
    }

    /// The provider, with a fresh UUID as its id where its id is blank.
    pub fn with_generated_id(self) -> (r: Self)
        ensures
            generated_from(self.view(), r.view()),
    {
        let mut p = self;
        if blank(p.id.as_str()) {
            let id = new_uuid_text();
            proof {
                assert forall|i: int| 0 <= i < id@.len() implies !is_ws(#[trigger] id@[i]) by {
                    assert(uuid_char(id@[i]));
                }
                lemma_not_blank(id@);
            }
            p.id = id;
        }
        p
    }

    /// A copy of the provider.
    pub fn duplicate(&self) -> (r: Self)
        ensures
            r.view() == self.view(),
    {
        Provider {
            id: owned(self.id.as_str()),
            name: owned(self.name.as_str()),
            base_url: owned(self.base_url.as_str()),
            api_key: owned(self.api_key.as_str()),
            model: owned(self.model.as_str()),
            api_format: self.api_format,
        }
    }
}

/// The providers and which one is in use.
pub struct AppConfig {
    pub providers: Vec<Provider>,
    pub current_provider_id: Option<String>,
    pub proxy_port: u16,
}

pub struct ConfigView {
    pub providers: Seq<ProviderView>,
    pub current_provider_id: Option<Seq<char>>,
    pub proxy_port: u16,
}

pub open spec fn providers_view(ps: Seq<Provider>) -> Seq<ProviderView> {
    ps.map_values(|p: Provider| p.view())
}

impl AppConfig {
    pub open spec fn view(&self) -> ConfigView {
        ConfigView {
            providers: providers_view(self.providers@),
            current_provider_id: match &self.current_provider_id {
                Some(id) => Some(id@),
                None => None,
            },
            proxy_port: self.proxy_port,
        }
    }
}

impl Default for AppConfig {
    fn default() -> (r: Self)
        ensures
            r.view() == (ConfigView {
                providers: Seq::empty(),
                current_provider_id: None,
                proxy_port: DEFAULT_PROXY_PORT,
            }),
    {
        let r = AppConfig { current_provider_id: None, providers: Vec::new(), proxy_port: DEFAULT_PROXY_PORT };
        assert(r.view().providers =~= Seq::<ProviderView>::empty());
        r
    }
}

/// Position of the first provider with id `id`.
pub open spec fn find_provider(ps: Seq<ProviderView>, id: Seq<char>) -> Option<int>
    decreases ps.len(),
{
    if ps.len() == 0 {
        None
    } else if ps[0].id == id {
        Some(0)
    } else {
        match find_provider(ps.drop_first(), id) {
            Some(i) => Some(i + 1),
            None => None,
        }
    }
}

/// The configuration with a port and a current provider that exist: port 0
/// becomes the default port, and a current id that names no provider gives
/// way to the first provider's id (or none, without providers).
pub open spec fn normalized(c: ConfigView) -> ConfigView {
    let valid = match c.current_provider_id {
        Some(id) => find_provider(c.providers, id) is Some,
        None => false,
    };
    ConfigView {
        providers: c.providers,
        current_provider_id: if valid {
            c.current_provider_id
        } else if c.providers.len() > 0 {
            Some(c.providers[0].id)
        } else {
            None
        },
        proxy_port: if c.proxy_port == 0 {
            DEFAULT_PROXY_PORT
        } else {
            c.proxy_port
        },
    }
}

/// Where the current provider stands, if the current id names one.
pub open spec fn current_index(c: ConfigView) -> Option<int> {
    match c.current_provider_id {
        Some(id) => find_provider(c.providers, id),
        None => None,
    }
}

/// The configuration after `p` is saved: it replaces the first provider
/// with its id, else it is added, and becomes current if none was.
pub open spec fn upserted(c: ConfigView, p: ProviderView) -> ConfigView {
    match find_provider(c.providers, p.id) {
        Some(i) => ConfigView { providers: c.providers.update(i, p), ..c },
        None => ConfigView {
            providers: c.providers.push(p),
            current_provider_id: if c.current_provider_id is None {
                Some(p.id)
            } else {
                c.current_provider_id
            },
            ..c
        },
    }
}

proof fn lemma_find_provider(ps: Seq<ProviderView>, id: Seq<char>)
    ensures
        match find_provider(ps, id) {
            Some(i) => 0 <= i < ps.len() && ps[i].id == id && forall|j: int| 0 <= j < i ==> ps[j].id != id,
            None => forall|j: int| 0 <= j < ps.len() ==> ps[j].id != id,
        },
    decreases ps.len(),
{
    if ps.len() > 0 && ps[0].id != id {
        lemma_find_provider(ps.drop_first(), id);
        assert forall|j: int| 0 < j < ps.len() implies ps[j] == ps.drop_first()[j - 1] by {}
    }
}

proof fn lemma_find_provider_first(ps: Seq<ProviderView>, id: Seq<char>, i: int)
    requires
        0 <= i < ps.len(),
        ps[i].id == id,
        forall|j: int| 0 <= j < i ==> ps[j].id != id,
    ensures
        find_provider(ps, id) == Some(i),
    decreases i,
{
    if i > 0 {
        lemma_find_provider_first(ps.drop_first(), id, i - 1);
    }
}

proof fn lemma_find_provider_none(ps: Seq<ProviderView>, id: Seq<char>)
    requires
        forall|j: int| 0 <= j < ps.len() ==> ps[j].id != id,
    ensures
        find_provider(ps, id) is None,
    decreases ps.len(),
{
    if ps.len() > 0 {
        lemma_find_provider_none(ps.drop_first(), id);
    }
}

/// Position of the first provider with id `id`.
fn position_of(providers: &Vec<Provider>, id: &str) -> (r: Option<usize>)
    ensures
        match r {
            Some(i) => i < providers@.len() && find_provider(providers_view(providers@), id@) == Some(
                i as int,
            ),
            None => find_provider(providers_view(providers@), id@) is None,
        },
{
    let ghost pv = providers_view(providers@);
    let mut i: usize = 0;
    while i < providers.len()
        invariant
            i <= providers@.len(),
            pv == providers_view(providers@),
            forall|j: int| 0 <= j < i ==> pv[j].id != id@,
        decreases providers@.len() - i,
    {
        if str_eq(providers[i].id.as_str(), id) {
            proof {
                lemma_find_provider_first(pv, id@, i as int);
            }
            return Some(i);
        }
        i = i + 1;
    }
    proof {
        lemma_find_provider_none(pv, id@);
    }
    None
}

impl AppConfig {
    /// Repairs a loaded configuration, as `normalized` says.
    pub fn normalize(&mut self)
        ensures
            final(self).view() == normalized(old(self).view()),
    {
        if self.proxy_port == 0 {
            self.proxy_port = DEFAULT_PROXY_PORT;
        }
        let current_is_valid = match &self.current_provider_id {
            Some(id) => position_of(&self.providers, id.as_str()).is_some(),
            None => false,
        };
        if !current_is_valid {
            self.current_provider_id = if self.providers.len() > 0 {
                Some(owned(self.providers[0].id.as_str()))
            } else {
                None
            };
        }
    }

    /// The provider that the current id names.
    pub fn current_provider(&self) -> (r: Option<&Provider>)
        ensures
            match current_index(self.view()) {
                Some(i) => r matches Some(p) && p.view() == self.view().providers[i],
                None => r is None,
            },
    {
        let id = match &self.current_provider_id {
            Some(id) => id,
            None => return None,
        };
        match position_of(&self.providers, id.as_str()) {
            Some(i) => Some(&self.providers[i]),
            None => None,
        }
    }

    /// Saves a provider (giving it an id where it has none), as `upserted`
    /// says.
    pub fn upsert_provider(&mut self, provider: Provider)
        ensures
            exists|g: ProviderView|
                generated_from(provider.view(), g) && final(self).view() == upserted(old(self).view(), g),
    {
        let provider = provider.with_generated_id();
        let ghost g = provider.view();
        let ghost pv = providers_view(self.providers@);
        match position_of(&self.providers, provider.id.as_str()) {
            Some(i) => {
                self.providers.set(i, provider);
                assert(providers_view(self.providers@) =~= pv.update(i as int, g));
            },
            None => {
                if self.current_provider_id.is_none() {
                    self.current_provider_id = Some(owned(provider.id.as_str()));
                }
                self.providers.push(provider);
                assert(providers_view(self.providers@) =~= pv.push(g));
            },
        }
    }
}

/// After `normalize`, the port is set and the current id names a provider
/// whenever there is one, and only then.
pub proof fn law_normalized_current_exists(c: ConfigView)
    ensures
        normalized(c).proxy_port != 0,
        normalized(c).current_provider_id is None <==> c.providers.len() == 0,
        current_index(normalized(c)) is Some <==> c.providers.len() > 0,
{
    match c.current_provider_id {
        Some(id) => lemma_find_provider(c.providers, id),
        None => {},
    }
    if c.providers.len() > 0 {
        lemma_find_provider(c.providers, c.providers[0].id);
    }
}

/// Normalizing twice changes nothing more.
pub proof fn law_normalize_idempotent(c: ConfigView)
    ensures
        normalized(normalized(c)) == normalized(c),
{
    match c.current_provider_id {
        Some(id) => lemma_find_provider(c.providers, id),
        None => {},
    }
    if c.providers.len() > 0 {
        lemma_find_provider(c.providers, c.providers[0].id);
    }
}

/// After a provider is saved, looking up its id finds it.
pub proof fn law_upsert_then_find(c: ConfigView, p: ProviderView)
    ensures
        match find_provider(upserted(c, p).providers, p.id) {
            Some(i) => upserted(c, p).providers[i] == p,
            None => false,
        },
        upserted(c, p).providers.len() == c.providers.len() + if find_provider(c.providers, p.id) is Some {
            0int
        } else {
            1int
        },
{
    lemma_find_provider(c.providers, p.id);
    match find_provider(c.providers, p.id) {
        Some(i) => {
            let ps = c.providers.update(i, p);
            lemma_find_provider_first(ps, p.id, i);
        },
        None => {
            let ps = c.providers.push(p);
            lemma_find_provider_first(ps, p.id, c.providers.len() as int);
        },
    }
}

/// `dir` joined with a relative `part`, `/` between them.
pub open spec fn joined(dir: Seq<char>, part: Seq<char>) -> Seq<char> {
    if dir.len() == 0 || dir.last() == '/' {
        dir + part
    } else {
        dir + "/"@ + part
    }
}

/// `Path::join` of a relative part, with `/` as the separator.
pub fn join_path(dir: &str, part: &str) -> (r: String)
    ensures
        r@ == joined(dir@, part@),
{
    let v = crate::text::chars_of(dir);
    if v.len() == 0 || v[v.len() - 1] == '/' {
        crate::text::concat(dir, part)
    } else {
        let with_sep = crate::text::concat(dir, "/");
        crate::text::concat(with_sep.as_str(), part)
    }
}

/// The configuration file inside the application directory `dir`.
pub fn config_path(dir: &str) -> (r: String)
    ensures
        r@ == joined(dir@, "config.json"@),
{
    join_path(dir, "config.json")
}


/// The providers whose id is not `id`, in order.
pub open spec fn providers_without(ps: Seq<ProviderView>, id: Seq<char>) -> Seq<ProviderView>
    decreases ps.len(),
{
    if ps.len() == 0 {
        Seq::empty()
    } else {
        let rest = providers_without(ps.drop_last(), id);
        if ps.last().id != id {
            rest.push(ps.last())
        } else {
            rest
        }
    }
}

/// The configuration after provider `id` is deleted: every provider with
/// that id goes, a current id that named it moves to the first provider
/// left, and the result is normalized.
pub open spec fn after_delete(c: ConfigView, id: Seq<char>) -> ConfigView {
    let ps = providers_without(c.providers, id);
    let current = if c.current_provider_id == Some(id) {
        if ps.len() > 0 {
            Some(ps[0].id)
        } else {
            None
        }
    } else {
        c.current_provider_id
    };
    normalized(ConfigView { providers: ps, current_provider_id: current, proxy_port: c.proxy_port })
}

impl AppConfig {
    /// Deletes provider `id`; refused while at most one provider exists.
    pub fn delete_provider(&mut self, id: &str) -> (r: Result<(), String>)
        ensures
            old(self).view().providers.len() <= 1 ==> (r matches Err(e) && e@
                == "cannot delete the last provider"@ && final(self).view() == old(self).view()),
            old(self).view().providers.len() > 1 ==> r is Ok && final(self).view() == after_delete(
                old(self).view(),
                id@,
            ),
    {
        if self.providers.len() <= 1 {
            return Err(owned("cannot delete the last provider"));
        }
        let ghost pv = providers_view(self.providers@);
        let mut kept: Vec<Provider> = Vec::new();
        let mut old_providers: Vec<Provider> = Vec::new();
        std::mem::swap(&mut old_providers, &mut self.providers);
        assert(pv.take(0) =~= Seq::<ProviderView>::empty());
        assert(providers_view(kept@) =~= Seq::<ProviderView>::empty());
        let mut i: usize = 0;
        while i < old_providers.len()
            invariant
                i <= old_providers@.len(),
                pv == providers_view(old_providers@),
                providers_view(kept@) == providers_without(pv.take(i as int), id@),
            decreases old_providers@.len() - i,
        {
            assert(pv.take(i + 1).drop_last() =~= pv.take(i as int));
            assert(pv.take(i + 1).last() == old_providers@[i as int].view());
            if !str_eq(old_providers[i].id.as_str(), id) {
                let p = old_providers[i].duplicate();
                let ghost before = providers_view(kept@);
                let ghost p_view = p.view();
                kept.push(p);
                assert(providers_view(kept@) =~= before.push(p_view));
            }
            i = i + 1;
        }
        assert(pv.take(old_providers@.len() as int) =~= pv);
        self.providers = kept;
        let names_deleted = match &self.current_provider_id {
            Some(current) => str_eq(current.as_str(), id),
            None => false,
        };
        if names_deleted {
            self.current_provider_id = if self.providers.len() > 0 {
                Some(owned(self.providers[0].id.as_str()))
            } else {
                None
            };
        }
        self.normalize();
        Ok(())
    }

    /// Makes provider `id` the current one; refused when no provider has
    /// that id.
    pub fn switch_provider(&mut self, id: &str) -> (r: Result<(), String>)
        ensures
            find_provider(old(self).view().providers, id@) is Some ==> r is Ok && final(self).view() == (
            ConfigView { current_provider_id: Some(id@), ..old(self).view() }),
            find_provider(old(self).view().providers, id@) is None ==> (r matches Err(e) && e@ == "provider `"@
                + id@ + "` does not exist"@ && final(self).view() == old(self).view()),
    {
        match position_of(&self.providers, id) {
            Some(_) => {
                self.current_provider_id = Some(owned(id));
                Ok(())
            },
            None => {
                let head = crate::text::concat("provider `", id);
                Err(crate::text::concat(head.as_str(), "` does not exist"))
            },
        }
    }
}

proof fn lemma_without_has_none(ps: Seq<ProviderView>, id: Seq<char>)
    ensures
        forall|j: int| 0 <= j < providers_without(ps, id).len() ==> providers_without(ps, id)[j].id != id,
    decreases ps.len(),
{
    if ps.len() > 0 {
        lemma_without_has_none(ps.drop_last(), id);
    }
}

/// After a provider is deleted, no provider has its id, and the current id
/// names a provider whenever any is left.
pub proof fn law_delete_removes(c: ConfigView, id: Seq<char>)
    ensures
        find_provider(after_delete(c, id).providers, id) is None,
        after_delete(c, id).providers.len() > 0 ==> current_index(after_delete(c, id)) is Some,
{
    let ps = providers_without(c.providers, id);
    lemma_without_has_none(c.providers, id);
    lemma_find_provider_none(ps, id);
    let current = if c.current_provider_id == Some(id) {
        if ps.len() > 0 {
            Some(ps[0].id)
        } else {
            None
        }
    } else {
        c.current_provider_id
    };
    law_normalized_current_exists(ConfigView { providers: ps, current_provider_id: current, proxy_port: c.proxy_port });
}

/// After switching to a provider that exists, it is the current provider.
pub proof fn law_switch_then_current(c: ConfigView, id: Seq<char>)
    requires
        find_provider(c.providers, id) is Some,
    ensures
        ({
            let s = ConfigView { current_provider_id: Some(id), ..c };
            match current_index(s) {
                Some(i) => s.providers[i].id == id,
                None => false,
            }
        }),
{
    lemma_find_provider(c.providers, id);
}

} // verus!
