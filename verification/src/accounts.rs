use vstd::prelude::*;

use base64::Engine;

use crate::json::{as_str, jget, jpath, json_of_bytes, or_else, parse_json_bytes, str_field, Json, JsonView};
use crate::store::{join_path, joined};
use crate::text::{find_first, is_blank, lower, lowercase, owned, str_eq, trim, trimmed};
use crate::transform::nonempty;

verus! {

broadcast use vstd::std_specs::vec::group_vec_axioms;

/// Which Codex account the live Codex home is signed in with.
pub enum CodexActiveSource {
    LiveSystem,
    ManagedAccount { id: String },
}

pub enum SourceView {
    LiveSystem,
    ManagedAccount(Seq<char>),
}

impl CodexActiveSource {
    pub open spec fn view(&self) -> SourceView {
        match self {
            CodexActiveSource::LiveSystem => SourceView::LiveSystem,
            CodexActiveSource::ManagedAccount { id } => SourceView::ManagedAccount(id@),
        }
    }

    pub fn duplicate(&self) -> (r: Self)
        ensures
            r.view() == self.view(),
    {
        match self {
            CodexActiveSource::LiveSystem => CodexActiveSource::LiveSystem,
            CodexActiveSource::ManagedAccount { id } => CodexActiveSource::ManagedAccount { id: owned(id.as_str()) },
        }
    }

    /// `==` on sources.
    pub fn same_as(&self, other: &Self) -> (r: bool)
        ensures
            r == (self.view() == other.view()),
    {
        match (self, other) {
            (CodexActiveSource::LiveSystem, CodexActiveSource::LiveSystem) => true,
            (CodexActiveSource::ManagedAccount { id: a }, CodexActiveSource::ManagedAccount { id: b }) => str_eq(
                a.as_str(),
                b.as_str(),
            ),
            _ => false,
        }
    }
}

pub open spec fn opt_view(o: Option<String>) -> Option<Seq<char>> {
    match o {
        Some(s) => Some(s@),
        None => None,
    }
}

pub fn clone_opt(o: &Option<String>) -> (r: Option<String>)
    ensures
        opt_view(r) == opt_view(*o),
{
    match o {
        Some(s) => Some(owned(s.as_str())),
        None => None,
    }
}

pub fn opt_eq(a: &Option<String>, b: &Option<String>) -> (r: bool)
    ensures
        r == (opt_view(*a) == opt_view(*b)),
{
    match (a, b) {
        (Some(x), Some(y)) => str_eq(x.as_str(), y.as_str()),
        (None, None) => true,
        _ => false,
    }
}

/// An e-mail address as accounts are compared by: trimmed, ASCII lower case.
pub open spec fn normalized_email(email: Seq<char>) -> Seq<char> {
    lower(trim(email))
}

pub fn normalize_email(email: &str) -> (r: String)
    ensures
        r@ == normalized_email(email@),
{
    let t = trimmed(email);
    lowercase(t.as_str())
}

/// A Codex account signed in inside a Codex home of its own.
pub struct ManagedCodexAccount {
    pub id: String,
    pub email: String,
    pub workspace_label: Option<String>,
    pub workspace_account_id: Option<String>,
    pub auth_fingerprint: Option<String>,
    pub managed_home_path: String,
    pub created_at: i64,
    pub updated_at: i64,
    pub last_authenticated_at: Option<i64>,
}

pub struct AccountView {
    pub id: Seq<char>,
    pub email: Seq<char>,
    pub workspace_label: Option<Seq<char>>,
    pub workspace_account_id: Option<Seq<char>>,
    pub auth_fingerprint: Option<Seq<char>>,
    pub managed_home_path: Seq<char>,
    pub created_at: i64,
    pub updated_at: i64,
    pub last_authenticated_at: Option<i64>,
}

impl ManagedCodexAccount {
    pub open spec fn view(&self) -> AccountView {
        AccountView {
            id: self.id@,
            email: self.email@,
            workspace_label: opt_view(self.workspace_label),
            workspace_account_id: opt_view(self.workspace_account_id),
            auth_fingerprint: opt_view(self.auth_fingerprint),
            managed_home_path: self.managed_home_path@,
            created_at: self.created_at,
            updated_at: self.updated_at,
            last_authenticated_at: self.last_authenticated_at,
        }
    }
}

pub open spec fn accounts_view(accounts: Seq<ManagedCodexAccount>) -> Seq<AccountView> {
    accounts.map_values(|a: ManagedCodexAccount| a.view())
}

/// The account that the live Codex home is signed in with.
pub struct ObservedSystemCodexAccount {
    pub email: String,
    pub workspace_label: Option<String>,
    pub workspace_account_id: Option<String>,
    pub auth_fingerprint: Option<String>,
    pub codex_home_path: String,
}

pub struct ObservedView {
    pub email: Seq<char>,
    pub workspace_label: Option<Seq<char>>,
    pub workspace_account_id: Option<Seq<char>>,
    pub auth_fingerprint: Option<Seq<char>>,
    pub codex_home_path: Seq<char>,
}

impl ObservedSystemCodexAccount {
    pub open spec fn view(&self) -> ObservedView {
        ObservedView {
            email: self.email@,
            workspace_label: opt_view(self.workspace_label),
            workspace_account_id: opt_view(self.workspace_account_id),
            auth_fingerprint: opt_view(self.auth_fingerprint),
            codex_home_path: self.codex_home_path@,
        }
    }
}

/// Two accounts are the same identity: same e-mail and same workspace.
pub open spec fn same_identity(a: AccountView, email: Seq<char>, workspace: Option<Seq<char>>) -> bool {
    a.email == email && a.workspace_account_id == workspace
}

impl ManagedCodexAccount {
    /// A managed account for the observed account, stored in
    /// `managed_home_path`, created and authenticated at `now`, under a
    /// fresh random id.
    pub fn from_live_account(account: &ObservedSystemCodexAccount, managed_home_path: String, now: i64) -> (r:
        Self)
        ensures
            r.view() == (AccountView {
                id: r.view().id,
                email: normalized_email(account.email@),
                workspace_label: account.view().workspace_label,
                workspace_account_id: account.view().workspace_account_id,
                auth_fingerprint: account.view().auth_fingerprint,
                managed_home_path: managed_home_path@,
                created_at: now,
                updated_at: now,
                last_authenticated_at: Some(now),
            }),
            r.view().id.len() == 36,
    {
        ManagedCodexAccount {
            id: crate::store::new_uuid_text(),
            email: normalize_email(account.email.as_str()),
            workspace_label: clone_opt(&account.workspace_label),
            workspace_account_id: clone_opt(&account.workspace_account_id),
            auth_fingerprint: clone_opt(&account.auth_fingerprint),
            managed_home_path: managed_home_path,
            created_at: now,
            updated_at: now,
            last_authenticated_at: Some(now),
        }
    }

    /// Whether the observed account is this account's identity.
    pub fn matches_live_account(&self, account: &ObservedSystemCodexAccount) -> (r: bool)
        ensures
            r == same_identity(self.view(), normalized_email(account.email@), account.view().workspace_account_id),
    {
        let email = normalize_email(account.email.as_str());
        str_eq(self.email.as_str(), email.as_str()) && opt_eq(
            &self.workspace_account_id,
            &account.workspace_account_id,
        )
    }

    /// Takes the observed account's details, as authenticated at `now`.
    pub fn refresh_from_live_account(&mut self, account: &ObservedSystemCodexAccount, now: i64)
        ensures
            final(self).view() == (AccountView {
                email: normalized_email(account.email@),
                workspace_label: account.view().workspace_label,
                workspace_account_id: account.view().workspace_account_id,
                auth_fingerprint: account.view().auth_fingerprint,
                updated_at: now,
                last_authenticated_at: Some(now),
                ..old(self).view()
            }),
    {
        self.email = normalize_email(account.email.as_str());
        self.workspace_label = clone_opt(&account.workspace_label);
        self.workspace_account_id = clone_opt(&account.workspace_account_id);
        self.auth_fingerprint = clone_opt(&account.auth_fingerprint);
        self.updated_at = now;
        self.last_authenticated_at = Some(now);
    }

    pub fn duplicate(&self) -> (r: Self)
        ensures
            r.view() == self.view(),
    {
        ManagedCodexAccount {
            id: owned(self.id.as_str()),
            email: owned(self.email.as_str()),
            workspace_label: clone_opt(&self.workspace_label),
            workspace_account_id: clone_opt(&self.workspace_account_id),
            auth_fingerprint: clone_opt(&self.auth_fingerprint),
            managed_home_path: owned(self.managed_home_path.as_str()),
            created_at: self.created_at,
            updated_at: self.updated_at,
            last_authenticated_at: self.last_authenticated_at,
        }
    }
}

/// An account as the account list shows it.
pub struct VisibleCodexAccount {
    pub id: String,
    pub email: String,
    pub workspace_label: Option<String>,
    pub workspace_account_id: Option<String>,
    pub selection_source: CodexActiveSource,
    pub is_active: bool,
    pub is_live: bool,
}

pub struct VisibleView {
    pub id: Seq<char>,
    pub email: Seq<char>,
    pub workspace_label: Option<Seq<char>>,
    pub workspace_account_id: Option<Seq<char>>,
    pub selection_source: SourceView,
    pub is_active: bool,
    pub is_live: bool,
}

impl VisibleCodexAccount {
    pub open spec fn view(&self) -> VisibleView {
        VisibleView {
            id: self.id@,
            email: self.email@,
            workspace_label: opt_view(self.workspace_label),
            workspace_account_id: opt_view(self.workspace_account_id),
            selection_source: self.selection_source.view(),
            is_active: self.is_active,
            is_live: self.is_live,
        }
    }
}

/// The account list.
pub struct CodexVisibleAccountProjection {
    pub accounts: Vec<VisibleCodexAccount>,
    pub has_unreadable_store: bool,
}

pub open spec fn visible_view(v: Seq<VisibleCodexAccount>) -> Seq<VisibleView> {
    v.map_values(|a: VisibleCodexAccount| a.view())
}

/// The stored managed accounts.
pub struct ManagedCodexAccountSet {
    pub version: u32,
    pub accounts: Vec<ManagedCodexAccount>,
}

/// The accounts with later duplicates of an identity dropped.
pub open spec fn deduped(s: Seq<AccountView>) -> Seq<AccountView>
    decreases s.len(),
{
    if s.len() == 0 {
        Seq::empty()
    } else {
        let d = deduped(s.drop_last());
        let a = s.last();
        if exists|j: int| 0 <= j < d.len() && same_identity(d[j], a.email, a.workspace_account_id) {
            d
        } else {
            d.push(a)
        }
    }
}

pub open spec fn identities_unique(s: Seq<AccountView>) -> bool {
    forall|i: int, j: int|
        0 <= i < j < s.len() ==> !same_identity(s[i], s[j].email, s[j].workspace_account_id)
}

impl ManagedCodexAccountSet {
    /// A set of the accounts in which each identity occurs once: the first
    /// account of an identity stays.
    pub fn new(accounts: Vec<ManagedCodexAccount>) -> (r: Self)
        ensures
            r.version == 1,
            accounts_view(r.accounts@) == deduped(accounts_view(accounts@)),
    {
        let ghost av = accounts_view(accounts@);
        let mut sanitized: Vec<ManagedCodexAccount> = Vec::new();
        let mut i: usize = 0;
        assert(av.take(0) =~= Seq::<AccountView>::empty());
        assert(accounts_view(sanitized@) =~= Seq::<AccountView>::empty());
        while i < accounts.len()
            invariant
                i <= accounts@.len(),
                av == accounts_view(accounts@),
                accounts_view(sanitized@) == deduped(av.take(i as int)),
            decreases accounts@.len() - i,
        {
            assert(av.take(i + 1).drop_last() =~= av.take(i as int));
            let account = &accounts[i];
            assert(av.take(i + 1).last() == account.view());
            let ghost sv = accounts_view(sanitized@);
            let mut duplicate = false;
            let mut j: usize = 0;
            while j < sanitized.len()
                invariant
                    j <= sanitized@.len(),
                    sv == accounts_view(sanitized@),
                    duplicate == exists|k: int|
                        0 <= k < j && same_identity(sv[k], account.view().email, account.view().workspace_account_id),
                decreases sanitized@.len() - j,
            {
                if str_eq(sanitized[j].email.as_str(), account.email.as_str()) && opt_eq(
                    &sanitized[j].workspace_account_id,
                    &account.workspace_account_id,
                ) {
                    assert(same_identity(sv[j as int], account.view().email, account.view().workspace_account_id));
                    duplicate = true;
                }
                j = j + 1;
            }
            if !duplicate {
                let a = account.duplicate();
                let ghost a_view = a.view();
                sanitized.push(a);
                assert(accounts_view(sanitized@) =~= sv.push(a_view));
            }
            i = i + 1;
        }
        assert(av.take(accounts@.len() as int) =~= av);
        ManagedCodexAccountSet { version: 1, accounts: sanitized }
    }
}

/// No identity occurs twice after deduplication.
pub proof fn law_deduped_unique(s: Seq<AccountView>)
    ensures
        identities_unique(deduped(s)),
    decreases s.len(),
{
    if s.len() > 0 {
        law_deduped_unique(s.drop_last());
    }
}

/// Every identity of the input is still present after deduplication.
pub proof fn law_deduped_keeps_identities(s: Seq<AccountView>, i: int)
    requires
        0 <= i < s.len(),
    ensures
        exists|j: int| 0 <= j < deduped(s).len() && same_identity(deduped(s)[j], s[i].email, s[i].workspace_account_id),
    decreases s.len(),
{
    let d = deduped(s.drop_last());
    let a = s.last();
    let found = exists|j: int| 0 <= j < d.len() && same_identity(d[j], a.email, a.workspace_account_id);
    if found {
        assert(deduped(s) == d);
    } else {
        assert(deduped(s) == d.push(a));
    }
    if i < s.len() - 1 {
        assert(s.drop_last()[i] == s[i]);
        law_deduped_keeps_identities(s.drop_last(), i);
        let j = choose|j: int| 0 <= j < d.len() && same_identity(d[j], s[i].email, s[i].workspace_account_id);
        assert(deduped(s)[j] == d[j]);
    } else {
        if found {
            let j = choose|j: int| 0 <= j < d.len() && same_identity(d[j], a.email, a.workspace_account_id);
            assert(deduped(s)[j] == d[j]);
        } else {
            assert(deduped(s)[d.len() as int] == s.last());
        }
    }
}

/// Where the managed account list is stored.
pub struct FileManagedCodexAccountStore {
    pub path: String,
}

impl FileManagedCodexAccountStore {
    /// The store under the application data directory `data_root`.
    pub fn default(data_root: &str) -> (r: Self)
        ensures
            r.path@ == joined(data_root@, "managed-codex-accounts.json"@),
    {
        FileManagedCodexAccountStore { path: default_managed_accounts_path(data_root) }
    }
}

/// Where the active source is stored.
pub struct FileActiveSourceStore {
    pub path: String,
}

impl FileActiveSourceStore {
    /// The store under the application data directory `data_root`.
    pub fn default(data_root: &str) -> (r: Self)
        ensures
            r.path@ == joined(data_root@, "active-source.json"@),
    {
        FileActiveSourceStore { path: join_path(data_root, "active-source.json") }
    }
}

pub fn default_managed_accounts_path(data_root: &str) -> (r: String)
    ensures
        r@ == joined(data_root@, "managed-codex-accounts.json"@),
{
    join_path(data_root, "managed-codex-accounts.json")
}

pub fn default_managed_homes_root(data_root: &str) -> (r: String)
    ensures
        r@ == joined(data_root@, "managed-codex-homes"@),
{
    default_managed_homes_root_for(data_root)
}

pub fn default_managed_homes_root_for(root: &str) -> (r: String)
    ensures
        r@ == joined(root@, "managed-codex-homes"@),
{
    join_path(root, "managed-codex-homes")
}

/// The copy of the live system home kept while a managed account is active.
pub fn live_snapshot_home(data_root: &str) -> (r: String)
    ensures
        r@ == joined(data_root@, "live-system-home"@),
{
    join_path(data_root, "live-system-home")
}

/// The id of a managed account among the stored accounts, if any has it.
pub open spec fn account_index(accounts: Seq<AccountView>, id: Seq<char>) -> Option<int>
    decreases accounts.len(),
{
    if accounts.len() == 0 {
        None
    } else if accounts[0].id == id {
        Some(0)
    } else {
        match account_index(accounts.drop_first(), id) {
            Some(i) => Some(i + 1),
            None => None,
        }
    }
}

proof fn lemma_account_index_first(s: Seq<AccountView>, id: Seq<char>, i: int)
    requires
        0 <= i < s.len(),
        s[i].id == id,
        forall|j: int| 0 <= j < i ==> s[j].id != id,
    ensures
        account_index(s, id) == Some(i),
    decreases i,
{
    if i > 0 {
        lemma_account_index_first(s.drop_first(), id, i - 1);
    }
}

proof fn lemma_account_index_none(s: Seq<AccountView>, id: Seq<char>)
    requires
        forall|j: int| 0 <= j < s.len() ==> s[j].id != id,
    ensures
        account_index(s, id) is None,
    decreases s.len(),
{
    if s.len() > 0 {
        lemma_account_index_none(s.drop_first(), id);
    }
}

/// Position of the first stored account with id `id`.
pub fn account_position(accounts: &Vec<ManagedCodexAccount>, id: &str) -> (r: Option<usize>)
    ensures
        match r {
            Some(i) => i < accounts@.len() && account_index(accounts_view(accounts@), id@) == Some(i as int),
            None => account_index(accounts_view(accounts@), id@) is None,
        },
{
    let ghost av = accounts_view(accounts@);
    let mut i: usize = 0;
    while i < accounts.len()
        invariant
            i <= accounts@.len(),
            av == accounts_view(accounts@),
            forall|j: int| 0 <= j < i ==> av[j].id != id@,
        decreases accounts@.len() - i,
    {
        if str_eq(accounts[i].id.as_str(), id) {
            proof {
                lemma_account_index_first(av, id@, i as int);
            }
            return Some(i);
        }
        i = i + 1;
    }
    proof {
        lemma_account_index_none(av, id@);
    }
    None
}

/// Position of the first stored account of the observed account's identity.
pub fn matching_account_position(accounts: &Vec<ManagedCodexAccount>, live: &ObservedSystemCodexAccount) -> (r:
    Option<usize>)
    ensures
        match r {
            Some(i) => i < accounts@.len() && same_identity(
                accounts_view(accounts@)[i as int],
                normalized_email(live.email@),
                live.view().workspace_account_id,
            ) && forall|j: int|
                0 <= j < i ==> !same_identity(
                    #[trigger] accounts_view(accounts@)[j],
                    normalized_email(live.email@),
                    live.view().workspace_account_id,
                ),
            None => forall|j: int|
                0 <= j < accounts@.len() ==> !same_identity(
                    #[trigger] accounts_view(accounts@)[j],
                    normalized_email(live.email@),
                    live.view().workspace_account_id,
                ),
        },
{
    let mut i: usize = 0;
    while i < accounts.len()
        invariant
            i <= accounts@.len(),
            forall|j: int|
                0 <= j < i ==> !same_identity(
                    #[trigger] accounts_view(accounts@)[j],
                    normalized_email(live.email@),
                    live.view().workspace_account_id,
                ),
        decreases accounts@.len() - i,
    {
        if accounts[i].matches_live_account(live) {
            return Some(i);
        }
        i = i + 1;
    }
    None
}

/// The active source, with a managed account that is no longer stored
/// replaced by the live system account.
pub open spec fn sanitized(source: SourceView, accounts: Seq<AccountView>) -> SourceView {
    match source {
        SourceView::ManagedAccount(id) => if account_index(accounts, id) is Some {
            source
        } else {
            SourceView::LiveSystem
        },
        SourceView::LiveSystem => SourceView::LiveSystem,
    }
}

pub fn sanitize_active_source(source: CodexActiveSource, accounts: &Vec<ManagedCodexAccount>) -> (r:
    CodexActiveSource)
    ensures
        r.view() == sanitized(source.view(), accounts_view(accounts@)),
{
    match source {
        CodexActiveSource::ManagedAccount { id } => {
            if account_position(accounts, id.as_str()).is_some() {
                CodexActiveSource::ManagedAccount { id }
            } else {
                CodexActiveSource::LiveSystem
            }
        },
        CodexActiveSource::LiveSystem => CodexActiveSource::LiveSystem,
    }
}

/// The source an account id selects: `live` names the live system account.
pub fn switch_target(account_id: &str, accounts: &Vec<ManagedCodexAccount>) -> (r: CodexActiveSource)
    ensures
        r.view() == sanitized(
            if account_id@ == "live"@ {
                SourceView::LiveSystem
            } else {
                SourceView::ManagedAccount(account_id@)
            },
            accounts_view(accounts@),
        ),
{
    let target = if str_eq(account_id, "live") {
        CodexActiveSource::LiveSystem
    } else {
        CodexActiveSource::ManagedAccount { id: owned(account_id) }
    };
    sanitize_active_source(target, accounts)
}

/// The managed home a source reads from: none for the live system account,
/// the stored account's home for a managed one.
pub fn managed_home_for_source(source: &CodexActiveSource, accounts: &Vec<ManagedCodexAccount>) -> (r: Result<
    Option<String>,
    String,
>)
    ensures
        match source.view() {
            SourceView::LiveSystem => r matches Ok(None),
            SourceView::ManagedAccount(id) => match account_index(accounts_view(accounts@), id) {
                Some(i) => r matches Ok(Some(h)) && h@ == accounts_view(accounts@)[i].managed_home_path,
                None => r matches Err(e) && e@ == "target managed account is missing"@,
            },
        },
{
    match source {
        CodexActiveSource::LiveSystem => Ok(None),
        CodexActiveSource::ManagedAccount { id } => match account_position(accounts, id.as_str()) {
            Some(i) => Ok(Some(owned(accounts[i].managed_home_path.as_str()))),
            None => Err(owned("target managed account is missing")),
        },
    }
}

/// Whether the account list reads the live account from the snapshot home
/// (a managed account is active) rather than from the live home.
pub fn projection_reads_snapshot(active_source: &CodexActiveSource, accounts: &Vec<ManagedCodexAccount>) -> (r:
    bool)
    ensures
        r == (sanitized(active_source.view(), accounts_view(accounts@)) is ManagedAccount),
{
    let s = sanitize_active_source(active_source.duplicate(), accounts);
    match s {
        CodexActiveSource::ManagedAccount { .. } => true,
        CodexActiveSource::LiveSystem => false,
    }
}

pub open spec fn live_entry(live: ObservedView, active: SourceView) -> VisibleView {
    VisibleView {
        id: "live"@,
        email: live.email,
        workspace_label: live.workspace_label,
        workspace_account_id: live.workspace_account_id,
        selection_source: SourceView::LiveSystem,
        is_active: active == SourceView::LiveSystem,
        is_live: true,
    }
}

pub open spec fn managed_entry(a: AccountView, active: SourceView) -> VisibleView {
    VisibleView {
        id: a.id,
        email: a.email,
        workspace_label: a.workspace_label,
        workspace_account_id: a.workspace_account_id,
        selection_source: SourceView::ManagedAccount(a.id),
        is_active: active == SourceView::ManagedAccount(a.id),
        is_live: false,
    }
}

/// The account list: the live account first, if one was found, then each
/// stored account; the active one marked.
pub open spec fn projection_of(
    active: SourceView,
    stored: Seq<AccountView>,
    live: Option<ObservedView>,
) -> Seq<VisibleView> {
    let a = sanitized(active, stored);
    let head = match live {
        Some(l) => seq![live_entry(l, a)],
        None => Seq::empty(),
    };
    head + stored.map_values(|s: AccountView| managed_entry(s, a))
}

/// The account list for the active source and the stored accounts;
/// `live_account` is the account found in the home that
/// `projection_reads_snapshot` names.
pub fn load_projection(
    active_source: CodexActiveSource,
    stored_accounts: Vec<ManagedCodexAccount>,
    has_unreadable_store: bool,
    live_account: Option<ObservedSystemCodexAccount>,
) -> (r: CodexVisibleAccountProjection)
    ensures
        r.has_unreadable_store == has_unreadable_store,
        visible_view(r.accounts@) == projection_of(
            active_source.view(),
            accounts_view(stored_accounts@),
            match live_account {
                Some(l) => Some(l.view()),
                None => None,
            },
        ),
{
    let active = sanitize_active_source(active_source, &stored_accounts);
    let ghost av = accounts_view(stored_accounts@);
    let mut accounts: Vec<VisibleCodexAccount> = Vec::new();
    match live_account {
        Some(live) => {
            let is_active = match &active {
                CodexActiveSource::LiveSystem => true,
                _ => false,
            };
            accounts.push(
                VisibleCodexAccount {
                    id: owned("live"),
                    email: live.email,
                    workspace_label: live.workspace_label,
                    workspace_account_id: live.workspace_account_id,
                    selection_source: CodexActiveSource::LiveSystem,
                    is_active: is_active,
                    is_live: true,
                },
            );
        },
        None => {},
    }
    let ghost head = visible_view(accounts@);
    let mut i: usize = 0;
    assert(visible_view(accounts@) =~= head + av.take(0).map_values(|s: AccountView| managed_entry(s, active.view())));
    while i < stored_accounts.len()
        invariant
            i <= stored_accounts@.len(),
            av == accounts_view(stored_accounts@),
            visible_view(accounts@) == head + av.take(i as int).map_values(
                |s: AccountView| managed_entry(s, active.view()),
            ),
        decreases stored_accounts@.len() - i,
    {
        let a = &stored_accounts[i];
        let is_active = match &active {
            CodexActiveSource::ManagedAccount { id } => str_eq(id.as_str(), a.id.as_str()),
            CodexActiveSource::LiveSystem => false,
        };
        let entry = VisibleCodexAccount {
            id: owned(a.id.as_str()),
            email: owned(a.email.as_str()),
            workspace_label: clone_opt(&a.workspace_label),
            workspace_account_id: clone_opt(&a.workspace_account_id),
            selection_source: CodexActiveSource::ManagedAccount { id: owned(a.id.as_str()) },
            is_active: is_active,
            is_live: false,
        };
        let ghost before = visible_view(accounts@);
        let ghost e_view = entry.view();
        accounts.push(entry);
        assert(e_view == managed_entry(av[i as int], active.view()));
        assert(visible_view(accounts@) =~= before.push(e_view));
        assert(av.take(i + 1).map_values(|s: AccountView| managed_entry(s, active.view())) =~= av.take(
            i as int,
        ).map_values(|s: AccountView| managed_entry(s, active.view())).push(e_view));
        i = i + 1;
    }
    assert(av.take(stored_accounts@.len() as int) =~= av);
    CodexVisibleAccountProjection { accounts: accounts, has_unreadable_store: has_unreadable_store }
}


/// What `base64::engine::general_purpose::URL_SAFE_NO_PAD.decode` gives for
/// `text`: the decoded bytes, or `None` where it fails.
pub uninterp spec fn base64_url_decoded(text: Seq<char>) -> Option<Seq<u8>>;

/// `URL_SAFE_NO_PAD.decode(text).ok()` of the base64 crate; the result is
/// the named decoding of `text`.
#[verifier::external_body]
fn decode_base64_url(text: &str) -> (r: Option<Vec<u8>>)
    ensures
        match r {
            Some(b) => base64_url_decoded(text@) == Some(b@),
            None => base64_url_decoded(text@) is None,
        },
{
    base64::engine::general_purpose::URL_SAFE_NO_PAD.decode(text).ok()
}

/// The second `.`-separated piece of a token (`split('.').nth(1)`).
pub open spec fn second_segment(token: Seq<char>) -> Option<Seq<char>> {
    match find_first(token, "."@) {
        Some(i) => {
            let rest = token.skip(i + 1);
            match find_first(rest, "."@) {
                Some(k) => Some(rest.take(k)),
                None => Some(rest),
            }
        },
        None => None,
    }
}

/// The decoded payload of a JSON web token.
pub open spec fn token_payload(token: Seq<char>) -> Option<Seq<u8>> {
    match second_segment(token) {
        Some(p) => base64_url_decoded(p),
        None => None,
    }
}

/// The payload bytes of an id token, decoded from its second segment.
pub fn id_token_payload(token: &str) -> (r: Option<Vec<u8>>)
    ensures
        match r {
            Some(b) => token_payload(token@) == Some(b@),
            None => token_payload(token@) is None,
        },
{
    let v = crate::text::chars_of(token);
    let dot = crate::text::chars_of(".");
    let first = match crate::text::find_first_of(&v, &dot) {
        Some(i) => i,
        None => return None,
    };
    proof {
        reveal_strlit(".");
        crate::text::lemma_find_first_from_occurs(v@, dot@, 0);
    }
    assert(dot@.len() == 1);
    assert(first < v.len());
    let rest = crate::text::sub_vec(&v, first + 1, v.len());
    assert(rest@ =~= v@.skip(first + 1));
    let segment = match crate::text::find_first_of(&rest, &dot) {
        Some(k) => {
            proof {
                crate::text::lemma_find_first_from_occurs(rest@, dot@, 0);
            }
            let s = crate::text::string_of_range(&rest, 0, k);
            assert(s@ =~= rest@.take(k as int));
            s
        },
        None => crate::text::string_of(&rest),
    };
    decode_base64_url(segment.as_str())
}

/// The id token of a Codex `auth.json`, unless it holds an API key.
pub open spec fn auth_id_token_of(auth: JsonView) -> Option<Seq<char>> {
    let has_key = match str_field(auth, "OPENAI_API_KEY"@) {
        Some(k) => !is_blank(k),
        None => false,
    };
    if has_key {
        None
    } else {
        match jget(auth, "tokens"@) {
            Some(t) => as_str(or_else(jget(t, "id_token"@), jget(t, "idToken"@))),
            None => None,
        }
    }
}

/// The claims of an id token: its payload, decoded and parsed as JSON.
pub open spec fn token_claims(token: Seq<char>) -> Option<JsonView> {
    match token_payload(token) {
        Some(b) => json_of_bytes(b),
        None => None,
    }
}

/// The claims of an id token, where its payload decodes and parses.
pub fn id_token_claims(token: &str) -> (r: Option<Json>)
    ensures
        match r {
            Some(c) => token_claims(token@) == Some(c.view()),
            None => token_claims(token@) is None,
        },
{
    match id_token_payload(token) {
        Some(b) => match parse_json_bytes(b.as_slice()) {
            Ok(c) => Some(c),
            Err(_) => None,
        },
        None => None,
    }
}

/// The account signed in according to the bytes of an `auth.json`: the
/// e-mail and workspace account in the claims of its id token, where it
/// parses, holds one and the claims give an e-mail.
pub open spec fn observed_from_auth(raw: Seq<u8>, codex_home_path: Seq<char>) -> Option<ObservedView> {
    match json_of_bytes(raw) {
        Some(auth) => match auth_id_token_of(auth) {
            Some(tok) => match token_claims(tok) {
                Some(c) => match claims_email(c) {
                    Some(e) => Some(
                        ObservedView {
                            email: e,
                            workspace_label: None,
                            workspace_account_id: claims_account_id(c),
                            auth_fingerprint: None,
                            codex_home_path: codex_home_path,
                        },
                    ),
                    None => None,
                },
                None => None,
            },
            None => None,
        },
        None => None,
    }
}

/// The account signed in inside a Codex home, given the bytes of its
/// `auth.json` and the home's path (`observed_from_auth`).
pub fn discover_account_in_auth(raw: &[u8], codex_home_path: &str) -> (r: Option<ObservedSystemCodexAccount>)
    ensures
        match observed_from_auth(raw@, codex_home_path@) {
            Some(o) => r matches Some(a) && a.view() == o,
            None => r is None,
        },
{
    let auth = match parse_json_bytes(raw) {
        Ok(a) => a,
        Err(_) => return None,
    };
    let token = match auth_id_token(&auth) {
        Some(t) => t,
        None => return None,
    };
    let claims = match id_token_claims(token.as_str()) {
        Some(c) => c,
        None => return None,
    };
    observed_account_from_claims(&claims, codex_home_path)
}

pub fn auth_id_token(auth: &Json) -> (r: Option<String>)
    ensures
        opt_view(r) == auth_id_token_of(auth.view()),
{
    match auth.get_str("OPENAI_API_KEY") {
        Some(k) => {
            if !crate::text::blank(k.as_str()) {
                return None;
            }
        },
        None => {},
    }
    let tokens = match auth.get("tokens") {
        Some(t) => t,
        None => return None,
    };
    let token = match tokens.get("id_token") {
        Some(v) => v,
        None => match tokens.get("idToken") {
            Some(v) => v,
            None => return None,
        },
    };
    match token.as_str() {
        Some(s) => Some(owned(s.as_str())),
        None => None,
    }
}

/// The e-mail claim of an id token payload, normalized, if not empty.
pub open spec fn claims_email(claims: JsonView) -> Option<Seq<char>> {
    match str_field(claims, "email"@) {
        Some(e) => nonempty(Some(normalized_email(e))),
        None => None,
    }
}

/// The ChatGPT account id claim of an id token payload, trimmed, if not
/// empty.
pub open spec fn claims_account_id(claims: JsonView) -> Option<Seq<char>> {
    match as_str(jpath(claims, "https://api.openai.com/auth"@, "chatgpt_account_id"@)) {
        Some(a) => nonempty(Some(trim(a))),
        None => None,
    }
}

pub fn email_from_claims(claims: &Json) -> (r: Option<String>)
    ensures
        opt_view(r) == claims_email(claims.view()),
{
    match claims.get_str("email") {
        Some(e) => {
            let n = normalize_email(e.as_str());
            if n.as_str().is_empty() {
                None
            } else {
                Some(n)
            }
        },
        None => None,
    }
}

fn account_id_from_claims(claims: &Json) -> (r: Option<String>)
    ensures
        opt_view(r) == claims_account_id(claims.view()),
{
    match claims.get_path("https://api.openai.com/auth", "chatgpt_account_id") {
        Some(v) => match v.as_str() {
            Some(a) => {
                let t = trimmed(a.as_str());
                if t.as_str().is_empty() {
                    None
                } else {
                    Some(t)
                }
            },
            None => None,
        },
        None => None,
    }
}

/// The account an id token payload names, found in `codex_home_path`; none
/// without an e-mail claim.
pub fn observed_account_from_claims(claims: &Json, codex_home_path: &str) -> (r: Option<
    ObservedSystemCodexAccount,
>)
    ensures
        match claims_email(claims.view()) {
            Some(e) => r matches Some(a) && a.view() == (ObservedView {
                email: e,
                workspace_label: None,
                workspace_account_id: claims_account_id(claims.view()),
                auth_fingerprint: None,
                codex_home_path: codex_home_path@,
            }),
            None => r is None,
        },
{
    let email = match email_from_claims(claims) {
        Some(e) => e,
        None => return None,
    };
    Some(
        ObservedSystemCodexAccount {
            email: email,
            workspace_label: None,
            workspace_account_id: account_id_from_claims(claims),
            auth_fingerprint: None,
            codex_home_path: owned(codex_home_path),
        },
    )
}

/// A copy of `auth.json` from one Codex home to another (or its removal
/// from the target, where the source has none).
pub struct AuthSync {
    pub source_home: String,
    pub target_home: String,
}

/// One step that puts a home's `auth.json` into the live home, and the
/// error when that home has no `auth.json`.
pub struct AuthStep {
    pub sync: AuthSync,
    pub missing_auth_error: String,
}

/// What switching accounts does to the live Codex home.
pub enum SwitchPlan {
    /// Source and target are the same: nothing to do.
    Unchanged,
    /// First save the live `auth.json` to the snapshot home where given;
    /// then keep a checkpoint of the live `auth.json` and apply `apply`,
    /// putting the checkpoint back if that fails.
    Switch { snapshot_first: Option<AuthSync>, apply: Result<AuthStep, String> },
}

/// A switch plan as plain values: the copies it makes (source home,
/// target home) and the error of its main step where that home lacks
/// `auth.json`.
pub enum PlanView {
    Unchanged,
    Switch {
        snapshot_first: Option<(Seq<char>, Seq<char>)>,
        apply: Result<(Seq<char>, Seq<char>, Seq<char>), Seq<char>>,
    },
}

impl SwitchPlan {
    pub open spec fn view(&self) -> PlanView {
        match self {
            SwitchPlan::Unchanged => PlanView::Unchanged,
            SwitchPlan::Switch { snapshot_first, apply } => PlanView::Switch {
                snapshot_first: match snapshot_first {
                    Some(s) => Some((s.source_home@, s.target_home@)),
                    None => None,
                },
                apply: match apply {
                    Ok(step) => Ok((step.sync.source_home@, step.sync.target_home@, step.missing_auth_error@)),
                    Err(e) => Err(e@),
                },
            },
        }
    }
}

/// The plan for switching the live home `live` (with its snapshot home
/// `snapshot`) from `current` to `target`, where `home` is the target's
/// managed home: the live `auth.json` is saved first when leaving the live
/// account, then the target's `auth.json` is put in place.
pub open spec fn switch_plan(
    live: Seq<char>,
    snapshot: Seq<char>,
    current: SourceView,
    target: SourceView,
    home: Option<Seq<char>>,
) -> PlanView {
    if current == target {
        PlanView::Unchanged
    } else {
        PlanView::Switch {
            snapshot_first: if current is LiveSystem && target is ManagedAccount {
                Some((live, snapshot))
            } else {
                None
            },
            apply: match target {
                SourceView::LiveSystem => Ok((snapshot, live, "live system snapshot is missing auth.json"@)),
                SourceView::ManagedAccount(_) => match home {
                    Some(h) => Ok((h, live, "target managed home is missing auth.json"@)),
                    None => Err("target managed home is missing"@),
                },
            },
        }
    }
}

/// Leaving the live account for a managed one and coming back puts the live
/// `auth.json` back: the first switch saves it to the snapshot home, the
/// second copies it from there into the live home.
pub proof fn law_switch_round_trip(live: Seq<char>, snapshot: Seq<char>, id: Seq<char>, home: Seq<char>)
    ensures
        switch_plan(live, snapshot, SourceView::LiveSystem, SourceView::ManagedAccount(id), Some(home))
            matches PlanView::Switch { snapshot_first: Some((from, to)), apply: Ok(_) } && from == live && to
            == snapshot,
        switch_plan(live, snapshot, SourceView::ManagedAccount(id), SourceView::LiveSystem, None)
            matches PlanView::Switch { snapshot_first: None, apply: Ok((from, to, _)) } && from == snapshot && to
            == live,
{
}

/// Switches the live Codex home between the live system account and
/// managed accounts, touching only `auth.json`.
pub struct CodexHomeTransaction {
    pub live_home: String,
    pub live_snapshot_home: String,
}

impl CodexHomeTransaction {
    pub fn new(live_home: String, live_snapshot_home: String) -> (r: Self)
        ensures
            r.live_home@ == live_home@,
            r.live_snapshot_home@ == live_snapshot_home@,
    {
        CodexHomeTransaction { live_home, live_snapshot_home }
    }

    /// The transaction on the Codex home `codex_home`, with its snapshot
    /// under the application data directory `data_root`.
    pub fn default(codex_home: &str, data_root: &str) -> (r: Self)
        ensures
            r.live_home@ == codex_home@,
            r.live_snapshot_home@ == joined(data_root@, "live-system-home"@),
    {
        CodexHomeTransaction::new(owned(codex_home), live_snapshot_home(data_root))
    }

    /// Putting a managed home's `auth.json` into the live home.
    pub fn apply_managed_auth(&self, managed_home: &str) -> (r: AuthStep)
        ensures
            r.sync.source_home@ == managed_home@,
            r.sync.target_home@ == self.live_home@,
            r.missing_auth_error@ == "target managed home is missing auth.json"@,
    {
        AuthStep {
            sync: AuthSync { source_home: owned(managed_home), target_home: owned(self.live_home.as_str()) },
            missing_auth_error: owned("target managed home is missing auth.json"),
        }
    }

    /// Putting the saved live system `auth.json` back into the live home.
    pub fn restore_live_auth(&self) -> (r: AuthStep)
        ensures
            r.sync.source_home@ == self.live_snapshot_home@,
            r.sync.target_home@ == self.live_home@,
            r.missing_auth_error@ == "live system snapshot is missing auth.json"@,
    {
        AuthStep {
            sync: AuthSync {
                source_home: owned(self.live_snapshot_home.as_str()),
                target_home: owned(self.live_home.as_str()),
            },
            missing_auth_error: owned("live system snapshot is missing auth.json"),
        }
    }

    /// The plan for switching from `current_source` to `target_source`.
    pub fn switch(
        &self,
        current_source: &CodexActiveSource,
        target_source: &CodexActiveSource,
        target_managed_home: Option<&str>,
    ) -> (r: SwitchPlan)
        ensures
            r.view() == switch_plan(
                self.live_home@,
                self.live_snapshot_home@,
                current_source.view(),
                target_source.view(),
                match target_managed_home {
                    Some(h) => Some(h@),
                    None => None,
                },
            ),
    {
        if current_source.same_as(target_source) {
            return SwitchPlan::Unchanged;
        }
        let snapshot_first = match (current_source, target_source) {
            (CodexActiveSource::LiveSystem, CodexActiveSource::ManagedAccount { .. }) => Some(
                AuthSync {
                    source_home: owned(self.live_home.as_str()),
                    target_home: owned(self.live_snapshot_home.as_str()),
                },
            ),
            _ => None,
        };
        let apply = match target_source {
            CodexActiveSource::LiveSystem => Ok(self.restore_live_auth()),
            CodexActiveSource::ManagedAccount { .. } => match target_managed_home {
                Some(h) => Ok(self.apply_managed_auth(h)),
                None => Err(owned("target managed home is missing")),
            },
        };
        SwitchPlan::Switch { snapshot_first, apply }
    }
}

/// Runs `codex login` for a managed home: the decisions of the wait loop.
pub struct ManagedCodexLoginRunner;

/// What the login wait loop does next.
pub enum LoginPoll {
    /// The login process ended: its outcome.
    Finished(Result<String, String>),
    /// Still running within the timeout: wait and ask again.
    Wait,
    /// Still running past the timeout: kill it and fail with this message.
    TimedOut(String),
}

impl ManagedCodexLoginRunner {
    /// The error for a login process that could not be started.
    pub fn spawn_error(not_found: bool, message: String) -> (r: String)
        ensures
            not_found ==> r@ == "Codex CLI not found. Install the Codex CLI and try again."@,
            !not_found ==> r@ == message@,
    {
        if not_found {
            owned("Codex CLI not found. Install the Codex CLI and try again.")
        } else {
            message
        }
    }

    /// The next step, given how the process exited (success and exit
    /// code), if it did, and how long it has run.
    pub fn poll(exit: Option<(bool, Option<i32>)>, elapsed_ms: u64, timeout_ms: u64) -> (r: LoginPoll)
        ensures
            match exit {
                Some((true, _)) => r matches LoginPoll::Finished(Ok(m)) && m@ == "Codex login completed"@,
                Some((false, code)) => r matches LoginPoll::Finished(Err(m)) && m@ == "Codex login exited with status "@
                    + crate::text::signed_decimal(
                    match code {
                        Some(c) => c as int,
                        None => -1,
                    },
                ),
                None => if elapsed_ms < timeout_ms {
                    r is Wait
                } else {
                    r matches LoginPoll::TimedOut(m) && m@
                        == "Codex login timed out. Finish browser sign-in, then retry."@
                },
            },
    {
        match exit {
            Some((true, _)) => LoginPoll::Finished(Ok(owned("Codex login completed"))),
            Some((false, code)) => {
                let c: i64 = match code {
                    Some(c) => c as i64,
                    None => -1,
                };
                let digits = crate::text::i64_text(c);
                LoginPoll::Finished(Err(crate::text::concat("Codex login exited with status ", digits.as_str())))
            },
            None => if elapsed_ms < timeout_ms {
                LoginPoll::Wait
            } else {
                LoginPoll::TimedOut(owned("Codex login timed out. Finish browser sign-in, then retry."))
            },
        }
    }
}

proof fn lemma_account_index_absent(accounts: Seq<AccountView>, id: Seq<char>)
    ensures
        account_index(accounts, id) is None <==> forall|j: int| 0 <= j < accounts.len() ==> #[trigger] accounts[j].id != id,
    decreases accounts.len(),
{
    if accounts.len() > 0 {
        lemma_account_index_absent(accounts.drop_first(), id);
        assert forall|j: int| 0 <= j < accounts.len() - 1 implies #[trigger] accounts.drop_first()[j] == accounts[j + 1] by {}
        if account_index(accounts, id) is None {
            assert forall|j: int| 0 <= j < accounts.len() implies #[trigger] accounts[j].id != id by {
                if j > 0 {
                    assert(accounts.drop_first()[j - 1] == accounts[j]);
                }
            }
        } else {
            if accounts[0].id != id {
                let k = choose|k: int| 0 <= k < accounts.drop_first().len() && accounts.drop_first()[k].id == id;
                assert(accounts[k + 1].id == id);
            }
        }
    }
}

/// In the account list exactly the account in use is marked active: the
/// live entry (listed first, where the live account was found) when the
/// live system account is in use, or a managed account that is no longer
/// stored was selected; a stored account's entry when it is the selected
/// managed account. Every stored account is listed, in order.
pub proof fn law_projection_marks_active(active: SourceView, stored: Seq<AccountView>, live: Option<ObservedView>)
    ensures
        ({
            let p = projection_of(active, stored, live);
            let h: int = if live is Some {
                1
            } else {
                0
            };
            &&& p.len() == h + stored.len()
            &&& live is Some ==> {
                &&& p[0].id == "live"@
                &&& p[0].is_live
                &&& p[0].email == live->0.email
                &&& (p[0].is_active <==> (active == SourceView::LiveSystem || (active is ManagedAccount && forall|
                    j: int,
                | 0 <= j < stored.len() ==> #[trigger] stored[j].id != active->ManagedAccount_0)))
            }
            &&& forall|j: int|
                0 <= j < stored.len() ==> {
                    &&& (#[trigger] p[h + j]).id == stored[j].id
                    &&& !p[h + j].is_live
                    &&& (p[h + j].is_active <==> active == SourceView::ManagedAccount(stored[j].id))
                }
        }),
{
    let a = sanitized(active, stored);
    match active {
        SourceView::ManagedAccount(id) => lemma_account_index_absent(stored, id),
        SourceView::LiveSystem => {},
    }
    let p = projection_of(active, stored, live);
    let h: int = if live is Some {
        1
    } else {
        0
    };
    assert forall|j: int| 0 <= j < stored.len() implies {
        &&& (#[trigger] p[h + j]).id == stored[j].id
        &&& !p[h + j].is_live
        &&& (p[h + j].is_active <==> active == SourceView::ManagedAccount(stored[j].id))
    } by {
        assert(p[h + j] == managed_entry(stored[j], a));
        match active {
            SourceView::ManagedAccount(id) => {
                if account_index(stored, id) is None {
                    assert(stored[j].id != id);
                }
            },
            SourceView::LiveSystem => {},
        }
    }
}

} // verus!
