use vstd::prelude::*;

use crate::json::{as_array, as_str, jget, jpath, json_of_text, parse_json_text, str_field, Json, JsonView};
use crate::sorting::{indices, ints, is_permutation, key_lt, keys_view, lex_lt, sorted_order, sorted_stably};
use crate::store::{join_path, joined};
use crate::text::{chars_of, concat, is_ws, join, lines, lines_of, owned, strings_view, push_char, str_eq, string_of, trim, trimmed, u64_text};

verus! {

broadcast use vstd::std_specs::vec::group_vec_axioms;

/// The folder where deleted sessions are backed up, inside a Codex home.
pub fn default_session_backup_root(codex_home: &str) -> (r: String)
    ensures
        r@ == joined(joined(codex_home@, "backups"@), "sessions"@),
{
    let backups = join_path(codex_home, "backups");
    join_path(backups.as_str(), "sessions")
}

pub open spec fn is_sep(c: char) -> bool {
    c == '/' || c == '\\'
}

/// `s` without trailing `/` and `\` characters.
pub open spec fn strip_seps(s: Seq<char>) -> Seq<char>
    decreases s.len(),
{
    if s.len() > 0 && is_sep(s.last()) {
        strip_seps(s.drop_last())
    } else {
        s
    }
}

/// A project path as projects are compared by: trimmed, without trailing
/// separators.
pub open spec fn normalized_path(path: Seq<char>) -> Seq<char> {
    strip_seps(trim(path))
}

fn strip_seps_of(s: &str) -> (r: String)
    ensures
        r@ == strip_seps(s@),
{
    let v = chars_of(s);
    let mut end = v.len();
    assert(v@.subrange(0, end as int) =~= v@);
    while end > 0 && (v[end - 1] == '/' || v[end - 1] == '\\')
        invariant
            end <= v@.len(),
            strip_seps(v@.subrange(0, end as int)) == strip_seps(v@),
        decreases end,
    {
        assert(v@.subrange(0, end as int).drop_last() =~= v@.subrange(0, end - 1));
        end = end - 1;
    }
    crate::text::string_of_range(&v, 0, end)
}

pub fn normalize_project_path(path: &str) -> (r: String)
    ensures
        r@ == normalized_path(path@),
{
    let t = trimmed(path);
    strip_seps_of(t.as_str())
}

/// The characters after the last separator.
pub open spec fn last_segment(s: Seq<char>) -> Seq<char>
    decreases s.len(),
{
    if s.len() > 0 && !is_sep(s.last()) {
        last_segment(s.drop_last()).push(s.last())
    } else {
        Seq::empty()
    }
}

/// The name a project is shown under: the last part of its path, or a
/// placeholder for an empty path.
pub open spec fn project_name_of(path: Seq<char>) -> Seq<char> {
    let t = normalized_path(path);
    if t.len() == 0 {
        "未指定项目"@
    } else {
        last_segment(t)
    }
}

pub fn project_name_from_path(path: &str) -> (r: String)
    ensures
        r@ == project_name_of(path@),
{
    let t = normalize_project_path(path);
    let v = chars_of(t.as_str());
    if v.len() == 0 {
        return owned("未指定项目");
    }
    let mut start = v.len();
    assert(v@.subrange(start as int, v@.len() as int) =~= Seq::<char>::empty());
    assert(v@.subrange(0, start as int) =~= v@);
    assert(last_segment(v@) + Seq::<char>::empty() =~= last_segment(v@));
    while start > 0 && !(v[start - 1] == '/' || v[start - 1] == '\\')
        invariant
            start <= v@.len(),
            last_segment(v@) == last_segment(v@.subrange(0, start as int)) + v@.subrange(start as int, v@.len() as int),
        decreases start,
    {
        let ghost pre = v@.subrange(0, start as int);
        assert(pre.drop_last() =~= v@.subrange(0, start - 1));
        assert(v@.subrange(start - 1, v@.len() as int) =~= seq![v@[start - 1]] + v@.subrange(start as int, v@.len() as int));
        assert(last_segment(pre) == last_segment(pre.drop_last()).push(pre.last()));
        assert(last_segment(pre.drop_last()).push(pre.last()) + v@.subrange(start as int, v@.len() as int)
            =~= last_segment(v@.subrange(0, start - 1)) + v@.subrange(start - 1, v@.len() as int));
        start = start - 1;
    }
    assert(last_segment(v@.subrange(0, start as int)) =~= Seq::<char>::empty());
    assert(Seq::<char>::empty() + v@.subrange(start as int, v@.len() as int) =~= v@.subrange(start as int, v@.len() as int));
    crate::text::string_of_range(&v, start, v.len())
}

/// The words of `s` (`split_whitespace`): finished words and the word being
/// read.
pub open spec fn word_split(s: Seq<char>) -> (Seq<Seq<char>>, Seq<char>)
    decreases s.len(),
{
    if s.len() == 0 {
        (Seq::empty(), Seq::empty())
    } else {
        let (w, cur) = word_split(s.drop_last());
        if is_ws(s.last()) {
            if cur.len() > 0 {
                (w.push(cur), Seq::empty())
            } else {
                (w, Seq::empty())
            }
        } else {
            (w, cur.push(s.last()))
        }
    }
}

pub open spec fn words(s: Seq<char>) -> Seq<Seq<char>> {
    let (w, cur) = word_split(s);
    if cur.len() > 0 {
        w.push(cur)
    } else {
        w
    }
}

/// `s` with runs of whitespace collapsed to one space and trimmed.
pub open spec fn cleaned(s: Seq<char>) -> Seq<char> {
    join(words(s), " "@)
}

pub fn clean_text(text: &str) -> (r: String)
    ensures
        r@ == cleaned(text@),
{
    let v = chars_of(text);
    let mut done: Vec<String> = Vec::new();
    let mut cur: Vec<char> = Vec::new();
    let mut i: usize = 0;
    assert(v@.take(0) =~= Seq::<char>::empty());
    assert(crate::text::strings_view(done@) =~= Seq::<Seq<char>>::empty());
    while i < v.len()
        invariant
            i <= v@.len(),
            word_split(v@.take(i as int)) == (crate::text::strings_view(done@), cur@),
        decreases v@.len() - i,
    {
        assert(v@.take(i + 1).drop_last() =~= v@.take(i as int));
        let c = v[i];
        if crate::text::is_whitespace(c) {
            if cur.len() > 0 {
                let ghost before = crate::text::strings_view(done@);
                done.push(string_of(&cur));
                assert(crate::text::strings_view(done@) =~= before.push(cur@));
            }
            cur = Vec::new();
            assert(cur@ =~= Seq::<char>::empty());
        } else {
            cur.push(c);
        }
        i = i + 1;
    }
    assert(v@.take(v@.len() as int) =~= v@);
    if cur.len() > 0 {
        let ghost before = crate::text::strings_view(done@);
        done.push(string_of(&cur));
        assert(crate::text::strings_view(done@) =~= before.push(cur@));
    }
    assert(done@.map_values(|p: String| p@) =~= crate::text::strings_view(done@));
    crate::text::join_strings(&done, " ")
}

/// A session title: the cleaned text, cut to 72 characters with `…`.
pub open spec fn title_of(text: Seq<char>) -> Seq<char> {
    let c = cleaned(text);
    if c.len() <= 72 {
        c
    } else {
        c.take(72).push('…')
    }
}

pub fn title_from_text(text: &str) -> (r: String)
    ensures
        r@ == title_of(text@),
{
    let c = clean_text(text);
    let v = chars_of(c.as_str());
    if v.len() <= 72 {
        return c;
    }
    let mut t = crate::text::string_of_range(&v, 0, 72);
    push_char(&mut t, '…');
    assert(v@.subrange(0, 72) =~= v@.take(72));
    t
}

/// The role shown for a message role.
pub open spec fn role_of(role: Seq<char>) -> Seq<char> {
    if role == "assistant"@ {
        "assistant"@
    } else if role == "user"@ {
        "user"@
    } else if role == "system"@ {
        "system"@
    } else {
        "message"@
    }
}

pub fn normalize_role(role: &str) -> (r: &'static str)
    ensures
        r@ == role_of(role@),
{
    if str_eq(role, "assistant") {
        "assistant"
    } else if str_eq(role, "user") {
        "user"
    } else if str_eq(role, "system") {
        "system"
    } else {
        "message"
    }
}


/// A Codex session as the session list shows it.
pub struct CodexSessionSummary {
    pub id: String,
    pub title: String,
    pub created_at: i64,
    pub updated_at: i64,
    pub activity_rank: i64,
    pub sidebar_order: i64,
    pub message_count: usize,
    pub file_size_bytes: u64,
    pub relative_path: String,
    pub project_path: String,
    pub project_name: String,
}

pub struct SummaryView {
    pub id: Seq<char>,
    pub title: Seq<char>,
    pub created_at: i64,
    pub updated_at: i64,
    pub activity_rank: i64,
    pub sidebar_order: i64,
    pub message_count: usize,
    pub file_size_bytes: u64,
    pub relative_path: Seq<char>,
    pub project_path: Seq<char>,
    pub project_name: Seq<char>,
}

impl CodexSessionSummary {
    pub open spec fn view(&self) -> SummaryView {
        SummaryView {
            id: self.id@,
            title: self.title@,
            created_at: self.created_at,
            updated_at: self.updated_at,
            activity_rank: self.activity_rank,
            sidebar_order: self.sidebar_order,
            message_count: self.message_count,
            file_size_bytes: self.file_size_bytes,
            relative_path: self.relative_path@,
            project_path: self.project_path@,
            project_name: self.project_name@,
        }
    }

    pub fn duplicate(&self) -> (r: Self)
        ensures
            r.view() == self.view(),
    {
        CodexSessionSummary {
            id: owned(self.id.as_str()),
            title: owned(self.title.as_str()),
            created_at: self.created_at,
            updated_at: self.updated_at,
            activity_rank: self.activity_rank,
            sidebar_order: self.sidebar_order,
            message_count: self.message_count,
            file_size_bytes: self.file_size_bytes,
            relative_path: owned(self.relative_path.as_str()),
            project_path: owned(self.project_path.as_str()),
            project_name: owned(self.project_name.as_str()),
        }
    }
}

pub open spec fn summaries_view(v: Seq<CodexSessionSummary>) -> Seq<SummaryView> {
    v.map_values(|s: CodexSessionSummary| s.view())
}

pub open spec fn chars_key(s: Seq<char>) -> Seq<int> {
    s.map_values(|c: char| (c as u32) as int)
}

/// Where a session sorts: sessions active in Codex first (by sidebar order,
/// then activity, both descending), then by update time and sidebar order
/// descending, then by title.
pub open spec fn session_key(s: SummaryView, updated_ms: int) -> Seq<int> {
    let active = s.activity_rank > 0;
    seq![
        if active {
            0
        } else {
            1
        },
        if active {
            -s.sidebar_order
        } else {
            0
        },
        if active {
            -s.activity_rank
        } else {
            0
        },
        -updated_ms,
        -s.sidebar_order as int,
    ] + chars_key(s.title)
}

/// The order of two keys, as `cmp` gives it.
pub enum SessionOrder {
    Less,
    Equal,
    Greater,
}

pub open spec fn order_of(a: Seq<int>, b: Seq<int>) -> SessionOrder {
    if lex_lt(a, b) {
        SessionOrder::Less
    } else if lex_lt(b, a) {
        SessionOrder::Greater
    } else {
        SessionOrder::Equal
    }
}

fn chars_key_of(s: &str, key: &mut Vec<i128>)
    ensures
        ints(final(key)@) == ints(old(key)@) + chars_key(s@),
{
    let v = chars_of(s);
    let ghost start = ints(key@);
    let mut i: usize = 0;
    while i < v.len()
        invariant
            i <= v@.len(),
            v@ == s@,
            ints(key@) == start + chars_key(v@.take(i as int)),
        decreases v@.len() - i,
    {
        let ghost before = ints(key@);
        key.push(v[i] as u32 as i128);
        assert(ints(key@) =~= before.push((v@[i as int] as u32) as int));
        assert(chars_key(v@.take(i + 1)) =~= chars_key(v@.take(i as int)).push((v@[i as int] as u32) as int));
        i = i + 1;
    }
    assert(v@.take(v@.len() as int) =~= v@);
}

/// The sort key of a session updated at `updated_ms`.
pub fn session_sort_key(s: &CodexSessionSummary, updated_ms: i64) -> (r: Vec<i128>)
    ensures
        ints(r@) == session_key(s.view(), updated_ms as int),
{
    let active = s.activity_rank > 0;
    let mut key: Vec<i128> = Vec::new();
    key.push(if active {
        0
    } else {
        1
    });
    key.push(if active {
        -(s.sidebar_order as i128)
    } else {
        0
    });
    key.push(if active {
        -(s.activity_rank as i128)
    } else {
        0
    });
    key.push(-(updated_ms as i128));
    key.push(-(s.sidebar_order as i128));
    assert(ints(key@) =~= seq![
        if active {
            0
        } else {
            1
        },
        if active {
            -s.sidebar_order
        } else {
            0
        },
        if active {
            -s.activity_rank
        } else {
            0
        },
        -(updated_ms as int),
        -s.sidebar_order as int,
    ]);
    chars_key_of(s.title.as_str(), &mut key);
    key
}

/// How two sessions, updated at the given times, sort.
pub fn compare_session_ordering(
    left: &CodexSessionSummary,
    left_updated_at_ms: i64,
    right: &CodexSessionSummary,
    right_updated_at_ms: i64,
) -> (r: SessionOrder)
    ensures
        r == order_of(
            session_key(left.view(), left_updated_at_ms as int),
            session_key(right.view(), right_updated_at_ms as int),
        ),
{
    let l = session_sort_key(left, left_updated_at_ms);
    let r = session_sort_key(right, right_updated_at_ms);
    if key_lt(&l, &r) {
        SessionOrder::Less
    } else if key_lt(&r, &l) {
        SessionOrder::Greater
    } else {
        SessionOrder::Equal
    }
}

/// Update times in milliseconds fit in `i64`.
pub open spec fn times_fit(s: SummaryView) -> bool {
    -9223372036854775 <= s.updated_at <= 9223372036854775
}

/// Whether every session's update time is in the range the session order
/// can handle (`times_fit`).
pub fn session_times_fit(sessions: &Vec<CodexSessionSummary>) -> (r: bool)
    ensures
        r == (forall|i: int| 0 <= i < sessions@.len() ==> times_fit(#[trigger] sessions@[i].view())),
{
    let mut i: usize = 0;
    while i < sessions.len()
        invariant
            i <= sessions@.len(),
            forall|j: int| 0 <= j < i ==> times_fit(#[trigger] sessions@[j].view()),
        decreases sessions@.len() - i,
    {
        let t = sessions[i].updated_at;
        if t < -9223372036854775 || t > 9223372036854775 {
            assert(!times_fit(sessions@[i as int].view()));
            return false;
        }
        i = i + 1;
    }
    true
}

/// How two sessions sort by their update times.
pub fn compare_session_summaries(left: &CodexSessionSummary, right: &CodexSessionSummary) -> (r: SessionOrder)
    requires
        times_fit(left.view()),
        times_fit(right.view()),
    ensures
        r == order_of(
            session_key(left.view(), left.updated_at * 1000),
            session_key(right.view(), right.updated_at * 1000),
        ),
{
    compare_session_ordering(left, left.updated_at * 1000, right, right.updated_at * 1000)
}

/// `dst` is `src` sorted stably by `keys` (the keys of `src`'s items).
pub open spec fn sorted_by<T>(src: Seq<T>, keys: Seq<Seq<int>>, dst: Seq<T>) -> bool {
    exists|order: Seq<int>|
        is_permutation(order, src.len()) && sorted_stably(keys, order) && dst == order.map_values(
            |i: int| src[i],
        )
}

pub open spec fn summary_keys(s: Seq<SummaryView>) -> Seq<Seq<int>> {
    s.map_values(|x: SummaryView| session_key(x, x.updated_at * 1000))
}

/// The sessions of a project, sorted for display.
pub fn sorted_project_sessions(sessions: &Vec<CodexSessionSummary>) -> (r: Vec<CodexSessionSummary>)
    requires
        forall|i: int| 0 <= i < sessions@.len() ==> times_fit(#[trigger] sessions@[i].view()),
    ensures
        sorted_by(summaries_view(sessions@), summary_keys(summaries_view(sessions@)), summaries_view(r@)),
{
    let ghost sv = summaries_view(sessions@);
    let mut keys: Vec<Vec<i128>> = Vec::new();
    let mut i: usize = 0;
    while i < sessions.len()
        invariant
            i <= sessions@.len(),
            sv == summaries_view(sessions@),
            forall|j: int| 0 <= j < sessions@.len() ==> times_fit(#[trigger] sessions@[j].view()),
            keys_view(keys@) == summary_keys(sv).take(i as int),
        decreases sessions@.len() - i,
    {
        assert(times_fit(sessions@[i as int].view()));
        let k = session_sort_key(&sessions[i], sessions[i].updated_at * 1000);
        let ghost before = keys_view(keys@);
        keys.push(k);
        assert(keys_view(keys@) =~= before.push(ints(k@)));
        assert(summary_keys(sv).take(i + 1) =~= summary_keys(sv).take(i as int).push(summary_keys(sv)[i as int]));
        i = i + 1;
    }
    assert(summary_keys(sv).take(sessions@.len() as int) =~= summary_keys(sv));
    let order = sorted_order(&keys);
    let mut r: Vec<CodexSessionSummary> = Vec::new();
    let mut k: usize = 0;
    while k < order.len()
        invariant
            k <= order@.len(),
            sv == summaries_view(sessions@),
            is_permutation(indices(order@), sessions@.len() as nat),
            summaries_view(r@) == indices(order@).take(k as int).map_values(|i: int| sv[i]),
        decreases order@.len() - k,
    {
        assert(indices(order@)[k as int] == order@[k as int] as int);
        let s = sessions[order[k]].duplicate();
        let ghost before = summaries_view(r@);
        let ghost s_view = s.view();
        r.push(s);
        assert(summaries_view(r@) =~= before.push(s_view));
        assert(indices(order@).take(k + 1).map_values(|i: int| sv[i]) =~= indices(order@).take(k as int).map_values(
            |i: int| sv[i],
        ).push(sv[order@[k as int] as int]));
        k = k + 1;
    }
    assert(indices(order@).take(order@.len() as int) =~= indices(order@));
    assert(keys_view(keys@) == summary_keys(sv));
    r
}


/// A project with its sessions.
pub struct CodexSessionProjectGroup {
    pub project_name: String,
    pub project_path: String,
    pub updated_at: i64,
    pub sessions: Vec<CodexSessionSummary>,
}

pub struct GroupView {
    pub project_name: Seq<char>,
    pub project_path: Seq<char>,
    pub updated_at: i64,
    pub sessions: Seq<SummaryView>,
}

impl CodexSessionProjectGroup {
    pub open spec fn view(&self) -> GroupView {
        GroupView {
            project_name: self.project_name@,
            project_path: self.project_path@,
            updated_at: self.updated_at,
            sessions: summaries_view(self.sessions@),
        }
    }
}

pub open spec fn groups_view(v: Seq<CodexSessionProjectGroup>) -> Seq<GroupView> {
    v.map_values(|g: CodexSessionProjectGroup| g.view())
}

/// Position of the first group whose path normalizes to `path`.
pub open spec fn group_index(groups: Seq<GroupView>, path: Seq<char>) -> Option<int>
    decreases groups.len(),
{
    if groups.len() == 0 {
        None
    } else if normalized_path(groups[0].project_path) == path {
        Some(0)
    } else {
        match group_index(groups.drop_first(), path) {
            Some(i) => Some(i + 1),
            None => None,
        }
    }
}

pub open spec fn max_i64(a: i64, b: i64) -> i64 {
    if a >= b {
        a
    } else {
        b
    }
}

/// Sessions collected into projects by normalized path, in order of first
/// appearance; a project is as recent as its latest session.
pub open spec fn grouped(sessions: Seq<SummaryView>) -> Seq<GroupView>
    decreases sessions.len(),
{
    if sessions.len() == 0 {
        Seq::empty()
    } else {
        let g = grouped(sessions.drop_last());
        let s = sessions.last();
        let p = normalized_path(s.project_path);
        match group_index(g, p) {
            Some(i) => g.update(
                i,
                GroupView {
                    updated_at: max_i64(g[i].updated_at, s.updated_at),
                    sessions: g[i].sessions.push(s),
                    ..g[i]
                },
            ),
            None => g.push(
                GroupView { project_name: s.project_name, project_path: p, updated_at: s.updated_at, sessions: seq![s] },
            ),
        }
    }
}

/// Where a project sorts: most recent first, then by name.
pub open spec fn group_key(g: GroupView) -> Seq<int> {
    seq![-g.updated_at as int] + chars_key(g.project_name)
}

pub open spec fn group_keys(gs: Seq<GroupView>) -> Seq<Seq<int>> {
    gs.map_values(|g: GroupView| group_key(g))
}

/// `dst` is `src` with each project's sessions sorted for display.
pub open spec fn sessions_sorted_in(src: Seq<GroupView>, dst: Seq<GroupView>) -> bool {
    &&& dst.len() == src.len()
    &&& forall|i: int|
        0 <= i < src.len() ==> dst[i].project_name == src[i].project_name && dst[i].project_path
            == src[i].project_path && dst[i].updated_at == src[i].updated_at && sorted_by(
            src[i].sessions,
            summary_keys(src[i].sessions),
            #[trigger] dst[i].sessions,
        )
}

/// The projects of a session list: grouped, each project's sessions
/// sorted, the projects sorted by recency then name.
pub open spec fn grouped_for_display(sessions: Seq<SummaryView>, result: Seq<GroupView>) -> bool {
    exists|inner: Seq<GroupView>|
        sessions_sorted_in(grouped(sessions), inner) && sorted_by(inner, group_keys(inner), result)
}

proof fn lemma_group_index(groups: Seq<GroupView>, path: Seq<char>)
    ensures
        match group_index(groups, path) {
            Some(i) => 0 <= i < groups.len() && normalized_path(groups[i].project_path) == path && forall|j: int|
                0 <= j < i ==> normalized_path(#[trigger] groups[j].project_path) != path,
            None => forall|j: int| 0 <= j < groups.len() ==> normalized_path(#[trigger] groups[j].project_path) != path,
        },
    decreases groups.len(),
{
    if groups.len() > 0 && normalized_path(groups[0].project_path) != path {
        lemma_group_index(groups.drop_first(), path);
        assert forall|j: int| 0 < j < groups.len() implies groups[j] == groups.drop_first()[j - 1] by {}
    }
}

proof fn lemma_group_index_first(groups: Seq<GroupView>, path: Seq<char>, i: int)
    requires
        0 <= i < groups.len(),
        normalized_path(groups[i].project_path) == path,
        forall|j: int| 0 <= j < i ==> normalized_path(#[trigger] groups[j].project_path) != path,
    ensures
        group_index(groups, path) == Some(i),
    decreases i,
{
    if i > 0 {
        assert forall|j: int| 0 <= j < i - 1 implies normalized_path(#[trigger] groups.drop_first()[j].project_path)
            != path by {
            assert(groups.drop_first()[j] == groups[j + 1]);
        }
        lemma_group_index_first(groups.drop_first(), path, i - 1);
    }
}

proof fn lemma_group_index_none(groups: Seq<GroupView>, path: Seq<char>)
    requires
        forall|j: int| 0 <= j < groups.len() ==> normalized_path(#[trigger] groups[j].project_path) != path,
    ensures
        group_index(groups, path) is None,
    decreases groups.len(),
{
    if groups.len() > 0 {
        assert forall|j: int| 0 <= j < groups.len() - 1 implies normalized_path(
            #[trigger] groups.drop_first()[j].project_path,
        ) != path by {
            assert(groups.drop_first()[j] == groups[j + 1]);
        }
        lemma_group_index_none(groups.drop_first(), path);
    }
}

fn duplicate_group(g: &CodexSessionProjectGroup) -> (r: CodexSessionProjectGroup)
    ensures
        r.view() == g.view(),
{
    let mut sessions: Vec<CodexSessionSummary> = Vec::new();
    let mut i: usize = 0;
    while i < g.sessions.len()
        invariant
            i <= g.sessions@.len(),
            summaries_view(sessions@) == summaries_view(g.sessions@).take(i as int),
        decreases g.sessions@.len() - i,
    {
        let s = g.sessions[i].duplicate();
        let ghost before = summaries_view(sessions@);
        let ghost sv = s.view();
        sessions.push(s);
        assert(summaries_view(sessions@) =~= before.push(sv));
        assert(summaries_view(g.sessions@).take(i + 1) =~= summaries_view(g.sessions@).take(i as int).push(sv));
        i = i + 1;
    }
    assert(summaries_view(g.sessions@).take(g.sessions@.len() as int) =~= summaries_view(g.sessions@));
    CodexSessionProjectGroup {
        project_name: owned(g.project_name.as_str()),
        project_path: owned(g.project_path.as_str()),
        updated_at: g.updated_at,
        sessions,
    }
}

/// The groups taken in `order`.
fn pick_groups(groups: &Vec<CodexSessionProjectGroup>, order: &Vec<usize>) -> (r: Vec<CodexSessionProjectGroup>)
    requires
        is_permutation(indices(order@), groups@.len() as nat),
    ensures
        groups_view(r@) == indices(order@).map_values(|i: int| groups_view(groups@)[i]),
{
    let ghost gv = groups_view(groups@);
    let mut r: Vec<CodexSessionProjectGroup> = Vec::new();
    let mut k: usize = 0;
    while k < order.len()
        invariant
            k <= order@.len(),
            gv == groups_view(groups@),
            is_permutation(indices(order@), groups@.len() as nat),
            groups_view(r@) == indices(order@).take(k as int).map_values(|i: int| gv[i]),
        decreases order@.len() - k,
    {
        assert(indices(order@)[k as int] == order@[k as int] as int);
        let g = duplicate_group(&groups[order[k]]);
        let ghost before = groups_view(r@);
        let ghost g_view = g.view();
        r.push(g);
        assert(groups_view(r@) =~= before.push(g_view));
        assert(indices(order@).take(k + 1).map_values(|i: int| gv[i]) =~= indices(order@).take(k as int).map_values(
            |i: int| gv[i],
        ).push(gv[order@[k as int] as int]));
        k = k + 1;
    }
    assert(indices(order@).take(order@.len() as int) =~= indices(order@));
    r
}

fn group_sort_key(g: &CodexSessionProjectGroup) -> (r: Vec<i128>)
    ensures
        ints(r@) == group_key(g.view()),
{
    let mut key: Vec<i128> = Vec::new();
    key.push(-(g.updated_at as i128));
    assert(ints(key@) =~= seq![-g.updated_at as int]);
    chars_key_of(g.project_name.as_str(), &mut key);
    key
}

/// The groups sorted stably by `group_key`.
fn sort_groups(groups: &Vec<CodexSessionProjectGroup>) -> (r: Vec<CodexSessionProjectGroup>)
    ensures
        sorted_by(groups_view(groups@), group_keys(groups_view(groups@)), groups_view(r@)),
{
    let ghost gv = groups_view(groups@);
    let mut keys: Vec<Vec<i128>> = Vec::new();
    let mut i: usize = 0;
    while i < groups.len()
        invariant
            i <= groups@.len(),
            gv == groups_view(groups@),
            keys_view(keys@) == group_keys(gv).take(i as int),
        decreases groups@.len() - i,
    {
        let k = group_sort_key(&groups[i]);
        let ghost before = keys_view(keys@);
        keys.push(k);
        assert(keys_view(keys@) =~= before.push(ints(k@)));
        assert(group_keys(gv).take(i + 1) =~= group_keys(gv).take(i as int).push(group_keys(gv)[i as int]));
        i = i + 1;
    }
    assert(group_keys(gv).take(groups@.len() as int) =~= group_keys(gv));
    let order = sorted_order(&keys);
    pick_groups(groups, &order)
}

pub open spec fn all_times_fit(gs: Seq<GroupView>) -> bool {
    forall|k: int, m: int|
        0 <= k < gs.len() && 0 <= m < gs[k].sessions.len() ==> times_fit(#[trigger] gs[k].sessions[m])
}

pub open spec fn group_fits(g: GroupView) -> bool {
    forall|m: int| 0 <= m < g.sessions.len() ==> times_fit(#[trigger] g.sessions[m])
}

proof fn lemma_fit_update(gs: Seq<GroupView>, k: int, g: GroupView)
    requires
        all_times_fit(gs),
        0 <= k < gs.len(),
        group_fits(g),
    ensures
        all_times_fit(gs.update(k, g)),
{
    let u = gs.update(k, g);
    assert forall|a: int, m: int| 0 <= a < u.len() && 0 <= m < u[a].sessions.len() implies times_fit(
        #[trigger] u[a].sessions[m],
    ) by {
        if a != k {
            assert(u[a] == gs[a]);
        }
    }
}

proof fn lemma_fit_push(gs: Seq<GroupView>, g: GroupView)
    requires
        all_times_fit(gs),
        group_fits(g),
    ensures
        all_times_fit(gs.push(g)),
{
    let u = gs.push(g);
    assert forall|a: int, m: int| 0 <= a < u.len() && 0 <= m < u[a].sessions.len() implies times_fit(
        #[trigger] u[a].sessions[m],
    ) by {
        if a < gs.len() {
            assert(u[a] == gs[a]);
        }
    }
}

/// Projects of a session list: grouped by normalized path, each project's
/// sessions sorted, the projects sorted by recency then name.
pub fn group_sessions_by_project(sessions: &Vec<CodexSessionSummary>) -> (r: Vec<CodexSessionProjectGroup>)
    requires
        forall|i: int| 0 <= i < sessions@.len() ==> times_fit(#[trigger] sessions@[i].view()),
    ensures
        grouped_for_display(summaries_view(sessions@), groups_view(r@)),
{
    let ghost sv = summaries_view(sessions@);
    let mut projects: Vec<CodexSessionProjectGroup> = Vec::new();
    let mut i: usize = 0;
    assert(sv.take(0) =~= Seq::<SummaryView>::empty());
    assert(groups_view(projects@) =~= Seq::<GroupView>::empty());
    while i < sessions.len()
        invariant
            i <= sessions@.len(),
            sv == summaries_view(sessions@),
            groups_view(projects@) == grouped(sv.take(i as int)),
            forall|j: int| 0 <= j < sessions@.len() ==> times_fit(#[trigger] sessions@[j].view()),
            all_times_fit(groups_view(projects@)),
        decreases sessions@.len() - i,
    {
        assert(sv.take(i + 1).drop_last() =~= sv.take(i as int));
        let session = &sessions[i];
        assert(sv.take(i + 1).last() == session.view());
        let path = normalize_project_path(session.project_path.as_str());
        let ghost gv = groups_view(projects@);
        let mut found: Option<usize> = None;
        let mut k: usize = 0;
        while k < projects.len()
            invariant
                k <= projects@.len(),
                gv == groups_view(projects@),
                found matches Some(f) ==> f < projects@.len() && normalized_path(gv[f as int].project_path) == path@
                    && forall|j: int| 0 <= j < f ==> normalized_path(#[trigger] gv[j].project_path) != path@,
                found is None ==> forall|j: int| 0 <= j < k ==> normalized_path(#[trigger] gv[j].project_path) != path@,
            decreases projects@.len() - k,
        {
            let p = normalize_project_path(projects[k].project_path.as_str());
            if found.is_none() && str_eq(p.as_str(), path.as_str()) {
                found = Some(k);
            }
            k = k + 1;
        }
        match found {
            Some(k) => {
                proof {
                    lemma_group_index_first(gv, path@, k as int);
                }
                let mut g = duplicate_group(&projects[k]);
                if session.updated_at > g.updated_at {
                    g.updated_at = session.updated_at;
                }
                let ghost before = summaries_view(g.sessions@);
                g.sessions.push(session.duplicate());
                assert(summaries_view(g.sessions@) =~= before.push(session.view()));
                let ghost g_view = g.view();
                assert(times_fit(session.view()));
                assert(group_fits(g_view)) by {
                    assert forall|m: int| 0 <= m < g_view.sessions.len() implies times_fit(#[trigger] g_view.sessions[m]) by {
                        if m < g_view.sessions.len() - 1 {
                            assert(g_view.sessions[m] == gv[k as int].sessions[m]);
                        }
                    }
                }
                proof {
                    lemma_fit_update(gv, k as int, g_view);
                }
                projects.set(k, g);
                assert(groups_view(projects@) =~= gv.update(k as int, g_view));
            },
            None => {
                proof {
                    lemma_group_index_none(gv, path@);
                }
                let first = vec![session.duplicate()];
                assert(summaries_view(first@) =~= seq![session.view()]);
                let g = CodexSessionProjectGroup {
                    project_name: owned(session.project_name.as_str()),
                    project_path: path,
                    updated_at: session.updated_at,
                    sessions: first,
                };
                let ghost g_view = g.view();
                assert(times_fit(session.view()));
                assert(group_fits(g_view));
                proof {
                    lemma_fit_push(gv, g_view);
                }
                projects.push(g);
                assert(groups_view(projects@) =~= gv.push(g_view));
            },
        }
        i = i + 1;
    }
    assert(sv.take(sessions@.len() as int) =~= sv);
    let ghost base = groups_view(projects@);
    let mut inner: Vec<CodexSessionProjectGroup> = Vec::new();
    let mut j: usize = 0;
    while j < projects.len()
        invariant
            j <= projects@.len(),
            base == groups_view(projects@),
            all_times_fit(base),
            groups_view(inner@).len() == j,
            forall|k: int|
                0 <= k < j ==> (#[trigger] groups_view(inner@)[k]).project_name == base[k].project_name
                    && groups_view(inner@)[k].project_path == base[k].project_path && groups_view(inner@)[k].updated_at
                    == base[k].updated_at && sorted_by(
                    base[k].sessions,
                    summary_keys(base[k].sessions),
                    groups_view(inner@)[k].sessions,
                ),
        decreases projects@.len() - j,
    {
        let p = &projects[j];
        assert(base[j as int] == p.view());
        assert forall|m: int| 0 <= m < p.sessions@.len() implies times_fit(#[trigger] p.sessions@[m].view()) by {
            assert(base[j as int].sessions[m] == p.sessions@[m].view());
        }
        let sorted = sorted_project_sessions(&p.sessions);
        let g = CodexSessionProjectGroup {
            project_name: owned(p.project_name.as_str()),
            project_path: owned(p.project_path.as_str()),
            updated_at: p.updated_at,
            sessions: sorted,
        };
        let ghost before = groups_view(inner@);
        let ghost g_view = g.view();
        inner.push(g);
        assert(groups_view(inner@) =~= before.push(g_view));
        j = j + 1;
    }
    let ghost iv = groups_view(inner@);
    assert(sessions_sorted_in(base, iv)) by {
        assert forall|k: int| 0 <= k < base.len() implies iv[k].project_name == base[k].project_name
            && iv[k].project_path == base[k].project_path && iv[k].updated_at == base[k].updated_at
            && sorted_by(base[k].sessions, summary_keys(base[k].sessions), #[trigger] iv[k].sessions) by {
            assert(iv[k] == groups_view(inner@)[k]);
        }
    }
    let r = sort_groups(&inner);
    r
}


/// Position of the last root that normalizes to `path` (Codex's saved
/// workspace order; a later duplicate wins).
pub open spec fn root_order(roots: Seq<Seq<char>>, path: Seq<char>) -> Option<int>
    decreases roots.len(),
{
    if roots.len() == 0 {
        None
    } else if normalized_path(roots.last()) == path {
        Some(roots.len() - 1)
    } else {
        root_order(roots.drop_last(), path)
    }
}

/// The label of `path`: the last label given for it.
pub open spec fn label_of(labels: Seq<(Seq<char>, Seq<char>)>, path: Seq<char>) -> Option<Seq<char>>
    decreases labels.len(),
{
    if labels.len() == 0 {
        None
    } else if labels.last().0 == path {
        Some(labels.last().1)
    } else {
        label_of(labels.drop_last(), path)
    }
}

/// The projects that Codex's saved roots name.
pub open spec fn kept_groups(groups: Seq<GroupView>, roots: Seq<Seq<char>>) -> Seq<GroupView>
    decreases groups.len(),
{
    if groups.len() == 0 {
        Seq::empty()
    } else {
        let rest = kept_groups(groups.drop_last(), roots);
        if root_order(roots, normalized_path(groups.last().project_path)) is Some {
            rest.push(groups.last())
        } else {
            rest
        }
    }
}

/// The projects with an empty project added for each saved root that none
/// of them has.
pub open spec fn with_saved_roots(
    groups: Seq<GroupView>,
    roots: Seq<Seq<char>>,
    labels: Seq<(Seq<char>, Seq<char>)>,
) -> Seq<GroupView>
    decreases roots.len(),
{
    if roots.len() == 0 {
        groups
    } else {
        let g = with_saved_roots(groups, roots.drop_last(), labels);
        let p = normalized_path(roots.last());
        if p.len() == 0 || group_index(g, p) is Some {
            g
        } else {
            g.push(
                GroupView {
                    project_name: match label_of(labels, p) {
                        Some(l) => l,
                        None => project_name_of(p),
                    },
                    project_path: p,
                    updated_at: 0,
                    sessions: Seq::empty(),
                },
            )
        }
    }
}

/// Where a project sorts in Codex's order: by its saved root's position,
/// then by name.
pub open spec fn codex_group_key(g: GroupView, roots: Seq<Seq<char>>) -> Seq<int> {
    seq![
        match root_order(roots, normalized_path(g.project_path)) {
            Some(i) => i,
            None => -1,
        },
    ] + chars_key(g.project_name)
}

pub open spec fn codex_group_keys(gs: Seq<GroupView>, roots: Seq<Seq<char>>) -> Seq<Seq<int>> {
    gs.map_values(|g: GroupView| codex_group_key(g, roots))
}

/// Projects in Codex's sidebar order: with no saved roots, as for display;
/// else the projects of saved roots, plus an empty project per saved root
/// without sessions, sorted by root position then name.
pub open spec fn codex_ordered(
    sessions: Seq<SummaryView>,
    roots: Seq<Seq<char>>,
    labels: Seq<(Seq<char>, Seq<char>)>,
    result: Seq<GroupView>,
) -> bool {
    if roots.len() == 0 {
        grouped_for_display(sessions, result)
    } else {
        exists|display: Seq<GroupView>|
            grouped_for_display(sessions, display) && {
                let all = with_saved_roots(kept_groups(display, roots), roots, labels);
                sorted_by(all, codex_group_keys(all, roots), result)
            }
    }
}

fn find_root_order(roots: &Vec<String>, path: &str) -> (r: Option<usize>)
    ensures
        match r {
            Some(i) => root_order(crate::text::strings_view(roots@), path@) == Some(i as int),
            None => root_order(crate::text::strings_view(roots@), path@) is None,
        },
{
    let ghost rv = crate::text::strings_view(roots@);
    let mut i = roots.len();
    assert(rv.take(i as int) =~= rv);
    while i > 0
        invariant
            i <= roots@.len(),
            rv == crate::text::strings_view(roots@),
            root_order(rv, path@) == root_order(rv.take(i as int), path@),
        decreases i,
    {
        let ghost part = rv.take(i as int);
        assert(part.last() == roots@[i - 1]@);
        let n = normalize_project_path(roots[i - 1].as_str());
        if str_eq(n.as_str(), path) {
            return Some(i - 1);
        }
        assert(part.drop_last() =~= rv.take(i - 1));
        i = i - 1;
    }
    None
}

fn find_label(labels: &Vec<(String, String)>, path: &str) -> (r: Option<String>)
    ensures
        match r {
            Some(l) => label_of(crate::network_env::pairs_view(labels@), path@) == Some(l@),
            None => label_of(crate::network_env::pairs_view(labels@), path@) is None,
        },
{
    let ghost lv = crate::network_env::pairs_view(labels@);
    let mut i = labels.len();
    assert(lv.take(i as int) =~= lv);
    while i > 0
        invariant
            i <= labels@.len(),
            lv == crate::network_env::pairs_view(labels@),
            label_of(lv, path@) == label_of(lv.take(i as int), path@),
        decreases i,
    {
        let ghost part = lv.take(i as int);
        assert(part.last() == (labels@[i - 1].0@, labels@[i - 1].1@));
        if str_eq(labels[i - 1].0.as_str(), path) {
            return Some(owned(labels[i - 1].1.as_str()));
        }
        assert(part.drop_last() =~= lv.take(i - 1));
        i = i - 1;
    }
    None
}

fn codex_sort_key(g: &CodexSessionProjectGroup, roots: &Vec<String>) -> (r: Vec<i128>)
    ensures
        ints(r@) == codex_group_key(g.view(), crate::text::strings_view(roots@)),
{
    let p = normalize_project_path(g.project_path.as_str());
    let first: i128 = match find_root_order(roots, p.as_str()) {
        Some(i) => i as i128,
        None => -1,
    };
    let mut key: Vec<i128> = Vec::new();
    key.push(first);
    assert(ints(key@) =~= seq![first as int]);
    chars_key_of(g.project_name.as_str(), &mut key);
    key
}

/// The projects of a session list in Codex's sidebar order, as
/// `codex_ordered` says; `project_roots` are Codex's saved workspace roots
/// and `project_labels` its root labels (a later label of a path wins).
pub fn group_sessions_by_project_with_codex_order(
    sessions: &Vec<CodexSessionSummary>,
    project_roots: &Vec<String>,
    project_labels: &Vec<(String, String)>,
) -> (r: Vec<CodexSessionProjectGroup>)
    requires
        forall|i: int| 0 <= i < sessions@.len() ==> times_fit(#[trigger] sessions@[i].view()),
    ensures
        codex_ordered(
            summaries_view(sessions@),
            crate::text::strings_view(project_roots@),
            crate::network_env::pairs_view(project_labels@),
            groups_view(r@),
        ),
{
    let projects = group_sessions_by_project(sessions);
    if project_roots.len() == 0 {
        return projects;
    }
    let ghost rv = crate::text::strings_view(project_roots@);
    let ghost lv = crate::network_env::pairs_view(project_labels@);
    let ghost display = groups_view(projects@);
    let mut kept: Vec<CodexSessionProjectGroup> = Vec::new();
    let mut i: usize = 0;
    assert(display.take(0) =~= Seq::<GroupView>::empty());
    assert(groups_view(kept@) =~= Seq::<GroupView>::empty());
    while i < projects.len()
        invariant
            i <= projects@.len(),
            display == groups_view(projects@),
            rv == crate::text::strings_view(project_roots@),
            groups_view(kept@) == kept_groups(display.take(i as int), rv),
        decreases projects@.len() - i,
    {
        assert(display.take(i + 1).drop_last() =~= display.take(i as int));
        assert(display.take(i + 1).last() == projects@[i as int].view());
        let p = normalize_project_path(projects[i].project_path.as_str());
        if find_root_order(project_roots, p.as_str()).is_some() {
            let g = duplicate_group(&projects[i]);
            let ghost before = groups_view(kept@);
            let ghost gv = g.view();
            kept.push(g);
            assert(groups_view(kept@) =~= before.push(gv));
        }
        i = i + 1;
    }
    assert(display.take(projects@.len() as int) =~= display);
    let ghost kv = groups_view(kept@);
    let mut j: usize = 0;
    assert(rv.take(0) =~= Seq::<Seq<char>>::empty());
    while j < project_roots.len()
        invariant
            j <= project_roots@.len(),
            rv == crate::text::strings_view(project_roots@),
            lv == crate::network_env::pairs_view(project_labels@),
            groups_view(kept@) == with_saved_roots(kv, rv.take(j as int), lv),
        decreases project_roots@.len() - j,
    {
        assert(rv.take(j + 1).drop_last() =~= rv.take(j as int));
        assert(rv.take(j + 1).last() == project_roots@[j as int]@);
        let p = normalize_project_path(project_roots[j].as_str());
        let ghost g0 = groups_view(kept@);
        if !p.as_str().is_empty() {
            let mut present = false;
            let mut k: usize = 0;
            while k < kept.len()
                invariant
                    k <= kept@.len(),
                    g0 == groups_view(kept@),
                    present == exists|m: int| 0 <= m < k && normalized_path(#[trigger] g0[m].project_path) == p@,
                decreases kept@.len() - k,
            {
                let q = normalize_project_path(kept[k].project_path.as_str());
                assert(g0[k as int] == kept@[k as int].view());
                assert(normalized_path(g0[k as int].project_path) == q@);
                if str_eq(q.as_str(), p.as_str()) {
                    present = true;
                }
                k = k + 1;
            }
            proof {
                lemma_group_index(g0, p@);
            }
            if !present {
                let name = match find_label(project_labels, p.as_str()) {
                    Some(l) => l,
                    None => project_name_from_path(p.as_str()),
                };
                proof {
                    assert(project_name_of(p@) == project_name_of(normalized_path(project_roots@[j as int]@)));
                }
                let empty: Vec<CodexSessionSummary> = Vec::new();
                assert(summaries_view(empty@) =~= Seq::<SummaryView>::empty());
                let g = CodexSessionProjectGroup { project_name: name, project_path: p, updated_at: 0, sessions: empty };
                let ghost gv = g.view();
                kept.push(g);
                assert(groups_view(kept@) =~= g0.push(gv));
            }
        }
        j = j + 1;
    }
    assert(rv.take(project_roots@.len() as int) =~= rv);
    let ghost all = groups_view(kept@);
    let mut keys: Vec<Vec<i128>> = Vec::new();
    let mut m: usize = 0;
    while m < kept.len()
        invariant
            m <= kept@.len(),
            all == groups_view(kept@),
            rv == crate::text::strings_view(project_roots@),
            keys_view(keys@) == codex_group_keys(all, rv).take(m as int),
        decreases kept@.len() - m,
    {
        let k = codex_sort_key(&kept[m], project_roots);
        let ghost before = keys_view(keys@);
        keys.push(k);
        assert(keys_view(keys@) =~= before.push(ints(k@)));
        assert(codex_group_keys(all, rv).take(m + 1) =~= codex_group_keys(all, rv).take(m as int).push(
            codex_group_keys(all, rv)[m as int],
        ));
        m = m + 1;
    }
    assert(codex_group_keys(all, rv).take(kept@.len() as int) =~= codex_group_keys(all, rv));
    let order = sorted_order(&keys);
    let r = pick_groups(&kept, &order);
    assert(grouped_for_display(summaries_view(sessions@), display));
    r
}


/// Whether `path` is one of the hidden project paths.
pub open spec fn is_hidden(hidden: Seq<Seq<char>>, path: Seq<char>) -> bool {
    exists|i: int| 0 <= i < hidden.len() && hidden[i] == path
}

pub open spec fn visible_sessions(s: Seq<SummaryView>, hidden: Seq<Seq<char>>) -> Seq<SummaryView>
    decreases s.len(),
{
    if s.len() == 0 {
        Seq::empty()
    } else {
        let rest = visible_sessions(s.drop_last(), hidden);
        if is_hidden(hidden, normalized_path(s.last().project_path)) {
            rest
        } else {
            rest.push(s.last())
        }
    }
}

pub open spec fn visible_groups(g: Seq<GroupView>, hidden: Seq<Seq<char>>) -> Seq<GroupView>
    decreases g.len(),
{
    if g.len() == 0 {
        Seq::empty()
    } else {
        let rest = visible_groups(g.drop_last(), hidden);
        if is_hidden(hidden, normalized_path(g.last().project_path)) {
            rest
        } else {
            rest.push(g.last())
        }
    }
}

fn contains_path(hidden: &Vec<String>, path: &str) -> (r: bool)
    ensures
        r == is_hidden(crate::text::strings_view(hidden@), path@),
{
    let ghost hv = crate::text::strings_view(hidden@);
    let mut i: usize = 0;
    while i < hidden.len()
        invariant
            i <= hidden@.len(),
            hv == crate::text::strings_view(hidden@),
            forall|j: int| 0 <= j < i ==> hv[j] != path@,
        decreases hidden@.len() - i,
    {
        if str_eq(hidden[i].as_str(), path) {
            assert(hv[i as int] == path@);
            return true;
        }
        i = i + 1;
    }
    false
}

/// The projects in Codex's order, leaving out the sessions and projects of
/// deleted projects (`hidden`, as normalized paths).
pub fn group_visible_sessions_by_project_with_codex_order(
    sessions: &Vec<CodexSessionSummary>,
    hidden: &Vec<String>,
    project_roots: &Vec<String>,
    project_labels: &Vec<(String, String)>,
) -> (r: Vec<CodexSessionProjectGroup>)
    requires
        forall|i: int| 0 <= i < sessions@.len() ==> times_fit(#[trigger] sessions@[i].view()),
    ensures
        exists|ordered: Seq<GroupView>|
            codex_ordered(
                visible_sessions(summaries_view(sessions@), crate::text::strings_view(hidden@)),
                crate::text::strings_view(project_roots@),
                crate::network_env::pairs_view(project_labels@),
                ordered,
            ) && groups_view(r@) == visible_groups(ordered, crate::text::strings_view(hidden@)),
{
    let ghost hv = crate::text::strings_view(hidden@);
    let ghost sv = summaries_view(sessions@);
    let mut visible: Vec<CodexSessionSummary> = Vec::new();
    let mut i: usize = 0;
    assert(sv.take(0) =~= Seq::<SummaryView>::empty());
    assert(summaries_view(visible@) =~= Seq::<SummaryView>::empty());
    while i < sessions.len()
        invariant
            i <= sessions@.len(),
            sv == summaries_view(sessions@),
            hv == crate::text::strings_view(hidden@),
            summaries_view(visible@) == visible_sessions(sv.take(i as int), hv),
            forall|j: int| 0 <= j < sessions@.len() ==> times_fit(#[trigger] sessions@[j].view()),
            forall|j: int| 0 <= j < visible@.len() ==> times_fit(#[trigger] visible@[j].view()),
        decreases sessions@.len() - i,
    {
        assert(sv.take(i + 1).drop_last() =~= sv.take(i as int));
        assert(sv.take(i + 1).last() == sessions@[i as int].view());
        let p = normalize_project_path(sessions[i].project_path.as_str());
        if !contains_path(hidden, p.as_str()) {
            let s = sessions[i].duplicate();
            let ghost before = summaries_view(visible@);
            let ghost s_view = s.view();
            assert(times_fit(sessions@[i as int].view()));
            visible.push(s);
            assert(summaries_view(visible@) =~= before.push(s_view));
        }
        i = i + 1;
    }
    assert(sv.take(sessions@.len() as int) =~= sv);
    let projects = group_sessions_by_project_with_codex_order(&visible, project_roots, project_labels);
    let ghost ordered = groups_view(projects@);
    let mut r: Vec<CodexSessionProjectGroup> = Vec::new();
    let mut k: usize = 0;
    assert(ordered.take(0) =~= Seq::<GroupView>::empty());
    assert(groups_view(r@) =~= Seq::<GroupView>::empty());
    while k < projects.len()
        invariant
            k <= projects@.len(),
            ordered == groups_view(projects@),
            hv == crate::text::strings_view(hidden@),
            groups_view(r@) == visible_groups(ordered.take(k as int), hv),
        decreases projects@.len() - k,
    {
        assert(ordered.take(k + 1).drop_last() =~= ordered.take(k as int));
        assert(ordered.take(k + 1).last() == projects@[k as int].view());
        let p = normalize_project_path(projects[k].project_path.as_str());
        if !contains_path(hidden, p.as_str()) {
            let g = duplicate_group(&projects[k]);
            let ghost before = groups_view(r@);
            let ghost g_view = g.view();
            r.push(g);
            assert(groups_view(r@) =~= before.push(g_view));
        }
        k = k + 1;
    }
    assert(ordered.take(projects@.len() as int) =~= ordered);
    r
}

/// Codex's saved workspace roots in its global state (its saved roots, else
/// its project order), normalized, empty ones left out.
pub open spec fn saved_roots_of(state: JsonView) -> Seq<Seq<char>> {
    let items = match as_array(jget(state, "electron-saved-workspace-roots"@)) {
        Some(a) => a,
        None => match as_array(jget(state, "project-order"@)) {
            Some(a) => a,
            None => Seq::empty(),
        },
    };
    root_paths(items)
}

pub open spec fn root_paths(items: Seq<JsonView>) -> Seq<Seq<char>>
    decreases items.len(),
{
    if items.len() == 0 {
        Seq::empty()
    } else {
        let rest = root_paths(items.drop_last());
        match items.last() {
            JsonView::Str(p) => if normalized_path(p).len() > 0 {
                rest.push(normalized_path(p))
            } else {
                rest
            },
            _ => rest,
        }
    }
}

pub fn read_saved_project_roots(state: &Json) -> (r: Vec<String>)
    ensures
        crate::text::strings_view(r@) == saved_roots_of(state.view()),
{
    let empty: Vec<Json> = Vec::new();
    let items = match state.get_array("electron-saved-workspace-roots") {
        Some(a) => a,
        None => match state.get_array("project-order") {
            Some(a) => a,
            None => &empty,
        },
    };
    assert(crate::json::items_view(empty@) =~= Seq::<JsonView>::empty());
    let ghost iv = crate::json::items_view(items@);
    let mut roots: Vec<String> = Vec::new();
    let mut i: usize = 0;
    assert(iv.take(0) =~= Seq::<JsonView>::empty());
    assert(crate::text::strings_view(roots@) =~= Seq::<Seq<char>>::empty());
    while i < items.len()
        invariant
            i <= items@.len(),
            iv == crate::json::items_view(items@),
            crate::text::strings_view(roots@) == root_paths(iv.take(i as int)),
        decreases items@.len() - i,
    {
        assert(iv.take(i + 1).drop_last() =~= iv.take(i as int));
        assert(iv.take(i + 1).last() == items@[i as int].view());
        match items[i].as_str() {
            Some(p) => {
                let n = normalize_project_path(p.as_str());
                if !n.as_str().is_empty() {
                    let ghost before = crate::text::strings_view(roots@);
                    let ghost nv = n@;
                    roots.push(n);
                    assert(crate::text::strings_view(roots@) =~= before.push(nv));
                }
            },
            None => {},
        }
        i = i + 1;
    }
    assert(iv.take(items@.len() as int) =~= iv);
    roots
}

/// Codex's labels of workspace roots: normalized path and trimmed label,
/// for labels that are non-blank strings, in order.
pub open spec fn labels_of(state: JsonView) -> Seq<(Seq<char>, Seq<char>)> {
    match jget(state, "electron-workspace-root-labels"@) {
        Some(JsonView::Object(es)) => label_entries(es),
        _ => Seq::empty(),
    }
}

pub open spec fn label_entries(es: Seq<(Seq<char>, JsonView)>) -> Seq<(Seq<char>, Seq<char>)>
    decreases es.len(),
{
    if es.len() == 0 {
        Seq::empty()
    } else {
        let rest = label_entries(es.drop_last());
        match es.last().1 {
            JsonView::Str(l) => if trim(l).len() > 0 {
                rest.push((normalized_path(es.last().0), trim(l)))
            } else {
                rest
            },
            _ => rest,
        }
    }
}

pub fn read_project_labels(state: &Json) -> (r: Vec<(String, String)>)
    ensures
        crate::network_env::pairs_view(r@) == labels_of(state.view()),
{
    let mut out: Vec<(String, String)> = Vec::new();
    assert(crate::network_env::pairs_view(out@) =~= Seq::<(Seq<char>, Seq<char>)>::empty());
    let entries = match state.get("electron-workspace-root-labels") {
        Some(Json::Object(es)) => es,
        _ => return out,
    };
    let ghost ev = crate::json::entries_view(entries@);
    let mut i: usize = 0;
    assert(ev.take(0) =~= Seq::<(Seq<char>, JsonView)>::empty());
    while i < entries.len()
        invariant
            i <= entries@.len(),
            ev == crate::json::entries_view(entries@),
            crate::network_env::pairs_view(out@) == label_entries(ev.take(i as int)),
        decreases entries@.len() - i,
    {
        assert(ev.take(i + 1).drop_last() =~= ev.take(i as int));
        assert(ev.take(i + 1).last() == (entries@[i as int].0@, entries@[i as int].1.view()));
        match entries[i].1.as_str() {
            Some(l) => {
                let t = trimmed(l.as_str());
                if !t.as_str().is_empty() {
                    let p = normalize_project_path(entries[i].0.as_str());
                    let ghost before = crate::network_env::pairs_view(out@);
                    let ghost pv = (p@, t@);
                    out.push((p, t));
                    assert(crate::network_env::pairs_view(out@) =~= before.push(pv));
                }
            },
            None => {},
        }
        i = i + 1;
    }
    assert(ev.take(entries@.len() as int) =~= ev);
    out
}


/// One backed-up session of a deletion.
pub struct DeletedSessionBackup {
    pub id: String,
    pub title: String,
    pub relative_path: String,
    pub backup_path: String,
    pub project_path: String,
    pub project_name: String,
}

/// One deletion (of a session or a project), as the deletion log keeps it.
pub struct DeletedSessionEntry {
    pub id: String,
    pub kind: String,
    pub name: String,
    pub project_path: String,
    pub project_name: String,
    pub deleted_at: i64,
    pub restored_at: Option<i64>,
    pub sessions: Vec<DeletedSessionBackup>,
}

pub struct EntryView {
    pub id: Seq<char>,
    pub kind: Seq<char>,
    pub name: Seq<char>,
    pub project_path: Seq<char>,
    pub project_name: Seq<char>,
    pub deleted_at: i64,
    pub restored_at: Option<i64>,
    pub sessions: Seq<(Seq<char>, Seq<char>, Seq<char>, Seq<char>, Seq<char>, Seq<char>)>,
}

impl DeletedSessionBackup {
    pub open spec fn view(&self) -> (Seq<char>, Seq<char>, Seq<char>, Seq<char>, Seq<char>, Seq<char>) {
        (self.id@, self.title@, self.relative_path@, self.backup_path@, self.project_path@, self.project_name@)
    }

    pub fn duplicate(&self) -> (r: Self)
        ensures
            r.view() == self.view(),
    {
        DeletedSessionBackup {
            id: owned(self.id.as_str()),
            title: owned(self.title.as_str()),
            relative_path: owned(self.relative_path.as_str()),
            backup_path: owned(self.backup_path.as_str()),
            project_path: owned(self.project_path.as_str()),
            project_name: owned(self.project_name.as_str()),
        }
    }
}

impl DeletedSessionEntry {
    pub open spec fn view(&self) -> EntryView {
        EntryView {
            id: self.id@,
            kind: self.kind@,
            name: self.name@,
            project_path: self.project_path@,
            project_name: self.project_name@,
            deleted_at: self.deleted_at,
            restored_at: self.restored_at,
            sessions: self.sessions@.map_values(|b: DeletedSessionBackup| b.view()),
        }
    }

    pub fn duplicate(&self) -> (r: Self)
        ensures
            r.view() == self.view(),
    {
        let mut sessions: Vec<DeletedSessionBackup> = Vec::new();
        let ghost bv = self.sessions@.map_values(|b: DeletedSessionBackup| b.view());
        let mut i: usize = 0;
        while i < self.sessions.len()
            invariant
                i <= self.sessions@.len(),
                bv == self.sessions@.map_values(|b: DeletedSessionBackup| b.view()),
                sessions@.map_values(|b: DeletedSessionBackup| b.view()) == bv.take(i as int),
            decreases self.sessions@.len() - i,
        {
            let b = self.sessions[i].duplicate();
            let ghost before = sessions@.map_values(|b: DeletedSessionBackup| b.view());
            let ghost b_view = b.view();
            sessions.push(b);
            assert(sessions@.map_values(|b: DeletedSessionBackup| b.view()) =~= before.push(b_view));
            assert(bv.take(i + 1) =~= bv.take(i as int).push(b_view));
            i = i + 1;
        }
        assert(bv.take(self.sessions@.len() as int) =~= bv);
        DeletedSessionEntry {
            id: owned(self.id.as_str()),
            kind: owned(self.kind.as_str()),
            name: owned(self.name.as_str()),
            project_path: owned(self.project_path.as_str()),
            project_name: owned(self.project_name.as_str()),
            deleted_at: self.deleted_at,
            restored_at: self.restored_at,
            sessions,
        }
    }
}

pub open spec fn entries_view(v: Seq<DeletedSessionEntry>) -> Seq<EntryView> {
    v.map_values(|e: DeletedSessionEntry| e.view())
}

/// The result of deleting a session.
pub struct DeleteSessionResult {
    pub backup_path: String,
    pub codex_running: bool,
}

/// The result of deleting a project's sessions.
pub struct DeleteProjectSessionsResult {
    pub backup_paths: Vec<String>,
    pub deleted_count: usize,
    pub codex_running: bool,
}

/// The result of restoring a deletion.
pub struct RestoreDeletedSessionsResult {
    pub restored_paths: Vec<String>,
    pub restored_count: usize,
    pub codex_running: bool,
}

/// The result of copying a session to another Codex home.
pub struct CopySessionResult {
    pub target_path: String,
    pub codex_running: bool,
}

/// A message of a session preview.
pub struct CodexSessionPreviewEntry {
    pub role: String,
    pub text: String,
    pub timestamp: Option<i64>,
}

/// A session with its first messages.
pub struct CodexSessionPreview {
    pub summary: CodexSessionSummary,
    pub entries: Vec<CodexSessionPreviewEntry>,
}

/// The session list with its projects.
pub struct CodexSessionList {
    pub sessions: Vec<CodexSessionSummary>,
    pub projects: Vec<CodexSessionProjectGroup>,
    pub codex_running: bool,
}

/// Whether an entry is a deleted project not yet restored.
pub open spec fn hides_project(e: EntryView) -> bool {
    e.kind == "project"@ && e.restored_at is None && normalized_path(e.project_path).len() > 0
}

/// The normalized paths of deleted projects not yet restored.
pub fn active_deleted_project_paths(entries: &Vec<DeletedSessionEntry>) -> (r: Vec<String>)
    ensures
        forall|p: Seq<char>|
            is_hidden(crate::text::strings_view(r@), p) <==> exists|i: int|
                0 <= i < entries@.len() && hides_project(#[trigger] entries@[i].view()) && normalized_path(
                    entries@[i].view().project_path,
                ) == p,
{
    let mut r: Vec<String> = Vec::new();
    let mut i: usize = 0;
    while i < entries.len()
        invariant
            i <= entries@.len(),
            forall|p: Seq<char>|
                is_hidden(crate::text::strings_view(r@), p) <==> exists|k: int|
                    0 <= k < i && hides_project(#[trigger] entries@[k].view()) && normalized_path(
                        entries@[k].view().project_path,
                    ) == p,
        decreases entries@.len() - i,
    {
        let e = &entries[i];
        let p = normalize_project_path(e.project_path.as_str());
        let ghost rv = crate::text::strings_view(r@);
        if str_eq(e.kind.as_str(), "project") && e.restored_at.is_none() && !p.as_str().is_empty() {
            let ghost pv = p@;
            assert(hides_project(entries@[i as int].view()));
            assert(normalized_path(entries@[i as int].view().project_path) == pv);
            r.push(p);
            assert(crate::text::strings_view(r@) =~= rv.push(pv));
            assert forall|q: Seq<char>| is_hidden(crate::text::strings_view(r@), q) <==> exists|k: int|
                0 <= k < i + 1 && hides_project(#[trigger] entries@[k].view()) && normalized_path(
                    entries@[k].view().project_path,
                ) == q by {
                if is_hidden(crate::text::strings_view(r@), q) {
                    let j = choose|j: int| 0 <= j < crate::text::strings_view(r@).len() && crate::text::strings_view(r@)[j] == q;
                    if j < rv.len() {
                        assert(rv[j] == q);
                        assert(is_hidden(rv, q));
                    }
                }
                if exists|k: int| 0 <= k < i + 1 && hides_project(#[trigger] entries@[k].view()) && normalized_path(
                    entries@[k].view().project_path,
                ) == q {
                    let k = choose|k: int| 0 <= k < i + 1 && hides_project(#[trigger] entries@[k].view()) && normalized_path(
                        entries@[k].view().project_path,
                    ) == q;
                    if k < i {
                        assert(is_hidden(rv, q));
                        let j = choose|j: int| 0 <= j < rv.len() && rv[j] == q;
                        assert(crate::text::strings_view(r@)[j] == q);
                    } else {
                        assert(crate::text::strings_view(r@)[rv.len() as int] == q);
                    }
                }
            }
        } else {
            assert forall|q: Seq<char>| is_hidden(crate::text::strings_view(r@), q) <==> exists|k: int|
                0 <= k < i + 1 && hides_project(#[trigger] entries@[k].view()) && normalized_path(
                    entries@[k].view().project_path,
                ) == q by {
                if exists|k: int| 0 <= k < i + 1 && hides_project(#[trigger] entries@[k].view()) && normalized_path(
                    entries@[k].view().project_path,
                ) == q {
                    let k = choose|k: int| 0 <= k < i + 1 && hides_project(#[trigger] entries@[k].view()) && normalized_path(
                        entries@[k].view().project_path,
                    ) == q;
                    assert(k < i);
                }
            }
        }
        i = i + 1;
    }
    r
}

/// Where a deletion sorts in the deletion list: newest first, then by name.
pub open spec fn entry_key(e: EntryView) -> Seq<int> {
    seq![-e.deleted_at as int] + chars_key(e.name)
}

pub open spec fn unrestored(v: Seq<EntryView>) -> Seq<EntryView>
    decreases v.len(),
{
    if v.len() == 0 {
        Seq::empty()
    } else {
        let rest = unrestored(v.drop_last());
        if v.last().restored_at is None {
            rest.push(v.last())
        } else {
            rest
        }
    }
}

/// The deletions not yet restored, newest first.
pub fn list_deleted_session_entries(entries: &Vec<DeletedSessionEntry>) -> (r: Vec<DeletedSessionEntry>)
    ensures
        ({
            let open_entries = unrestored(entries_view(entries@));
            sorted_by(open_entries, open_entries.map_values(|e: EntryView| entry_key(e)), entries_view(r@))
        }),
{
    let ghost ev = entries_view(entries@);
    let mut open_entries: Vec<DeletedSessionEntry> = Vec::new();
    let mut i: usize = 0;
    assert(ev.take(0) =~= Seq::<EntryView>::empty());
    assert(entries_view(open_entries@) =~= Seq::<EntryView>::empty());
    while i < entries.len()
        invariant
            i <= entries@.len(),
            ev == entries_view(entries@),
            entries_view(open_entries@) == unrestored(ev.take(i as int)),
        decreases entries@.len() - i,
    {
        assert(ev.take(i + 1).drop_last() =~= ev.take(i as int));
        assert(ev.take(i + 1).last() == entries@[i as int].view());
        if entries[i].restored_at.is_none() {
            let e = entries[i].duplicate();
            let ghost before = entries_view(open_entries@);
            let ghost e_view = e.view();
            open_entries.push(e);
            assert(entries_view(open_entries@) =~= before.push(e_view));
        }
        i = i + 1;
    }
    assert(ev.take(entries@.len() as int) =~= ev);
    let ghost ov = entries_view(open_entries@);
    let ghost okeys = ov.map_values(|e: EntryView| entry_key(e));
    let mut keys: Vec<Vec<i128>> = Vec::new();
    let mut m: usize = 0;
    while m < open_entries.len()
        invariant
            m <= open_entries@.len(),
            ov == entries_view(open_entries@),
            okeys == ov.map_values(|e: EntryView| entry_key(e)),
            keys_view(keys@) == okeys.take(m as int),
        decreases open_entries@.len() - m,
    {
        let mut key: Vec<i128> = Vec::new();
        key.push(-(open_entries[m].deleted_at as i128));
        assert(ints(key@) =~= seq![-open_entries@[m as int].deleted_at as int]);
        chars_key_of(open_entries[m].name.as_str(), &mut key);
        let ghost before = keys_view(keys@);
        let ghost kv = ints(key@);
        keys.push(key);
        assert(keys_view(keys@) =~= before.push(kv));
        assert(okeys.take(m + 1) =~= okeys.take(m as int).push(okeys[m as int]));
        m = m + 1;
    }
    assert(okeys.take(open_entries@.len() as int) =~= okeys);
    let order = sorted_order(&keys);
    let mut r: Vec<DeletedSessionEntry> = Vec::new();
    let mut k: usize = 0;
    while k < order.len()
        invariant
            k <= order@.len(),
            ov == entries_view(open_entries@),
            is_permutation(indices(order@), open_entries@.len() as nat),
            entries_view(r@) == indices(order@).take(k as int).map_values(|i: int| ov[i]),
        decreases order@.len() - k,
    {
        assert(indices(order@)[k as int] == order@[k as int] as int);
        let e = open_entries[order[k]].duplicate();
        let ghost before = entries_view(r@);
        let ghost e_view = e.view();
        r.push(e);
        assert(entries_view(r@) =~= before.push(e_view));
        assert(indices(order@).take(k + 1).map_values(|i: int| ov[i]) =~= indices(order@).take(k as int).map_values(
            |i: int| ov[i],
        ).push(ov[order@[k as int] as int]));
        k = k + 1;
    }
    assert(indices(order@).take(order@.len() as int) =~= indices(order@));
    r
}

/// The deletion id of a restore request, trimmed; refused without
/// confirmation or without an id.
pub fn check_restore_request(deletion_id: &str, confirmed: bool) -> (r: Result<String, String>)
    ensures
        !confirmed ==> (r matches Err(e) && e@ == "session restore requires explicit confirmation"@),
        confirmed && trim(deletion_id@).len() == 0 ==> (r matches Err(e) && e@ == "deletion id is required"@),
        confirmed && trim(deletion_id@).len() > 0 ==> (r matches Ok(id) && id@ == trim(deletion_id@)),
{
    if !confirmed {
        return Err(owned("session restore requires explicit confirmation"));
    }
    let id = trimmed(deletion_id);
    if id.as_str().is_empty() {
        return Err(owned("deletion id is required"));
    }
    Ok(id)
}

/// Position of the first unrestored deletion with id `id`.
pub fn find_restorable_entry(entries: &Vec<DeletedSessionEntry>, id: &str) -> (r: Result<usize, String>)
    ensures
        match r {
            Ok(i) => i < entries@.len() && entries@[i as int].view().id == id@
                && entries@[i as int].restored_at is None && forall|j: int|
                0 <= j < i ==> !(#[trigger] entries@[j].view().id == id@ && entries@[j].restored_at is None),
            Err(e) => e@ == "deleted session entry `"@ + id@ + "` does not exist"@ && forall|j: int|
                0 <= j < entries@.len() ==> !(#[trigger] entries@[j].view().id == id@ && entries@[j].restored_at is None),
        },
{
    let mut i: usize = 0;
    while i < entries.len()
        invariant
            i <= entries@.len(),
            forall|j: int| 0 <= j < i ==> !(#[trigger] entries@[j].view().id == id@ && entries@[j].restored_at is None),
        decreases entries@.len() - i,
    {
        if str_eq(entries[i].id.as_str(), id) && entries[i].restored_at.is_none() {
            return Ok(i);
        }
        i = i + 1;
    }
    let head = concat("deleted session entry `", id);
    Err(concat(head.as_str(), "` does not exist"))
}

/// Refuses a session deletion without confirmation.
pub fn check_delete_session(confirmed: bool) -> (r: Result<(), String>)
    ensures
        confirmed ==> r is Ok,
        !confirmed ==> (r matches Err(e) && e@ == "session deletion requires explicit confirmation"@),
{
    if confirmed {
        Ok(())
    } else {
        Err(owned("session deletion requires explicit confirmation"))
    }
}

/// The normalized project path of a project deletion; refused without
/// confirmation or without a path.
pub fn check_delete_project(project_path: &str, confirmed: bool) -> (r: Result<String, String>)
    ensures
        !confirmed ==> (r matches Err(e) && e@ == "project deletion requires explicit confirmation"@),
        confirmed && normalized_path(project_path@).len() == 0 ==> (r matches Err(e) && e@
            == "project path is required"@),
        confirmed && normalized_path(project_path@).len() > 0 ==> (r matches Ok(p) && p@ == normalized_path(
            project_path@,
        )),
{
    if !confirmed {
        return Err(owned("project deletion requires explicit confirmation"));
    }
    let p = normalize_project_path(project_path);
    if p.as_str().is_empty() {
        return Err(owned("project path is required"));
    }
    Ok(p)
}

/// Position of the session with id `session_id`; refused for a blank id.
pub fn find_session(sessions: &Vec<CodexSessionSummary>, session_id: &str) -> (r: Result<usize, String>)
    ensures
        crate::text::is_blank(session_id@) ==> (r matches Err(e) && e@ == "session id is required"@),
        !crate::text::is_blank(session_id@) ==> match r {
            Ok(i) => i < sessions@.len() && sessions@[i as int].view().id == session_id@ && forall|j: int|
                0 <= j < i ==> (#[trigger] sessions@[j].view()).id != session_id@,
            Err(e) => e@ == "session `"@ + session_id@ + "` does not exist"@ && forall|j: int|
                0 <= j < sessions@.len() ==> (#[trigger] sessions@[j].view()).id != session_id@,
        },
{
    if crate::text::blank(session_id) {
        return Err(owned("session id is required"));
    }
    let mut i: usize = 0;
    while i < sessions.len()
        invariant
            i <= sessions@.len(),
            !crate::text::is_blank(session_id@),
            forall|j: int| 0 <= j < i ==> (#[trigger] sessions@[j].view()).id != session_id@,
        decreases sessions@.len() - i,
    {
        if str_eq(sessions[i].id.as_str(), session_id) {
            return Ok(i);
        }
        i = i + 1;
    }
    let head = concat("session `", session_id);
    Err(concat(head.as_str(), "` does not exist"))
}

/// The positions of the sessions of project `project_path` (normalized).
pub fn project_session_indices(sessions: &Vec<CodexSessionSummary>, project_path: &str) -> (r: Vec<usize>)
    ensures
        forall|k: int| 0 <= k < r@.len() ==> r@[k] < sessions@.len() && normalized_path(
            sessions@[r@[k] as int].view().project_path,
        ) == project_path@,
        forall|j: int|
            0 <= j < sessions@.len() && normalized_path(sessions@[j].view().project_path) == project_path@ ==> exists|k: int|
                0 <= k < r@.len() && r@[k] == j,
        forall|a: int, b: int| 0 <= a < b < r@.len() ==> r@[a] < r@[b],
{
    let mut r: Vec<usize> = Vec::new();
    let mut i: usize = 0;
    while i < sessions.len()
        invariant
            i <= sessions@.len(),
            forall|k: int| 0 <= k < r@.len() ==> r@[k] < i && normalized_path(
                sessions@[r@[k] as int].view().project_path,
            ) == project_path@,
            forall|j: int|
                0 <= j < i && normalized_path(sessions@[j].view().project_path) == project_path@ ==> exists|k: int|
                    0 <= k < r@.len() && r@[k] == j,
            forall|a: int, b: int| 0 <= a < b < r@.len() ==> r@[a] < r@[b],
        decreases sessions@.len() - i,
    {
        let p = normalize_project_path(sessions[i].project_path.as_str());
        if str_eq(p.as_str(), project_path) {
            let ghost before = r@;
            r.push(i);
            assert forall|j: int|
                0 <= j < i + 1 && normalized_path(sessions@[j].view().project_path) == project_path@ implies exists|k: int|
                    0 <= k < r@.len() && r@[k] == j by {
                if j < i {
                    let k = choose|k: int| 0 <= k < before.len() && before[k] == j;
                    assert(r@[k] == j);
                } else {
                    assert(r@[before.len() as int] == j);
                }
            }
        }
        i = i + 1;
    }
    r
}

/// The backup record of a deleted session.
pub fn deleted_backup_from_record(summary: &CodexSessionSummary, backup_path: String) -> (r: DeletedSessionBackup)
    ensures
        r.view() == (summary.id@, summary.title@, summary.relative_path@, backup_path@, summary.project_path@, summary.project_name@),
{
    DeletedSessionBackup {
        id: owned(summary.id.as_str()),
        title: owned(summary.title.as_str()),
        relative_path: owned(summary.relative_path.as_str()),
        backup_path,
        project_path: owned(summary.project_path.as_str()),
        project_name: owned(summary.project_name.as_str()),
    }
}


/// An array item that names `path` (a string that normalizes to it).
pub open spec fn names_path(item: JsonView, path: Seq<char>) -> bool {
    match item {
        JsonView::Str(s) => normalized_path(s) == path,
        _ => false,
    }
}

pub open spec fn without_path(items: Seq<JsonView>, path: Seq<char>) -> Seq<JsonView>
    decreases items.len(),
{
    if items.len() == 0 {
        Seq::empty()
    } else {
        let rest = without_path(items.drop_last(), path);
        if names_path(items.last(), path) {
            rest
        } else {
            rest.push(items.last())
        }
    }
}

/// The state after the items naming `path` leave the array at `key`.
pub open spec fn array_without(state: JsonView, key: Seq<char>, path: Seq<char>) -> (JsonView, bool) {
    match jget(state, key) {
        Some(JsonView::Array(items)) => (
            crate::json::jset(state, key, JsonView::Array(without_path(items, path))),
            without_path(items, path).len() != items.len(),
        ),
        _ => (state, false),
    }
}

fn remove_project_from_array(state: &mut Json, key: &str, project_path: &str) -> (r: bool)
    requires
        old(state).view() is Object,
    ensures
        (final(state).view(), r) == array_without(old(state).view(), key@, project_path@),
        final(state).view() is Object,
{
    let kept = match state.get_array(key) {
        Some(items) => {
            let ghost iv = crate::json::items_view(items@);
            let mut kept: Vec<Json> = Vec::new();
            let mut i: usize = 0;
            assert(iv.take(0) =~= Seq::<JsonView>::empty());
            assert(crate::json::items_view(kept@) =~= Seq::<JsonView>::empty());
            while i < items.len()
                invariant
                    i <= items@.len(),
                    iv == crate::json::items_view(items@),
                    crate::json::items_view(kept@) == without_path(iv.take(i as int), project_path@),
                decreases items@.len() - i,
            {
                assert(iv.take(i + 1).drop_last() =~= iv.take(i as int));
                assert(iv.take(i + 1).last() == items@[i as int].view());
                let matches = match items[i].as_str() {
                    Some(p) => {
                        let n = normalize_project_path(p.as_str());
                        str_eq(n.as_str(), project_path)
                    },
                    None => false,
                };
                if !matches {
                    let c = items[i].deep_clone();
                    let ghost before = crate::json::items_view(kept@);
                    let ghost cv = c.view();
                    kept.push(c);
                    assert(crate::json::items_view(kept@) =~= before.push(cv));
                }
                i = i + 1;
            }
            assert(iv.take(items@.len() as int) =~= iv);
            let changed = kept.len() != items.len();
            Some((kept, changed))
        },
        None => None,
    };
    match kept {
        Some((kept, changed)) => {
            state.set(key, Json::from_items(kept));
            changed
        },
        None => false,
    }
}

/// The state after `path` is added to the array at `key` (created where
/// missing), unless the array names it already or `key` holds no array.
pub open spec fn array_with(state: JsonView, key: Seq<char>, path: Seq<char>) -> JsonView {
    match jget(state, key) {
        None => crate::json::jset(state, key, JsonView::Array(seq![JsonView::Str(path)])),
        Some(JsonView::Array(items)) => if exists|i: int| 0 <= i < items.len() && names_path(#[trigger] items[i], path) {
            state
        } else {
            crate::json::jset(state, key, JsonView::Array(items.push(JsonView::Str(path))))
        },
        Some(_) => state,
    }
}

fn add_project_to_array(state: &mut Json, key: &str, project_path: &str)
    requires
        old(state).view() is Object,
    ensures
        final(state).view() == array_with(old(state).view(), key@, project_path@),
        final(state).view() is Object,
{
    let next = match state.get(key) {
        None => {
            let v = vec![Json::string(project_path)];
            assert(crate::json::items_view(v@) =~= seq![JsonView::Str(project_path@)]);
            Some(v)
        },
        Some(Json::Array(items)) => {
            let ghost iv = crate::json::items_view(items@);
            let mut present = false;
            let mut i: usize = 0;
            while i < items.len()
                invariant
                    i <= items@.len(),
                    iv == crate::json::items_view(items@),
                    present == exists|j: int| 0 <= j < i && names_path(#[trigger] iv[j], project_path@),
                decreases items@.len() - i,
            {
                assert(iv[i as int] == items@[i as int].view());
                match items[i].as_str() {
                    Some(p) => {
                        let n = normalize_project_path(p.as_str());
                        if str_eq(n.as_str(), project_path) {
                            present = true;
                        }
                    },
                    None => {},
                }
                i = i + 1;
            }
            if present {
                None
            } else {
                let mut v: Vec<Json> = Vec::new();
                let mut k: usize = 0;
                assert(crate::json::items_view(v@) =~= iv.take(0));
                while k < items.len()
                    invariant
                        k <= items@.len(),
                        iv == crate::json::items_view(items@),
                        crate::json::items_view(v@) == iv.take(k as int),
                    decreases items@.len() - k,
                {
                    let c = items[k].deep_clone();
                    let ghost before = crate::json::items_view(v@);
                    let ghost cv = c.view();
                    v.push(c);
                    assert(crate::json::items_view(v@) =~= before.push(cv));
                    assert(iv.take(k + 1) =~= iv.take(k as int).push(cv));
                    k = k + 1;
                }
                assert(iv.take(items@.len() as int) =~= iv);
                let ghost before = crate::json::items_view(v@);
                v.push(Json::string(project_path));
                assert(crate::json::items_view(v@) =~= before.push(JsonView::Str(project_path@)));
                Some(v)
            }
        },
        Some(_) => None,
    };
    match next {
        Some(v) => state.set(key, Json::from_items(v)),
        None => {},
    }
}

pub open spec fn labels_without(es: Seq<(Seq<char>, JsonView)>, path: Seq<char>) -> Seq<(Seq<char>, JsonView)>
    decreases es.len(),
{
    if es.len() == 0 {
        Seq::empty()
    } else {
        let rest = labels_without(es.drop_last(), path);
        if normalized_path(es.last().0) == path {
            rest
        } else {
            rest.push(es.last())
        }
    }
}

/// The state after the labels of `path` are removed, and whether there were
/// any.
pub open spec fn state_without_label(state: JsonView, path: Seq<char>) -> (JsonView, bool) {
    match jget(state, "electron-workspace-root-labels"@) {
        Some(JsonView::Object(es)) => (
            crate::json::jset(state, "electron-workspace-root-labels"@, JsonView::Object(labels_without(es, path))),
            labels_without(es, path).len() != es.len(),
        ),
        _ => (state, false),
    }
}

fn remove_project_label(state: &mut Json, project_path: &str) -> (r: bool)
    requires
        old(state).view() is Object,
    ensures
        (final(state).view(), r) == state_without_label(old(state).view(), project_path@),
        final(state).view() is Object,
{
    let next = match state.get("electron-workspace-root-labels") {
        Some(Json::Object(es)) => {
            let ghost ev = crate::json::entries_view(es@);
            let mut kept: Vec<(String, Json)> = Vec::new();
            let mut i: usize = 0;
            assert(ev.take(0) =~= Seq::<(Seq<char>, JsonView)>::empty());
            assert(crate::json::entries_view(kept@) =~= Seq::<(Seq<char>, JsonView)>::empty());
            while i < es.len()
                invariant
                    i <= es@.len(),
                    ev == crate::json::entries_view(es@),
                    crate::json::entries_view(kept@) == labels_without(ev.take(i as int), project_path@),
                decreases es@.len() - i,
            {
                assert(ev.take(i + 1).drop_last() =~= ev.take(i as int));
                assert(ev.take(i + 1).last() == (es@[i as int].0@, es@[i as int].1.view()));
                let n = normalize_project_path(es[i].0.as_str());
                if !str_eq(n.as_str(), project_path) {
                    let e = (owned(es[i].0.as_str()), es[i].1.deep_clone());
                    let ghost before = crate::json::entries_view(kept@);
                    let ghost e_view = (e.0@, e.1.view());
                    kept.push(e);
                    assert(crate::json::entries_view(kept@) =~= before.push(e_view));
                }
                i = i + 1;
            }
            assert(ev.take(es@.len() as int) =~= ev);
            let changed = kept.len() != es.len();
            Some((kept, changed))
        },
        _ => None,
    };
    match next {
        Some((kept, changed)) => {
            state.set("electron-workspace-root-labels", Json::Object(kept));
            changed
        },
        None => false,
    }
}

/// Codex's global state with a project removed from its saved roots,
/// project order, active roots and labels.
pub open spec fn state_without_project(state: JsonView, path: Seq<char>) -> (JsonView, bool) {
    let (s1, r1) = array_without(state, "electron-saved-workspace-roots"@, path);
    let (s2, r2) = array_without(s1, "project-order"@, path);
    let (s3, r3) = array_without(s2, "active-workspace-roots"@, path);
    let (s4, r4) = state_without_label(s3, path);
    (s4, r1 || r2 || r3 || r4)
}

/// Removes a project from Codex's global state object; returns whether
/// anything named it.
/// Whether a deletion-log entry records a whole project (whose restoring
/// puts the project back among the saved workspaces).
pub fn is_project_entry(entry: &DeletedSessionEntry) -> (r: bool)
    ensures
        r == (entry.kind@ == "project"@),
{
    str_eq(entry.kind.as_str(), "project")
}

pub fn remove_project_from_state(state: &mut Json, project_path: &str) -> (removed: bool)
    requires
        old(state).view() is Object,
    ensures
        (final(state).view(), removed) == state_without_project(old(state).view(), project_path@),
{
    let r1 = remove_project_from_array(state, "electron-saved-workspace-roots", project_path);
    let r2 = remove_project_from_array(state, "project-order", project_path);
    let r3 = remove_project_from_array(state, "active-workspace-roots", project_path);
    let r4 = remove_project_label(state, project_path);
    r1 || r2 || r3 || r4
}

/// The name a project has among Codex's saved workspaces: its label, or the
/// name its path gives.
pub open spec fn saved_project_name(labels: Seq<(Seq<char>, Seq<char>)>, path: Seq<char>) -> Seq<char> {
    match label_of(labels, path) {
        Some(l) => l,
        None => project_name_of(path),
    }
}

/// The name a project has among Codex's saved workspaces, given their
/// labels (`read_project_labels`).
pub fn saved_workspace_name(labels: &Vec<(String, String)>, project_path: &str) -> (r: String)
    ensures
        r@ == saved_project_name(crate::network_env::pairs_view(labels@), project_path@),
{
    match find_label(labels, project_path) {
        Some(l) => l,
        None => project_name_from_path(project_path),
    }
}

/// The error for a project that has neither sessions nor a saved workspace.
pub open spec fn no_sessions_message(project_path: Seq<char>) -> Seq<char> {
    "project `"@ + project_path + "` has no sessions"@
}

/// The name under which a project deletion is recorded, given the project
/// name of the first of its sessions (none: it has none), whether it was
/// removed from the saved workspaces and the name it had there. With no
/// session and no saved workspace there is nothing to delete.
pub open spec fn project_deletion_name_of(
    project_path: Seq<char>,
    first_session_name: Option<Seq<char>>,
    removed: bool,
    saved_name: Seq<char>,
) -> Result<Seq<char>, Seq<char>> {
    if removed {
        Ok(saved_name)
    } else {
        match first_session_name {
            Some(n) => Ok(n),
            None => Err(no_sessions_message(project_path)),
        }
    }
}

/// The name under which a project deletion is recorded, or the error where
/// the project has neither sessions nor a saved workspace.
pub fn project_deletion_name(
    project_path: &str,
    first_session_name: Option<&str>,
    removed: bool,
    saved_name: &str,
) -> (r: Result<String, String>)
    ensures
        match (r, project_deletion_name_of(
            project_path@,
            match first_session_name {
                Some(n) => Some(n@),
                None => None,
            },
            removed,
            saved_name@,
        )) {
            (Ok(a), Ok(b)) => a@ == b,
            (Err(a), Err(b)) => a@ == b,
            _ => false,
        },
{
    if removed {
        Ok(owned(saved_name))
    } else {
        match first_session_name {
            Some(n) => Ok(owned(n)),
            None => {
                let head = concat("project `", project_path);
                Err(concat(head.as_str(), "` has no sessions"))
            },
        }
    }
}

/// Codex's global state with a project added to its saved roots, project
/// order and active roots, labelled with its trimmed name if that is not
/// empty.
pub open spec fn state_with_project(state: JsonView, path: Seq<char>, name: Seq<char>) -> JsonView {
    let s1 = array_with(state, "electron-saved-workspace-roots"@, path);
    let s2 = array_with(s1, "project-order"@, path);
    let s3 = array_with(s2, "active-workspace-roots"@, path);
    let s4 = match jget(s3, "electron-workspace-root-labels"@) {
        None => crate::json::jset(s3, "electron-workspace-root-labels"@, JsonView::Object(Seq::empty())),
        Some(_) => s3,
    };
    match jget(s4, "electron-workspace-root-labels"@) {
        Some(JsonView::Object(es)) => if trim(name).len() > 0 {
            crate::json::jset(
                s4,
                "electron-workspace-root-labels"@,
                JsonView::Object(crate::json::entries_set(es, path, JsonView::Str(trim(name)))),
            )
        } else {
            s4
        },
        _ => s4,
    }
}

/// Adds a project back to Codex's global state object.
pub fn add_project_to_state(state: &mut Json, project_path: &str, project_name: &str)
    requires
        old(state).view() is Object,
    ensures
        final(state).view() == state_with_project(old(state).view(), project_path@, project_name@),
{
    add_project_to_array(state, "electron-saved-workspace-roots", project_path);
    add_project_to_array(state, "project-order", project_path);
    add_project_to_array(state, "active-workspace-roots", project_path);
    if state.get("electron-workspace-root-labels").is_none() {
        state.set("electron-workspace-root-labels", Json::object());
    }
    let label = trimmed(project_name);
    let next = match state.get("electron-workspace-root-labels") {
        Some(Json::Object(es)) => {
            if label.as_str().is_empty() {
                None
            } else {
                let mut copy: Vec<(String, Json)> = Vec::new();
                let ghost ev = crate::json::entries_view(es@);
                let mut i: usize = 0;
                assert(crate::json::entries_view(copy@) =~= ev.take(0));
                while i < es.len()
                    invariant
                        i <= es@.len(),
                        ev == crate::json::entries_view(es@),
                        crate::json::entries_view(copy@) == ev.take(i as int),
                    decreases es@.len() - i,
                {
                    let e = (owned(es[i].0.as_str()), es[i].1.deep_clone());
                    let ghost before = crate::json::entries_view(copy@);
                    let ghost e_view = (e.0@, e.1.view());
                    copy.push(e);
                    assert(crate::json::entries_view(copy@) =~= before.push(e_view));
                    assert(ev.take(i + 1) =~= ev.take(i as int).push(e_view));
                    i = i + 1;
                }
                assert(ev.take(es@.len() as int) =~= ev);
                crate::json::set_entry(&mut copy, project_path, Json::from_string(label));
                Some(copy)
            }
        },
        _ => None,
    };
    match next {
        Some(copy) => state.set("electron-workspace-root-labels", Json::Object(copy)),
        None => {},
    }
}


/// What `time::OffsetDateTime::parse(text, &Rfc3339)` gives, as seconds
/// since the epoch (`unix_timestamp`), or `None` where it fails.
pub uninterp spec fn rfc3339_seconds(text: Seq<char>) -> Option<i64>;

/// Parses an RFC 3339 date-time with the `time` crate and reads its Unix
/// timestamp. RFC 3339 dates carry four-digit years and offsets below a day,
/// so a parsed time lies between the years 0000 and 9999, give or take a
/// day; nothing more is claimed of which time comes back.
#[verifier::external_body]
fn parse_rfc3339(text: &str) -> (r: Option<i64>)
    ensures
        r == rfc3339_seconds(text@),
        r matches Some(t) ==> -63000000000 <= t <= 254000000000,
{
    match time::OffsetDateTime::parse(text, &time::format_description::well_known::Rfc3339) {
        Ok(t) => Some(t.unix_timestamp()),
        Err(_) => None,
    }
}

/// The `timestamp` of a session log event, in seconds.
pub open spec fn timestamp_of(value: JsonView) -> Option<i64> {
    match str_field(value, "timestamp"@) {
        Some(t) => rfc3339_seconds(t),
        None => None,
    }
}

pub fn timestamp_from_value(value: &Json) -> (r: Option<i64>)
    ensures
        r == timestamp_of(value.view()),
        r matches Some(t) ==> -63000000000 <= t <= 254000000000,
{
    match value.get_str("timestamp") {
        Some(t) => parse_rfc3339(t.as_str()),
        None => None,
    }
}

/// The texts of a message content: strings, the items of arrays, and the
/// `text`, `message` and `content` members of objects, in that order.
pub open spec fn texts_of(v: JsonView) -> Seq<Seq<char>>
    decreases v, 2int,
{
    match v {
        JsonView::Str(t) => seq![t],
        JsonView::Array(items) => items_texts(items),
        JsonView::Object(es) => member_texts(es, "text"@) + member_texts(es, "message"@) + member_texts(
            es,
            "content"@,
        ),
        _ => Seq::empty(),
    }
}

pub open spec fn items_texts(items: Seq<JsonView>) -> Seq<Seq<char>>
    decreases items, 1int,
{
    if items.len() == 0 {
        Seq::empty()
    } else {
        items_texts(items.drop_last()) + texts_of(items.last())
    }
}

pub open spec fn member_texts(es: Seq<(Seq<char>, JsonView)>, key: Seq<char>) -> Seq<Seq<char>>
    decreases es, 1int,
{
    if es.len() == 0 {
        Seq::empty()
    } else if es[0].0 == key {
        texts_of(es[0].1)
    } else {
        member_texts(es.drop_first(), key)
    }
}

fn collect_member_text(v: &Json, entries: &Vec<(String, Json)>, key: &str, parts: &mut Vec<String>)
    requires
        *v == Json::Object(*entries),
    ensures
        crate::text::strings_view(final(parts)@) == crate::text::strings_view(old(parts)@) + member_texts(
            crate::json::entries_view(entries@),
            key@,
        ),
    decreases v, 0int,
{
    let ghost ev = crate::json::entries_view(entries@);
    let ghost start = crate::text::strings_view(parts@);
    let mut i: usize = 0;
    assert(ev.skip(0) =~= ev);
    while i < entries.len()
        invariant
            i <= entries@.len(),
            *v == Json::Object(*entries),
            ev == crate::json::entries_view(entries@),
            crate::text::strings_view(parts@) == start,
            start == crate::text::strings_view(old(parts)@),
            member_texts(ev, key@) == member_texts(ev.skip(i as int), key@),
        decreases entries@.len() - i,
    {
        assert(ev.skip(i as int)[0] == (entries@[i as int].0@, entries@[i as int].1.view()));
        if str_eq(entries[i].0.as_str(), key) {
            proof {
                assert(v->Object_0 == *entries);
                assert(decreases_to!(*v => v->Object_0));
                vstd::std_specs::vec::axiom_vec_index_decreases(*entries, i as int);
                assert(decreases_to!((*entries)[i as int] => (*entries)[i as int].1));
            }
            collect_text(&entries[i].1, parts);
            assert(ev.skip(i as int)[0].0 == key@);
            assert(member_texts(ev.skip(i as int), key@) == texts_of(entries@[i as int].1.view()));
            return;
        }
        assert(ev.skip(i as int).drop_first() =~= ev.skip(i + 1));
        i = i + 1;
    }
    assert(crate::text::strings_view(parts@) =~= start + Seq::<Seq<char>>::empty());
}

/// Appends the texts of `value` to `parts`.
pub fn collect_text(value: &Json, parts: &mut Vec<String>)
    ensures
        crate::text::strings_view(final(parts)@) == crate::text::strings_view(old(parts)@) + texts_of(value.view()),
    decreases value, 1int,
{
    let ghost start = crate::text::strings_view(parts@);
    match value {
        Json::Str(t) => {
            parts.push(owned(t.as_str()));
            assert(crate::text::strings_view(parts@) =~= start + seq![t@]);
        },
        Json::Array(items) => {
            let ghost iv = crate::json::items_view(items@);
            let mut i: usize = 0;
            assert(iv.take(0) =~= Seq::<JsonView>::empty());
            assert(crate::text::strings_view(parts@) =~= start + items_texts(iv.take(0)));
            while i < items.len()
                invariant
                    i <= items@.len(),
                    *value == Json::Array(*items),
                    iv == crate::json::items_view(items@),
                    crate::text::strings_view(parts@) == start + items_texts(iv.take(i as int)),
                decreases items@.len() - i,
            {
                proof {
                    assert(value->Array_0 == *items);
                    assert(decreases_to!(*value => value->Array_0));
                    vstd::std_specs::vec::axiom_vec_index_decreases(*items, i as int);
                }
                collect_text(&items[i], parts);
                assert(iv.take(i + 1).drop_last() =~= iv.take(i as int));
                assert(iv.take(i + 1).last() == items@[i as int].view());
                i = i + 1;
            }
            assert(iv.take(items@.len() as int) =~= iv);
        },
        Json::Object(entries) => {
            collect_member_text(value, entries, "text", parts);
            collect_member_text(value, entries, "message", parts);
            collect_member_text(value, entries, "content", parts);
        },
        _ => {
            assert(crate::text::strings_view(parts@) =~= start + Seq::<Seq<char>>::empty());
        },
    }
}

/// The text of a message payload's content, cleaned; none where empty.
pub open spec fn content_text_of(payload: JsonView) -> Option<Seq<char>> {
    match jget(payload, "content"@) {
        Some(c) => {
            let t = cleaned(join(texts_of(c), " "@));
            if t.len() > 0 {
                Some(t)
            } else {
                None
            }
        },
        None => None,
    }
}

pub fn message_content_text(payload: &Json) -> (r: Option<String>)
    ensures
        match r {
            Some(t) => content_text_of(payload.view()) == Some(t@),
            None => content_text_of(payload.view()) is None,
        },
{
    let content = match payload.get("content") {
        Some(c) => c,
        None => return None,
    };
    let mut parts: Vec<String> = Vec::new();
    assert(crate::text::strings_view(parts@) =~= Seq::<Seq<char>>::empty());
    collect_text(content, &mut parts);
    assert(parts@.map_values(|p: String| p@) =~= crate::text::strings_view(parts@));
    assert(crate::text::strings_view(parts@) =~= texts_of(content.view()));
    let joined_text = crate::text::join_strings(&parts, " ");
    let text = clean_text(joined_text.as_str());
    if text.as_str().is_empty() {
        None
    } else {
        Some(text)
    }
}

pub struct PreviewView {
    pub role: Seq<char>,
    pub text: Seq<char>,
    pub timestamp: Option<i64>,
}

impl CodexSessionPreviewEntry {
    pub open spec fn view(&self) -> PreviewView {
        PreviewView { role: self.role@, text: self.text@, timestamp: self.timestamp }
    }
}

/// The preview message a session log event shows, if any: user and agent
/// messages of `event_msg` events, and messages of `response_item` events.
pub open spec fn preview_of(value: JsonView) -> Option<PreviewView> {
    match jget(value, "payload"@) {
        None => None,
        Some(payload) => {
            let ts = timestamp_of(value);
            let kind = str_field(value, "type"@);
            let payload_type = str_field(payload, "type"@);
            if kind == Some("event_msg"@) && payload_type == Some("user_message"@) {
                match str_field(payload, "message"@) {
                    Some(t) => Some(PreviewView { role: "user"@, text: cleaned(t), timestamp: ts }),
                    None => None,
                }
            } else if kind == Some("event_msg"@) && payload_type == Some("agent_message"@) {
                match str_field(payload, "message"@) {
                    Some(t) => Some(PreviewView { role: "assistant"@, text: cleaned(t), timestamp: ts }),
                    None => None,
                }
            } else if kind == Some("response_item"@) && payload_type == Some("message"@) && str_field(
                payload,
                "role"@,
            ) is Some {
                match content_text_of(payload) {
                    Some(t) => Some(
                        PreviewView { role: role_of(str_field(payload, "role"@)->0), text: t, timestamp: ts },
                    ),
                    None => None,
                }
            } else {
                None
            }
        },
    }
}

pub fn preview_entry_from_event(value: &Json) -> (r: Option<CodexSessionPreviewEntry>)
    ensures
        match r {
            Some(e) => preview_of(value.view()) == Some(e.view()),
            None => preview_of(value.view()) is None,
        },
        r matches Some(e) ==> (e.timestamp matches Some(t) ==> -63000000000 <= t <= 254000000000),
{
    let payload = match value.get("payload") {
        Some(p) => p,
        None => return None,
    };
    let timestamp = timestamp_from_value(value);
    let kind = value.get_str("type");
    let payload_type = payload.get_str("type");
    let is_event = match kind {
        Some(k) => str_eq(k.as_str(), "event_msg"),
        None => false,
    };
    let is_item = match kind {
        Some(k) => str_eq(k.as_str(), "response_item"),
        None => false,
    };
    let user_message = match payload_type {
        Some(t) => str_eq(t.as_str(), "user_message"),
        None => false,
    };
    let agent_message = match payload_type {
        Some(t) => str_eq(t.as_str(), "agent_message"),
        None => false,
    };
    let message = match payload_type {
        Some(t) => str_eq(t.as_str(), "message"),
        None => false,
    };
    if is_event && user_message {
        match payload.get_str("message") {
            Some(t) => Some(CodexSessionPreviewEntry { role: owned("user"), text: clean_text(t.as_str()), timestamp }),
            None => None,
        }
    } else if is_event && agent_message {
        match payload.get_str("message") {
            Some(t) => Some(
                CodexSessionPreviewEntry { role: owned("assistant"), text: clean_text(t.as_str()), timestamp },
            ),
            None => None,
        }
    } else if is_item && message && payload.get_str("role").is_some() {
        let role = match payload.get_str("role") {
            Some(r) => normalize_role(r.as_str()),
            None => "message",
        };
        match message_content_text(payload) {
            Some(t) => Some(CodexSessionPreviewEntry { role: owned(role), text: t, timestamp }),
            None => None,
        }
    } else {
        None
    }
}


/// A session found on disk or in Codex's index.
pub struct SessionRecord {
    pub summary: CodexSessionSummary,
    pub absolute_path: String,
    pub relative_path: String,
    pub sort_updated_at_ms: i64,
}

/// What a scan of a session log has read so far.
pub struct SessionScan {
    pub id: Option<String>,
    pub title: Option<String>,
    pub created_at: Option<i64>,
    pub updated_at: Option<i64>,
    pub message_count: usize,
    pub project_path: String,
}

pub struct ScanView {
    pub id: Option<Seq<char>>,
    pub title: Option<Seq<char>>,
    pub created_at: Option<i64>,
    pub updated_at: Option<i64>,
    pub message_count: nat,
    pub project_path: Seq<char>,
}

impl SessionScan {
    pub open spec fn view(&self) -> ScanView {
        ScanView {
            id: crate::accounts::opt_view(self.id),
            title: crate::accounts::opt_view(self.title),
            created_at: self.created_at,
            updated_at: self.updated_at,
            message_count: self.message_count as nat,
            project_path: self.project_path@,
        }
    }

    /// Timestamps stay within the years 0000 to 9999, give or take a day.
    pub open spec fn times_bounded(&self) -> bool {
        &&& self.created_at matches Some(t) ==> -63000000000 <= t <= 254000000000
        &&& self.updated_at matches Some(t) ==> -63000000000 <= t <= 254000000000
    }
}

pub open spec fn opt_or<T>(a: Option<T>, b: Option<T>) -> Option<T> {
    match a {
        Some(x) => Some(x),
        None => b,
    }
}

/// One event of a session log read: its time, the session metadata it
/// carries, and whether it is a message (the first user message gives the
/// title).
pub open spec fn scan_step(s: ScanView, value: JsonView) -> ScanView {
    let ts = timestamp_of(value);
    let created = opt_or(s.created_at, ts);
    let updated = if ts is Some {
        ts
    } else {
        s.updated_at
    };
    let s1 = ScanView { created_at: created, updated_at: updated, ..s };
    let s2 = if str_field(value, "type"@) == Some("session_meta"@) {
        let id = match as_str(jpath(value, "payload"@, "id"@)) {
            Some(m) => Some(m),
            None => s1.id,
        };
        let created2 = if s1.created_at is None {
            match as_str(jpath(value, "payload"@, "timestamp"@)) {
                Some(t) => rfc3339_seconds(t),
                None => None,
            }
        } else {
            s1.created_at
        };
        let path = if s1.project_path.len() == 0 {
            match as_str(jpath(value, "payload"@, "cwd"@)) {
                Some(c) => c,
                None => Seq::empty(),
            }
        } else {
            s1.project_path
        };
        ScanView { id: id, created_at: created2, project_path: normalized_path(path), ..s1 }
    } else {
        s1
    };
    match preview_of(value) {
        Some(e) => ScanView {
            message_count: s2.message_count + 1,
            title: if s2.title is None && e.role == "user"@ {
                Some(title_of(e.text))
            } else {
                s2.title
            },
            ..s2
        },
        None => s2,
    }
}

impl SessionScan {
    /// A scan that has read nothing.
    pub fn new() -> (r: Self)
        ensures
            r.view() == (ScanView {
                id: None,
                title: None,
                created_at: None,
                updated_at: None,
                message_count: 0,
                project_path: Seq::empty(),
            }),
            r.times_bounded(),
    {
        SessionScan {
            id: None,
            title: None,
            created_at: None,
            updated_at: None,
            message_count: 0,
            project_path: String::new(),
        }
    }

    /// Reads one parsed event of the log.
    pub fn scan_event(&mut self, value: &Json)
        requires
            old(self).message_count < usize::MAX,
            old(self).times_bounded(),
        ensures
            final(self).view() == scan_step(old(self).view(), value.view()),
            final(self).times_bounded(),
    {
        let timestamp = timestamp_from_value(value);
        if self.created_at.is_none() {
            self.created_at = timestamp;
        }
        if timestamp.is_some() {
            self.updated_at = timestamp;
        }
        let is_meta = match value.get_str("type") {
            Some(t) => str_eq(t.as_str(), "session_meta"),
            None => false,
        };
        if is_meta {
            match value.get_path("payload", "id") {
                Some(v) => match v.as_str() {
                    Some(m) => {
                        self.id = Some(owned(m.as_str()));
                    },
                    None => {},
                },
                None => {},
            }
            if self.created_at.is_none() {
                self.created_at = match value.get_path("payload", "timestamp") {
                    Some(v) => match v.as_str() {
                        Some(t) => parse_rfc3339(t.as_str()),
                        None => None,
                    },
                    None => None,
                };
            }
            if self.project_path.as_str().is_empty() {
                self.project_path = match value.get_path("payload", "cwd") {
                    Some(v) => match v.as_str() {
                        Some(c) => owned(c.as_str()),
                        None => String::new(),
                    },
                    None => String::new(),
                };
            }
            self.project_path = normalize_project_path(self.project_path.as_str());
        }
        match preview_entry_from_event(value) {
            Some(entry) => {
                self.message_count = self.message_count + 1;
                if self.title.is_none() && str_eq(entry.role.as_str(), "user") {
                    self.title = Some(title_from_text(entry.text.as_str()));
                }
            },
            None => {},
        }
    }
}

/// The summary of a scanned session log: its id (else the file's stem),
/// times (else the file's modification time), title (else a placeholder),
/// message count, size and place.
pub open spec fn scanned_summary(
    s: ScanView,
    fallback_time: i64,
    file_size: u64,
    relative_path: Seq<char>,
    file_stem: Option<Seq<char>>,
) -> Option<SummaryView> {
    match opt_or(s.id, file_stem) {
        None => None,
        Some(id) => {
            let created = match s.created_at {
                Some(c) => c,
                None => fallback_time,
            };
            Some(
                SummaryView {
                    id: id,
                    title: match s.title {
                        Some(t) => t,
                        None => "Untitled Codex session"@,
                    },
                    created_at: created,
                    updated_at: match s.updated_at {
                        Some(u) => u,
                        None => created,
                    },
                    activity_rank: 0,
                    sidebar_order: 0,
                    message_count: s.message_count as usize,
                    file_size_bytes: file_size,
                    relative_path: relative_path,
                    project_path: s.project_path,
                    project_name: project_name_of(s.project_path),
                },
            )
        },
    }
}

impl SessionScan {
    /// The session record of a scanned log at `absolute_path`
    /// (`relative_path` inside the sessions folder).
    pub fn finish(
        self,
        fallback_time: i64,
        file_size: u64,
        absolute_path: &str,
        relative_path: &str,
        file_stem: Option<String>,
    ) -> (r: Option<SessionRecord>)
        requires
            self.times_bounded(),
            -9223372036854775 <= fallback_time <= 9223372036854775,
        ensures
            match scanned_summary(
                self.view(),
                fallback_time,
                file_size,
                relative_path@,
                crate::accounts::opt_view(file_stem),
            ) {
                Some(summary) => r matches Some(rec) && rec.summary.view() == summary && rec.absolute_path@
                    == absolute_path@ && rec.relative_path@ == relative_path@ && rec.sort_updated_at_ms
                    == summary.updated_at * 1000,
                None => r is None,
            },
    {
        let id = match self.id {
            Some(id) => id,
            None => match file_stem {
                Some(stem) => stem,
                None => return None,
            },
        };
        let created_at = match self.created_at {
            Some(c) => c,
            None => fallback_time,
        };
        let updated_at = match self.updated_at {
            Some(u) => u,
            None => created_at,
        };
        let title = match self.title {
            Some(t) => t,
            None => owned("Untitled Codex session"),
        };
        let project_name = project_name_from_path(self.project_path.as_str());
        Some(
            SessionRecord {
                summary: CodexSessionSummary {
                    id,
                    title,
                    created_at,
                    updated_at,
                    sidebar_order: 0,
                    activity_rank: 0,
                    message_count: self.message_count,
                    file_size_bytes: file_size,
                    relative_path: owned(relative_path),
                    project_name,
                    project_path: self.project_path,
                },
                absolute_path: owned(absolute_path),
                relative_path: owned(relative_path),
                sort_updated_at_ms: updated_at * 1000,
            },
        )
    }
}

/// A scan that has read nothing.
pub open spec fn empty_scan() -> ScanView {
    ScanView {
        id: None,
        title: None,
        created_at: None,
        updated_at: None,
        message_count: 0,
        project_path: Seq::empty(),
    }
}

/// The scan after the lines of a session log, in order; a line that is no
/// JSON is passed over.
pub open spec fn scan_lines(s: ScanView, lines: Seq<Seq<char>>) -> ScanView
    decreases lines.len(),
{
    if lines.len() == 0 {
        s
    } else {
        let s1 = scan_lines(s, lines.drop_last());
        match json_of_text(lines.last()) {
            Some(v) => scan_step(s1, v),
            None => s1,
        }
    }
}

/// Whether a JSON line comes after the message count has reached
/// `usize::MAX`, so that counting it would overflow.
pub open spec fn scan_overflows(s: ScanView, lines: Seq<Seq<char>>) -> bool
    decreases lines.len(),
{
    if lines.len() == 0 {
        false
    } else {
        scan_overflows(s, lines.drop_last()) || (json_of_text(lines.last()) is Some && scan_lines(
            s,
            lines.drop_last(),
        ).message_count >= usize::MAX)
    }
}

/// The record of a session log, given its text, its modification time, its
/// size, its paths and its file name's stem: the scan of its lines, finished
/// as `finish` says; an error where the messages cannot be counted.
pub fn scan_session_text(
    text: &str,
    fallback_time: i64,
    file_size: u64,
    absolute_path: &str,
    relative_path: &str,
    file_stem: Option<String>,
) -> (r: Result<Option<SessionRecord>, String>)
    requires
        -9223372036854775 <= fallback_time <= 9223372036854775,
    ensures
        r is Err <==> scan_overflows(empty_scan(), lines_of(text@)),
        r matches Err(e) ==> e@ == "session log has too many messages"@,
        r matches Ok(x) ==> match scanned_summary(
            scan_lines(empty_scan(), lines_of(text@)),
            fallback_time,
            file_size,
            relative_path@,
            crate::accounts::opt_view(file_stem),
        ) {
            Some(summary) => x matches Some(rec) && rec.summary.view() == summary && rec.absolute_path@
                == absolute_path@ && rec.relative_path@ == relative_path@ && rec.sort_updated_at_ms
                == summary.updated_at * 1000,
            None => x is None,
        },
{
    let ls = lines(text);
    let ghost lv = strings_view(ls@);
    let mut scan = SessionScan::new();
    let mut i: usize = 0;
    assert(lv.take(0) =~= Seq::<Seq<char>>::empty());
    while i < ls.len()
        invariant
            i <= ls@.len(),
            lv == strings_view(ls@),
            lv == lines_of(text@),
            scan.view() == scan_lines(empty_scan(), lv.take(i as int)),
            !scan_overflows(empty_scan(), lv.take(i as int)),
            scan.times_bounded(),
        decreases ls@.len() - i,
    {
        let ghost t = lv.take(i + 1);
        assert(t.drop_last() =~= lv.take(i as int));
        assert(t.last() == ls@[i as int]@);
        match parse_json_text(ls[i].as_str()) {
            Ok(value) => {
                if scan.message_count == usize::MAX {
                    proof {
                        lemma_overflow_stays(empty_scan(), lv, i as int + 1);
                    }
                    assert(lv.take(lv.len() as int) =~= lv);
                    return Err(owned("session log has too many messages"));
                }
                scan.scan_event(&value);
            },
            Err(_) => {},
        }
        i = i + 1;
    }
    assert(lv.take(lv.len() as int) =~= lv);
    Ok(scan.finish(fallback_time, file_size, absolute_path, relative_path, file_stem))
}

proof fn lemma_overflow_stays(s: ScanView, lines: Seq<Seq<char>>, k: int)
    requires
        0 <= k <= lines.len(),
        scan_overflows(s, lines.take(k)),
    ensures
        scan_overflows(s, lines),
    decreases lines.len() - k,
{
    if k < lines.len() {
        assert(lines.take(k + 1).drop_last() =~= lines.take(k));
        lemma_overflow_stays(s, lines, k + 1);
    } else {
        assert(lines.take(k) =~= lines);
    }
}

/// The preview of a session log: its first preview messages, at most
/// eighteen.
pub const MAX_PREVIEW_ENTRIES: usize = 18;

/// Adds the preview message of one log event; returns whether the preview
/// is full.
pub fn add_preview_entry(entries: &mut Vec<CodexSessionPreviewEntry>, value: &Json) -> (full: bool)
    requires
        old(entries)@.len() < MAX_PREVIEW_ENTRIES,
    ensures
        match preview_of(value.view()) {
            Some(e) => final(entries)@.len() == old(entries)@.len() + 1 && final(entries)@.last().view() == e
                && final(entries)@.drop_last() == old(entries)@,
            None => final(entries)@ == old(entries)@,
        },
        full == (final(entries)@.len() >= MAX_PREVIEW_ENTRIES),
{
    match preview_entry_from_event(value) {
        Some(e) => {
            entries.push(e);
            assert(entries@.drop_last() =~= old(entries)@);
        },
        None => {},
    }
    entries.len() >= MAX_PREVIEW_ENTRIES
}


/// The preview messages of the lines of a session log, in order; a line
/// that is no JSON is passed over.
pub open spec fn line_previews(lines: Seq<Seq<char>>) -> Seq<PreviewView>
    decreases lines.len(),
{
    if lines.len() == 0 {
        Seq::empty()
    } else {
        let r = line_previews(lines.drop_last());
        match json_of_text(lines.last()) {
            Some(v) => match preview_of(v) {
                Some(e) => r.push(e),
                None => r,
            },
            None => r,
        }
    }
}

proof fn lemma_previews_prefix(lines: Seq<Seq<char>>, k: int)
    requires
        0 <= k <= lines.len(),
    ensures
        line_previews(lines.take(k)).len() <= line_previews(lines).len(),
        line_previews(lines).take(line_previews(lines.take(k)).len() as int) == line_previews(lines.take(k)),
    decreases lines.len() - k,
{
    if k == lines.len() {
        assert(lines.take(k) =~= lines);
        assert(line_previews(lines).take(line_previews(lines).len() as int) =~= line_previews(lines));
    } else {
        lemma_previews_prefix(lines, k + 1);
        let a = line_previews(lines.take(k));
        let b = line_previews(lines.take(k + 1));
        assert(lines.take(k + 1).drop_last() =~= lines.take(k));
        assert(b.take(a.len() as int) =~= a);
        assert(line_previews(lines).take(a.len() as int) =~= line_previews(lines).take(b.len() as int).take(
            a.len() as int,
        ));
    }
}

/// The preview of a session log's text: the preview messages of its lines,
/// the first eighteen of them.
pub fn preview_session_text(text: &str) -> (r: Vec<CodexSessionPreviewEntry>)
    ensures
        r@.map_values(|e: CodexSessionPreviewEntry| e.view()) == (if line_previews(lines_of(text@)).len()
            <= MAX_PREVIEW_ENTRIES {
            line_previews(lines_of(text@))
        } else {
            line_previews(lines_of(text@)).take(MAX_PREVIEW_ENTRIES as int)
        }),
{
    let ls = lines(text);
    let ghost lv = strings_view(ls@);
    let mut entries: Vec<CodexSessionPreviewEntry> = Vec::new();
    let mut i: usize = 0;
    assert(lv.take(0) =~= Seq::<Seq<char>>::empty());
    assert(entries@.map_values(|e: CodexSessionPreviewEntry| e.view()) =~= Seq::<PreviewView>::empty());
    while i < ls.len()
        invariant
            i <= ls@.len(),
            lv == strings_view(ls@),
            lv == lines_of(text@),
            entries@.map_values(|e: CodexSessionPreviewEntry| e.view()) == line_previews(lv.take(i as int)),
            entries@.len() < MAX_PREVIEW_ENTRIES,
        decreases ls@.len() - i,
    {
        let ghost t = lv.take(i + 1);
        let ghost before = entries@;
        assert(t.drop_last() =~= lv.take(i as int));
        assert(t.last() == ls@[i as int]@);
        match parse_json_text(ls[i].as_str()) {
            Ok(value) => {
                let full = add_preview_entry(&mut entries, &value);
                proof {
                    match preview_of(value.view()) {
                        Some(e) => {
                            assert(entries@ =~= before.push(entries@.last()));
                            assert(entries@.map_values(|e: CodexSessionPreviewEntry| e.view()) =~= before.map_values(
                                |e: CodexSessionPreviewEntry| e.view(),
                            ).push(e));
                        },
                        None => {},
                    }
                }
                if full {
                    proof {
                        lemma_previews_prefix(lv, i + 1);
                    }
                    assert(lv.take(lv.len() as int) =~= lv);
                    return entries;
                }
            },
            Err(_) => {},
        }
        i = i + 1;
    }
    assert(lv.take(lv.len() as int) =~= lv);
    entries
}

/// A thread of Codex's thread index.
pub struct ThreadIndexRecord {
    pub id: String,
    pub title: String,
    pub created_at: i64,
    pub updated_at: i64,
    pub updated_at_ms: i64,
    pub thread_source: Option<String>,
    pub model_provider: String,
    pub source: String,
    pub activity_rank: i64,
    pub sidebar_order: i64,
    pub rollout_path: String,
    pub project_path: String,
}

pub struct ThreadView {
    pub id: Seq<char>,
    pub title: Seq<char>,
    pub created_at: i64,
    pub updated_at: i64,
    pub updated_at_ms: i64,
    pub thread_source: Option<Seq<char>>,
    pub model_provider: Seq<char>,
    pub source: Seq<char>,
    pub activity_rank: i64,
    pub sidebar_order: i64,
    pub rollout_path: Seq<char>,
    pub project_path: Seq<char>,
}

impl ThreadIndexRecord {
    pub open spec fn view(&self) -> ThreadView {
        ThreadView {
            id: self.id@,
            title: self.title@,
            created_at: self.created_at,
            updated_at: self.updated_at,
            updated_at_ms: self.updated_at_ms,
            thread_source: crate::accounts::opt_view(self.thread_source),
            model_provider: self.model_provider@,
            source: self.source@,
            activity_rank: self.activity_rank,
            sidebar_order: self.sidebar_order,
            rollout_path: self.rollout_path@,
            project_path: self.project_path@,
        }
    }

    /// A copy of the record.
    pub fn duplicate(&self) -> (r: Self)
        ensures
            r.view() == self.view(),
    {
        ThreadIndexRecord {
            id: owned(self.id.as_str()),
            title: owned(self.title.as_str()),
            created_at: self.created_at,
            updated_at: self.updated_at,
            updated_at_ms: self.updated_at_ms,
            thread_source: crate::accounts::clone_opt(&self.thread_source),
            model_provider: owned(self.model_provider.as_str()),
            source: owned(self.source.as_str()),
            activity_rank: self.activity_rank,
            sidebar_order: self.sidebar_order,
            rollout_path: owned(self.rollout_path.as_str()),
            project_path: owned(self.project_path.as_str()),
        }
    }
}

/// The title of an indexed thread: a placeholder for a blank one.
pub fn thread_title(raw: String) -> (r: String)
    ensures
        r@ == if crate::text::is_blank(raw@) {
            "Untitled Codex session"@
        } else {
            raw@
        },
{
    if crate::text::blank(raw.as_str()) {
        owned("Untitled Codex session")
    } else {
        raw
    }
}

/// A thread's source, trimmed, if not empty.
pub open spec fn thread_source_of(t: ThreadView) -> Option<Seq<char>> {
    match t.thread_source {
        Some(s) => crate::transform::nonempty(Some(trim(s))),
        None => None,
    }
}

pub fn normalized_thread_source(record: &ThreadIndexRecord) -> (r: Option<String>)
    ensures
        crate::accounts::opt_view(r) == thread_source_of(record.view()),
{
    match &record.thread_source {
        Some(s) => {
            let t = trimmed(s.as_str());
            if t.as_str().is_empty() {
                None
            } else {
                Some(t)
            }
        },
        None => None,
    }
}

/// A thread spawned by an agent, not by the user.
pub open spec fn subagent_of(t: ThreadView) -> bool {
    thread_source_of(t) == Some("subagent"@) || crate::text::contains(t.source, "\"subagent\""@)
        || crate::text::contains(t.source, "thread_spawn"@)
}

pub fn is_subagent_thread(record: &ThreadIndexRecord) -> (r: bool)
    ensures
        r == subagent_of(record.view()),
{
    let source_is_subagent = match normalized_thread_source(record) {
        Some(s) => str_eq(s.as_str(), "subagent"),
        None => false,
    };
    source_is_subagent || crate::text::has_substring(record.source.as_str(), "\"subagent\"")
        || crate::text::has_substring(record.source.as_str(), "thread_spawn")
}

/// How long a thread without a source stays visible: thirty days.
pub const LEGACY_OPENAI_THREAD_MAX_AGE_SECONDS: i64 = 2592000;

/// A thread the user started with the official provider: marked as a user
/// thread, or unmarked and updated within thirty days before `now`.
pub open spec fn visible_user_of(t: ThreadView, now: i64) -> bool {
    if t.model_provider != "openai"@ {
        false
    } else {
        match t.thread_source {
            Some(s) => trim(s) == "user"@,
            None => {
                let cutoff = if now - LEGACY_OPENAI_THREAD_MAX_AGE_SECONDS < i64::MIN {
                    i64::MIN as int
                } else {
                    now - LEGACY_OPENAI_THREAD_MAX_AGE_SECONDS
                };
                t.updated_at >= cutoff
            },
        }
    }
}

pub fn is_visible_user_thread(record: &ThreadIndexRecord, now: i64) -> (r: bool)
    ensures
        r == visible_user_of(record.view(), now),
{
    if !str_eq(record.model_provider.as_str(), "openai") {
        return false;
    }
    match &record.thread_source {
        Some(s) => {
            let t = trimmed(s.as_str());
            str_eq(t.as_str(), "user")
        },
        None => {
            let cutoff = if now < i64::MIN + LEGACY_OPENAI_THREAD_MAX_AGE_SECONDS {
                i64::MIN
            } else {
                now - LEGACY_OPENAI_THREAD_MAX_AGE_SECONDS
            };
            record.updated_at >= cutoff
        },
    }
}

/// The sidebar title and position of a thread, from Codex's session index.
pub struct SidebarTitleRecord {
    pub title: String,
    pub order: i64,
}

/// The sidebar entry of one line of Codex's session index (counted from
/// zero): its id, cleaned title and position (counted from one); none
/// without an id, a title, or a non-empty cleaned title.
pub fn sidebar_title_entry(value: &Json, line_index: usize) -> (r: Option<(String, SidebarTitleRecord)>)
    requires
        line_index < i64::MAX,
    ensures
        match (str_field(value.view(), "id"@), str_field(value.view(), "thread_name"@)) {
            (Some(id), Some(name)) => if cleaned(name).len() > 0 {
                r matches Some((i, t)) && i@ == id && t.title@ == cleaned(name) && t.order == line_index + 1
            } else {
                r is None
            },
            _ => r is None,
        },
{
    let id = match value.get_str("id") {
        Some(i) => i,
        None => return None,
    };
    let name = match value.get_str("thread_name") {
        Some(n) => n,
        None => return None,
    };
    let title = clean_text(name.as_str());
    if title.as_str().is_empty() {
        return None;
    }
    Some((owned(id.as_str()), SidebarTitleRecord { title, order: (line_index as i64) + 1 }))
}

/// The sidebar entry of a parsed line of Codex's session index at `index`
/// (counted from zero), as `sidebar_title_entry` gives it.
pub open spec fn sidebar_entry_of(v: JsonView, index: int) -> Option<(Seq<char>, (Seq<char>, i64))> {
    match (str_field(v, "id"@), str_field(v, "thread_name"@)) {
        (Some(id), Some(name)) => if cleaned(name).len() > 0 {
            Some((id, (cleaned(name), (index + 1) as i64)))
        } else {
            None
        },
        _ => None,
    }
}

/// The sidebar entries of the lines of Codex's session index, in order; a
/// line that is no JSON is passed over.
pub open spec fn sidebar_lines(lines: Seq<Seq<char>>) -> Seq<(Seq<char>, (Seq<char>, i64))>
    decreases lines.len(),
{
    if lines.len() == 0 {
        Seq::empty()
    } else {
        let r = sidebar_lines(lines.drop_last());
        match json_of_text(lines.last()) {
            Some(v) => match sidebar_entry_of(v, lines.len() - 1) {
                Some(e) => r.push(e),
                None => r,
            },
            None => r,
        }
    }
}

/// The sidebar entries of the text of Codex's session index (lines from
/// `i64::MAX` on are not read).
pub fn sidebar_titles_from_text(text: &str) -> (r: Vec<(String, SidebarTitleRecord)>)
    ensures
        sidebar_view(r@) == sidebar_lines(
            if lines_of(text@).len() <= i64::MAX {
                lines_of(text@)
            } else {
                lines_of(text@).take(i64::MAX as int)
            },
        ),
{
    let ls = lines(text);
    let ghost lv = strings_view(ls@);
    let mut r: Vec<(String, SidebarTitleRecord)> = Vec::new();
    let mut i: usize = 0;
    assert(lv.take(0) =~= Seq::<Seq<char>>::empty());
    assert(sidebar_view(r@) =~= Seq::<(Seq<char>, (Seq<char>, i64))>::empty());
    while i < ls.len()
        invariant
            i <= ls@.len(),
            i <= i64::MAX,
            lv == strings_view(ls@),
            lv == lines_of(text@),
            sidebar_view(r@) == sidebar_lines(lv.take(i as int)),
        decreases ls@.len() - i,
    {
        if i as u64 >= 9223372036854775807u64 {
            assert(lv.take(i as int) == lv.take(i64::MAX as int));
            return r;
        }
        let ghost t = lv.take(i + 1);
        let ghost before = sidebar_view(r@);
        assert(t.drop_last() =~= lv.take(i as int));
        assert(t.last() == ls@[i as int]@);
        match parse_json_text(ls[i].as_str()) {
            Ok(value) => match sidebar_title_entry(&value, i) {
                Some(e) => {
                    r.push(e);
                    assert(sidebar_view(r@) =~= before.push(sidebar_view(r@).last()));
                },
                None => {},
            },
            Err(_) => {},
        }
        i = i + 1;
    }
    assert(lv.take(lv.len() as int) =~= lv);
    r
}

/// The activity rank of a Codex process entry: its update time, else its
/// start time, else zero.
pub open spec fn rank_of(item: JsonView) -> i64 {
    match crate::json::as_i64(jget(item, "updatedAtMs"@)) {
        Some(r) => r,
        None => match crate::json::as_i64(jget(item, "startedAtMs"@)) {
            Some(r) => r,
            None => 0,
        },
    }
}

/// The highest rank of the process entries for `id` among `items`.
pub open spec fn best_rank(items: Seq<JsonView>, id: Seq<char>) -> Option<i64>
    decreases items.len(),
{
    if items.len() == 0 {
        None
    } else {
        let rest = best_rank(items.drop_last(), id);
        if str_field(items.last(), "conversationId"@) == Some(id) {
            match rest {
                Some(r) => Some(max_i64(r, rank_of(items.last()))),
                None => Some(rank_of(items.last())),
            }
        } else {
            rest
        }
    }
}

pub open spec fn rank_lookup(ranks: Seq<(Seq<char>, i64)>, id: Seq<char>) -> Option<i64>
    decreases ranks.len(),
{
    if ranks.len() == 0 {
        None
    } else if ranks.last().0 == id {
        Some(ranks.last().1)
    } else {
        rank_lookup(ranks.drop_last(), id)
    }
}

pub open spec fn ranks_view(v: Seq<(String, i64)>) -> Seq<(Seq<char>, i64)> {
    v.map_values(|p: (String, i64)| (p.0@, p.1))
}

fn rank_position(ranks: &Vec<(String, i64)>, id: &str) -> (r: Option<usize>)
    requires
        forall|a: int, b: int| 0 <= a < b < ranks@.len() ==> ranks@[a].0@ != ranks@[b].0@,
    ensures
        match r {
            Some(i) => i < ranks@.len() && ranks@[i as int].0@ == id@ && forall|j: int|
                0 <= j < ranks@.len() && j != i ==> ranks@[j].0@ != id@,
            None => forall|j: int| 0 <= j < ranks@.len() ==> ranks@[j].0@ != id@,
        },
{
    let mut i: usize = 0;
    while i < ranks.len()
        invariant
            i <= ranks@.len(),
            forall|a: int, b: int| 0 <= a < b < ranks@.len() ==> ranks@[a].0@ != ranks@[b].0@,
            forall|j: int| 0 <= j < i ==> ranks@[j].0@ != id@,
        decreases ranks@.len() - i,
    {
        if str_eq(ranks[i].0.as_str(), id) {
            return Some(i);
        }
        i = i + 1;
    }
    None
}

pub open spec fn keys_unique(ranks: Seq<(Seq<char>, i64)>) -> bool {
    forall|a: int, b: int| 0 <= a < b < ranks.len() ==> ranks[a].0 != ranks[b].0
}

proof fn lemma_rank_lookup_unique(ranks: Seq<(Seq<char>, i64)>, id: Seq<char>)
    requires
        keys_unique(ranks),
    ensures
        match rank_lookup(ranks, id) {
            Some(r) => exists|i: int| 0 <= i < ranks.len() && ranks[i] == (id, r),
            None => forall|j: int| 0 <= j < ranks.len() ==> ranks[j].0 != id,
        },
        forall|i: int| 0 <= i < ranks.len() && ranks[i].0 == id ==> rank_lookup(ranks, id) == Some(ranks[i].1),
    decreases ranks.len(),
{
    if ranks.len() > 0 {
        let d = ranks.drop_last();
        assert(keys_unique(d)) by {
            assert forall|a: int, b: int| 0 <= a < b < d.len() implies d[a].0 != d[b].0 by {
                assert(d[a] == ranks[a] && d[b] == ranks[b]);
            }
        }
        lemma_rank_lookup_unique(d, id);
        let n = ranks.len() - 1;
        if ranks.last().0 != id {
            assert(rank_lookup(ranks, id) == rank_lookup(d, id));
            match rank_lookup(d, id) {
                Some(r) => {
                    let i = choose|i: int| 0 <= i < d.len() && d[i] == (id, r);
                    assert(ranks[i] == (id, r));
                },
                None => {
                    assert forall|j: int| 0 <= j < ranks.len() implies ranks[j].0 != id by {
                        if j < n {
                            assert(ranks[j] == d[j]);
                        }
                    }
                },
            }
            assert forall|i: int| 0 <= i < ranks.len() && ranks[i].0 == id implies rank_lookup(ranks, id) == Some(
                ranks[i].1,
            ) by {
                assert(i != n);
                assert(ranks[i] == d[i]);
            }
        } else {
            assert(ranks[n] == (id, ranks.last().1));
            assert forall|i: int| 0 <= i < ranks.len() && ranks[i].0 == id implies rank_lookup(ranks, id) == Some(
                ranks[i].1,
            ) by {
                if i != n {
                    assert(ranks[i].0 != ranks[n].0);
                }
            }
        }
    }
}

/// The activity ranks of the text of Codex's process list: none where it is
/// no JSON, else as `process_activity_ranks` gives them.
pub fn process_activity_ranks_text(text: &str) -> (r: Vec<(String, i64)>)
    ensures
        forall|a: int, b: int| 0 <= a < b < r@.len() ==> r@[a].0@ != r@[b].0@,
        json_of_text(text@) is None ==> r@.len() == 0,
        forall|id: Seq<char>|
            rank_lookup(ranks_view(r@), id) == match json_of_text(text@) {
                Some(v) => match as_array(Some(v)) {
                    Some(items) => best_rank(items, id),
                    None => None,
                },
                None => None,
            },
{
    match parse_json_text(text) {
        Ok(v) => process_activity_ranks(&v),
        Err(_) => {
            let r: Vec<(String, i64)> = Vec::new();
            assert(ranks_view(r@) =~= Seq::<(Seq<char>, i64)>::empty());
            r
        },
    }
}

/// Codex's global state, given the text of its file: the object it holds,
/// `None` where it holds another value, an error where it is no JSON.
pub fn global_state_from_text(text: &str) -> (r: Result<Option<Json>, String>)
    ensures
        match json_of_text(text@) {
            None => r is Err,
            Some(v) => if v is Object {
                r matches Ok(Some(j)) && j.view() == v
            } else {
                r matches Ok(None)
            },
        },
{
    match parse_json_text(text) {
        Ok(v) => if v.is_object() {
            Ok(Some(v))
        } else {
            Ok(None)
        },
        Err(e) => Err(e),
    }
}

/// The activity rank of each conversation in Codex's process list (its
/// highest rank), one entry per conversation.
pub fn process_activity_ranks(value: &Json) -> (r: Vec<(String, i64)>)
    ensures
        forall|a: int, b: int| 0 <= a < b < r@.len() ==> r@[a].0@ != r@[b].0@,
        forall|id: Seq<char>|
            rank_lookup(ranks_view(r@), id) == match as_array(Some(value.view())) {
                Some(items) => best_rank(items, id),
                None => None,
            },
{
    let mut ranks: Vec<(String, i64)> = Vec::new();
    let items = match value.as_array() {
        Some(items) => items,
        None => {
            assert forall|id: Seq<char>| rank_lookup(ranks_view(ranks@), id) == match as_array(Some(value.view())) {
                Some(items) => best_rank(items, id),
                None => None,
            } by {
                assert(ranks_view(ranks@).len() == 0);
            }
            return ranks;
        },
    };
    let ghost iv = crate::json::items_view(items@);
    let mut i: usize = 0;
    assert(iv.take(0) =~= Seq::<JsonView>::empty());
    while i < items.len()
        invariant
            i <= items@.len(),
            iv == crate::json::items_view(items@),
            as_array(Some(value.view())) == Some(iv),
            forall|a: int, b: int| 0 <= a < b < ranks@.len() ==> ranks@[a].0@ != ranks@[b].0@,
            forall|id: Seq<char>| rank_lookup(ranks_view(ranks@), id) == best_rank(iv.take(i as int), id),
        decreases items@.len() - i,
    {
        assert(iv.take(i + 1).drop_last() =~= iv.take(i as int));
        assert(iv.take(i + 1).last() == items@[i as int].view());
        let item = &items[i];
        match item.get_str("conversationId") {
            Some(id) => {
                let rank = match item.get("updatedAtMs") {
                    Some(v) => match v.as_i64() {
                        Some(r) => Some(r),
                        None => None,
                    },
                    None => None,
                };
                let rank = match rank {
                    Some(r) => r,
                    None => match item.get("startedAtMs") {
                        Some(v) => match v.as_i64() {
                            Some(r) => r,
                            None => 0,
                        },
                        None => 0,
                    },
                };
                assert(rank == rank_of(item.view()));
                let ghost old_ranks = ranks_view(ranks@);
                proof {
                    lemma_rank_lookup_unique(old_ranks, id@);
                }
                match rank_position(&ranks, id.as_str()) {
                    Some(k) => {
                        let current = ranks[k].1;
                        let best = if current >= rank {
                            current
                        } else {
                            rank
                        };
                        ranks.set(k, (owned(id.as_str()), best));
                        proof {
                            let nv = ranks_view(ranks@);
                            assert(nv =~= old_ranks.update(k as int, (id@, best)));
                            assert(old_ranks[k as int].0 == id@);
                            assert(keys_unique(old_ranks)) by {
                                assert forall|a: int, b: int| 0 <= a < b < old_ranks.len() implies old_ranks[a].0
                                    != old_ranks[b].0 by {
                                    assert(old_ranks[a].0 == ranks@[a].0@ || a == k);
                                }
                            }
                            assert(keys_unique(nv)) by {
                                assert forall|a: int, b: int| 0 <= a < b < nv.len() implies nv[a].0 != nv[b].0 by {
                                    assert(nv[a].0 == old_ranks[a].0);
                                    assert(nv[b].0 == old_ranks[b].0);
                                }
                            }
                            lemma_rank_lookup_unique(old_ranks, id@);
                            lemma_rank_lookup_unique(nv, id@);
                            assert(old_ranks[k as int] == (id@, current));
                            assert(rank_lookup(old_ranks, id@) == Some(current));
                            assert(nv[k as int] == (id@, best));
                            assert(rank_lookup(nv, id@) == Some(best));
                            assert forall|q: Seq<char>| rank_lookup(nv, q) == best_rank(iv.take(i + 1), q) by {
                                assert(rank_lookup(old_ranks, q) == best_rank(iv.take(i as int), q));
                                if q != id@ {
                                    lemma_rank_lookup_unique(nv, q);
                                    lemma_rank_lookup_unique(old_ranks, q);
                                    match rank_lookup(old_ranks, q) {
                                        Some(r) => {
                                            let j = choose|j: int| 0 <= j < old_ranks.len() && old_ranks[j] == (q, r);
                                            assert(j != k);
                                            assert(nv[j] == old_ranks[j]);
                                        },
                                        None => {
                                            if let Some(r) = rank_lookup(nv, q) {
                                                let j = choose|j: int| 0 <= j < nv.len() && nv[j] == (q, r);
                                                if j != k {
                                                    assert(old_ranks[j] == nv[j]);
                                                }
                                            }
                                        },
                                    }
                                }
                            }
                        }
                    },
                    None => {
                        ranks.push((owned(id.as_str()), rank));
                        proof {
                            let nv = ranks_view(ranks@);
                            assert(nv =~= old_ranks.push((id@, rank)));
                            assert(forall|j: int| 0 <= j < old_ranks.len() ==> old_ranks[j].0 == ranks@[j].0@);
                            assert(keys_unique(old_ranks)) by {
                                assert forall|a: int, b: int| 0 <= a < b < old_ranks.len() implies old_ranks[a].0
                                    != old_ranks[b].0 by {
                                    assert(old_ranks[a].0 == ranks@[a].0@);
                                    assert(old_ranks[b].0 == ranks@[b].0@);
                                }
                            }
                            lemma_rank_lookup_unique(old_ranks, id@);
                            assert(rank_lookup(old_ranks, id@) is None);
                            assert forall|q: Seq<char>| rank_lookup(nv, q) == best_rank(iv.take(i + 1), q) by {
                                assert(nv.drop_last() =~= old_ranks);
                                assert(rank_lookup(old_ranks, q) == best_rank(iv.take(i as int), q));
                                assert(nv.last() == (id@, rank));
                            }
                        }
                    },
                }
            },
            None => {},
        }
        i = i + 1;
    }
    assert(iv.take(items@.len() as int) =~= iv);
    ranks
}


pub open spec fn sidebar_view(v: Seq<(String, SidebarTitleRecord)>) -> Seq<(Seq<char>, (Seq<char>, i64))> {
    v.map_values(|p: (String, SidebarTitleRecord)| (p.0@, (p.1.title@, p.1.order)))
}

/// The sidebar entry of `id`: the last one given.
pub open spec fn sidebar_lookup(entries: Seq<(Seq<char>, (Seq<char>, i64))>, id: Seq<char>) -> Option<(Seq<char>, i64)>
    decreases entries.len(),
{
    if entries.len() == 0 {
        None
    } else if entries.last().0 == id {
        Some(entries.last().1)
    } else {
        sidebar_lookup(entries.drop_last(), id)
    }
}

/// An indexed thread as listed: with its sidebar title and position, where
/// the sidebar index knows it, and its activity rank.
pub open spec fn listed_thread(
    t: ThreadView,
    sidebar: Seq<(Seq<char>, (Seq<char>, i64))>,
    ranks: Seq<(Seq<char>, i64)>,
) -> ThreadView {
    let t1 = match sidebar_lookup(sidebar, t.id) {
        Some((title, order)) => ThreadView { title: title, sidebar_order: order, ..t },
        None => t,
    };
    match rank_lookup(ranks, t.id) {
        Some(r) => ThreadView { activity_rank: r, ..t1 },
        None => t1,
    }
}

/// The indexed threads the session list shows: user threads that no agent
/// spawned, with sidebar titles and activity ranks.
pub open spec fn listed_threads(
    rows: Seq<ThreadView>,
    sidebar: Seq<(Seq<char>, (Seq<char>, i64))>,
    ranks: Seq<(Seq<char>, i64)>,
    now: i64,
) -> Seq<ThreadView>
    decreases rows.len(),
{
    if rows.len() == 0 {
        Seq::empty()
    } else {
        let rest = listed_threads(rows.drop_last(), sidebar, ranks, now);
        let t = rows.last();
        if subagent_of(t) || !visible_user_of(t, now) {
            rest
        } else {
            rest.push(listed_thread(t, sidebar, ranks))
        }
    }
}

fn find_sidebar(sidebar: &Vec<(String, SidebarTitleRecord)>, id: &str) -> (r: Option<usize>)
    ensures
        match r {
            Some(i) => i < sidebar@.len() && sidebar_lookup(sidebar_view(sidebar@), id@) == Some(
                (sidebar@[i as int].1.title@, sidebar@[i as int].1.order),
            ),
            None => sidebar_lookup(sidebar_view(sidebar@), id@) is None,
        },
{
    let ghost sv = sidebar_view(sidebar@);
    let mut i = sidebar.len();
    assert(sv.take(i as int) =~= sv);
    while i > 0
        invariant
            i <= sidebar@.len(),
            sv == sidebar_view(sidebar@),
            sidebar_lookup(sv, id@) == sidebar_lookup(sv.take(i as int), id@),
        decreases i,
    {
        let ghost part = sv.take(i as int);
        assert(part.last() == (sidebar@[i - 1].0@, (sidebar@[i - 1].1.title@, sidebar@[i - 1].1.order)));
        if str_eq(sidebar[i - 1].0.as_str(), id) {
            return Some(i - 1);
        }
        assert(part.drop_last() =~= sv.take(i - 1));
        i = i - 1;
    }
    None
}

fn find_rank(ranks: &Vec<(String, i64)>, id: &str) -> (r: Option<i64>)
    ensures
        r == rank_lookup(ranks_view(ranks@), id@),
{
    let ghost rv = ranks_view(ranks@);
    let mut i = ranks.len();
    assert(rv.take(i as int) =~= rv);
    while i > 0
        invariant
            i <= ranks@.len(),
            rv == ranks_view(ranks@),
            rank_lookup(rv, id@) == rank_lookup(rv.take(i as int), id@),
        decreases i,
    {
        let ghost part = rv.take(i as int);
        assert(part.last() == (ranks@[i - 1].0@, ranks@[i - 1].1));
        if str_eq(ranks[i - 1].0.as_str(), id) {
            return Some(ranks[i - 1].1);
        }
        assert(part.drop_last() =~= rv.take(i - 1));
        i = i - 1;
    }
    None
}

pub open spec fn threads_view(v: Seq<ThreadIndexRecord>) -> Seq<ThreadView> {
    v.map_values(|t: ThreadIndexRecord| t.view())
}

/// The indexed threads the session list shows, as `listed_threads` says.
pub fn finish_thread_records(
    rows: Vec<ThreadIndexRecord>,
    sidebar: &Vec<(String, SidebarTitleRecord)>,
    ranks: &Vec<(String, i64)>,
    now: i64,
) -> (r: Vec<ThreadIndexRecord>)
    ensures
        threads_view(r@) == listed_threads(threads_view(rows@), sidebar_view(sidebar@), ranks_view(ranks@), now),
{
    let ghost tv = threads_view(rows@);
    let ghost sv = sidebar_view(sidebar@);
    let ghost rv = ranks_view(ranks@);
    let mut out: Vec<ThreadIndexRecord> = Vec::new();
    let mut k: usize = 0;
    assert(tv.take(0) =~= Seq::<ThreadView>::empty());
    while k < rows.len()
        invariant
            k <= rows@.len(),
            tv == threads_view(rows@),
            sv == sidebar_view(sidebar@),
            rv == ranks_view(ranks@),
            threads_view(out@) == listed_threads(tv.take(k as int), sv, rv, now),
        decreases rows@.len() - k,
    {
        assert(tv.take(k + 1).drop_last() =~= tv.take(k as int));
        assert(tv.take(k + 1).last() == rows@[k as int].view());
        let mut record = rows[k].duplicate();
        if !is_subagent_thread(&record) && is_visible_user_thread(&record, now) {
            match find_sidebar(sidebar, record.id.as_str()) {
                Some(i) => {
                    record.title = owned(sidebar[i].1.title.as_str());
                    record.sidebar_order = sidebar[i].1.order;
                },
                None => {},
            }
            match find_rank(ranks, record.id.as_str()) {
                Some(r) => {
                    record.activity_rank = r;
                },
                None => {},
            }
            let ghost before = threads_view(out@);
            let ghost rview = record.view();
            out.push(record);
            assert(threads_view(out@) =~= before.push(rview));
        }
        k = k + 1;
    }
    assert(tv.take(k as int) =~= tv);
    out
}

/// The session record of an indexed thread whose log lies at
/// `relative_path` inside the sessions folder.
pub fn indexed_session_record(record: ThreadIndexRecord, relative_path: String) -> (r: SessionRecord)
    ensures
        r.summary.view() == (SummaryView {
            id: record.view().id,
            title: record.view().title,
            created_at: record.created_at,
            updated_at: record.updated_at,
            activity_rank: record.activity_rank,
            sidebar_order: record.sidebar_order,
            message_count: 0,
            file_size_bytes: 0,
            relative_path: relative_path@,
            project_path: record.view().project_path,
            project_name: project_name_of(record.view().project_path),
        }),
        r.absolute_path@ == record.view().rollout_path,
        r.relative_path@ == relative_path@,
        r.sort_updated_at_ms == record.updated_at_ms,
{
    let project_name = project_name_from_path(record.project_path.as_str());
    SessionRecord {
        summary: CodexSessionSummary {
            id: record.id,
            title: record.title,
            created_at: record.created_at,
            updated_at: record.updated_at,
            activity_rank: record.activity_rank,
            sidebar_order: record.sidebar_order,
            message_count: 0,
            file_size_bytes: 0,
            relative_path: owned(relative_path.as_str()),
            project_name,
            project_path: record.project_path,
        },
        absolute_path: record.rollout_path,
        relative_path,
        sort_updated_at_ms: record.updated_at_ms,
    }
}

pub open spec fn records_summaries(v: Seq<SessionRecord>) -> Seq<SummaryView> {
    v.map_values(|r: SessionRecord| r.summary.view())
}

pub open spec fn record_keys(v: Seq<SessionRecord>) -> Seq<Seq<int>> {
    v.map_values(|r: SessionRecord| session_key(r.summary.view(), r.sort_updated_at_ms as int))
}

/// How two session records sort.
pub fn compare_session_records(left: &SessionRecord, right: &SessionRecord) -> (r: SessionOrder)
    ensures
        r == order_of(
            session_key(left.summary.view(), left.sort_updated_at_ms as int),
            session_key(right.summary.view(), right.sort_updated_at_ms as int),
        ),
{
    compare_session_ordering(&left.summary, left.sort_updated_at_ms, &right.summary, right.sort_updated_at_ms)
}

/// The sessions of the records, sorted for the session list.
pub fn sort_session_records(records: &Vec<SessionRecord>) -> (r: Vec<CodexSessionSummary>)
    ensures
        exists|order: Seq<int>|
            is_permutation(order, records@.len()) && sorted_stably(record_keys(records@), order)
                && summaries_view(r@) == order.map_values(|i: int| records_summaries(records@)[i]),
{
    let ghost keys_spec = record_keys(records@);
    let mut keys: Vec<Vec<i128>> = Vec::new();
    let mut i: usize = 0;
    while i < records.len()
        invariant
            i <= records@.len(),
            keys_spec == record_keys(records@),
            keys_view(keys@) == keys_spec.take(i as int),
        decreases records@.len() - i,
    {
        let k = session_sort_key(&records[i].summary, records[i].sort_updated_at_ms);
        let ghost before = keys_view(keys@);
        keys.push(k);
        assert(keys_view(keys@) =~= before.push(ints(k@)));
        assert(keys_spec.take(i + 1) =~= keys_spec.take(i as int).push(keys_spec[i as int]));
        i = i + 1;
    }
    assert(keys_spec.take(records@.len() as int) =~= keys_spec);
    let order = sorted_order(&keys);
    let ghost rs = records_summaries(records@);
    let mut r: Vec<CodexSessionSummary> = Vec::new();
    let mut k: usize = 0;
    while k < order.len()
        invariant
            k <= order@.len(),
            rs == records_summaries(records@),
            is_permutation(indices(order@), records@.len() as nat),
            summaries_view(r@) == indices(order@).take(k as int).map_values(|i: int| rs[i]),
        decreases order@.len() - k,
    {
        assert(indices(order@)[k as int] == order@[k as int] as int);
        let s = records[order[k]].summary.duplicate();
        let ghost before = summaries_view(r@);
        let ghost s_view = s.view();
        r.push(s);
        assert(summaries_view(r@) =~= before.push(s_view));
        assert(indices(order@).take(k + 1).map_values(|i: int| rs[i]) =~= indices(order@).take(k as int).map_values(
            |i: int| rs[i],
        ).push(rs[order@[k as int] as int]));
        k = k + 1;
    }
    assert(indices(order@).take(order@.len() as int) =~= indices(order@));
    r
}

/// The first and last Unix times (UTC) that the `time` crate can hold as a
/// date and time: -9999-01-01 00:00:00 and 9999-12-31 23:59:59.
pub open spec fn utc_in_range(seconds: int) -> bool {
    -377705116800 <= seconds <= 253402300799
}

/// The proleptic Gregorian date `(year, month, day)` that lies `days` days
/// after 1970-01-01 (before it, where `days` is negative).
pub open spec fn civil_from_days(days: int) -> (int, int, int) {
    let z = days + 719468;
    let era = z / 146097;
    let doe = z - era * 146097;
    let yoe = (doe - doe / 1460 + doe / 36524 - doe / 146096) / 365;
    let doy = doe - (365 * yoe + yoe / 4 - yoe / 100);
    let mp = (5 * doy + 2) / 153;
    let day = doy - (153 * mp + 2) / 5 + 1;
    let month = if mp < 10 {
        mp + 3
    } else {
        mp - 9
    };
    let year = yoe + era * 400 + if month <= 2 {
        1int
    } else {
        0int
    };
    (year, month, day)
}

/// Year, month, day, hour, minute and second (UTC) of a Unix time.
pub open spec fn utc_fields_of(seconds: int) -> (int, int, int, int, int, int) {
    let (year, month, day) = civil_from_days(seconds / 86400);
    let in_day = seconds % 86400;
    (year, month, day, in_day / 3600, (in_day % 3600) / 60, in_day % 60)
}

/// The calendar fields of a Unix time, from
/// `time::OffsetDateTime::from_unix_timestamp`: trusted to fail exactly out of
/// the crate's date range and otherwise to give the Gregorian calendar fields
/// of the day `seconds / 86400` after the epoch and of the second within it.
#[verifier::external_body]
fn utc_date_time(seconds: i64) -> (r: Option<(i32, u8, u8, u8, u8, u8)>)
    ensures
        r is Some <==> utc_in_range(seconds as int),
        r matches Some(f) ==> (f.0 as int, f.1 as int, f.2 as int, f.3 as int, f.4 as int, f.5 as int)
            == utc_fields_of(seconds as int),
{
    match time::OffsetDateTime::from_unix_timestamp(seconds) {
        Ok(t) => Some((t.year(), u8::from(t.month()), t.day(), t.hour(), t.minute(), t.second())),
        Err(_) => None,
    }
}

/// `n` in decimal, zero-padded to `width` characters (`{:0width}`).
pub open spec fn padded(n: int, width: nat) -> Seq<char> {
    if n >= 0 {
        let d = crate::text::decimal(n as nat);
        Seq::new(if d.len() < width {
            (width - d.len()) as nat
        } else {
            0
        }, |i: int| '0') + d
    } else {
        let d = crate::text::decimal((-n) as nat);
        seq!['-'] + Seq::new(if d.len() + 1 < width {
            (width - d.len() - 1) as nat
        } else {
            0
        }, |i: int| '0') + d
    }
}

fn pad_number(n: i64, width: usize) -> (r: String)
    requires
        width < 100,
    ensures
        r@ == padded(n as int, width as nat),
{
    let negative = n < 0;
    let magnitude: u64 = if n == i64::MIN {
        9223372036854775808u64
    } else if negative {
        (-n) as u64
    } else {
        n as u64
    };
    let digits = u64_text(magnitude);
    let dv = chars_of(digits.as_str());
    proof {
        crate::text::lemma_decimal_short(magnitude as nat);
    }
    let used = if negative {
        dv.len() + 1
    } else {
        dv.len()
    };
    let mut r = String::new();
    if negative {
        push_char(&mut r, '-');
    }
    let ghost prefix = r@;
    let zeros = if used < width {
        width - used
    } else {
        0
    };
    let mut z: usize = 0;
    while z < zeros
        invariant
            z <= zeros,
            r@ == prefix + Seq::new(z as nat, |i: int| '0'),
        decreases zeros - z,
    {
        push_char(&mut r, '0');
        z = z + 1;
        assert(r@ =~= prefix + Seq::new(z as nat, |i: int| '0'));
    }
    crate::text::push_range(&mut r, &dv, 0, dv.len());
    assert(dv@.subrange(0, dv@.len() as int) =~= dv@);
    proof {
        if negative {
            assert(prefix =~= seq!['-']);
            assert(magnitude as int == -(n as int));
        } else {
            assert(prefix =~= Seq::<char>::empty());
        }
    }
    assert(r@ =~= padded(n as int, width as nat));
    r
}

/// The name of the backup folder for a deletion at `now`:
/// `YYYYMMDD-HHMMSS` in UTC (the epoch where `now` is out of range).
pub open spec fn timestamp_folder_of(now: i64) -> Seq<char> {
    let (y, mo, d, h, mi, s) = if utc_in_range(now as int) {
        utc_fields_of(now as int)
    } else {
        (1970, 1, 1, 0, 0, 0)
    };
    padded(y, 4) + padded(mo, 2) + padded(d, 2) + "-"@ + padded(h, 2) + padded(mi, 2) + padded(s, 2)
}

pub fn timestamp_folder(now: i64) -> (r: String)
    ensures
        r@ == timestamp_folder_of(now),
{
    let (y, mo, d, h, mi, s) = match utc_date_time(now) {
        Some(f) => f,
        None => (1970i32, 1u8, 1u8, 0u8, 0u8, 0u8),
    };
    let mut r = pad_number(y as i64, 4);
    let part = pad_number(mo as i64, 2);
    r = concat(r.as_str(), part.as_str());
    let part = pad_number(d as i64, 2);
    r = concat(r.as_str(), part.as_str());
    r = concat(r.as_str(), "-");
    let part = pad_number(h as i64, 2);
    r = concat(r.as_str(), part.as_str());
    let part = pad_number(mi as i64, 2);
    r = concat(r.as_str(), part.as_str());
    let part = pad_number(s as i64, 2);
    r = concat(r.as_str(), part.as_str());
    r
}

proof fn lemma_roots_without(items: Seq<JsonView>, path: Seq<char>)
    ensures
        !root_paths(without_path(items, path)).contains(path),
    decreases items.len(),
{
    if items.len() > 0 {
        lemma_roots_without(items.drop_last(), path);
        let rest = without_path(items.drop_last(), path);
        if !names_path(items.last(), path) {
            assert(without_path(items, path).drop_last() =~= rest);
            let r = root_paths(rest);
            match items.last() {
                JsonView::Str(p) => {
                    if normalized_path(p).len() > 0 {
                        assert(root_paths(without_path(items, path)) =~= r.push(normalized_path(p)));
                        assert(normalized_path(p) != path);
                        assert forall|i: int| 0 <= i < r.push(normalized_path(p)).len() implies r.push(
                            normalized_path(p),
                        )[i] != path by {
                            if i < r.len() {
                                assert(!r.contains(path));
                            }
                        }
                    }
                },
                _ => {},
            }
        }
    }
}

proof fn lemma_state_keys()
    ensures
        "electron-saved-workspace-roots"@ != "project-order"@,
        "electron-saved-workspace-roots"@ != "active-workspace-roots"@,
        "electron-saved-workspace-roots"@ != "electron-workspace-root-labels"@,
        "project-order"@ != "active-workspace-roots"@,
        "project-order"@ != "electron-workspace-root-labels"@,
        "active-workspace-roots"@ != "electron-workspace-root-labels"@,
{
    reveal_strlit("electron-saved-workspace-roots");
    reveal_strlit("project-order");
    reveal_strlit("active-workspace-roots");
    reveal_strlit("electron-workspace-root-labels");
    assert("electron-saved-workspace-roots"@[9] != "electron-workspace-root-labels"@[9]);
    assert("electron-saved-workspace-roots"@.len() != "project-order"@.len());
    assert("electron-saved-workspace-roots"@.len() != "active-workspace-roots"@.len());
    assert("project-order"@.len() != "active-workspace-roots"@.len());
    assert("project-order"@.len() != "electron-workspace-root-labels"@.len());
    assert("active-workspace-roots"@.len() != "electron-workspace-root-labels"@.len());
}

/// Filtering the array at `key` leaves the other members as they were.
proof fn lemma_array_without_other(state: JsonView, key: Seq<char>, path: Seq<char>, other: Seq<char>)
    requires
        state is Object,
        key != other,
    ensures
        array_without(state, key, path).0 is Object,
        jget(array_without(state, key, path).0, other) == jget(state, other),
        jget(array_without(state, key, path).0, key) == match jget(state, key) {
            Some(JsonView::Array(items)) => Some(JsonView::Array(without_path(items, path))),
            x => x,
        },
{
    match jget(state, key) {
        Some(JsonView::Array(items)) => {
            crate::json::law_set_then_get(state, key, JsonView::Array(without_path(items, path)), other);
            crate::json::law_set_then_get(state, key, JsonView::Array(without_path(items, path)), key);
        },
        _ => {},
    }
}

/// After a project is removed from Codex's global state, its saved
/// workspace roots no longer list it.
pub proof fn law_removed_project_not_saved(state: JsonView, path: Seq<char>)
    requires
        state is Object,
    ensures
        !saved_roots_of(state_without_project(state, path).0).contains(path),
{
    lemma_state_keys();
    let saved = "electron-saved-workspace-roots"@;
    let order = "project-order"@;
    let active = "active-workspace-roots"@;
    let labels = "electron-workspace-root-labels"@;
    let s1 = array_without(state, saved, path).0;
    lemma_array_without_other(state, saved, path, order);
    let s2 = array_without(s1, order, path).0;
    lemma_array_without_other(s1, order, path, saved);
    let s3 = array_without(s2, active, path).0;
    lemma_array_without_other(s2, active, path, saved);
    lemma_array_without_other(s2, active, path, order);
    let s4 = state_without_label(s3, path).0;
    match jget(s3, labels) {
        Some(JsonView::Object(es)) => {
            crate::json::law_set_then_get(s3, labels, JsonView::Object(labels_without(es, path)), saved);
            crate::json::law_set_then_get(s3, labels, JsonView::Object(labels_without(es, path)), order);
        },
        _ => {},
    }
    assert(state_without_project(state, path).0 == s4);
    match jget(state, saved) {
        Some(JsonView::Array(items)) => {
            lemma_roots_without(items, path);
        },
        _ => {
            match jget(state, order) {
                Some(JsonView::Array(items)) => {
                    lemma_roots_without(items, path);
                },
                _ => {},
            }
        },
    }
}

proof fn lemma_roots_contain(items: Seq<JsonView>, path: Seq<char>)
    requires
        path.len() > 0,
        exists|i: int| 0 <= i < items.len() && names_path(#[trigger] items[i], path),
    ensures
        root_paths(items).contains(path),
    decreases items.len(),
{
    let init = items.drop_last();
    if names_path(items.last(), path) {
        let r = root_paths(init);
        assert(root_paths(items) == r.push(path));
        assert(r.push(path)[r.len() as int] == path);
    } else {
        let i = choose|i: int| 0 <= i < items.len() && names_path(#[trigger] items[i], path);
        assert(i < items.len() - 1);
        assert(names_path(init[i], path));
        lemma_roots_contain(init, path);
        let r = root_paths(init);
        let j = choose|j: int| 0 <= j < r.len() && r[j] == path;
        match items.last() {
            JsonView::Str(p) => {
                if normalized_path(p).len() > 0 {
                    assert(root_paths(items)[j] == path);
                }
            },
            _ => {},
        }
    }
}

/// Adding to the array at `key` leaves the other members as they were.
proof fn lemma_array_with_other(state: JsonView, key: Seq<char>, path: Seq<char>, other: Seq<char>)
    requires
        state is Object,
        key != other,
    ensures
        array_with(state, key, path) is Object,
        jget(array_with(state, key, path), other) == jget(state, other),
        jget(array_with(state, key, path), key) == match jget(state, key) {
            None => Some(JsonView::Array(seq![JsonView::Str(path)])),
            Some(JsonView::Array(items)) => if exists|i: int| 0 <= i < items.len() && names_path(#[trigger] items[i], path) {
                Some(JsonView::Array(items))
            } else {
                Some(JsonView::Array(items.push(JsonView::Str(path))))
            },
            x => x,
        },
{
    match jget(state, key) {
        None => {
            crate::json::law_set_then_get(state, key, JsonView::Array(seq![JsonView::Str(path)]), other);
            crate::json::law_set_then_get(state, key, JsonView::Array(seq![JsonView::Str(path)]), key);
        },
        Some(JsonView::Array(items)) => {
            crate::json::law_set_then_get(state, key, JsonView::Array(items.push(JsonView::Str(path))), other);
            crate::json::law_set_then_get(state, key, JsonView::Array(items.push(JsonView::Str(path))), key);
        },
        _ => {},
    }
}

/// A member that holds an array, or nothing.
pub open spec fn array_or_absent(x: Option<JsonView>) -> bool {
    x is None || x->0 is Array
}

/// After a project is added back to Codex's global state, its saved
/// workspace roots list it (where the global state keeps its roots, or its
/// project order, in an array or not at all).
pub proof fn law_added_project_saved(state: JsonView, path: Seq<char>, name: Seq<char>)
    requires
        state is Object,
        normalized_path(path) == path,
        path.len() > 0,
        array_or_absent(jget(state, "electron-saved-workspace-roots"@)) || array_or_absent(
            jget(state, "project-order"@),
        ),
    ensures
        saved_roots_of(state_with_project(state, path, name)).contains(path),
{
    lemma_state_keys();
    let saved = "electron-saved-workspace-roots"@;
    let order = "project-order"@;
    let active = "active-workspace-roots"@;
    let labels = "electron-workspace-root-labels"@;
    lemma_array_with_other(state, saved, path, order);
    let s1 = array_with(state, saved, path);
    lemma_array_with_other(s1, order, path, saved);
    let s2 = array_with(s1, order, path);
    lemma_array_with_other(s2, active, path, saved);
    lemma_array_with_other(s2, active, path, order);
    let s3 = array_with(s2, active, path);
    let s4 = match jget(s3, labels) {
        None => crate::json::jset(s3, labels, JsonView::Object(Seq::empty())),
        Some(_) => s3,
    };
    if jget(s3, labels) is None {
        crate::json::law_set_then_get(s3, labels, JsonView::Object(Seq::empty()), saved);
        crate::json::law_set_then_get(s3, labels, JsonView::Object(Seq::empty()), order);
    }
    match jget(s4, labels) {
        Some(JsonView::Object(es)) => {
            if trim(name).len() > 0 {
                let x = JsonView::Object(crate::json::entries_set(es, path, JsonView::Str(trim(name))));
                crate::json::law_set_then_get(s4, labels, x, saved);
                crate::json::law_set_then_get(s4, labels, x, order);
            }
        },
        _ => {},
    }
    let fin = state_with_project(state, path, name);
    assert(jget(fin, saved) == jget(s1, saved));
    assert(jget(fin, order) == jget(s2, order));
    let single = seq![JsonView::Str(path)];
    assert(names_path(single[0], path));
    match jget(state, saved) {
        None => {
            lemma_roots_contain(single, path);
        },
        Some(JsonView::Array(items)) => {
            if exists|i: int| 0 <= i < items.len() && names_path(#[trigger] items[i], path) {
                lemma_roots_contain(items, path);
            } else {
                let pushed = items.push(JsonView::Str(path));
                assert(names_path(pushed[items.len() as int], path));
                lemma_roots_contain(pushed, path);
            }
        },
        _ => {
            match jget(state, order) {
                None => {
                    lemma_roots_contain(single, path);
                },
                Some(JsonView::Array(items)) => {
                    if exists|i: int| 0 <= i < items.len() && names_path(#[trigger] items[i], path) {
                        lemma_roots_contain(items, path);
                    } else {
                        let pushed = items.push(JsonView::Str(path));
                        assert(names_path(pushed[items.len() as int], path));
                        lemma_roots_contain(pushed, path);
                    }
                },
                _ => {},
            }
        },
    }
}

} // verus!
