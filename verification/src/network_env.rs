use vstd::prelude::*;

use crate::official_backup::BackupFileState;
use crate::store::{join_path, joined};
use crate::text::{
    no_lf, split_lf, strip_cr, chars_of, concat, contains, ends_with, find_first, has_prefix, has_substring, is_blank, is_ws,
    join, lines, lines_of, lower, lowercase, owned, starts_with, str_eq, string_of_range,
    strings_view, trim, trimmed,
};

verus! {

broadcast use vstd::std_specs::vec::group_vec_axioms;

/// What Codex's `.env` says about the network proxy.
pub struct NetworkEnvStatus {
    pub exists: bool,
    pub configured: bool,
    pub managed: bool,
    pub backup_exists: bool,
    pub has_no_proxy: bool,
    pub proxy_endpoint: Option<String>,
    pub env_path: String,
}

/// The record of the original `.env`, written once.
pub struct NetworkEnvBackupManifest {
    pub version: u32,
    pub created_at: i64,
    pub codex_home: String,
    pub env_file: BackupFileState,
}

/// The backup directory under the application data directory.
pub fn default_network_env_backup_root(data_root: &str) -> (r: String)
    ensures
        r@ == joined(data_root@, "network-env-backup"@),
{
    join_path(data_root, "network-env-backup")
}

pub open spec fn begin_marker() -> Seq<char> {
    "# BEGIN CODEXPILOT NETWORK PROXY"@
}

pub open spec fn end_marker() -> Seq<char> {
    "# END CODEXPILOT NETWORK PROXY"@
}

/// The managed block of proxy variables for `endpoint`.
pub open spec fn managed_block(endpoint: Seq<char>) -> Seq<char> {
    begin_marker() + "\nHTTP_PROXY=http://"@ + endpoint + "\nHTTPS_PROXY=http://"@ + endpoint
        + "\nALL_PROXY=socks5://"@ + endpoint + "\nNO_PROXY=localhost,127.0.0.1,::1\nhttp_proxy=http://"@
        + endpoint + "\nhttps_proxy=http://"@ + endpoint + "\nall_proxy=socks5://"@ + endpoint
        + "\nno_proxy=localhost,127.0.0.1,::1\n"@ + end_marker() + "\n"@
}

pub fn build_managed_block(endpoint: &str) -> (r: String)
    ensures
        r@ == managed_block(endpoint@),
{
    let mut r = concat("# BEGIN CODEXPILOT NETWORK PROXY", "\nHTTP_PROXY=http://");
    r = concat(r.as_str(), endpoint);
    r = concat(r.as_str(), "\nHTTPS_PROXY=http://");
    r = concat(r.as_str(), endpoint);
    r = concat(r.as_str(), "\nALL_PROXY=socks5://");
    r = concat(r.as_str(), endpoint);
    r = concat(r.as_str(), "\nNO_PROXY=localhost,127.0.0.1,::1\nhttp_proxy=http://");
    r = concat(r.as_str(), endpoint);
    r = concat(r.as_str(), "\nhttps_proxy=http://");
    r = concat(r.as_str(), endpoint);
    r = concat(r.as_str(), "\nall_proxy=socks5://");
    r = concat(r.as_str(), endpoint);
    r = concat(r.as_str(), "\nno_proxy=localhost,127.0.0.1,::1\n");
    r = concat(r.as_str(), "# END CODEXPILOT NETWORK PROXY");
    r = concat(r.as_str(), "\n");
    r
}

/// `s` without its trailing `\n` characters.
pub open spec fn strip_newlines(s: Seq<char>) -> Seq<char>
    decreases s.len(),
{
    if s.len() > 0 && s.last() == '\n' {
        strip_newlines(s.drop_last())
    } else {
        s
    }
}

/// The preserved content with the block after it, a blank line between.
pub open spec fn appended(preserved: Seq<char>, block: Seq<char>) -> Seq<char> {
    let base = strip_newlines(preserved);
    if is_blank(base) {
        block
    } else {
        base + "\n\n"@ + block
    }
}

pub fn append_managed_block(preserved: &str, block: &str) -> (r: String)
    ensures
        r@ == appended(preserved@, block@),
{
    let v = chars_of(preserved);
    let mut end = v.len();
    assert(v@.subrange(0, end as int) =~= v@);
    while end > 0 && v[end - 1] == '\n'
        invariant
            end <= v@.len(),
            strip_newlines(v@.subrange(0, end as int)) == strip_newlines(v@),
        decreases end,
    {
        assert(v@.subrange(0, end as int).drop_last() =~= v@.subrange(0, end - 1));
        end = end - 1;
    }
    let base = string_of_range(&v, 0, end);
    if crate::text::blank(base.as_str()) {
        return owned(block);
    }
    let with_gap = concat(base.as_str(), "\n\n");
    concat(with_gap.as_str(), block)
}

/// The lines kept outside managed blocks, and whether the last line read
/// was inside one.
pub open spec fn kept_lines(ls: Seq<Seq<char>>) -> (Seq<Seq<char>>, bool)
    decreases ls.len(),
{
    if ls.len() == 0 {
        (Seq::empty(), false)
    } else {
        let (kept, inside) = kept_lines(ls.drop_last());
        let t = trim(ls.last());
        if t == begin_marker() {
            (kept, true)
        } else if t == end_marker() {
            (kept, false)
        } else if inside {
            (kept, true)
        } else {
            (kept.push(ls.last()), false)
        }
    }
}

/// The content without its managed blocks (marker lines included), a final
/// newline kept.
pub open spec fn without_managed_block(content: Seq<char>) -> Seq<char> {
    let r = join(kept_lines(lines_of(content)).0, "\n"@);
    if ends_with(content, "\n"@) && r.len() > 0 {
        r + "\n"@
    } else {
        r
    }
}

pub fn remove_managed_block(content: &str) -> (r: String)
    ensures
        r@ == without_managed_block(content@),
{
    let ls = lines(content);
    let ghost lv = strings_view(ls@);
    let mut kept: Vec<String> = Vec::new();
    let mut inside = false;
    let mut i: usize = 0;
    assert(lv.take(0) =~= Seq::<Seq<char>>::empty());
    assert(strings_view(kept@) =~= Seq::<Seq<char>>::empty());
    while i < ls.len()
        invariant
            i <= ls@.len(),
            lv == strings_view(ls@),
            (strings_view(kept@), inside) == kept_lines(lv.take(i as int)),
        decreases ls@.len() - i,
    {
        assert(lv.take(i + 1).drop_last() =~= lv.take(i as int));
        assert(lv.take(i + 1).last() == ls@[i as int]@);
        let t = trimmed(ls[i].as_str());
        if str_eq(t.as_str(), "# BEGIN CODEXPILOT NETWORK PROXY") {
            inside = true;
        } else if str_eq(t.as_str(), "# END CODEXPILOT NETWORK PROXY") {
            inside = false;
        } else if !inside {
            let ghost before = strings_view(kept@);
            kept.push(owned(ls[i].as_str()));
            assert(strings_view(kept@) =~= before.push(ls@[i as int]@));
        }
        i = i + 1;
    }
    assert(lv.take(ls@.len() as int) =~= lv);
    let r = crate::text::join_strings(&kept, "\n");
    assert(kept@.map_values(|p: String| p@) =~= strings_view(kept@));
    if crate::text::has_suffix(content, "\n") && !r.as_str().is_empty() {
        concat(r.as_str(), "\n")
    } else {
        r
    }
}

/// `s` without leading and trailing `c` characters (`trim_matches(c)`).
pub open spec fn trim_char(s: Seq<char>, c: char) -> Seq<char>
    decreases s.len(),
{
    if s.len() > 0 && s[0] == c {
        trim_char(s.drop_first(), c)
    } else if s.len() > 0 && s.last() == c {
        trim_char(s.drop_last(), c)
    } else {
        s
    }
}

/// The key and value of an `.env` line (`KEY=value`), quotes removed from
/// the value; none for blank lines, comments and lines without `=`.
pub open spec fn env_entry(line: Seq<char>) -> Option<(Seq<char>, Seq<char>)> {
    let t = trim(line);
    if t.len() == 0 || t[0] == '#' {
        None
    } else {
        match find_first(t, "="@) {
            Some(i) => Some((trim(t.take(i)), trim_char(trim_char(trim(t.skip(i + 1)), '"'), '\''))),
            None => None,
        }
    }
}

/// The entries of an `.env` file, in order.
pub open spec fn env_entries(ls: Seq<Seq<char>>) -> Seq<(Seq<char>, Seq<char>)>
    decreases ls.len(),
{
    if ls.len() == 0 {
        Seq::empty()
    } else {
        match env_entry(ls.last()) {
            Some(e) => env_entries(ls.drop_last()).push(e),
            None => env_entries(ls.drop_last()),
        }
    }
}

/// The value of `key`: its last entry wins.
pub open spec fn env_lookup(entries: Seq<(Seq<char>, Seq<char>)>, key: Seq<char>) -> Option<Seq<char>>
    decreases entries.len(),
{
    if entries.len() == 0 {
        None
    } else if entries.last().0 == key {
        Some(entries.last().1)
    } else {
        env_lookup(entries.drop_last(), key)
    }
}

/// The value of the first of `keys` that has one.
pub open spec fn first_value(entries: Seq<(Seq<char>, Seq<char>)>, keys: Seq<Seq<char>>) -> Option<Seq<char>>
    decreases keys.len(),
{
    if keys.len() == 0 {
        None
    } else {
        match env_lookup(entries, keys[0]) {
            Some(v) => Some(v),
            None => first_value(entries, keys.drop_first()),
        }
    }
}

fn trim_quote(s: &str, c: char) -> (r: String)
    ensures
        r@ == trim_char(s@, c),
{
    let v = chars_of(s);
    let mut lo: usize = 0;
    let mut hi: usize = v.len();
    assert(v@.subrange(0, v@.len() as int) =~= v@);
    while lo < hi && v[lo] == c
        invariant
            lo <= hi <= v@.len(),
            hi == v@.len(),
            trim_char(v@.subrange(lo as int, hi as int), c) == trim_char(v@, c),
        decreases hi - lo,
    {
        assert(v@.subrange(lo as int, hi as int).drop_first() =~= v@.subrange(lo + 1, hi as int));
        lo = lo + 1;
    }
    while lo < hi && v[hi - 1] == c
        invariant
            lo <= hi <= v@.len(),
            lo == hi || v@[lo as int] != c,
            trim_char(v@.subrange(lo as int, hi as int), c) == trim_char(v@, c),
        decreases hi - lo,
    {
        assert(v@.subrange(lo as int, hi as int).drop_last() =~= v@.subrange(lo as int, hi - 1));
        hi = hi - 1;
    }
    string_of_range(&v, lo, hi)
}

fn parse_env_line(line: &str) -> (r: Option<(String, String)>)
    ensures
        match r {
            Some((k, v)) => env_entry(line@) == Some((k@, v@)),
            None => env_entry(line@) is None,
        },
{
    let t = trimmed(line);
    let tv = chars_of(t.as_str());
    if tv.len() == 0 || tv[0] == '#' {
        return None;
    }
    let eq = chars_of("=");
    match crate::text::find_first_of(&tv, &eq) {
        Some(i) => {
            proof {
                reveal_strlit("=");
                crate::text::lemma_find_first_from_occurs(tv@, eq@, 0);
            }
            assert(eq@.len() == 1);
            let key_part = string_of_range(&tv, 0, i);
            let value_part = string_of_range(&tv, i + 1, tv.len());
            assert(key_part@ =~= tv@.take(i as int));
            assert(value_part@ =~= tv@.skip(i + 1));
            let key = trimmed(key_part.as_str());
            let value = trimmed(value_part.as_str());
            let unquoted = trim_quote(value.as_str(), '"');
            let unquoted = trim_quote(unquoted.as_str(), '\'');
            Some((key, unquoted))
        },
        None => None,
    }
}

pub open spec fn pairs_view(v: Seq<(String, String)>) -> Seq<(Seq<char>, Seq<char>)> {
    v.map_values(|p: (String, String)| (p.0@, p.1@))
}

/// The entries of an `.env` file, in order (a later entry of a key wins).
pub fn parse_env_values(content: &str) -> (r: Vec<(String, String)>)
    ensures
        pairs_view(r@) == env_entries(lines_of(content@)),
{
    let ls = lines(content);
    let ghost lv = strings_view(ls@);
    let mut out: Vec<(String, String)> = Vec::new();
    let mut i: usize = 0;
    assert(lv.take(0) =~= Seq::<Seq<char>>::empty());
    assert(pairs_view(out@) =~= Seq::<(Seq<char>, Seq<char>)>::empty());
    while i < ls.len()
        invariant
            i <= ls@.len(),
            lv == strings_view(ls@),
            pairs_view(out@) == env_entries(lv.take(i as int)),
        decreases ls@.len() - i,
    {
        assert(lv.take(i + 1).drop_last() =~= lv.take(i as int));
        assert(lv.take(i + 1).last() == ls@[i as int]@);
        match parse_env_line(ls[i].as_str()) {
            Some(e) => {
                let ghost ev = (e.0@, e.1@);
                let ghost before = pairs_view(out@);
                out.push(e);
                assert(pairs_view(out@) =~= before.push(ev));
            },
            None => {},
        }
        i = i + 1;
    }
    assert(lv.take(ls@.len() as int) =~= lv);
    out
}

fn lookup(values: &Vec<(String, String)>, key: &str) -> (r: Option<String>)
    ensures
        match r {
            Some(v) => env_lookup(pairs_view(values@), key@) == Some(v@),
            None => env_lookup(pairs_view(values@), key@) is None,
        },
{
    let ghost pv = pairs_view(values@);
    let mut i = values.len();
    assert(pv.take(i as int) =~= pv);
    while i > 0
        invariant
            i <= values@.len(),
            pv == pairs_view(values@),
            env_lookup(pv, key@) == env_lookup(pv.take(i as int), key@),
        decreases i,
    {
        let ghost part = pv.take(i as int);
        assert(part.last() == (values@[i - 1].0@, values@[i - 1].1@));
        if str_eq(values[i - 1].0.as_str(), key) {
            return Some(owned(values[i - 1].1.as_str()));
        }
        assert(part.drop_last() =~= pv.take(i - 1));
        i = i - 1;
    }
    None
}

/// The value of the first of `keys` that has one.
pub fn first_env_value(values: &Vec<(String, String)>, keys: &Vec<&str>) -> (r: Option<String>)
    ensures
        match r {
            Some(v) => first_value(pairs_view(values@), keys@.map_values(|k: &str| k@)) == Some(v@),
            None => first_value(pairs_view(values@), keys@.map_values(|k: &str| k@)) is None,
        },
{
    let ghost kv = keys@.map_values(|k: &str| k@);
    let mut i: usize = 0;
    assert(kv.skip(0) =~= kv);
    while i < keys.len()
        invariant
            i <= keys@.len(),
            kv == keys@.map_values(|k: &str| k@),
            first_value(pairs_view(values@), kv) == first_value(pairs_view(values@), kv.skip(i as int)),
        decreases keys@.len() - i,
    {
        assert(kv.skip(i as int)[0] == keys@[i as int]@);
        match lookup(values, keys[i]) {
            Some(v) => {
                return Some(v);
            },
            None => {},
        }
        assert(kv.skip(i as int).drop_first() =~= kv.skip(i + 1));
        i = i + 1;
    }
    None
}

/// `v` without a leading `http://`, `https://` or `socks5://` (in any case).
pub open spec fn scheme_stripped(v: Seq<char>) -> Seq<char> {
    let l = lower(v);
    if starts_with(l, "http://"@) {
        v.skip(7)
    } else if starts_with(l, "https://"@) {
        v.skip(8)
    } else if starts_with(l, "socks5://"@) {
        v.skip(9)
    } else {
        v
    }
}

/// The part of `v` before its first `/`.
pub open spec fn before_slash(v: Seq<char>) -> Seq<char> {
    match find_first(v, "/"@) {
        Some(i) => v.take(i),
        None => v,
    }
}

pub open spec fn has_ws(v: Seq<char>) -> bool {
    exists|i: int| 0 <= i < v.len() && is_ws(#[trigger] v[i])
}

/// The endpoint part of a proxy address: scheme and path removed.
pub open spec fn endpoint_of(endpoint: Seq<char>) -> Result<Seq<char>, Seq<char>> {
    let v0 = trim(endpoint);
    if v0.len() == 0 {
        Err("proxy endpoint is empty"@)
    } else {
        let v2 = trim(before_slash(scheme_stripped(v0)));
        if v2.len() == 0 || !contains(v2, ":"@) || has_ws(v2) {
            Err("proxy endpoint must be host:port, for example 127.0.0.1:7890"@)
        } else {
            Ok(v2)
        }
    }
}

fn has_whitespace(s: &str) -> (r: bool)
    ensures
        r == has_ws(s@),
{
    let v = chars_of(s);
    let mut i: usize = 0;
    while i < v.len()
        invariant
            i <= v@.len(),
            v@ == s@,
            forall|j: int| 0 <= j < i ==> !is_ws(#[trigger] v@[j]),
        decreases v@.len() - i,
    {
        if crate::text::is_whitespace(v[i]) {
            return true;
        }
        i = i + 1;
    }
    false
}

/// The `host:port` of a proxy address.
pub fn normalize_proxy_endpoint(endpoint: &str) -> (r: Result<String, String>)
    ensures
        match endpoint_of(endpoint@) {
            Ok(v) => r matches Ok(x) && x@ == v,
            Err(e) => r matches Err(x) && x@ == e,
        },
{
    let v0 = trimmed(endpoint);
    if v0.as_str().is_empty() {
        return Err(owned("proxy endpoint is empty"));
    }
    let l = lowercase(v0.as_str());
    let chars = chars_of(v0.as_str());
    proof {
        reveal_strlit("http://");
        reveal_strlit("https://");
        reveal_strlit("socks5://");
    }
    let skip: usize = if has_prefix(l.as_str(), "http://") {
        7
    } else if has_prefix(l.as_str(), "https://") {
        8
    } else if has_prefix(l.as_str(), "socks5://") {
        9
    } else {
        0
    };
    assert(l@.len() == v0@.len());
    assert(skip <= chars@.len());
    let v1 = string_of_range(&chars, skip, chars.len());
    assert(v1@ =~= chars@.skip(skip as int));
    assert(v1@ == scheme_stripped(v0@));
    let v1c = chars_of(v1.as_str());
    let slash = chars_of("/");
    let before = match crate::text::find_first_of(&v1c, &slash) {
        Some(i) => {
            proof {
                reveal_strlit("/");
                crate::text::lemma_find_first_from_occurs(v1c@, slash@, 0);
            }
            let b = string_of_range(&v1c, 0, i);
            assert(b@ =~= v1c@.take(i as int));
            b
        },
        None => crate::text::string_of(&v1c),
    };
    assert(before@ == before_slash(v1@));
    let v2 = trimmed(before.as_str());
    if v2.as_str().is_empty() || !has_substring(v2.as_str(), ":") || has_whitespace(v2.as_str()) {
        return Err(owned("proxy endpoint must be host:port, for example 127.0.0.1:7890"));
    }
    Ok(v2)
}

pub open spec fn proxy_status_view(
    env_path: Seq<char>,
    content: Option<Seq<char>>,
    backup_exists: bool,
) -> (bool, bool, bool, bool, bool, Option<Seq<char>>, Seq<char>) {
    let entries = match content {
        Some(c) => env_entries(lines_of(c)),
        None => Seq::empty(),
    };
    let managed = match content {
        Some(c) => contains(c, begin_marker()) && contains(c, end_marker()),
        None => false,
    };
    let http = first_value(entries, seq!["HTTPS_PROXY"@, "https_proxy"@, "HTTP_PROXY"@, "http_proxy"@]);
    let all = first_value(entries, seq!["ALL_PROXY"@, "all_proxy"@]);
    let no = first_value(entries, seq!["NO_PROXY"@, "no_proxy"@]);
    let endpoint = match crate::json::or_else(http, all) {
        Some(v) => match endpoint_of(v) {
            Ok(e) => Some(e),
            Err(_) => None,
        },
        None => None,
    };
    let has_no_proxy = match no {
        Some(v) => contains(v, "localhost"@) && contains(v, "127.0.0.1"@) && contains(v, "::1"@),
        None => false,
    };
    (content is Some, managed && endpoint is Some && has_no_proxy, managed, backup_exists, has_no_proxy, endpoint, env_path)
}

impl NetworkEnvStatus {
    pub open spec fn view(&self) -> (bool, bool, bool, bool, bool, Option<Seq<char>>, Seq<char>) {
        (
            self.exists,
            self.configured,
            self.managed,
            self.backup_exists,
            self.has_no_proxy,
            match &self.proxy_endpoint {
                Some(e) => Some(e@),
                None => None,
            },
            self.env_path@,
        )
    }
}

/// The status of an `.env` file at `env_path` with `content` (none where it
/// does not exist).
pub fn status_from_content(env_path: &str, content: Option<&str>, backup_exists: bool) -> (r: NetworkEnvStatus)
    ensures
        r.view() == proxy_status_view(
            env_path@,
            match content {
                Some(c) => Some(c@),
                None => None,
            },
            backup_exists,
        ),
{
    let values = match content {
        Some(c) => parse_env_values(c),
        None => {
            let v: Vec<(String, String)> = Vec::new();
            assert(pairs_view(v@) =~= Seq::<(Seq<char>, Seq<char>)>::empty());
            v
        },
    };
    let managed = match content {
        Some(c) => has_substring(c, "# BEGIN CODEXPILOT NETWORK PROXY") && has_substring(
            c,
            "# END CODEXPILOT NETWORK PROXY",
        ),
        None => false,
    };
    let http_keys = vec!["HTTPS_PROXY", "https_proxy", "HTTP_PROXY", "http_proxy"];
    assert(http_keys@.map_values(|k: &str| k@) =~= seq!["HTTPS_PROXY"@, "https_proxy"@, "HTTP_PROXY"@, "http_proxy"@]);
    let all_keys = vec!["ALL_PROXY", "all_proxy"];
    assert(all_keys@.map_values(|k: &str| k@) =~= seq!["ALL_PROXY"@, "all_proxy"@]);
    let no_keys = vec!["NO_PROXY", "no_proxy"];
    assert(no_keys@.map_values(|k: &str| k@) =~= seq!["NO_PROXY"@, "no_proxy"@]);
    let http = first_env_value(&values, &http_keys);
    let all = first_env_value(&values, &all_keys);
    let no = first_env_value(&values, &no_keys);
    let chosen = match http {
        Some(v) => Some(v),
        None => all,
    };
    let endpoint = match chosen {
        Some(v) => match normalize_proxy_endpoint(v.as_str()) {
            Ok(e) => Some(e),
            Err(_) => None,
        },
        None => None,
    };
    let has_no_proxy = match &no {
        Some(v) => has_substring(v.as_str(), "localhost") && has_substring(v.as_str(), "127.0.0.1")
            && has_substring(v.as_str(), "::1"),
        None => false,
    };
    NetworkEnvStatus {
        exists: content.is_some(),
        configured: managed && endpoint.is_some() && has_no_proxy,
        managed,
        backup_exists,
        has_no_proxy,
        proxy_endpoint: endpoint,
        env_path: owned(env_path),
    }
}

/// The new `.env` content for `endpoint`: the existing content with any
/// managed block replaced by a new one at the end.
pub open spec fn applied_env(existing: Seq<char>, endpoint: Seq<char>) -> Result<Seq<char>, Seq<char>> {
    match endpoint_of(endpoint) {
        Ok(e) => Ok(appended(without_managed_block(existing), managed_block(e))),
        Err(m) => Err(m),
    }
}

pub fn apply_env_content(existing: &str, endpoint: &str) -> (r: Result<String, String>)
    ensures
        match applied_env(existing@, endpoint@) {
            Ok(v) => r matches Ok(x) && x@ == v,
            Err(e) => r matches Err(x) && x@ == e,
        },
{
    let e = match normalize_proxy_endpoint(endpoint) {
        Ok(e) => e,
        Err(m) => return Err(m),
    };
    let preserved = remove_managed_block(existing);
    let block = build_managed_block(e.as_str());
    Ok(append_managed_block(preserved.as_str(), block.as_str()))
}

/// The manifest for a backup made at `created_at` of the Codex home
/// `codex_home`, given whether its `.env` existed.
pub fn new_env_manifest(created_at: i64, codex_home: &str, env_exists: bool) -> (r: NetworkEnvBackupManifest)
    ensures
        r.version == 1,
        r.created_at == created_at,
        r.codex_home@ == codex_home@,
        r.env_file == (if env_exists {
            BackupFileState::BackedUp
        } else {
            BackupFileState::Missing
        }),
{
    NetworkEnvBackupManifest {
        version: 1,
        created_at,
        codex_home: owned(codex_home),
        env_file: crate::official_backup::backup_state(env_exists),
    }
}

/// The `.env` state a backup records after a request: the existing one,
/// else how the file is now.
pub open spec fn env_kept(existing: Option<BackupFileState>, env_exists: bool) -> BackupFileState {
    match existing {
        Some(e) => e,
        None => crate::official_backup::state_for(env_exists),
    }
}

/// Backing up the original `.env` (its contents `original`, `None` where
/// absent), asking for a backup again later (the first manifest stays, and
/// the file is not copied again), then restoring, gives the file back
/// exactly as it was, whatever it became meanwhile: removed where it was
/// absent at backup time.
pub proof fn law_env_backup_then_restore(original: Option<Seq<u8>>, later: Option<bool>, now: Option<Seq<u8>>)
    ensures
        ({
            let first = env_kept(None, original is Some);
            let kept = match later {
                Some(exists) => env_kept(Some(first), exists),
                None => first,
            };
            crate::official_backup::file_after(
                crate::official_backup::restore_action_of(kept, now is Some),
                now,
                original,
            ) == original
        }),
{
}

/// The `.env` backup manifest that stands after a request to back it up,
/// and whether it is new: an existing manifest is kept as it is; only
/// without one is a new manifest made (and the file copied beside it).
pub fn env_backup_to_keep(existing: Option<NetworkEnvBackupManifest>, created_at: i64, codex_home: &str, env_exists: bool) -> (r: (
    NetworkEnvBackupManifest,
    bool,
))
    ensures
        r.0.env_file == env_kept(
            match existing {
                Some(m) => Some(m.env_file),
                None => None,
            },
            env_exists,
        ),
        match existing {
            Some(m) => r.0 == m && !r.1,
            None => {
                &&& r.1
                &&& r.0.version == 1
                &&& r.0.created_at == created_at
                &&& r.0.codex_home@ == codex_home@
                &&& r.0.env_file == (if env_exists {
                    BackupFileState::BackedUp
                } else {
                    BackupFileState::Missing
                })
            },
        },
{
    match existing {
        Some(m) => (m, false),
        None => (new_env_manifest(created_at, codex_home, env_exists), true),
    }
}

proof fn lemma_strip_newlines_lf(x: Seq<char>)
    ensures
        strip_newlines(x + "\n"@) == strip_newlines(x),
{
    reveal_strlit("\n");
    assert((x + "\n"@).drop_last() =~= x);
}

proof fn lemma_strip_newlines_kept(x: Seq<char>)
    requires
        x.len() == 0 || x.last() != '\n',
    ensures
        strip_newlines(x) == x,
{
}

/// The pieces without their trailing empty ones (at least one kept).
pub open spec fn without_empty_tail(parts: Seq<Seq<char>>) -> Seq<Seq<char>>
    decreases parts.len(),
{
    if parts.len() > 1 && parts.last().len() == 0 {
        without_empty_tail(parts.drop_last())
    } else {
        parts
    }
}

proof fn lemma_strip_joined(parts: Seq<Seq<char>>)
    requires
        parts.len() >= 1,
        forall|i: int| 0 <= i < parts.len() ==> no_lf(#[trigger] parts[i]),
    ensures
        strip_newlines(join(parts, "\n"@)) == join(without_empty_tail(parts), "\n"@),
        1 <= without_empty_tail(parts).len() <= parts.len(),
        without_empty_tail(parts) == parts.take(without_empty_tail(parts).len() as int),
        without_empty_tail(parts).len() == 1 || without_empty_tail(parts).last().len() > 0,
    decreases parts.len(),
{
    reveal_strlit("\n");
    if parts.len() == 1 {
        assert(join(parts, "\n"@) == parts[0]);
        if parts[0].len() > 0 {
            assert(no_lf(parts[0]));
            assert(parts[0].last() != '\n');
        }
        lemma_strip_newlines_kept(parts[0]);
        assert(parts.take(1) =~= parts);
    } else {
        let init = parts.drop_last();
        assert forall|i: int| 0 <= i < init.len() implies no_lf(#[trigger] init[i]) by {
            assert(init[i] == parts[i]);
        }
        if parts.last().len() == 0 {
            lemma_strip_joined(init);
            assert(join(parts, "\n"@) =~= join(init, "\n"@) + "\n"@);
            lemma_strip_newlines_lf(join(init, "\n"@));
            let t = without_empty_tail(init);
            assert(init.take(t.len() as int) =~= parts.take(t.len() as int));
        } else {
            let j = join(parts, "\n"@);
            assert(no_lf(parts.last()));
            assert(j.last() == parts.last().last());
            lemma_strip_newlines_kept(j);
            assert(parts.take(parts.len() as int) =~= parts);
        }
    }
}

/// The lines of the managed block for `e`.
pub open spec fn block_lines(e: Seq<char>) -> Seq<Seq<char>> {
    seq![
        begin_marker(),
        "HTTP_PROXY=http://"@ + e,
        "HTTPS_PROXY=http://"@ + e,
        "ALL_PROXY=socks5://"@ + e,
        "NO_PROXY=localhost,127.0.0.1,::1"@,
        "http_proxy=http://"@ + e,
        "https_proxy=http://"@ + e,
        "all_proxy=socks5://"@ + e,
        "no_proxy=localhost,127.0.0.1,::1"@,
        end_marker(),
    ]
}

proof fn lemma_block_is_lines(e: Seq<char>)
    ensures
        managed_block(e) == join(block_lines(e), "\n"@) + "\n"@,
{
    let bl = block_lines(e);
    let nl = "\n"@;
    reveal_strlit("\n");
    reveal_strlit("# BEGIN CODEXPILOT NETWORK PROXY");
    reveal_strlit("# END CODEXPILOT NETWORK PROXY");
    reveal_strlit("\nHTTP_PROXY=http://");
    reveal_strlit("\nHTTPS_PROXY=http://");
    reveal_strlit("\nALL_PROXY=socks5://");
    reveal_strlit("\nNO_PROXY=localhost,127.0.0.1,::1\nhttp_proxy=http://");
    reveal_strlit("\nhttps_proxy=http://");
    reveal_strlit("\nall_proxy=socks5://");
    reveal_strlit("\nno_proxy=localhost,127.0.0.1,::1\n");
    reveal_strlit("HTTP_PROXY=http://");
    reveal_strlit("HTTPS_PROXY=http://");
    reveal_strlit("ALL_PROXY=socks5://");
    reveal_strlit("NO_PROXY=localhost,127.0.0.1,::1");
    reveal_strlit("http_proxy=http://");
    reveal_strlit("https_proxy=http://");
    reveal_strlit("all_proxy=socks5://");
    reveal_strlit("no_proxy=localhost,127.0.0.1,::1");
    assert("\nHTTP_PROXY=http://"@ =~= nl + "HTTP_PROXY=http://"@);
    assert("\nHTTPS_PROXY=http://"@ =~= nl + "HTTPS_PROXY=http://"@);
    assert("\nALL_PROXY=socks5://"@ =~= nl + "ALL_PROXY=socks5://"@);
    assert("\nNO_PROXY=localhost,127.0.0.1,::1\nhttp_proxy=http://"@ =~= nl + "NO_PROXY=localhost,127.0.0.1,::1"@
        + nl + "http_proxy=http://"@);
    assert("\nhttps_proxy=http://"@ =~= nl + "https_proxy=http://"@);
    assert("\nall_proxy=socks5://"@ =~= nl + "all_proxy=socks5://"@);
    assert("\nno_proxy=localhost,127.0.0.1,::1\n"@ =~= nl + "no_proxy=localhost,127.0.0.1,::1"@ + nl);
    assert(join(bl.take(1), nl) == bl[0]);
    assert(bl.take(2).drop_last() =~= bl.take(1));
    let j2 = bl[0] + nl + bl[1];
    assert(join(bl.take(2), nl) == j2);
    assert(bl.take(3).drop_last() =~= bl.take(2));
    let j3 = j2 + nl + bl[2];
    assert(join(bl.take(3), nl) == j3);
    assert(bl.take(4).drop_last() =~= bl.take(3));
    let j4 = j3 + nl + bl[3];
    assert(join(bl.take(4), nl) == j4);
    assert(bl.take(5).drop_last() =~= bl.take(4));
    let j5 = j4 + nl + bl[4];
    assert(join(bl.take(5), nl) == j5);
    assert(bl.take(6).drop_last() =~= bl.take(5));
    let j6 = j5 + nl + bl[5];
    assert(join(bl.take(6), nl) == j6);
    assert(bl.take(7).drop_last() =~= bl.take(6));
    let j7 = j6 + nl + bl[6];
    assert(join(bl.take(7), nl) == j7);
    assert(bl.take(8).drop_last() =~= bl.take(7));
    let j8 = j7 + nl + bl[7];
    assert(join(bl.take(8), nl) == j8);
    assert(bl.take(9).drop_last() =~= bl.take(8));
    let j9 = j8 + nl + bl[8];
    assert(join(bl.take(9), nl) == j9);
    assert(bl.take(10).drop_last() =~= bl.take(9));
    let j = j9 + nl + bl[9];
    assert(join(bl.take(10), nl) == j);
    assert(bl.take(10) =~= bl);
    assert(managed_block(e) =~= j + nl);
}

proof fn lemma_trim_same(x: Seq<char>)
    requires
        x.len() > 0,
        !is_ws(x[0]),
        !is_ws(x.last()),
    ensures
        trim(x) == x,
{
}

/// A line ending in `\r`.
pub open spec fn ends_cr(line: Seq<char>) -> bool {
    line.len() > 0 && line.last() == '\r'
}

/// A line that is no marker line of the managed block.
pub open spec fn plain_line(line: Seq<char>) -> bool {
    trim(line) != begin_marker() && trim(line) != end_marker()
}

proof fn lemma_block_facts(e: Seq<char>)
    requires
        e.len() > 0,
        !has_ws(e),
    ensures
        forall|i: int| 0 <= i < 10 ==> no_lf(#[trigger] block_lines(e)[i]) && !ends_cr(block_lines(e)[i]),
        forall|i: int| 1 <= i < 9 ==> plain_line(#[trigger] block_lines(e)[i]),
        trim(block_lines(e)[0]) == begin_marker(),
        trim(block_lines(e)[9]) == end_marker(),
        block_lines(e).len() == 10,
{
    let bl = block_lines(e);
    reveal_strlit("# BEGIN CODEXPILOT NETWORK PROXY");
    reveal_strlit("# END CODEXPILOT NETWORK PROXY");
    reveal_strlit("HTTP_PROXY=http://");
    reveal_strlit("HTTPS_PROXY=http://");
    reveal_strlit("ALL_PROXY=socks5://");
    reveal_strlit("NO_PROXY=localhost,127.0.0.1,::1");
    reveal_strlit("http_proxy=http://");
    reveal_strlit("https_proxy=http://");
    reveal_strlit("all_proxy=socks5://");
    reveal_strlit("no_proxy=localhost,127.0.0.1,::1");
    assert(!is_ws(e.last())) by {
        assert(!is_ws(e[e.len() - 1]));
    }
    assert(no_lf(e)) by {
        assert forall|i: int| 0 <= i < e.len() implies e[i] != '\n' by {
            assert(!is_ws(e[i]));
        }
    }
    assert forall|i: int| 0 <= i < 10 implies no_lf(#[trigger] bl[i]) && !ends_cr(bl[i]) && bl[i].len() > 0
        && !is_ws(bl[i][0]) && !is_ws(bl[i].last()) by {
        let x = bl[i];
        assert forall|k: int| 0 <= k < x.len() implies x[k] != '\n' by {
            if i == 0 || i == 4 || i == 8 || i == 9 {
            } else {
                let lit = x.take(x.len() - e.len());
                if k >= lit.len() {
                    assert(x[k] == e[k - lit.len()]);
                }
            }
        }
        if i != 0 && i != 4 && i != 8 && i != 9 {
            assert(x.last() == e.last());
        }
    }
    assert forall|i: int| 0 <= i < 10 implies trim(#[trigger] bl[i]) == bl[i] by {
        lemma_trim_same(bl[i]);
    }
    assert forall|i: int| 1 <= i < 9 implies plain_line(#[trigger] bl[i]) by {
        lemma_trim_same(bl[i]);
        assert(bl[i][0] != '#');
        assert(begin_marker()[0] == '#');
        assert(end_marker()[0] == '#');
    }
}

proof fn lemma_kept_plain(ls: Seq<Seq<char>>)
    requires
        forall|i: int| 0 <= i < ls.len() ==> plain_line(#[trigger] ls[i]),
    ensures
        kept_lines(ls) == (ls, false),
    decreases ls.len(),
{
    if ls.len() > 0 {
        let init = ls.drop_last();
        assert forall|i: int| 0 <= i < init.len() implies plain_line(#[trigger] init[i]) by {
            assert(init[i] == ls[i]);
        }
        lemma_kept_plain(init);
        assert(plain_line(ls[ls.len() - 1]));
        assert(init.push(ls.last()) =~= ls);
    } else {
        assert(ls =~= Seq::<Seq<char>>::empty());
    }
}

proof fn lemma_kept_block(pre: Seq<Seq<char>>, e: Seq<char>)
    requires
        kept_lines(pre).1 == false,
        e.len() > 0,
        !has_ws(e),
    ensures
        kept_lines(pre + block_lines(e)) == (kept_lines(pre).0, false),
{
    lemma_block_facts(e);
    let bl = block_lines(e);
    let kp = kept_lines(pre).0;
    let all = pre + bl;
    assert(all.take(pre.len() as int) =~= pre);
    lemma_kept_block_prefix(pre, e, 9);
    reveal_strlit("# BEGIN CODEXPILOT NETWORK PROXY");
    reveal_strlit("# END CODEXPILOT NETWORK PROXY");
    assert(begin_marker().len() != end_marker().len());
    assert(all.take(pre.len() + 10int) =~= all);
    assert(all.drop_last() =~= all.take(pre.len() + 9int));
    assert(all.last() == bl[9]);
}

proof fn lemma_kept_block_prefix(pre: Seq<Seq<char>>, e: Seq<char>, k: int)
    requires
        kept_lines(pre).1 == false,
        e.len() > 0,
        !has_ws(e),
        1 <= k <= 9,
    ensures
        kept_lines((pre + block_lines(e)).take(pre.len() + k)) == (kept_lines(pre).0, true),
    decreases k,
{
    lemma_block_facts(e);
    let all = pre + block_lines(e);
    let cur = all.take(pre.len() + k);
    if k == 1 {
        assert(all.take(pre.len() as int) =~= pre);
        assert(cur.drop_last() =~= pre);
        assert(cur.last() == block_lines(e)[0]);
    } else {
        lemma_kept_block_prefix(pre, e, k - 1);
        assert(cur.drop_last() =~= all.take(pre.len() + k - 1));
        assert(cur.last() == block_lines(e)[k - 1]);
        assert(plain_line(block_lines(e)[k - 1]));
    }
}

proof fn lemma_kept_facts(ls: Seq<Seq<char>>)
    ensures
        forall|i: int| 0 <= i < kept_lines(ls).0.len() ==> plain_line(#[trigger] kept_lines(ls).0[i]),
        forall|i: int| 0 <= i < kept_lines(ls).0.len() ==> exists|j: int| 0 <= j < ls.len() && #[trigger] kept_lines(ls).0[i] == ls[j],
    decreases ls.len(),
{
    if ls.len() > 0 {
        lemma_kept_facts(ls.drop_last());
        let init = ls.drop_last();
        assert forall|i: int| 0 <= i < kept_lines(ls).0.len() implies plain_line(#[trigger] kept_lines(ls).0[i]) by {
            let k0 = kept_lines(init).0;
            if i < k0.len() {
                assert(kept_lines(ls).0[i] == k0[i]);
            }
        }
        assert forall|i: int| 0 <= i < kept_lines(ls).0.len() implies exists|j: int| 0 <= j < ls.len() && #[trigger] kept_lines(ls).0[i] == ls[j] by {
            let k0 = kept_lines(init).0;
            if i < k0.len() {
                assert(kept_lines(ls).0[i] == k0[i]);
                let j = choose|j: int| 0 <= j < init.len() && k0[i] == init[j];
                assert(ls[j] == init[j]);
            } else {
                assert(kept_lines(ls).0[i] == ls[ls.len() - 1]);
            }
        }
    }
}

proof fn lemma_no_cr_lines(xs: Seq<Seq<char>>)
    requires
        forall|i: int| 0 <= i < xs.len() ==> !ends_cr(#[trigger] xs[i]),
    ensures
        xs.map_values(|l: Seq<char>| strip_cr(l)) == xs,
{
    assert(xs.map_values(|l: Seq<char>| strip_cr(l)) =~= xs) by {
        assert forall|i: int| 0 <= i < xs.len() implies xs.map_values(|l: Seq<char>| strip_cr(l))[i] == xs[i] by {
            assert(!ends_cr(xs[i]));
        }
    }
}

proof fn lemma_block_lines_of(e: Seq<char>)
    requires
        e.len() > 0,
        !has_ws(e),
    ensures
        split_lf(managed_block(e)) == block_lines(e) + seq![Seq::<char>::empty()],
        lines_of(managed_block(e)) == block_lines(e),
{
    let bl = block_lines(e);
    lemma_block_facts(e);
    lemma_block_is_lines(e);
    reveal_strlit("\n");
    assert(managed_block(e) =~= join(bl, "\n"@) + "\n"@ + Seq::<char>::empty());
    crate::text::lemma_split_lf_concat(join(bl, "\n"@), Seq::<char>::empty());
    crate::text::lemma_split_join(bl);
    let p = split_lf(managed_block(e));
    assert(p =~= bl + seq![Seq::<char>::empty()]);
    assert(p.drop_last() =~= bl);
    lemma_no_cr_lines(bl);
}

proof fn lemma_without_block_alone(e: Seq<char>)
    requires
        e.len() > 0,
        !has_ws(e),
    ensures
        without_managed_block(managed_block(e)) == Seq::<char>::empty(),
{
    lemma_block_lines_of(e);
    let empty = Seq::<Seq<char>>::empty();
    assert(empty + block_lines(e) =~= block_lines(e));
    lemma_kept_block(empty, e);
}

#[verifier::spinoff_prover]
#[verifier::rlimit(40)]
proof fn lemma_without_after(t: Seq<Seq<char>>, e: Seq<char>)
    requires
        t.len() >= 1,
        forall|i: int| 0 <= i < t.len() ==> no_lf(#[trigger] t[i]) && plain_line(t[i]) && !ends_cr(t[i]),
        t.len() == 1 || t.last().len() > 0,
        !is_blank(join(t, "\n"@)),
        e.len() > 0,
        !has_ws(e),
    ensures
        without_managed_block(join(t, "\n"@) + "\n\n"@ + managed_block(e)) == join(t, "\n"@) + "\n\n"@,
        strip_newlines(join(t, "\n"@) + "\n\n"@) == join(t, "\n"@),
{
    reveal_strlit("\n");
    reveal_strlit("\n\n");
    reveal_strlit("# BEGIN CODEXPILOT NETWORK PROXY");
    reveal_strlit("# END CODEXPILOT NETWORK PROXY");
    let s = join(t, "\n"@);
    let mb = managed_block(e);
    let d = s + "\n\n"@ + mb;
    let empty = Seq::<char>::empty();
    lemma_block_lines_of(e);
    lemma_block_facts(e);
    assert(d =~= s + "\n"@ + (empty + "\n"@ + mb));
    crate::text::lemma_split_lf_concat(s, empty + "\n"@ + mb);
    crate::text::lemma_split_lf_concat(empty, mb);
    crate::text::lemma_split_join(t);
    let bl = block_lines(e);
    let pre = t + seq![empty];
    assert(split_lf(empty) == seq![empty]);
    assert(split_lf(d) =~= pre + bl + seq![empty]);
    assert(split_lf(d).drop_last() =~= pre + bl);
    assert forall|i: int| 0 <= i < (pre + bl).len() implies !ends_cr(#[trigger] (pre + bl)[i]) by {
        if i < t.len() {
            assert((pre + bl)[i] == t[i]);
        } else if i == t.len() {
            assert((pre + bl)[i] == empty);
        } else {
            assert((pre + bl)[i] == bl[i - pre.len()]);
        }
    }
    lemma_no_cr_lines(pre + bl);
    assert(lines_of(d) == pre + bl);
    assert forall|i: int| 0 <= i < pre.len() implies plain_line(#[trigger] pre[i]) by {
        if i < t.len() {
            assert(pre[i] == t[i]);
        } else {
            assert(pre[i] == empty);
            assert(trim(empty) =~= empty);
        }
    }
    lemma_kept_plain(pre);
    lemma_kept_block(pre, e);
    assert(pre.drop_last() =~= t);
    assert(join(pre, "\n"@) == s + "\n"@ + empty);
    assert(mb.len() > 0 && mb.last() == '\n') by {
        lemma_block_is_lines(e);
    }
    assert(d.last() == '\n');
    assert(d.skip(d.len() - 1) =~= "\n"@);
    assert(s + "\n\n"@ =~= s + "\n"@ + empty + "\n"@);
    lemma_strip_newlines_lf(s + "\n"@);
    lemma_strip_newlines_lf(s);
    assert(s + "\n"@ + "\n"@ =~= s + "\n\n"@);
    if t.len() == 1 {
        assert(s == t[0]);
        assert(s.len() > 0);
        assert(no_lf(t[0]));
        assert(s.last() != '\n');
    } else {
        assert(s == join(t.drop_last(), "\n"@) + "\n"@ + t.last());
        assert(no_lf(t[t.len() - 1]));
        assert(s.last() == t.last().last());
    }
    lemma_strip_newlines_kept(s);
}

/// Applying the proxy settings a second time replaces the managed block
/// instead of adding another: the result is what applying the second
/// endpoint once gives. (Kept lines of the original content that end in
/// `\r` lose it when read back, so they are left out unless that content is
/// blank.)
pub proof fn law_apply_twice(content: Seq<char>, first: Seq<char>, second: Seq<char>)
    requires
        applied_env(content, first) is Ok,
        is_blank(strip_newlines(without_managed_block(content))) || forall|i: int|
            0 <= i < kept_lines(lines_of(content)).0.len() ==> !ends_cr(
                #[trigger] kept_lines(lines_of(content)).0[i],
            ),
    ensures
        applied_env(applied_env(content, first)->Ok_0, second) == applied_env(content, second),
{
    reveal_strlit("\n");
    let e1 = endpoint_of(first)->Ok_0;
    assert(e1.len() > 0 && !has_ws(e1));
    let p = without_managed_block(content);
    let d = appended(p, managed_block(e1));
    assert(applied_env(content, first)->Ok_0 == d);
    let k = kept_lines(lines_of(content)).0;
    crate::text::lemma_lines_no_lf(content);
    lemma_kept_facts(lines_of(content));
    assert forall|i: int| 0 <= i < k.len() implies no_lf(#[trigger] k[i]) by {
        let j = choose|j: int| 0 <= j < lines_of(content).len() && k[i] == lines_of(content)[j];
        assert(no_lf(lines_of(content)[j]));
    }
    let base = strip_newlines(p);
    if k.len() == 0 {
        assert(join(k, "\n"@) == Seq::<char>::empty());
        assert(p == Seq::<char>::empty());
        assert(base == Seq::<char>::empty());
    } else {
        lemma_strip_joined(k);
        if ends_with(content, "\n"@) && join(k, "\n"@).len() > 0 {
            lemma_strip_newlines_lf(join(k, "\n"@));
        }
        assert(base == join(without_empty_tail(k), "\n"@));
    }
    if is_blank(base) {
        assert(d == managed_block(e1));
        lemma_without_block_alone(e1);
        assert(strip_newlines(Seq::<char>::empty()) == Seq::<char>::empty());
        assert(is_blank(Seq::<char>::empty()));
    } else {
        let t = without_empty_tail(k);
        assert forall|i: int| 0 <= i < t.len() implies no_lf(#[trigger] t[i]) && plain_line(t[i]) && !ends_cr(t[i]) by {
            assert(t[i] == k[i]);
        }
        assert(d == join(t, "\n"@) + "\n\n"@ + managed_block(e1));
        lemma_without_after(t, e1);
    }
}

} // verus!
