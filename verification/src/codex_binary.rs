use vstd::prelude::*;

use crate::sorting::{indices, ints, is_permutation, keys_view, sorted_order, sorted_stably};
use crate::store::{join_path, joined};
use crate::text::{chars_of, string_of_range, strings_view};

verus! {

broadcast use vstd::std_specs::vec::group_vec_axioms;

/// The pieces of a `PATH` value between `:` characters, empty pieces
/// included (`str::split(':')`).
pub open spec fn colon_pieces(s: Seq<char>) -> Seq<Seq<char>>
    decreases s.len(),
{
    if s.len() == 0 {
        seq![Seq::empty()]
    } else {
        let p = colon_pieces(s.drop_last());
        if s.last() == ':' {
            p.push(Seq::empty())
        } else {
            p.update(p.len() - 1, p.last().push(s.last()))
        }
    }
}

/// The non-empty pieces, in order.
pub open spec fn nonempty_pieces(ps: Seq<Seq<char>>) -> Seq<Seq<char>>
    decreases ps.len(),
{
    if ps.len() == 0 {
        Seq::empty()
    } else {
        let r = nonempty_pieces(ps.drop_last());
        if ps.last().len() > 0 {
            r.push(ps.last())
        } else {
            r
        }
    }
}

/// The directories that a `PATH` value lists, in order (empty entries left
/// out).
pub open spec fn path_dirs(s: Seq<char>) -> Seq<Seq<char>> {
    nonempty_pieces(colon_pieces(s))
}

/// The directories that a `PATH` value lists, in order.
pub fn path_directories(path_var: &str) -> (r: Vec<String>)
    ensures
        strings_view(r@) == path_dirs(path_var@),
{
    let v = chars_of(path_var);
    let mut out: Vec<String> = Vec::new();
    let mut start: usize = 0;
    let mut i: usize = 0;
    assert(v@.take(0) =~= Seq::<char>::empty());
    assert(colon_pieces(Seq::<char>::empty()).drop_last() =~= Seq::<Seq<char>>::empty());
    while i < v.len()
        invariant
            start <= i <= v@.len(),
            colon_pieces(v@.take(i as int)).len() >= 1,
            colon_pieces(v@.take(i as int)).last() == v@.subrange(start as int, i as int),
            strings_view(out@) == nonempty_pieces(colon_pieces(v@.take(i as int)).drop_last()),
        decreases v@.len() - i,
    {
        let ghost p = colon_pieces(v@.take(i as int));
        let ghost t = v@.take(i + 1);
        assert(t.drop_last() =~= v@.take(i as int));
        assert(t.last() == v@[i as int]);
        if v[i] == ':' {
            assert(p.push(Seq::empty()).drop_last() =~= p);
            if start < i {
                let piece = string_of_range(&v, start, i);
                out.push(piece);
                assert(strings_view(out@) =~= nonempty_pieces(p.drop_last()).push(p.last()));
            } else {
                assert(strings_view(out@) =~= nonempty_pieces(p.drop_last()));
            }
            start = i + 1;
            assert(v@.subrange(start as int, i + 1) =~= Seq::<char>::empty());
        } else {
            let ghost q = p.update(p.len() - 1, p.last().push(v@[i as int]));
            assert(q.drop_last() =~= p.drop_last());
            assert(v@.subrange(start as int, i + 1) =~= v@.subrange(start as int, i as int).push(v@[i as int]));
        }
        i = i + 1;
    }
    assert(v@.take(v@.len() as int) =~= v@);
    let ghost p = colon_pieces(v@);
    if start < v.len() {
        let piece = string_of_range(&v, start, v.len());
        out.push(piece);
        assert(strings_view(out@) =~= nonempty_pieces(p.drop_last()).push(p.last()));
    } else {
        assert(strings_view(out@) =~= nonempty_pieces(p.drop_last()));
    }
    out
}

pub open spec fn is_digit(c: char) -> bool {
    '0' <= c <= '9'
}

pub open spec fn digit_value(c: char) -> int {
    c as int - '0' as int
}

/// One more digit on a number, which stops growing at 10^18.
pub open spec fn grown(n: int, c: char) -> int {
    if n < 1_000_000_000_000_000_000 {
        n * 10 + digit_value(c)
    } else {
        n
    }
}

/// The numbers written in `s`: each maximal run of ASCII digits, read in
/// decimal (`v22.22.3` gives 22, 22, 3).
pub open spec fn number_runs(s: Seq<char>) -> Seq<int>
    decreases s.len(),
{
    if s.len() == 0 {
        Seq::empty()
    } else {
        let r = number_runs(s.drop_last());
        if !is_digit(s.last()) {
            r
        } else if s.len() >= 2 && is_digit(s[s.len() - 2]) {
            r.update(r.len() - 1, grown(r.last(), s.last()))
        } else {
            r.push(digit_value(s.last()))
        }
    }
}

/// The sort key of a Node version directory: its numbers negated, so that
/// ascending keys put the newest version first.
pub open spec fn version_key(name: Seq<char>) -> Seq<int> {
    number_runs(name).map_values(|n: int| -n)
}

proof fn lemma_runs_after_digit(s: Seq<char>)
    requires
        s.len() >= 1,
        is_digit(s.last()),
    ensures
        number_runs(s).len() >= 1,
    decreases s.len(),
{
    if s.len() >= 2 && is_digit(s[s.len() - 2]) {
        assert(s.drop_last().last() == s[s.len() - 2]);
        lemma_runs_after_digit(s.drop_last());
    }
}

/// The sort key of a Node version directory (`version_key`).
pub fn version_sort_key(name: &str) -> (r: Vec<i128>)
    ensures
        ints(r@) == version_key(name@),
{
    let v = chars_of(name);
    let mut r: Vec<i128> = Vec::new();
    let mut i: usize = 0;
    assert(v@.take(0) =~= Seq::<char>::empty());
    while i < v.len()
        invariant
            i <= v@.len(),
            r@.len() == number_runs(v@.take(i as int)).len(),
            forall|j: int| 0 <= j < r@.len() ==> #[trigger] r@[j] == -number_runs(v@.take(i as int))[j],
            forall|j: int| 0 <= j < r@.len() ==> -10_000_000_000_000_000_000 < #[trigger] r@[j] <= 0,
            i > 0 && is_digit(v@[i - 1]) ==> r@.len() >= 1,
        decreases v@.len() - i,
    {
        let ghost t = v@.take(i + 1);
        let ghost before = number_runs(v@.take(i as int));
        assert(t.drop_last() =~= v@.take(i as int));
        assert(t.last() == v@[i as int]);
        let c = v[i];
        if '0' <= c && c <= '9' {
            let d = (c as u32 - '0' as u32) as i128;
            assert(d == digit_value(c));
            if i > 0 && '0' <= v[i - 1] && v[i - 1] <= '9' {
                assert(t[t.len() - 2] == v@[i - 1]);
                let last = r.len() - 1;
                let n = -r[last];
                assert(n == before.last());
                let g = if n < 1_000_000_000_000_000_000 {
                    n * 10 + d
                } else {
                    n
                };
                assert(g == grown(before.last(), c));
                r.set(last, -g);
                assert(number_runs(t) == before.update(before.len() - 1, grown(before.last(), c)));
            } else {
                r.push(-d);
                assert(number_runs(t) == before.push(digit_value(c)));
            }
            proof {
                lemma_runs_after_digit(t);
            }
        } else {
            assert(number_runs(t) == before);
        }
        i = i + 1;
    }
    assert(v@.take(v@.len() as int) =~= v@);
    assert(ints(r@) =~= version_key(name@));
    r
}

/// Where `codex` would be in the directory `dir`.
pub open spec fn codex_in(dir: Seq<char>) -> Seq<char> {
    joined(dir, "codex"@)
}

/// Where nvm installs `codex` for the Node version `version` under the
/// home directory `home`: `~/.nvm/versions/node/<version>/bin/codex`.
pub open spec fn nvm_codex(home: Seq<char>, version: Seq<char>) -> Seq<char> {
    codex_in(joined(joined(joined(joined(joined(home, ".nvm"@), "versions"@), "node"@), version), "bin"@))
}

/// The places to look for the `codex` program, in order: each directory of
/// `PATH`, then, under the home directory, the nvm installs of the Node
/// versions `versions` (in the order given).
pub open spec fn codex_candidates_of(
    path_var: Option<Seq<char>>,
    home: Option<Seq<char>>,
    versions: Seq<Seq<char>>,
) -> Seq<Seq<char>> {
    let from_path = match path_var {
        Some(p) => path_dirs(p).map_values(|d: Seq<char>| codex_in(d)),
        None => Seq::empty(),
    };
    let from_nvm = match home {
        Some(h) => versions.map_values(|v: Seq<char>| nvm_codex(h, v)),
        None => Seq::empty(),
    };
    from_path + from_nvm
}

/// The keys of the Node version directories.
pub open spec fn version_keys(versions: Seq<String>) -> Seq<Seq<int>> {
    versions.map_values(|v: String| version_key(v@))
}

pub open spec fn opt_view(s: Option<&str>) -> Option<Seq<char>> {
    match s {
        Some(x) => Some(x@),
        None => None,
    }
}

/// The places to look for the `codex` program, in order: each directory of
/// `PATH` (`path_var`), then the nvm installs under the home directory
/// `home`, one for each Node version directory of
/// `~/.nvm/versions/node` (`node_versions`), the newest version first (equal
/// versions in the order given). The first of them that exists is the
/// program to run.
pub fn codex_binary_candidates(path_var: Option<&str>, home: Option<&str>, node_versions: &Vec<String>) -> (r:
    Vec<String>)
    ensures
        exists|order: Seq<int>|
            #![trigger is_permutation(order, node_versions@.len())]
            is_permutation(order, node_versions@.len()) && sorted_stably(version_keys(node_versions@), order)
                && strings_view(r@) == codex_candidates_of(
                opt_view(path_var),
                opt_view(home),
                order.map_values(|i: int| node_versions@[i]@),
            ),
{
    let mut r: Vec<String> = Vec::new();
    let ghost from_path: Seq<Seq<char>> = match path_var {
        Some(p) => path_dirs(p@).map_values(|d: Seq<char>| codex_in(d)),
        None => Seq::empty(),
    };
    match path_var {
        Some(p) => {
            let dirs = path_directories(p);
            let mut i: usize = 0;
            while i < dirs.len()
                invariant
                    i <= dirs@.len(),
                    strings_view(dirs@) == path_dirs(p@),
                    from_path == path_dirs(p@).map_values(|d: Seq<char>| codex_in(d)),
                    strings_view(r@) == from_path.take(i as int),
                decreases dirs@.len() - i,
            {
                let c = join_path(dirs[i].as_str(), "codex");
                assert(strings_view(dirs@)[i as int] == dirs@[i as int]@);
                assert(from_path[i as int] == c@);
                let ghost prev = strings_view(r@);
                r.push(c);
                assert(strings_view(r@) =~= prev.push(from_path[i as int]));
                assert(strings_view(r@) =~= from_path.take(i + 1));
                i = i + 1;
            }
            assert(from_path.take(dirs@.len() as int) =~= from_path);
        },
        None => {
            assert(strings_view(r@) =~= from_path);
        },
    }
    let mut keys: Vec<Vec<i128>> = Vec::new();
    let mut j: usize = 0;
    while j < node_versions.len()
        invariant
            j <= node_versions@.len(),
            keys@.len() == j,
            keys_view(keys@) == version_keys(node_versions@).take(j as int),
        decreases node_versions@.len() - j,
    {
        let k = version_sort_key(node_versions[j].as_str());
        assert(version_keys(node_versions@)[j as int] == ints(k@));
        let ghost prev = keys_view(keys@);
        keys.push(k);
        assert(keys_view(keys@) =~= prev.push(ints(k@)));
        assert(keys_view(keys@) =~= version_keys(node_versions@).take(j + 1));
        j = j + 1;
    }
    assert(version_keys(node_versions@).take(node_versions@.len() as int) =~= version_keys(node_versions@));
    let order = sorted_order(&keys);
    let ghost chosen = indices(order@).map_values(|i: int| node_versions@[i]@);
    let ghost base = strings_view(r@);
    match home {
        Some(h) => {
            let mut k: usize = 0;
            while k < order.len()
                invariant
                    k <= order@.len(),
                    is_permutation(indices(order@), node_versions@.len()),
                    chosen == indices(order@).map_values(|i: int| node_versions@[i]@),
                    strings_view(r@) == base + chosen.map_values(|v: Seq<char>| nvm_codex(h@, v)).take(
                        k as int,
                    ),
                decreases order@.len() - k,
            {
                assert(indices(order@)[k as int] == order@[k as int] as int);
                let version = node_versions[order[k]].as_str();
                let a = join_path(h, ".nvm");
                let b = join_path(a.as_str(), "versions");
                let c = join_path(b.as_str(), "node");
                let d = join_path(c.as_str(), version);
                let e = join_path(d.as_str(), "bin");
                let f = join_path(e.as_str(), "codex");
                assert(chosen[k as int] == version@);
                assert(chosen.map_values(|v: Seq<char>| nvm_codex(h@, v))[k as int] == f@);
                let ghost prev = strings_view(r@);
                r.push(f);
                assert(strings_view(r@) =~= prev.push(f@));
                assert(strings_view(r@) =~= base + chosen.map_values(|v: Seq<char>| nvm_codex(h@, v)).take(
                    k + 1,
                ));
                k = k + 1;
            }
            assert(chosen.map_values(|v: Seq<char>| nvm_codex(h@, v)).take(order@.len() as int) =~= chosen.map_values(
                |v: Seq<char>| nvm_codex(h@, v),
            ));
        },
        None => {},
    }
    assert(keys_view(keys@) == version_keys(node_versions@));
    assert(strings_view(r@) =~= codex_candidates_of(opt_view(path_var), opt_view(home), chosen));
    assert(is_permutation(indices(order@), node_versions@.len()));
    r
}

} // verus!
