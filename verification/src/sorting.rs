use vstd::prelude::*;

verus! {

broadcast use vstd::std_specs::vec::group_vec_axioms;

/// Lexicographic order on integer sequences (a proper prefix comes first).
pub open spec fn lex_lt(a: Seq<int>, b: Seq<int>) -> bool
    decreases a.len(),
{
    if b.len() == 0 {
        false
    } else if a.len() == 0 {
        true
    } else if a[0] < b[0] {
        true
    } else if a[0] > b[0] {
        false
    } else {
        lex_lt(a.drop_first(), b.drop_first())
    }
}

pub proof fn lemma_lex_irreflexive(a: Seq<int>)
    ensures
        !lex_lt(a, a),
    decreases a.len(),
{
    if a.len() > 0 {
        lemma_lex_irreflexive(a.drop_first());
    }
}

pub proof fn lemma_lex_transitive(a: Seq<int>, b: Seq<int>, c: Seq<int>)
    requires
        lex_lt(a, b),
        lex_lt(b, c),
    ensures
        lex_lt(a, c),
    decreases a.len(),
{
    if a.len() > 0 && b.len() > 0 && c.len() > 0 && a[0] == b[0] && b[0] == c[0] {
        lemma_lex_transitive(a.drop_first(), b.drop_first(), c.drop_first());
    }
}

pub proof fn lemma_lex_total(a: Seq<int>, b: Seq<int>)
    ensures
        lex_lt(a, b) || lex_lt(b, a) || a == b,
    decreases a.len(),
{
    if a.len() > 0 && b.len() > 0 && a[0] == b[0] {
        lemma_lex_total(a.drop_first(), b.drop_first());
        if a.drop_first() == b.drop_first() {
            assert(a =~= seq![a[0]] + a.drop_first());
            assert(b =~= seq![b[0]] + b.drop_first());
        }
    }
    if a.len() == 0 && b.len() == 0 {
        assert(a =~= b);
    }
}

pub proof fn lemma_lex_asymmetric(a: Seq<int>, b: Seq<int>)
    requires
        lex_lt(a, b),
    ensures
        !lex_lt(b, a),
{
    if lex_lt(b, a) {
        lemma_lex_transitive(a, b, a);
        lemma_lex_irreflexive(a);
    }
}

/// `a < b` and `b <= c` give `a < c`.
pub proof fn lemma_lex_lt_le(a: Seq<int>, b: Seq<int>, c: Seq<int>)
    requires
        lex_lt(a, b),
        !lex_lt(c, b),
    ensures
        lex_lt(a, c),
{
    lemma_lex_total(b, c);
    if lex_lt(b, c) {
        lemma_lex_transitive(a, b, c);
    }
}

pub open spec fn ints(v: Seq<i128>) -> Seq<int> {
    v.map_values(|x: i128| x as int)
}

pub open spec fn keys_view(keys: Seq<Vec<i128>>) -> Seq<Seq<int>> {
    keys.map_values(|k: Vec<i128>| ints(k@))
}

/// `order` lists each index below `n` once.
pub open spec fn is_permutation(order: Seq<int>, n: nat) -> bool {
    &&& order.len() == n
    &&& forall|i: int| 0 <= i < order.len() ==> 0 <= #[trigger] order[i] < n
    &&& forall|i: int, j: int| 0 <= i < j < order.len() ==> order[i] != order[j]
}

/// The keys taken in `order` never decrease, and equal keys keep their
/// original order (a stable sort).
pub open spec fn sorted_stably(keys: Seq<Seq<int>>, order: Seq<int>) -> bool {
    &&& forall|i: int, j: int|
        0 <= i < j < order.len() ==> !lex_lt(keys[order[j]], keys[order[i]])
    &&& forall|i: int, j: int|
        0 <= i < j < order.len() && keys[order[i]] == keys[order[j]] ==> order[i] < order[j]
}

pub open spec fn indices(order: Seq<usize>) -> Seq<int> {
    order.map_values(|i: usize| i as int)
}

/// `a < b` on keys.
pub fn key_lt(a: &Vec<i128>, b: &Vec<i128>) -> (r: bool)
    ensures
        r == lex_lt(ints(a@), ints(b@)),
{
    let mut i: usize = 0;
    assert(ints(a@).skip(0) =~= ints(a@));
    assert(ints(b@).skip(0) =~= ints(b@));
    while i < a.len() && i < b.len()
        invariant
            i <= a@.len(),
            i <= b@.len(),
            forall|j: int| 0 <= j < i ==> a@[j] == b@[j],
            lex_lt(ints(a@), ints(b@)) == lex_lt(ints(a@).skip(i as int), ints(b@).skip(i as int)),
        decreases a@.len() - i,
    {
        let ghost sa = ints(a@).skip(i as int);
        let ghost sb = ints(b@).skip(i as int);
        assert(sa[0] == a@[i as int] as int);
        assert(sb[0] == b@[i as int] as int);
        if a[i] < b[i] {
            return true;
        }
        if a[i] > b[i] {
            return false;
        }
        assert(sa.drop_first() =~= ints(a@).skip(i + 1));
        assert(sb.drop_first() =~= ints(b@).skip(i + 1));
        i = i + 1;
    }
    assert(ints(a@).skip(i as int).len() == a@.len() - i);
    assert(ints(b@).skip(i as int).len() == b@.len() - i);
    i == a.len() && i < b.len()
}

/// The order in which the keys are sorted, stably.
pub fn sorted_order(keys: &Vec<Vec<i128>>) -> (order: Vec<usize>)
    ensures
        is_permutation(indices(order@), keys@.len()),
        sorted_stably(keys_view(keys@), indices(order@)),
{
    let ghost kv = keys_view(keys@);
    let mut order: Vec<usize> = Vec::new();
    let mut m: usize = 0;
    while m < keys.len()
        invariant
            m <= keys@.len(),
            kv == keys_view(keys@),
            is_permutation(indices(order@), m as nat),
            sorted_stably(kv, indices(order@)),
        decreases keys@.len() - m,
    {
        let ghost o = indices(order@);
        assert forall|i: int| 0 <= i < order@.len() implies order@[i] < m by {
            assert(o[i] == order@[i] as int);
        }
        let mut p: usize = 0;
        while p < order.len() && !key_lt(&keys[m], &keys[order[p]])
            invariant
                p <= order@.len(),
                m < keys@.len(),
                kv == keys_view(keys@),
                o == indices(order@),
                is_permutation(o, m as nat),
                forall|i: int| 0 <= i < order@.len() ==> order@[i] < m,
                forall|i: int| 0 <= i < p ==> !lex_lt(kv[m as int], kv[o[i]]),
            decreases order@.len() - p,
        {
            assert(kv[o[p as int]] == ints(keys@[order@[p as int] as int]@));
            p = p + 1;
        }
        proof {
            if p < order@.len() {
                assert(kv[o[p as int]] == ints(keys@[order@[p as int] as int]@));
                assert(lex_lt(kv[m as int], kv[o[p as int]]));
            }
        }
        order.insert(p, m);
        let ghost n = indices(order@);
        assert(n =~= o.insert(p as int, m as int));
        proof {
            assert forall|i: int| 0 <= i < n.len() implies 0 <= #[trigger] n[i] < m + 1 by {
                if i < p {
                    assert(n[i] == o[i]);
                } else if i > p {
                    assert(n[i] == o[i - 1]);
                }
            }
            assert forall|i: int, j: int| 0 <= i < j < n.len() implies n[i] != n[j] by {
                if i < p && j < p {
                    assert(n[i] == o[i] && n[j] == o[j]);
                } else if i < p && j == p {
                    assert(n[i] == o[i]);
                } else if i < p && j > p {
                    assert(n[i] == o[i] && n[j] == o[j - 1]);
                } else if i == p {
                    assert(n[j] == o[j - 1]);
                } else {
                    assert(n[i] == o[i - 1] && n[j] == o[j - 1]);
                }
            }
            assert forall|i: int, j: int| 0 <= i < j < n.len() implies !lex_lt(kv[n[j]], kv[n[i]]) && (kv[n[i]]
                == kv[n[j]] ==> n[i] < n[j]) by {
                if i < p && j < p {
                    assert(n[i] == o[i] && n[j] == o[j]);
                } else if i < p && j == p {
                    assert(n[i] == o[i]);
                } else if i < p && j > p {
                    assert(n[i] == o[i] && n[j] == o[j - 1]);
                } else if i == p {
                    assert(n[j] == o[j - 1]);
                    assert(lex_lt(kv[m as int], kv[o[p as int]]));
                    if j - 1 > p {
                        lemma_lex_lt_le(kv[m as int], kv[o[p as int]], kv[o[j - 1]]);
                    }
                    lemma_lex_asymmetric(kv[m as int], kv[o[j - 1]]);
                    lemma_lex_irreflexive(kv[m as int]);
                } else {
                    assert(n[i] == o[i - 1] && n[j] == o[j - 1]);
                }
            }
        }
        m = m + 1;
    }
    order
}

} // verus!
