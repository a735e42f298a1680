use vstd::multiset::Multiset;
use vstd::prelude::*;
use crate::script::chars_of;
use crate::test_spec::{TestSpec, TestType};

verus! {

broadcast use {vstd::std_specs::vec::group_vec_axioms, vstd::seq_lib::group_to_multiset_ensures};

/// Lexicographic order of strings, character by character (the order of their UTF-8 bytes).
pub open spec fn lex_le(x: Seq<char>, y: Seq<char>) -> bool
    decreases x.len(),
{
    if x.len() == 0 {
        true
    } else if y.len() == 0 {
        false
    } else if (x[0] as u32) != (y[0] as u32) {
        (x[0] as u32) < (y[0] as u32)
    } else {
        lex_le(x.drop_first(), y.drop_first())
    }
}

/// The order of tests by their `ordering`: a test without one comes first.
pub open spec fn key_le(a: Option<Seq<char>>, b: Option<Seq<char>>) -> bool {
    match (a, b) {
        (None, _) => true,
        (Some(_), None) => false,
        (Some(x), Some(y)) => lex_le(x, y),
    }
}

pub open spec fn ordering_key(t: TestSpec) -> Option<Seq<char>> {
    match t.ordering {
        Some(o) => Some(o@),
        None => None,
    }
}

/// `ts` is in the order of its tests' `ordering`.
pub open spec fn sorted_by_ordering(ts: Seq<TestSpec>) -> bool {
    forall|i: int, j: int| 0 <= i < j < ts.len() ==> key_le(ordering_key(ts[i]), ordering_key(ts[j]))
}

pub proof fn lemma_lex_total(x: Seq<char>, y: Seq<char>)
    ensures
        lex_le(x, y) || lex_le(y, x),
    decreases x.len(),
{
    if x.len() > 0 && y.len() > 0 && (x[0] as u32) == (y[0] as u32) {
        lemma_lex_total(x.drop_first(), y.drop_first());
    }
}

pub proof fn lemma_lex_trans(x: Seq<char>, y: Seq<char>, z: Seq<char>)
    requires
        lex_le(x, y),
        lex_le(y, z),
    ensures
        lex_le(x, z),
    decreases x.len(),
{
    if x.len() > 0 && y.len() > 0 && z.len() > 0 && (x[0] as u32) == (y[0] as u32) && (y[0] as u32)
        == (z[0] as u32) {
        lemma_lex_trans(x.drop_first(), y.drop_first(), z.drop_first());
    }
}

proof fn lemma_key_total(a: Option<Seq<char>>, b: Option<Seq<char>>)
    ensures
        key_le(a, b) || key_le(b, a),
{
    if let (Some(x), Some(y)) = (a, b) {
        lemma_lex_total(x, y);
    }
}

proof fn lemma_key_trans(a: Option<Seq<char>>, b: Option<Seq<char>>, c: Option<Seq<char>>)
    requires
        key_le(a, b),
        key_le(b, c),
    ensures
        key_le(a, c),
{
    if let (Some(x), Some(y), Some(z)) = (a, b, c) {
        lemma_lex_trans(x, y, z);
    }
}

fn lex_le_exec(x: &String, y: &String) -> (r: bool)
    ensures
        r == lex_le(x@, y@),
{
    let a = chars_of(x.as_str());
    let b = chars_of(y.as_str());
    let mut i: usize = 0;
    proof {
        assert(x@.subrange(0, x@.len() as int) =~= x@);
        assert(y@.subrange(0, y@.len() as int) =~= y@);
    }
    while i < a.len() && i < b.len() && (a[i] as u32) == (b[i] as u32)
        invariant
            i <= a@.len(),
            i <= b@.len(),
            a@ == x@,
            b@ == y@,
            lex_le(x@, y@) == lex_le(x@.subrange(i as int, x@.len() as int), y@.subrange(
                i as int,
                y@.len() as int,
            )),
        decreases a@.len() - i,
    {
        proof {
            let xs = x@.subrange(i as int, x@.len() as int);
            let ys = y@.subrange(i as int, y@.len() as int);
            assert(xs.drop_first() =~= x@.subrange(i + 1, x@.len() as int));
            assert(ys.drop_first() =~= y@.subrange(i + 1, y@.len() as int));
        }
        i = i + 1;
    }
    if i == a.len() {
        true
    } else if i == b.len() {
        false
    } else {
        (a[i] as u32) < (b[i] as u32)
    }
}

fn key_le_exec(a: &Option<String>, b: &Option<String>) -> (r: bool)
    ensures
        r == key_le(
            match a {
                Some(o) => Some(o@),
                None => None,
            },
            match b {
                Some(o) => Some(o@),
                None => None,
            },
        ),
{
    match (a, b) {
        (None, _) => true,
        (Some(_), None) => false,
        (Some(x), Some(y)) => lex_le_exec(x, y),
    }
}

/// `r` is `ts` rearranged by `perm` (`r[k]` is `ts[perm[k]]`), and tests whose orderings
/// are equal keep their relative order.
pub open spec fn stable_arrangement(ts: Seq<TestSpec>, r: Seq<TestSpec>, perm: Seq<int>) -> bool {
    &&& perm.len() == r.len() == ts.len()
    &&& forall|k: int| 0 <= k < perm.len() ==> 0 <= #[trigger] perm[k] < ts.len() && r[k] == ts[perm[k]]
    &&& forall|a: int, b: int| 0 <= a < b < perm.len() ==> perm[a] != perm[b]
    &&& forall|a: int, b: int|
        0 <= a < b < r.len() && #[trigger] key_le(ordering_key(r[b]), ordering_key(r[a])) ==> perm[a]
            < perm[b]
}

/// The tests in the order of their `ordering` (a test without one first); tests with equal
/// orderings keep their relative order.
pub fn sort_by_ordering(tests: Vec<TestSpec>) -> (r: Vec<TestSpec>)
    ensures
        sorted_by_ordering(r@),
        r@.to_multiset() == tests@.to_multiset(),
        exists|perm: Seq<int>| stable_arrangement(tests@, r@, perm),
{
    let mut v = tests;
    let n = v.len();
    let ghost orig = v@;
    let ghost mut perm: Seq<int> = Seq::new(n as nat, |k: int| k);
    if n == 0 {
        proof {
            assert(stable_arrangement(orig, v@, perm));
        }
        return v;
    }
    let mut i: usize = 1;
    while i < n
        invariant
            1 <= i <= n,
            v@.len() == n,
            orig.len() == n,
            v@.to_multiset() == orig.to_multiset(),
            orig == tests@,
            sorted_by_ordering(v@.subrange(0, i as int)),
            perm.len() == n,
            forall|k: int| 0 <= k < n ==> 0 <= #[trigger] perm[k] < n && v@[k] == orig[perm[k]],
            forall|a: int, b: int| 0 <= a < b < n ==> perm[a] != perm[b],
            forall|k: int| 0 <= k < i ==> #[trigger] perm[k] < i,
            forall|k: int| i <= k < n ==> #[trigger] perm[k] == k,
            forall|a: int, b: int|
                0 <= a < b < i && #[trigger] key_le(ordering_key(v@[b]), ordering_key(v@[a])) ==> perm[a]
                    < perm[b],
        decreases n - i,
    {
        let t = v.remove(i);
        let ghost w = v@;
        let ghost pw = perm.remove(i as int);
        let mut j: usize = i;
        while j > 0 && !key_le_exec(&v[j - 1].ordering, &t.ordering)
            invariant
                0 <= j <= i,
                i < n,
                v@ == w,
                w.len() == n - 1,
                sorted_by_ordering(w.subrange(0, i as int)),
                forall|k: int| j <= k < i ==> !key_le(ordering_key(#[trigger] w[k]), ordering_key(t)),
            decreases j,
        {
            j = j - 1;
        }
        proof {
            let tk = ordering_key(t);
            assert forall|k: int| j <= k < i implies key_le(tk, ordering_key(#[trigger] w[k])) by {
                lemma_key_total(tk, ordering_key(w[k]));
            }
        }
        let ghost before = v@;
        v.insert(j, t);
        proof {
            let tk = ordering_key(t);
            let nv = v@;
            let old_perm = perm;
            perm = pw.insert(j as int, i as int);
            assert(nv =~= before.insert(j as int, t));
            let s = nv.subrange(0, i + 1);
            assert forall|a: int, b: int| 0 <= a < b < s.len() implies key_le(
                ordering_key(#[trigger] s[a]),
                ordering_key(#[trigger] s[b]),
            ) by {
                assert(sorted_by_ordering(w.subrange(0, i as int)));
                if b < j {
                    assert(s[a] == w[a] && s[b] == w[b]);
                    assert(w.subrange(0, i as int)[a] == w[a]);
                    assert(w.subrange(0, i as int)[b] == w[b]);
                } else if b == j {
                    assert(s[b] == t);
                    assert(s[a] == w[a]);
                    assert(j > 0);
                    assert(key_le(ordering_key(w[j - 1]), tk));
                    if a < j - 1 {
                        assert(w.subrange(0, i as int)[a] == w[a]);
                        assert(w.subrange(0, i as int)[j - 1] == w[j - 1]);
                        lemma_key_trans(ordering_key(w[a]), ordering_key(w[j - 1]), tk);
                    }
                } else if a == j {
                    assert(s[a] == t);
                    assert(s[b] == w[b - 1]);
                } else if a < j {
                    assert(s[a] == w[a]);
                    assert(s[b] == w[b - 1]);
                    assert(w.subrange(0, i as int)[a] == w[a]);
                    assert(w.subrange(0, i as int)[b - 1] == w[b - 1]);
                } else {
                    assert(s[a] == w[a - 1]);
                    assert(s[b] == w[b - 1]);
                    assert(w.subrange(0, i as int)[a - 1] == w[a - 1]);
                    assert(w.subrange(0, i as int)[b - 1] == w[b - 1]);
                }
            }
            assert(t == orig[i as int]) by {
                assert(old_perm[i as int] == i);
            }
            assert forall|k: int| 0 <= k < n implies 0 <= #[trigger] perm[k] < n && nv[k] == orig[perm[k]] by {
                if k < j {
                    assert(perm[k] == old_perm[k]);
                    assert(nv[k] == before[k]);
                } else if k == j {
                } else if k <= i {
                    assert(perm[k] == old_perm[k - 1]);
                    assert(nv[k] == before[k - 1]);
                } else {
                    assert(perm[k] == old_perm[k]);
                    assert(nv[k] == before[k - 1]);
                }
            }
            assert forall|a: int, b: int| 0 <= a < b < n implies perm[a] != perm[b] by {
                let oa = if a < j { a } else if a == j { i as int } else if a <= i { a - 1 } else { a };
                let ob = if b < j { b } else if b == j { i as int } else if b <= i { b - 1 } else { b };
                assert(perm[a] == old_perm[oa]);
                assert(perm[b] == old_perm[ob]);
            }
            assert forall|k: int| 0 <= k < i + 1 implies #[trigger] perm[k] < i + 1 by {
                if k < j {
                    assert(perm[k] == old_perm[k]);
                } else if k > j {
                    assert(perm[k] == old_perm[k - 1]);
                }
            }
            assert forall|k: int| i + 1 <= k < n implies #[trigger] perm[k] == k by {
                assert(perm[k] == old_perm[k]);
            }
            assert forall|a: int, b: int|
                0 <= a < b < i + 1 && #[trigger] key_le(ordering_key(nv[b]), ordering_key(nv[a])) implies perm[a]
                < perm[b] by {
                if a == j {
                    assert(nv[a] == t);
                    assert(nv[b] == w[b - 1]);
                    assert(!key_le(ordering_key(w[b - 1]), tk));
                } else if b == j {
                    assert(perm[b] == i);
                    assert(perm[a] == old_perm[a]);
                    assert(old_perm[a] < i);
                } else {
                    let oa = if a < j { a } else { a - 1 };
                    let ob = if b < j { b } else { b - 1 };
                    assert(perm[a] == old_perm[oa]);
                    assert(perm[b] == old_perm[ob]);
                    assert(nv[a] == before[oa]);
                    assert(nv[b] == before[ob]);
                    assert(before[oa] == w[oa]);
                    assert(key_le(ordering_key(w[ob]), ordering_key(w[oa])));
                }
            }
        }
        i = i + 1;
    }
    proof {
        assert(v@.subrange(0, n as int) =~= v@);
        assert(stable_arrangement(orig, v@, perm));
    }
    v
}

/// The names in lexicographic order.
pub fn sort_names(names: Vec<String>) -> (r: Vec<String>)
    ensures
        forall|a: int, b: int| 0 <= a < b < r@.len() ==> lex_le(#[trigger] r@[a]@, #[trigger] r@[b]@),
        r@.to_multiset() == names@.to_multiset(),
{
    let mut v = names;
    let n = v.len();
    if n == 0 {
        return v;
    }
    let mut i: usize = 1;
    while i < n
        invariant
            1 <= i <= n,
            v@.len() == n,
            v@.to_multiset() == names@.to_multiset(),
            forall|a: int, b: int| 0 <= a < b < i ==> lex_le(#[trigger] v@[a]@, #[trigger] v@[b]@),
        decreases n - i,
    {
        let t = v.remove(i);
        let ghost w = v@;
        let mut j: usize = i;
        while j > 0 && !lex_le_exec(&v[j - 1], &t)
            invariant
                0 <= j <= i,
                i < n,
                v@ == w,
                w.len() == n - 1,
                forall|a: int, b: int| 0 <= a < b < i ==> lex_le(#[trigger] w[a]@, #[trigger] w[b]@),
                forall|k: int| j <= k < i ==> !lex_le((#[trigger] w[k])@, t@),
            decreases j,
        {
            j = j - 1;
        }
        let ghost before = v@;
        v.insert(j, t);
        proof {
            let nv = v@;
            assert(nv =~= before.insert(j as int, t));
            assert forall|k: int| j <= k < i implies lex_le(t@, (#[trigger] w[k])@) by {
                lemma_lex_total(t@, w[k]@);
            }
            assert forall|a: int, b: int| 0 <= a < b < i + 1 implies lex_le(#[trigger] nv[a]@, #[trigger] nv[b]@) by {
                if b < j {
                    assert(nv[a] == w[a] && nv[b] == w[b]);
                } else if b == j {
                    assert(nv[a] == w[a]);
                    assert(lex_le(w[j - 1]@, t@));
                    if a < j - 1 {
                        lemma_lex_trans(w[a]@, w[j - 1]@, t@);
                    }
                } else if a == j {
                    assert(nv[b] == w[b - 1]);
                } else if a < j {
                    assert(nv[a] == w[a]);
                    assert(nv[b] == w[b - 1]);
                } else {
                    assert(nv[a] == w[a - 1]);
                    assert(nv[b] == w[b - 1]);
                }
            }
        }
        i = i + 1;
    }
    v
}

/// `r` holds the tests of `ts` at positions `idx`, each position once, and tests whose
/// orderings are equal keep the relative order they had in `ts`.
pub open spec fn stable_selection(ts: Seq<TestSpec>, r: Seq<TestSpec>, idx: Seq<int>) -> bool {
    &&& idx.len() == r.len()
    &&& forall|k: int| 0 <= k < idx.len() ==> 0 <= #[trigger] idx[k] < ts.len() && r[k] == ts[idx[k]]
    &&& forall|a: int, b: int| 0 <= a < b < idx.len() ==> idx[a] != idx[b]
    &&& forall|a: int, b: int|
        0 <= a < b < r.len() && #[trigger] key_le(ordering_key(r[b]), ordering_key(r[a])) ==> idx[a]
            < idx[b]
}

/// A part of `ts` taken in order (positions `pidx`, increasing), then sorted stably, is a
/// stable selection of `ts`.
proof fn lemma_stable_part(
    ts: Seq<TestSpec>,
    part: Seq<TestSpec>,
    pidx: Seq<int>,
    sorted: Seq<TestSpec>,
    perm: Seq<int>,
)
    requires
        pidx.len() == part.len(),
        forall|k: int| 0 <= k < pidx.len() ==> 0 <= #[trigger] pidx[k] < ts.len() && part[k] == ts[pidx[k]],
        forall|a: int, b: int| 0 <= a < b < pidx.len() ==> pidx[a] < pidx[b],
        stable_arrangement(part, sorted, perm),
    ensures
        stable_selection(ts, sorted, Seq::new(sorted.len(), |k: int| pidx[perm[k]])),
{
    let idx = Seq::new(sorted.len(), |k: int| pidx[perm[k]]);
    assert forall|k: int| 0 <= k < idx.len() implies 0 <= #[trigger] idx[k] < ts.len() && sorted[k]
        == ts[idx[k]] by {
        assert(0 <= perm[k] < part.len());
        assert(0 <= pidx[perm[k]] < ts.len());
    }
    assert forall|a: int, b: int| 0 <= a < b < idx.len() implies idx[a] != idx[b] by {
        assert(perm[a] != perm[b]);
        assert(0 <= perm[a] < part.len() && 0 <= perm[b] < part.len());
        if perm[a] < perm[b] {
            assert(pidx[perm[a]] < pidx[perm[b]]);
        } else {
            assert(pidx[perm[b]] < pidx[perm[a]]);
        }
    }
    assert forall|a: int, b: int|
        0 <= a < b < sorted.len() && #[trigger] key_le(ordering_key(sorted[b]), ordering_key(sorted[a]))
        implies idx[a] < idx[b] by {
        assert(perm[a] < perm[b]);
        assert(0 <= perm[a] < part.len() && 0 <= perm[b] < part.len());
        assert(pidx[perm[a]] < pidx[perm[b]]);
    }
}

/// The tests split by type, cluster tests first in the pair, each part in the order of its
/// tests' `ordering`.
pub fn arrange_tests(tests: Vec<TestSpec>) -> (r: (Vec<TestSpec>, Vec<TestSpec>))
    ensures
        forall|i: int| 0 <= i < r.0@.len() ==> (#[trigger] r.0@[i]).test_type == TestType::Cluster,
        forall|i: int| 0 <= i < r.1@.len() ==> (#[trigger] r.1@[i]).test_type == TestType::User,
        sorted_by_ordering(r.0@),
        sorted_by_ordering(r.1@),
        r.0@.to_multiset().add(r.1@.to_multiset()) == tests@.to_multiset(),
        exists|idx: Seq<int>| stable_selection(tests@, r.0@, idx),
        exists|idx: Seq<int>| stable_selection(tests@, r.1@, idx),
{
    let mut rest = tests;
    let ghost orig = rest@;
    let mut cluster: Vec<TestSpec> = Vec::new();
    let mut user: Vec<TestSpec> = Vec::new();
    let ghost mut pc: Seq<int> = Seq::empty();
    let ghost mut pu: Seq<int> = Seq::empty();
    proof {
        assert(rest@ =~= orig.subrange(0, orig.len() as int));
    }
    while rest.len() > 0
        invariant
            rest@ == orig.subrange(orig.len() - rest@.len(), orig.len() as int),
            rest@.len() <= orig.len(),
            pc.len() == cluster@.len(),
            pu.len() == user@.len(),
            forall|k: int| 0 <= k < pc.len() ==> 0 <= #[trigger] pc[k] < orig.len() - rest@.len() && cluster@[k]
                == orig[pc[k]],
            forall|k: int| 0 <= k < pu.len() ==> 0 <= #[trigger] pu[k] < orig.len() - rest@.len() && user@[k]
                == orig[pu[k]],
            forall|a: int, b: int| 0 <= a < b < pc.len() ==> pc[a] < pc[b],
            forall|a: int, b: int| 0 <= a < b < pu.len() ==> pu[a] < pu[b],
            forall|i: int| 0 <= i < cluster@.len() ==> (#[trigger] cluster@[i]).test_type
                == TestType::Cluster,
            forall|i: int| 0 <= i < user@.len() ==> (#[trigger] user@[i]).test_type == TestType::User,
            cluster@.to_multiset().add(user@.to_multiset()).add(rest@.to_multiset())
                == orig.to_multiset(),
        decreases rest@.len(),
    {
        let ghost before = rest@;
        let ghost pos = orig.len() - rest@.len();
        let t = rest.remove(0);
        proof {
            assert(before.to_multiset() == rest@.to_multiset().insert(t)) by {
                vstd::seq_lib::to_multiset_remove(before, 0);
            }
            assert(t == orig[pos]);
            assert(rest@ =~= orig.subrange(orig.len() - rest@.len(), orig.len() as int));
        }
        match t.test_type {
            TestType::Cluster => {
                cluster.push(t);
                proof {
                    pc = pc.push(pos);
                }
            },
            TestType::User => {
                user.push(t);
                proof {
                    pu = pu.push(pos);
                }
            },
        }
        proof {
            assert(cluster@.to_multiset().add(user@.to_multiset()).add(rest@.to_multiset())
                =~= orig.to_multiset());
        }
    }
    proof {
        assert(rest@.to_multiset() =~= Multiset::empty());
    }
    let ghost cl = cluster@;
    let ghost us = user@;
    let sc = sort_by_ordering(cluster);
    let su = sort_by_ordering(user);
    proof {
        let perm_c = choose|perm: Seq<int>| stable_arrangement(cl, sc@, perm);
        lemma_stable_part(orig, cl, pc, sc@, perm_c);
        let perm_u = choose|perm: Seq<int>| stable_arrangement(us, su@, perm);
        lemma_stable_part(orig, us, pu, su@, perm_u);
        assert forall|i: int| 0 <= i < sc@.len() implies (#[trigger] sc@[i]).test_type
            == TestType::Cluster by {
            vstd::seq_lib::to_multiset_contains(sc@, sc@[i]);
            vstd::seq_lib::to_multiset_contains(cluster@, sc@[i]);
            assert(sc@.contains(sc@[i]));
        }
        assert forall|i: int| 0 <= i < su@.len() implies (#[trigger] su@[i]).test_type
            == TestType::User by {
            vstd::seq_lib::to_multiset_contains(su@, su@[i]);
            vstd::seq_lib::to_multiset_contains(user@, su@[i]);
            assert(su@.contains(su@[i]));
        }
    }
    (sc, su)
}

} // verus!
