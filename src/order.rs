//! Lists in strictly ascending order, and what filtering keeps of that order.

use vstd::prelude::*;

verus! {

/// Each element of `s` comes strictly before every later one under `lt`.
pub open spec fn ascending_by<A>(s: Seq<A>, lt: spec_fn(A, A) -> bool) -> bool {
    forall|i: int, j: int| 0 <= i < j < s.len() ==> lt(s[i], s[j])
}

/// Filtering a list keeps its order.
pub proof fn lemma_filter_ascending<A>(s: Seq<A>, p: spec_fn(A) -> bool, lt: spec_fn(A, A) -> bool)
    requires
        ascending_by(s, lt),
    ensures
        ascending_by(s.filter(p), lt),
    decreases s.len(),
{
    reveal(Seq::filter);
    if s.len() > 0 {
        let rest = s.drop_last();
        assert(ascending_by(rest, lt));
        lemma_filter_ascending(rest, p, lt);
        let f0 = rest.filter(p);
        if p(s.last()) {
            let f = f0.push(s.last());
            assert(s.filter(p) == f);
            assert forall|i: int, j: int| 0 <= i < j < f.len() implies lt(f[i], f[j]) by {
                if j == f.len() - 1 {
                    assert(f0.contains(f0[i]));
                    rest.lemma_filter_contains_rev(p, f0[i]);
                    let k = choose|k: int| 0 <= k < rest.len() && rest[k] == f0[i];
                    assert(lt(s[k], s[s.len() - 1]));
                } else {
                    assert(lt(f0[i], f0[j]));
                }
            }
        }
    }
}

/// No two elements of `s` share a key.
pub open spec fn keys_distinct<A, K>(s: Seq<A>, key: spec_fn(A) -> K) -> bool {
    forall|i: int, j: int| 0 <= i < j < s.len() ==> key(s[i]) != key(s[j])
}

/// Two lists with the same elements, as multisets, have distinct keys together.
pub proof fn lemma_multiset_keys_distinct<A, K>(out: Seq<A>, expected: Seq<A>, key: spec_fn(A) -> K)
    requires
        out.to_multiset() == expected.to_multiset(),
        keys_distinct(expected, key),
    ensures
        keys_distinct(out, key),
{
    broadcast use vstd::seq_lib::group_to_multiset_ensures;

    assert(expected.no_duplicates()) by {
        assert forall|i: int, j: int| 0 <= i < expected.len() && 0 <= j < expected.len() && i != j implies expected[i] != expected[j] by {
            if i < j {
                assert(key(expected[i]) != key(expected[j]));
            } else {
                assert(key(expected[j]) != key(expected[i]));
            }
        }
    }
    expected.lemma_multiset_has_no_duplicates();
    out.lemma_multiset_has_no_duplicates_conv();
    assert forall|i: int, j: int| 0 <= i < j < out.len() implies key(out[i]) != key(out[j]) by {
        assert(out.contains(out[i]));
        assert(out.contains(out[j]));
        assert(out.to_multiset().count(out[i]) > 0);
        assert(out.to_multiset().count(out[j]) > 0);
        assert(expected.contains(out[i]));
        assert(expected.contains(out[j]));
        let p = choose|p: int| 0 <= p < expected.len() && expected[p] == out[i];
        let q = choose|q: int| 0 <= q < expected.len() && expected[q] == out[j];
        assert(out[i] != out[j]);
        if p < q {
            assert(key(expected[p]) != key(expected[q]));
        } else {
            assert(key(expected[q]) != key(expected[p]));
        }
    }
}

/// Filtering keeps a list whole where every element passes.
pub proof fn lemma_filter_all<A>(s: Seq<A>, p: spec_fn(A) -> bool)
    requires
        forall|i: int| 0 <= i < s.len() ==> p(#[trigger] s[i]),
    ensures
        s.filter(p) == s,
    decreases s.len(),
{
    reveal(Seq::filter);
    if s.len() > 0 {
        lemma_filter_all(s.drop_last(), p);
        assert(p(s[s.len() - 1]));
        assert(s.drop_last().push(s.last()) =~= s);
    }
}

} // verus!
