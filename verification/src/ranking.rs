use crate::{AccountId, Balance};
use vstd::prelude::*;
use vstd::seq_lib::lemma_multiset_commutative;

verus! {

/// `a` outranks `b`: strictly more weight, or equal weight and the smaller
/// target identifier. A strict total order on tallies with distinct targets.
pub open spec fn ranks_before(a: (AccountId, Balance), b: (AccountId, Balance)) -> bool {
    a.1 > b.1 || (a.1 == b.1 && a.0 < b.0)
}

/// `a` ranks at least as high as `b`.
pub open spec fn ranks_at_or_before(a: (AccountId, Balance), b: (AccountId, Balance)) -> bool {
    a.1 > b.1 || (a.1 == b.1 && a.0 <= b.0)
}

/// The sequence is ordered by weight descending, ties broken by target
/// identifier ascending.
pub open spec fn sorted_ranking(s: Seq<(AccountId, Balance)>) -> bool {
    forall|i: int, j: int| 0 <= i < j < s.len() ==> ranks_at_or_before(s[i], s[j])
}

/// A rearrangement of tallies with no target counted twice still counts no
/// target twice.
pub proof fn lemma_permutation_keys_distinct(
    orig: Seq<(AccountId, Balance)>,
    other: Seq<(AccountId, Balance)>,
)
    requires
        crate::store::keys_distinct(orig),
        other.to_multiset() == orig.to_multiset(),
    ensures
        crate::store::keys_distinct(other),
{
    broadcast use vstd::seq_lib::group_to_multiset_ensures;

    assert(orig.no_duplicates());
    orig.lemma_multiset_has_no_duplicates();
    other.lemma_multiset_has_no_duplicates_conv();
    assert forall|i: int, j: int| 0 <= i < j < other.len() implies other[i].0 != other[j].0 by {
        if other[i].0 == other[j].0 {
            assert(other[i] != other[j]);
            assert(other.contains(other[i]));
            assert(other.contains(other[j]));
            assert(other.to_multiset().count(other[i]) > 0);
            assert(other.to_multiset().count(other[j]) > 0);
            assert(orig.to_multiset().count(other[i]) > 0);
            assert(orig.to_multiset().count(other[j]) > 0);
            assert(orig.contains(other[i]));
            assert(orig.contains(other[j]));
            let p = choose|p: int| 0 <= p < orig.len() && orig[p] == other[i];
            let q = choose|q: int| 0 <= q < orig.len() && orig[q] == other[j];
            assert(orig[p].0 == orig[q].0 && p != q);
        }
    }
}

fn outranks_or_equals(a: (AccountId, Balance), b: (AccountId, Balance)) -> (r: bool)
    ensures
        r == ranks_at_or_before(a, b),
{
    a.1 > b.1 || (a.1 == b.1 && a.0 <= b.0)
}

/// Orders tallies by weight descending with ties broken by target identifier
/// ascending; the result holds exactly the tallies given.
#[verifier::loop_isolation(false)]
pub fn sort_by_rank(v: &Vec<(AccountId, Balance)>) -> (r: Vec<(AccountId, Balance)>)
    ensures
        sorted_ranking(r@),
        r@.to_multiset() == v@.to_multiset(),
        r@.len() == v@.len(),
{
    let mut out: Vec<(AccountId, Balance)> = Vec::new();
    let n = v.len();
    let mut i: usize = 0;
    proof {
        broadcast use vstd::seq_lib::group_to_multiset_ensures;

        assert(v@.take(0) =~= Seq::<(AccountId, Balance)>::empty());
        assert(out@.to_multiset() =~= v@.take(0).to_multiset());
    }
    while i < n
        invariant
            0 <= i <= n,
            sorted_ranking(out@),
            out@.to_multiset() == v@.take(i as int).to_multiset(),
            out@.len() == i,
        decreases n - i,
    {
        let x = v[i];
        let mut j: usize = 0;
        while j < out.len() && !outranks_or_equals(x, out[j])
            invariant
                0 <= j <= out@.len(),
                forall|p: int| 0 <= p < j ==> !ranks_at_or_before(x, out@[p]),
            decreases out@.len() - j,
        {
            j += 1;
        }
        let ghost s_prev = out@;
        out.insert(j, x);
        proof {
            broadcast use vstd::seq_lib::group_to_multiset_ensures;

            let jj = j as int;
            let front = s_prev.subrange(0, jj);
            let back = s_prev.subrange(jj, s_prev.len() as int);
            assert(out@ == front.push(x) + back);
            assert(s_prev =~= front + back);
            lemma_multiset_commutative(front.push(x), back);
            lemma_multiset_commutative(front, back);
            assert(out@.to_multiset() =~= s_prev.to_multiset().insert(x));
            assert(v@.take(i + 1) =~= v@.take(i as int).push(v@[i as int]));
            assert(out@.to_multiset() =~= v@.take(i + 1).to_multiset());
            assert forall|p: int| 0 <= p < jj implies ranks_at_or_before(s_prev[p], x) by {
                assert(!ranks_at_or_before(x, s_prev[p]));
            }
            assert forall|p: int, q: int| 0 <= p < q < out@.len() implies ranks_at_or_before(
                out@[p],
                out@[q],
            ) by {
                assert(out@[p] == if p < jj {
                    s_prev[p]
                } else if p == jj {
                    x
                } else {
                    s_prev[p - 1]
                });
                assert(out@[q] == if q < jj {
                    s_prev[q]
                } else if q == jj {
                    x
                } else {
                    s_prev[q - 1]
                });
                if q < jj {
                    assert(ranks_at_or_before(s_prev[p], s_prev[q]));
                } else if q == jj {
                    assert(ranks_at_or_before(s_prev[p], x));
                } else {
                    assert(jj < s_prev.len());
                    assert(ranks_at_or_before(x, s_prev[jj]));
                    if p == jj {
                        if jj < q - 1 {
                            assert(ranks_at_or_before(s_prev[jj], s_prev[q - 1]));
                        }
                    } else if p < jj {
                        assert(ranks_at_or_before(s_prev[p], s_prev[q - 1]));
                    } else {
                        assert(ranks_at_or_before(s_prev[p - 1], s_prev[q - 1]));
                    }
                }
            }
        }
        i += 1;
    }
    proof {
        assert(v@.take(n as int) =~= v@);
    }
    out
}

} // verus!
