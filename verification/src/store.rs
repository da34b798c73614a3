use vstd::prelude::*;

verus! {

/// No two entries of the sequence carry the same key.
pub open spec fn keys_distinct<V>(s: Seq<(u64, V)>) -> bool {
    forall|i: int, j: int| 0 <= i < j < s.len() ==> s[i].0 != s[j].0
}

/// A small keyed table with at most one entry per key, the shape shared by the
/// unbonding-request, vote-tally, voter-lock and account tables.
pub struct Store<V> {
    entries: Vec<(u64, V)>,
}

impl<V> View for Store<V> {
    type V = Map<u64, V>;

    open spec fn view(&self) -> Map<u64, V> {
        self.as_map()
    }
}

/// The map holding exactly the key/value pairs of the sequence; a later entry
/// wins when keys repeat.
pub closed spec fn map_of<V>(s: Seq<(u64, V)>) -> Map<u64, V>
    decreases s.len(),
{
    if s.len() == 0 {
        Map::empty()
    } else {
        map_of(s.drop_last()).insert(s.last().0, s.last().1)
    }
}

proof fn lemma_map_of_contains<V>(s: Seq<(u64, V)>, k: u64)
    ensures
        map_of(s).contains_key(k) <==> exists|i: int| 0 <= i < s.len() && s[i].0 == k,
    decreases s.len(),
{
    if s.len() > 0 {
        lemma_map_of_contains(s.drop_last(), k);
        if map_of(s).contains_key(k) {
            if k == s.last().0 {
                assert(s[s.len() - 1].0 == k);
            } else {
                let i = choose|i: int| 0 <= i < s.drop_last().len() && s.drop_last()[i].0 == k;
                assert(s[i].0 == k);
            }
        }
        if exists|i: int| 0 <= i < s.len() && s[i].0 == k {
            let i = choose|i: int| 0 <= i < s.len() && s[i].0 == k;
            if i < s.len() - 1 {
                assert(s.drop_last()[i].0 == k);
            }
        }
    }
}

proof fn lemma_map_of_index<V>(s: Seq<(u64, V)>, i: int)
    requires
        keys_distinct(s),
        0 <= i < s.len(),
    ensures
        map_of(s).contains_key(s[i].0),
        map_of(s)[s[i].0] == s[i].1,
    decreases s.len(),
{
    lemma_map_of_contains(s, s[i].0);
    if i < s.len() - 1 {
        assert(keys_distinct(s.drop_last())) by {
            assert(forall|p: int, q: int|
                0 <= p < q < s.drop_last().len() ==> s.drop_last()[p].0 == s[p].0
                    && s.drop_last()[q].0 == s[q].0);
        }
        assert(s.drop_last()[i] == s[i]);
        lemma_map_of_index(s.drop_last(), i);
        assert(s[i].0 != s.last().0);
    }
}

proof fn lemma_map_of_dom_len<V>(s: Seq<(u64, V)>)
    requires
        keys_distinct(s),
    ensures
        map_of(s).dom().finite(),
        map_of(s).dom().len() == s.len(),
    decreases s.len(),
{
    if s.len() > 0 {
        assert(keys_distinct(s.drop_last())) by {
            assert(forall|p: int, q: int|
                0 <= p < q < s.drop_last().len() ==> s.drop_last()[p].0 == s[p].0
                    && s.drop_last()[q].0 == s[q].0);
        }
        lemma_map_of_dom_len(s.drop_last());
        lemma_map_of_contains(s.drop_last(), s.last().0);
        assert(forall|i: int|
            0 <= i < s.drop_last().len() ==> s.drop_last()[i].0 == s[i].0 && s[i].0
                != s.last().0);
        assert(!map_of(s.drop_last()).contains_key(s.last().0));
        assert(map_of(s).dom() =~= map_of(s.drop_last()).dom().insert(s.last().0));
    }
}

impl<V> Store<V> {
    /// The concrete table never holds a key twice.
    pub closed spec fn wf(&self) -> bool {
        keys_distinct(self.entries@)
    }

    /// The abstract content of the table.
    pub closed spec fn as_map(&self) -> Map<u64, V> {
        map_of(self.entries@)
    }

    pub fn new() -> (r: Store<V>)
        ensures
            r.wf(),
            r@ == Map::<u64, V>::empty(),
    {
        Store { entries: Vec::new() }
    }

    #[verifier::loop_isolation(false)]
    pub fn contains_key(&self, k: u64) -> (r: bool)
        requires
            self.wf(),
        ensures
            r == self@.contains_key(k),
    {
        proof {
            lemma_map_of_contains(self.entries@, k);
        }
        let n = self.entries.len();
        let mut i: usize = 0;
        while i < n
            invariant
                n == self.entries@.len(),
                0 <= i <= n,
                forall|j: int| 0 <= j < i ==> self.entries@[j].0 != k,
            decreases n - i,
        {
            if self.entries[i].0 == k {
                proof {
                    assert(self.entries@[i as int].0 == k);
                }
                return true;
            }
            i += 1;
        }
        false
    }

    #[verifier::loop_isolation(false)]
    pub fn get(&self, k: u64) -> (r: Option<&V>)
        requires
            self.wf(),
        ensures
            match r {
                Some(v) => self@.contains_key(k) && *v == self@[k],
                None => !self@.contains_key(k),
            },
    {
        proof {
            lemma_map_of_contains(self.entries@, k);
        }
        let n = self.entries.len();
        let mut i: usize = 0;
        while i < n
            invariant
                self.wf(),
                n == self.entries@.len(),
                0 <= i <= n,
                forall|j: int| 0 <= j < i ==> self.entries@[j].0 != k,
            decreases n - i,
        {
            if self.entries[i].0 == k {
                proof {
                    lemma_map_of_index(self.entries@, i as int);
                }
                return Some(&self.entries[i].1);
            }
            i += 1;
        }
        None
    }

    /// Removes the entry under `k`, if any.
    #[verifier::loop_isolation(false)]
    pub fn remove(&mut self, k: u64)
        requires
            old(self).wf(),
        ensures
            final(self).wf(),
            final(self)@ == old(self)@.remove(k),
    {
        proof {
            lemma_map_of_contains(self.entries@, k);
        }
        let ghost s0 = self.entries@;
        let n = self.entries.len();
        let mut i: usize = 0;
        while i < n
            invariant
                self.wf(),
                self.entries@ == s0,
                n == s0.len(),
                0 <= i <= n,
                forall|j: int| 0 <= j < i ==> s0[j].0 != k,
            decreases n - i,
        {
            if self.entries[i].0 == k {
                self.entries.remove(i);
                proof {
                    let s1 = self.entries@;
                    assert(s1 == s0.remove(i as int));
                    assert forall|p: int, q: int| 0 <= p < q < s1.len() implies s1[p].0
                        != s1[q].0 by {
                        assert(s1[p] == (if p < i { s0[p] } else { s0[p + 1] }));
                        assert(s1[q] == (if q < i { s0[q] } else { s0[q + 1] }));
                    }
                    assert forall|k2: u64| #[trigger] map_of(s1).contains_key(k2) implies map_of(
                        s0,
                    ).remove(k).contains_key(k2) && map_of(s1)[k2] == map_of(s0).remove(k)[k2] by {
                        lemma_map_of_contains(s1, k2);
                        let p = choose|p: int| 0 <= p < s1.len() && s1[p].0 == k2;
                        let q = if p < i {
                            p
                        } else {
                            p + 1
                        };
                        assert(s1[p] == s0[q]);
                        assert(k2 != k);
                        lemma_map_of_index(s1, p);
                        lemma_map_of_index(s0, q);
                    }
                    assert forall|k2: u64| #[trigger] map_of(s0).remove(k).contains_key(
                        k2,
                    ) implies map_of(s1).contains_key(k2) by {
                        lemma_map_of_contains(s0, k2);
                        lemma_map_of_contains(s1, k2);
                        let q = choose|q: int| 0 <= q < s0.len() && s0[q].0 == k2;
                        assert(q != i);
                        let p = if q < i {
                            q
                        } else {
                            q - 1
                        };
                        assert(s1[p] == s0[if p < i {
                            p
                        } else {
                            p + 1
                        }]);
                        assert(s1[p].0 == k2);
                    }
                    assert(map_of(s1) =~= map_of(s0).remove(k));
                }
                return ;
            }
            i += 1;
        }
        proof {
            assert(!map_of(s0).contains_key(k));
            assert(map_of(s0) =~= map_of(s0).remove(k));
        }
    }

    /// Sets the value under `k`, inserting or overwriting.
    pub fn set(&mut self, k: u64, v: V)
        requires
            old(self).wf(),
        ensures
            final(self).wf(),
            final(self)@ == old(self)@.insert(k, v),
    {
        self.remove(k);
        let ghost s1 = self.entries@;
        proof {
            lemma_map_of_contains(s1, k);
        }
        self.entries.push((k, v));
        proof {
            let s2 = self.entries@;
            assert(s2.drop_last() =~= s1);
            assert(forall|j: int| 0 <= j < s1.len() ==> s1[j].0 != k);
            assert(map_of(s2) == map_of(s1).insert(k, v));
            assert(map_of(s1).insert(k, v) =~= old(self)@.remove(k).insert(k, v));
            assert(old(self)@.remove(k).insert(k, v) =~= old(self)@.insert(k, v));
        }
    }

    /// Hands out the whole table and leaves it empty; what is returned carries
    /// each recorded pair exactly once.
    pub fn take_entries(&mut self) -> (r: Vec<(u64, V)>)
        requires
            old(self).wf(),
        ensures
            final(self).wf(),
            final(self)@ == Map::<u64, V>::empty(),
            keys_distinct(r@),
            r@.len() == old(self)@.dom().len(),
            forall|i: int|
                0 <= i < r@.len() ==> #[trigger] old(self)@.contains_key(r@[i].0) && old(
                    self,
                )@[r@[i].0] == r@[i].1,
            forall|k: u64| #[trigger] old(self)@.contains_key(k) ==> exists|i: int|
                0 <= i < r@.len() && r@[i].0 == k,
    {
        proof {
            lemma_map_of_dom_len(self.entries@);
            assert forall|i: int| 0 <= i < self.entries@.len() implies #[trigger] map_of(
                self.entries@,
            ).contains_key(self.entries@[i].0) && map_of(self.entries@)[self.entries@[i].0]
                == self.entries@[i].1 by {
                lemma_map_of_index(self.entries@, i);
            }
            assert forall|k: u64| #[trigger] map_of(self.entries@).contains_key(k) implies exists|
                i: int,
            | 0 <= i < self.entries@.len() && self.entries@[i].0 == k by {
                lemma_map_of_contains(self.entries@, k);
            }
        }
        let mut tmp: Vec<(u64, V)> = Vec::new();
        core::mem::swap(&mut self.entries, &mut tmp);
        tmp
    }
}

} // verus!
