//! A table of one column family: key/value pairs kept in strictly ascending key order.
use vstd::prelude::*;
use crate::bytes::{key_lt, compare_keys, copy_bytes, lemma_key_lt_irreflexive,
    lemma_key_lt_transitive, lemma_key_lt_asymmetric};

verus! {

/// A stored pair, as owned bytes.
pub type Pair = (Vec<u8>, Vec<u8>);

/// A stored pair, as byte sequences.
pub type PairView = (Seq<u8>, Seq<u8>);

/// The mathematical view of a list of owned pairs.
pub open spec fn pairs_view(v: Seq<Pair>) -> Seq<PairView> {
    v.map_values(|e: Pair| (e.0@, e.1@))
}

/// Keys strictly ascend along the sequence.
pub open spec fn sorted_keys(s: Seq<PairView>) -> bool {
    forall|i: int, j: int| 0 <= i < j < s.len() ==> key_lt(#[trigger] s[i].0, #[trigger] s[j].0)
}

/// Some pair of the sequence has key `k`.
pub open spec fn has_key(s: Seq<PairView>, k: Seq<u8>) -> bool {
    exists|i: int| 0 <= i < s.len() && s[i].0 == k
}

/// The map from key to value that a sequence of pairs with distinct keys stands for.
pub open spec fn pairs_map(s: Seq<PairView>) -> Map<Seq<u8>, Seq<u8>> {
    Map::new(|k: Seq<u8>| has_key(s, k), |k: Seq<u8>| s[choose|i: int| 0 <= i < s.len() && s[i].0 == k].1)
}

/// In a sorted sequence, the map holds each pair as it stands.
pub proof fn lemma_pairs_map_at(s: Seq<PairView>, i: int)
    requires
        sorted_keys(s),
        0 <= i < s.len(),
    ensures
        pairs_map(s).contains_key(s[i].0),
        pairs_map(s)[s[i].0] == s[i].1,
{
    assert(has_key(s, s[i].0));
    let j = choose|j: int| 0 <= j < s.len() && s[j].0 == s[i].0;
    if j != i {
        lemma_key_lt_irreflexive(s[i].0);
        if j < i {
            assert(key_lt(s[j].0, s[i].0));
        } else {
            assert(key_lt(s[i].0, s[j].0));
        }
    }
}

/// Two sorted sequences with the same pairs at the same places stand for the same map;
/// the map changes as the pairs do.
pub proof fn lemma_pairs_map_ext(s: Seq<PairView>, m: Map<Seq<u8>, Seq<u8>>)
    requires
        sorted_keys(s),
        forall|k: Seq<u8>| m.contains_key(k) <==> has_key(s, k),
        forall|i: int| 0 <= i < s.len() ==> m[#[trigger] s[i].0] == s[i].1,
    ensures
        pairs_map(s) == m,
{
    assert forall|k: Seq<u8>| #[trigger] pairs_map(s).contains_key(k) implies pairs_map(s)[k] == m[k] by {
        let i = choose|i: int| 0 <= i < s.len() && s[i].0 == k;
        lemma_pairs_map_at(s, i);
    }
    assert(pairs_map(s) =~= m);
}

/// The pairs of one column family, in ascending key order.
#[derive(Debug)]
pub struct Table {
    entries: Vec<Pair>,
}

impl Table {
    /// The stored pairs, in order.
    pub closed spec fn pairs(&self) -> Seq<PairView> {
        pairs_view(self.entries@)
    }

    /// Keys are distinct and ascending.
    pub open spec fn wf(&self) -> bool {
        sorted_keys(self.pairs())
    }

    /// The contents as a map from key to value.
    pub open spec fn view(&self) -> Map<Seq<u8>, Seq<u8>> {
        pairs_map(self.pairs())
    }

    pub fn new() -> (t: Table)
        ensures
            t.wf(),
            t.pairs().len() == 0,
            t@ == Map::<Seq<u8>, Seq<u8>>::empty(),
    {
        let t = Table { entries: Vec::new() };
        assert(t.pairs() =~= Seq::<PairView>::empty());
        assert(t@ =~= Map::<Seq<u8>, Seq<u8>>::empty());
        t
    }

    /// The number of stored pairs.
    pub fn len(&self) -> (n: usize)
        ensures
            n == self.pairs().len(),
    {
        self.entries.len()
    }

    /// The first position whose key is not below `k`, and whether that key is `k`.
    pub fn lower_bound(&self, k: &[u8]) -> (r: (usize, bool))
        requires
            self.wf(),
        ensures
            r.0 <= self.pairs().len(),
            forall|m: int| 0 <= m < r.0 ==> key_lt(#[trigger] self.pairs()[m].0, k@),
            r.0 < self.pairs().len() ==> !key_lt(self.pairs()[r.0 as int].0, k@),
            r.1 <==> (r.0 < self.pairs().len() && self.pairs()[r.0 as int].0 == k@),
            r.0 < self.pairs().len() && !r.1 ==> key_lt(k@, self.pairs()[r.0 as int].0),
            r.1 <==> self@.contains_key(k@),
            r.1 ==> self@[k@] == self.pairs()[r.0 as int].1,
    {
        let mut i: usize = 0;
        while i < self.entries.len()
            invariant
                self.wf(),
                i <= self.pairs().len(),
                self.pairs().len() == self.entries@.len(),
                forall|m: int| 0 <= m < i ==> key_lt(#[trigger] self.pairs()[m].0, k@),
            decreases self.entries@.len() - i,
        {
            let c = compare_keys(self.entries[i].0.as_slice(), k);
            assert(self.pairs()[i as int].0 == self.entries@[i as int].0@);
            if c >= 0 {
                let found = c == 0;
                proof {
                    assert(self.pairs()[i as int].0 == self.entries@[i as int].0@);
                    if !found {
                        lemma_key_lt_asymmetric(k@, self.pairs()[i as int].0);
                    } else {
                        lemma_key_lt_irreflexive(k@);
                    }
                    if found {
                        lemma_pairs_map_at(self.pairs(), i as int);
                    } else {
                        self.lemma_absent_at(k@, i as int);
                    }
                }
                return (i, found);
            }
            i = i + 1;
        }
        proof {
            assert(!has_key(self.pairs(), k@)) by {
                if has_key(self.pairs(), k@) {
                    let j = choose|j: int| 0 <= j < self.pairs().len() && self.pairs()[j].0 == k@;
                    lemma_key_lt_irreflexive(k@);
                    assert(key_lt(self.pairs()[j].0, k@));
                }
            }
        }
        (i, false)
    }

    /// A key that sorts strictly between the pairs before position `i` and the pair at `i`
    /// is not stored.
    proof fn lemma_absent_at(&self, k: Seq<u8>, i: int)
        requires
            self.wf(),
            0 <= i <= self.pairs().len(),
            forall|m: int| 0 <= m < i ==> key_lt(#[trigger] self.pairs()[m].0, k),
            i < self.pairs().len() ==> key_lt(k, self.pairs()[i].0),
        ensures
            !has_key(self.pairs(), k),
    {
        if has_key(self.pairs(), k) {
            let s = self.pairs();
            let j = choose|j: int| 0 <= j < s.len() && s[j].0 == k;
            lemma_key_lt_irreflexive(k);
            if j > i {
                assert(key_lt(s[i].0, s[j].0));
                lemma_key_lt_asymmetric(k, s[i].0);
            } else if j == i {
            } else {
                assert(key_lt(s[j].0, k));
            }
        }
    }

    /// The value stored under `k`, copied out.
    pub fn get(&self, k: &[u8]) -> (r: Option<Vec<u8>>)
        requires
            self.wf(),
        ensures
            r matches Some(v) ==> self@.contains_key(k@) && v@ == self@[k@],
            r is None ==> !self@.contains_key(k@),
    {
        let (i, found) = self.lower_bound(k);
        if found {
            Some(copy_bytes(self.entries[i].1.as_slice()))
        } else {
            None
        }
    }

    /// Stores `v` under `k`, replacing what was there.
    pub fn put(&mut self, k: &[u8], v: &[u8])
        requires
            old(self).wf(),
        ensures
            final(self).wf(),
            final(self)@ == old(self)@.insert(k@, v@),
    {
        let ghost s0 = self.pairs();
        let (i, found) = self.lower_bound(k);
        let pair = (copy_bytes(k), copy_bytes(v));
        if found {
            self.entries[i] = pair;
            proof {
                let s = self.pairs();
                assert(s =~= s0.update(i as int, (k@, v@)));
                assert forall|a: int, b: int| 0 <= a < b < s.len() implies key_lt(#[trigger] s[a].0, #[trigger] s[b].0) by {
                    assert(s0[a].0 == s[a].0 && s0[b].0 == s[b].0);
                }
                assert forall|kk: Seq<u8>| old(self)@.insert(k@, v@).contains_key(kk) <==> has_key(s, kk) by {
                    if has_key(s0, kk) {
                        let j = choose|j: int| 0 <= j < s0.len() && s0[j].0 == kk;
                        assert(s[j].0 == kk);
                    }
                    if has_key(s, kk) {
                        let j = choose|j: int| 0 <= j < s.len() && s[j].0 == kk;
                        assert(s0[j].0 == kk);
                    }
                }
                assert forall|m: int| 0 <= m < s.len() implies old(self)@.insert(k@, v@)[#[trigger] s[m].0] == s[m].1 by {
                    if m != i {
                        lemma_pairs_map_at(s0, m);
                        assert(s[m].0 != k@) by {
                            if m < i { assert(key_lt(s0[m].0, s0[i as int].0)); lemma_key_lt_irreflexive(k@); }
                            else { assert(key_lt(s0[i as int].0, s0[m].0)); lemma_key_lt_irreflexive(k@); }
                        }
                    }
                }
                lemma_pairs_map_ext(s, old(self)@.insert(k@, v@));
            }
        } else {
            self.entries.insert(i, pair);
            proof {
                let s = self.pairs();
                assert(s =~= s0.insert(i as int, (k@, v@)));
                assert forall|a: int, b: int| 0 <= a < b < s.len() implies key_lt(#[trigger] s[a].0, #[trigger] s[b].0) by {
                    if b < i {
                    } else if b == i {
                    } else if a < i {
                        assert(s[b] == s0[b - 1]);
                        if (i as int) < s0.len() {
                            if b - 1 > i { assert(key_lt(s0[i as int].0, s0[b - 1].0)); lemma_key_lt_transitive(k@, s0[i as int].0, s0[b - 1].0); }
                            lemma_key_lt_transitive(s0[a].0, k@, s0[b - 1].0);
                        }
                    } else if a == i {
                        assert(s[b] == s0[b - 1]);
                        if b - 1 > i { assert(key_lt(s0[i as int].0, s0[b - 1].0)); lemma_key_lt_transitive(k@, s0[i as int].0, s0[b - 1].0); }
                    } else {
                        assert(s[a] == s0[a - 1] && s[b] == s0[b - 1]);
                    }
                }
                old(self).lemma_absent_at(k@, i as int);
                assert forall|kk: Seq<u8>| old(self)@.insert(k@, v@).contains_key(kk) <==> has_key(s, kk) by {
                    if has_key(s0, kk) {
                        let j = choose|j: int| 0 <= j < s0.len() && s0[j].0 == kk;
                        if j < i { assert(s[j].0 == kk); } else { assert(s[j + 1].0 == kk); }
                    }
                    if kk == k@ {
                        assert(s[i as int].0 == kk);
                    }
                    if has_key(s, kk) {
                        let j = choose|j: int| 0 <= j < s.len() && s[j].0 == kk;
                        if j < i { assert(s0[j].0 == kk); } else if j > i { assert(s0[j - 1].0 == kk); }
                    }
                }
                assert forall|m: int| 0 <= m < s.len() implies old(self)@.insert(k@, v@)[#[trigger] s[m].0] == s[m].1 by {
                    if m < i {
                        lemma_pairs_map_at(s0, m);
                        lemma_key_lt_irreflexive(k@);
                    } else if m > i {
                        lemma_pairs_map_at(s0, m - 1);
                        assert(key_lt(s[i as int].0, s[m].0));
                        lemma_key_lt_irreflexive(k@);
                    }
                }
                lemma_pairs_map_ext(s, old(self)@.insert(k@, v@));
            }
        }
    }

    /// Removes what is stored under `k`, if anything.
    pub fn delete(&mut self, k: &[u8])
        requires
            old(self).wf(),
        ensures
            final(self).wf(),
            final(self)@ == old(self)@.remove(k@),
    {
        let ghost s0 = self.pairs();
        let (i, found) = self.lower_bound(k);
        if found {
            self.entries.remove(i);
            proof {
                let s = self.pairs();
                assert(s =~= s0.remove(i as int));
                assert forall|a: int, b: int| 0 <= a < b < s.len() implies key_lt(#[trigger] s[a].0, #[trigger] s[b].0) by {
                    if a < i && b >= i {
                        assert(s[b] == s0[b + 1]);
                    } else if a >= i {
                        assert(s[a] == s0[a + 1] && s[b] == s0[b + 1]);
                    }
                }
                assert forall|kk: Seq<u8>| old(self)@.remove(k@).contains_key(kk) <==> has_key(s, kk) by {
                    if has_key(s0, kk) && kk != k@ {
                        let j = choose|j: int| 0 <= j < s0.len() && s0[j].0 == kk;
                        if j < i { assert(s[j].0 == kk); } else { assert(s[j - 1].0 == kk); }
                    }
                    if has_key(s, kk) {
                        let j = choose|j: int| 0 <= j < s.len() && s[j].0 == kk;
                        lemma_key_lt_irreflexive(k@);
                        if j < i {
                            assert(s0[j].0 == kk);
                            assert(key_lt(s0[j].0, s0[i as int].0));
                        } else {
                            assert(s0[j + 1].0 == kk);
                            assert(key_lt(s0[i as int].0, s0[j + 1].0));
                        }
                    }
                }
                assert forall|m: int| 0 <= m < s.len() implies old(self)@.remove(k@)[#[trigger] s[m].0] == s[m].1 by {
                    if m < i {
                        lemma_pairs_map_at(s0, m);
                    } else {
                        lemma_pairs_map_at(s0, m + 1);
                    }
                }
                lemma_pairs_map_ext(s, old(self)@.remove(k@));
            }
        } else {
            assert(old(self)@.remove(k@) =~= old(self)@);
        }
    }

    /// The key of the pair at position `i`.
    pub fn key_at(&self, i: usize) -> (r: &[u8])
        requires
            i < self.pairs().len(),
        ensures
            r@ == self.pairs()[i as int].0,
    {
        self.entries[i].0.as_slice()
    }

    /// The value of the pair at position `i`.
    pub fn value_at(&self, i: usize) -> (r: &[u8])
        requires
            i < self.pairs().len(),
        ensures
            r@ == self.pairs()[i as int].1,
    {
        self.entries[i].1.as_slice()
    }

    /// Owned copies of the pairs at positions `lo` up to `hi`.
    pub fn copy_range(&self, lo: usize, hi: usize) -> (r: Vec<Pair>)
        requires
            lo <= hi <= self.pairs().len(),
        ensures
            pairs_view(r@) == self.pairs().subrange(lo as int, hi as int),
    {
        let mut r: Vec<Pair> = Vec::new();
        let mut i: usize = lo;
        while i < hi
            invariant
                lo <= i <= hi,
                hi <= self.entries@.len(),
                pairs_view(r@) == self.pairs().subrange(lo as int, i as int),
            decreases hi - i,
        {
            let k = copy_bytes(self.entries[i].0.as_slice());
            let v = copy_bytes(self.entries[i].1.as_slice());
            let ghost r0 = r@;
            r.push((k, v));
            proof {
                assert(pairs_view(r@) =~= pairs_view(r0).push((self.pairs()[i as int].0, self.pairs()[i as int].1)));
            }
            i = i + 1;
            assert(pairs_view(r@) =~= self.pairs().subrange(lo as int, i as int));
        }
        r
    }

    /// A copy of the whole table.
    pub fn copy(&self) -> (t: Table)
        ensures
            t.pairs() == self.pairs(),
            t@ == self@,
            t.wf() == self.wf(),
    {
        let entries = self.copy_range(0, self.entries.len());
        assert(self.pairs().subrange(0, self.pairs().len() as int) =~= self.pairs());
        Table { entries }
    }
}

} // verus!
