//! Ordered scans over a table: where a scan starts, which way it runs, where it stops,
//! and the two iterator types that hand its pairs out.
use vstd::prelude::*;
use crate::bytes::{key_lt, is_prefix, starts_with, lemma_key_lt_irreflexive,
    lemma_key_lt_transitive, lemma_key_lt_asymmetric};
use crate::table::{Table, Pair, PairView, pairs_view};

verus! {

/// Which way a scan runs.
#[derive(Clone, Copy, Debug, PartialEq, Eq, Structural)]
pub enum Direction {
    Forward,
    Reverse,
}

/// Where a scan starts: the first key, the last key, or a given key in a given direction.
#[derive(Debug)]
pub enum IteratorMode {
    Start,
    End,
    From(Vec<u8>, Direction),
}

/// The pairs in the opposite order.
pub open spec fn reversed(s: Seq<PairView>) -> Seq<PairView> {
    Seq::new(s.len(), |i: int| s[s.len() - 1 - i])
}

/// The sequence without its leading pairs whose keys sort below `k`.
pub open spec fn keys_from(s: Seq<PairView>, k: Seq<u8>) -> Seq<PairView>
    decreases s.len(),
{
    if s.len() == 0 {
        s
    } else if key_lt(s[0].0, k) {
        keys_from(s.drop_first(), k)
    } else {
        s
    }
}

/// The sequence without its trailing pairs whose keys sort above `k`.
pub open spec fn keys_through(s: Seq<PairView>, k: Seq<u8>) -> Seq<PairView>
    decreases s.len(),
{
    if s.len() == 0 {
        s
    } else if key_lt(k, s.last().0) {
        keys_through(s.drop_last(), k)
    } else {
        s
    }
}

/// The leading run of pairs whose keys start with `p`.
pub open spec fn while_prefixed(s: Seq<PairView>, p: Seq<u8>) -> Seq<PairView>
    decreases s.len(),
{
    if s.len() == 0 || !is_prefix(p, s[0].0) {
        Seq::empty()
    } else {
        seq![s[0]] + while_prefixed(s.drop_first(), p)
    }
}

/// What a scan of the ascending pairs `s` yields, in the order it yields them.
/// With `same_prefix`, a forward scan from a key stops at the first key that does not
/// start with it.
pub open spec fn scan_view(s: Seq<PairView>, mode: IteratorMode, same_prefix: bool) -> Seq<PairView> {
    match mode {
        IteratorMode::Start => s,
        IteratorMode::End => reversed(s),
        IteratorMode::From(k, Direction::Forward) => if same_prefix {
            while_prefixed(keys_from(s, k@), k@)
        } else {
            keys_from(s, k@)
        },
        IteratorMode::From(k, Direction::Reverse) => reversed(keys_through(s, k@)),
    }
}

proof fn lemma_keys_from_skip(s: Seq<PairView>, k: Seq<u8>, i: int)
    requires
        0 <= i <= s.len(),
        forall|m: int| 0 <= m < i ==> key_lt(#[trigger] s[m].0, k),
        i < s.len() ==> !key_lt(s[i].0, k),
    ensures
        keys_from(s, k) == s.subrange(i, s.len() as int),
    decreases i,
{
    if i == 0 {
        assert(s.subrange(0, s.len() as int) =~= s);
    } else {
        let t = s.drop_first();
        assert forall|m: int| 0 <= m < i - 1 implies key_lt(#[trigger] t[m].0, k) by {
            assert(t[m] == s[m + 1]);
        }
        lemma_keys_from_skip(t, k, i - 1);
        assert(t.subrange(i - 1, t.len() as int) =~= s.subrange(i, s.len() as int));
    }
}

proof fn lemma_keys_through_cut(s: Seq<PairView>, k: Seq<u8>, j: int)
    requires
        0 <= j <= s.len(),
        forall|m: int| j <= m < s.len() ==> key_lt(k, #[trigger] s[m].0),
        j > 0 ==> !key_lt(k, s[j - 1].0),
    ensures
        keys_through(s, k) == s.subrange(0, j),
    decreases s.len() - j,
{
    if j == s.len() {
        assert(s.subrange(0, j) =~= s);
    } else {
        let t = s.drop_last();
        assert(key_lt(k, s[s.len() - 1].0));
        assert forall|m: int| j <= m < t.len() implies key_lt(k, #[trigger] t[m].0) by {
            assert(t[m] == s[m]);
        }
        if j > 0 {
            assert(t[j - 1] == s[j - 1]);
        }
        lemma_keys_through_cut(t, k, j);
        assert(t.subrange(0, j) =~= s.subrange(0, j));
    }
}

proof fn lemma_prefix_run(s: Seq<PairView>, p: Seq<u8>, n: int)
    requires
        0 <= n <= s.len(),
        forall|m: int| 0 <= m < n ==> is_prefix(p, #[trigger] s[m].0),
        n < s.len() ==> !is_prefix(p, s[n].0),
    ensures
        while_prefixed(s, p) == s.subrange(0, n),
    decreases n,
{
    if n == 0 {
        assert(s.subrange(0, 0) =~= Seq::<PairView>::empty());
    } else {
        let t = s.drop_first();
        assert forall|m: int| 0 <= m < n - 1 implies is_prefix(p, #[trigger] t[m].0) by {
            assert(t[m] == s[m + 1]);
        }
        if n < s.len() {
            assert(t[n - 1] == s[n]);
        }
        lemma_prefix_run(t, p, n - 1);
        assert(is_prefix(p, s[0].0));
        assert(seq![s[0]] + t.subrange(0, n - 1) =~= s.subrange(0, n));
    }
}

/// Owned copies of `v`'s pairs in the opposite order.
fn reverse_pairs(v: Vec<Pair>) -> (r: Vec<Pair>)
    ensures
        pairs_view(r@) == reversed(pairs_view(v@)),
{
    let mut v = v;
    let ghost v0 = v@;
    let mut r: Vec<Pair> = Vec::new();
    while v.len() > 0
        invariant
            v@ == v0.subrange(0, v@.len() as int),
            pairs_view(r@) == reversed(pairs_view(v0)).subrange(0, v0.len() - v@.len()),
            v@.len() <= v0.len(),
        decreases v@.len(),
    {
        let ghost n = v@.len();
        let ghost r0 = r@;
        let e = v.pop().unwrap();
        r.push(e);
        proof {
            assert(v@ =~= v0.subrange(0, v@.len() as int));
            assert(pairs_view(r@) =~= pairs_view(r0).push((e.0@, e.1@)));
            assert(e == v0[n - 1]);
            assert(pairs_view(r@) =~= reversed(pairs_view(v0)).subrange(0, v0.len() - v@.len()));
        }
    }
    assert(reversed(pairs_view(v0)).subrange(0, v0.len() as int) =~= reversed(pairs_view(v0)));
    r
}

/// The pairs that a scan of `t` yields, in order.
pub fn scan(t: &Table, mode: &IteratorMode, same_prefix: bool) -> (r: Vec<Pair>)
    requires
        t.wf(),
    ensures
        pairs_view(r@) == scan_view(t.pairs(), *mode, same_prefix),
{
    let s = Ghost(t.pairs());
    let n = t.len();
    match mode {
        IteratorMode::Start => {
            let r = t.copy_range(0, n);
            assert(s@.subrange(0, n as int) =~= s@);
            r
        },
        IteratorMode::End => {
            let r = t.copy_range(0, n);
            assert(s@.subrange(0, n as int) =~= s@);
            reverse_pairs(r)
        },
        IteratorMode::From(k, Direction::Forward) => {
            let (i, _) = t.lower_bound(k.as_slice());
            proof {
                lemma_keys_from_skip(s@, k@, i as int);
            }
            if same_prefix {
                let mut j: usize = i;
                while j < n && starts_with(k.as_slice(), t.key_at(j))
                    invariant
                        i <= j <= n,
                        n == s@.len(),
                        s@ == t.pairs(),
                        forall|m: int| i <= m < j ==> is_prefix(k@, #[trigger] s@[m].0),
                    decreases n - j,
                {
                    j = j + 1;
                }
                proof {
                    let u = s@.subrange(i as int, n as int);
                    assert forall|m: int| 0 <= m < j - i implies is_prefix(k@, #[trigger] u[m].0) by {
                        assert(u[m] == s@[m + i]);
                    }
                    if j < n {
                        assert(u[j - i] == s@[j as int]);
                    }
                    lemma_prefix_run(u, k@, j - i);
                    assert(u.subrange(0, j - i) =~= s@.subrange(i as int, j as int));
                }
                t.copy_range(i, j)
            } else {
                t.copy_range(i, n)
            }
        },
        IteratorMode::From(k, Direction::Reverse) => {
            let (i, found) = t.lower_bound(k.as_slice());
            let j = if found { i + 1 } else { i };
            proof {
                assert forall|m: int| j <= m < s@.len() implies key_lt(k@, #[trigger] s@[m].0) by {
                    if found {
                        assert(key_lt(s@[i as int].0, s@[m].0));
                    } else if m > i {
                        assert(key_lt(s@[i as int].0, s@[m].0));
                        lemma_key_lt_transitive(k@, s@[i as int].0, s@[m].0);
                    }
                }
                if j > 0 {
                    if found {
                        lemma_key_lt_irreflexive(k@);
                    } else {
                        lemma_key_lt_asymmetric(s@[i - 1].0, k@);
                    }
                }
                lemma_keys_through_cut(s@, k@, j as int);
            }
            let r = t.copy_range(0, j);
            reverse_pairs(r)
        },
    }
}

proof fn lemma_reversed_twice(s: Seq<PairView>)
    ensures
        reversed(reversed(s)) == s,
{
    assert(reversed(reversed(s)) =~= s);
}

/// The pairs of a scan, handed out one at a time.
#[derive(Debug)]
pub struct DBIterator {
    /// The pairs still to come, last first.
    items: Vec<Pair>,
}

impl DBIterator {
    /// The pairs still to come, in order.
    pub closed spec fn remaining(&self) -> Seq<PairView> {
        reversed(pairs_view(self.items@))
    }

    pub(crate) fn from_pairs(v: Vec<Pair>) -> (it: DBIterator)
        ensures
            it.remaining() == pairs_view(v@),
    {
        let items = reverse_pairs(v);
        proof { lemma_reversed_twice(pairs_view(v@)); }
        DBIterator { items }
    }

    /// The next pair, or nothing once all have been handed out.
    pub fn next(&mut self) -> (r: Option<Pair>)
        ensures
            old(self).remaining().len() == 0 ==> r is None && final(self).remaining() == old(self).remaining(),
            old(self).remaining().len() > 0 ==> (r matches Some(p) && (p.0@, p.1@) == old(self).remaining()[0])
                && final(self).remaining() == old(self).remaining().drop_first(),
    {
        let ghost before = pairs_view(self.items@);
        let r = self.items.pop();
        proof {
            if before.len() > 0 {
                assert(pairs_view(self.items@) =~= before.drop_last());
                assert(reversed(before.drop_last()) =~= reversed(before).drop_first());
            }
        }
        r
    }
}

/// A cursor over the pairs of one column family, in key order, that may be moved
/// either way or sent to a key.
#[derive(Debug)]
pub struct DBRawIterator {
    table: Table,
    pos: usize,
}

impl DBRawIterator {
    /// The pairs the cursor runs over.
    pub closed spec fn pairs(&self) -> Seq<PairView> {
        self.table.pairs()
    }

    /// Where the cursor stands; at or past the end it stands on nothing.
    pub closed spec fn position(&self) -> nat {
        self.pos as nat
    }

    pub open spec fn is_valid(&self) -> bool {
        self.position() < self.pairs().len()
    }

    pub closed spec fn wf(&self) -> bool {
        self.table.wf() && self.pos <= self.table.pairs().len()
    }

    pub(crate) fn new(table: Table) -> (it: DBRawIterator)
        requires
            table.wf(),
        ensures
            it.wf(),
            it.pairs() == table.pairs(),
            !it.is_valid(),
    {
        let n = table.len();
        DBRawIterator { table, pos: n }
    }

    /// Whether the cursor stands on a pair.
    pub fn valid(&self) -> (r: bool)
        ensures
            r == self.is_valid(),
    {
        self.pos < self.table.len()
    }

    /// The key of the pair under the cursor.
    pub fn key(&self) -> (r: Option<&[u8]>)
        ensures
            self.is_valid() ==> (r matches Some(k) && k@ == self.pairs()[self.position() as int].0),
            !self.is_valid() ==> r is None,
    {
        if self.pos < self.table.len() {
            Some(self.table.key_at(self.pos))
        } else {
            None
        }
    }

    /// The value of the pair under the cursor.
    pub fn value(&self) -> (r: Option<&[u8]>)
        ensures
            self.is_valid() ==> (r matches Some(v) && v@ == self.pairs()[self.position() as int].1),
            !self.is_valid() ==> r is None,
    {
        if self.pos < self.table.len() {
            Some(self.table.value_at(self.pos))
        } else {
            None
        }
    }

    /// Moves to the first pair.
    pub fn seek_to_first(&mut self)
        requires
            old(self).wf(),
        ensures
            final(self).wf(),
            final(self).pairs() == old(self).pairs(),
            final(self).position() == 0,
    {
        self.pos = 0;
    }

    /// Moves to the last pair; with no pairs, to nothing.
    pub fn seek_to_last(&mut self)
        requires
            old(self).wf(),
        ensures
            final(self).wf(),
            final(self).pairs() == old(self).pairs(),
            old(self).pairs().len() > 0 ==> final(self).position() == old(self).pairs().len() - 1,
            old(self).pairs().len() == 0 ==> !final(self).is_valid(),
    {
        let n = self.table.len();
        self.pos = if n > 0 { n - 1 } else { 0 };
    }

    /// Moves to the first pair whose key is not below `k`.
    pub fn seek(&mut self, k: &[u8])
        requires
            old(self).wf(),
        ensures
            final(self).wf(),
            final(self).pairs() == old(self).pairs(),
            forall|m: int| 0 <= m < final(self).position() ==> key_lt(#[trigger] final(self).pairs()[m].0, k@),
            final(self).is_valid() ==> !key_lt(final(self).pairs()[final(self).position() as int].0, k@),
    {
        let (i, _) = self.table.lower_bound(k);
        self.pos = i;
    }

    /// Moves one pair on; past the last it stands on nothing.
    pub fn next(&mut self)
        requires
            old(self).wf(),
            old(self).is_valid(),
        ensures
            final(self).wf(),
            final(self).pairs() == old(self).pairs(),
            final(self).position() == old(self).position() + 1,
    {
        let _n = self.table.len();
        self.pos = self.pos + 1;
    }

    /// Moves one pair back; before the first it stands on nothing.
    pub fn prev(&mut self)
        requires
            old(self).wf(),
            old(self).is_valid(),
        ensures
            final(self).wf(),
            final(self).pairs() == old(self).pairs(),
            old(self).position() > 0 ==> final(self).position() == old(self).position() - 1,
            old(self).position() == 0 ==> !final(self).is_valid(),
    {
        if self.pos > 0 {
            self.pos = self.pos - 1;
        } else {
            self.pos = self.table.len();
        }
    }
}

} // verus!
