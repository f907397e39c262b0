//! The storage engine: column families held as sorted tables and addressed by a
//! numeric handle, with a record of the handle releases and the close it was given.
use vstd::prelude::*;
use crate::table::{Table, Pair, PairView};
use crate::iter::{IteratorMode, scan, scan_view};
use crate::bytes::concat_bytes;

verus! {

/// A structural call that the engine received, in the order received.
#[derive(Clone, Copy, Debug, PartialEq, Eq, Structural)]
pub enum EngineCall {
    /// The column-family handle with this number was released.
    ReleaseCf(usize),
    /// The database handle was closed.
    Close,
}

/// The value that a merge of `operand` into `m` at `k` leaves: the operand appended
/// to the value there, or the operand alone.
pub open spec fn merged(m: Map<Seq<u8>, Seq<u8>>, k: Seq<u8>, operand: Seq<u8>) -> Seq<u8> {
    if m.contains_key(k) {
        m[k] + operand
    } else {
        operand
    }
}

struct CfSlot {
    name: String,
    table: Table,
    merge: bool,
}

/// An open engine database: its column families, by handle number; the one numbered
/// zero is the default column family.
pub struct Engine {
    slots: Vec<CfSlot>,
    calls: Vec<EngineCall>,
}

impl Engine {
    /// Column-family names, by handle number.
    pub closed spec fn names(&self) -> Seq<Seq<char>> {
        self.slots@.map_values(|s: CfSlot| s.name@)
    }

    /// Column-family contents, by handle number.
    pub closed spec fn data(&self) -> Seq<Map<Seq<u8>, Seq<u8>>> {
        self.slots@.map_values(|s: CfSlot| s.table@)
    }

    /// Column-family contents in key order, by handle number.
    pub closed spec fn pairs(&self) -> Seq<Seq<PairView>> {
        self.slots@.map_values(|s: CfSlot| s.table.pairs())
    }

    /// Whether each column family has a merge operator, by handle number.
    pub closed spec fn merges(&self) -> Seq<bool> {
        self.slots@.map_values(|s: CfSlot| s.merge)
    }

    /// The structural calls received so far.
    pub closed spec fn calls(&self) -> Seq<EngineCall> {
        self.calls@
    }

    pub closed spec fn wf(&self) -> bool {
        &&& self.slots@.len() > 0
        &&& forall|i: int| 0 <= i < self.slots@.len() ==> (#[trigger] self.slots@[i]).table.wf()
        &&& forall|i: int, j: int|
            0 <= i < j < self.slots@.len() ==> (#[trigger] self.slots@[i]).name@ != (#[trigger] self.slots@[j]).name@
    }

    /// Facts that hold of every well-formed engine.
    pub proof fn lemma_wf(&self)
        requires
            self.wf(),
        ensures
            self.names().len() == self.data().len(),
            self.merges().len() == self.data().len(),
            self.pairs().len() == self.data().len(),
            self.data().len() > 0,
            forall|i: int, j: int|
                0 <= i < j < self.names().len() ==> #[trigger] self.names()[i] != #[trigger] self.names()[j],
            forall|i: int| 0 <= i < self.data().len() ==> crate::table::sorted_keys(#[trigger] self.pairs()[i]),
            forall|i: int| 0 <= i < self.data().len() ==> #[trigger] self.data()[i] == crate::table::pairs_map(self.pairs()[i]),
    {
        assert forall|i: int| 0 <= i < self.data().len() implies crate::table::sorted_keys(#[trigger] self.pairs()[i]) by {
            assert(self.slots@[i].table.wf());
        }
        assert forall|i: int, j: int|
            0 <= i < j < self.names().len() implies #[trigger] self.names()[i] != #[trigger] self.names()[j] by {
            assert(self.slots@[i].name@ != self.slots@[j].name@);
        }
    }

    /// A fresh database holding only the default column family, empty.
    pub fn open(default_merge: bool) -> (e: Engine)
        ensures
            e.wf(),
            e.names() == seq![default_name()],
            e.data() == seq![Map::<Seq<u8>, Seq<u8>>::empty()],
            e.merges() == seq![default_merge],
            e.calls() == Seq::<EngineCall>::empty(),
    {
        let mut slots: Vec<CfSlot> = Vec::new();
        slots.push(CfSlot { name: default_cf_name(), table: Table::new(), merge: default_merge });
        let e = Engine { slots, calls: Vec::new() };
        assert(e.names() =~= seq![default_name()]);
        assert(e.data() =~= seq![Map::<Seq<u8>, Seq<u8>>::empty()]);
        assert(e.merges() =~= seq![default_merge]);
        e
    }

    /// The number of column families.
    pub fn cf_count(&self) -> (n: usize)
        ensures
            n == self.data().len(),
            n == self.names().len(),
    {
        self.slots.len()
    }

    /// The handle of the column family named `name`, if there is one.
    pub fn find_cf(&self, name: &String) -> (r: Option<usize>)
        requires
            self.wf(),
        ensures
            r matches Some(h) ==> h < self.names().len() && self.names()[h as int] == name@,
            r is None ==> !self.names().contains(name@),
    {
        let mut i: usize = 0;
        while i < self.slots.len()
            invariant
                i <= self.slots@.len(),
                forall|j: int| 0 <= j < i ==> self.names()[j] != name@,
            decreases self.slots@.len() - i,
        {
            if self.slots[i].name == *name {
                return Some(i);
            }
            i = i + 1;
        }
        None
    }

    /// Adds a column family named `name`; the engine refuses a name it already has.
    pub fn create_cf(&mut self, name: &String, merge: bool) -> (r: Option<usize>)
        requires
            old(self).wf(),
        ensures
            final(self).wf(),
            final(self).calls() == old(self).calls(),
            old(self).names().contains(name@) ==> r is None && *final(self) == *old(self),
            !old(self).names().contains(name@) ==> (r matches Some(h) && h == old(self).names().len())
                && final(self).names() == old(self).names().push(name@)
                && final(self).data() == old(self).data().push(Map::empty())
                && final(self).merges() == old(self).merges().push(merge),
    {
        match self.find_cf(name) {
            Some(_) => None,
            None => {
                let h = self.slots.len();
                self.slots.push(CfSlot { name: name.clone(), table: Table::new(), merge });
                assert(self.names() =~= old(self).names().push(name@));
                assert(self.data() =~= old(self).data().push(Map::empty()));
                assert(self.merges() =~= old(self).merges().push(merge));
                assert forall|i: int, j: int| 0 <= i < j < self.slots@.len() implies
                    (#[trigger] self.slots@[i]).name@ != (#[trigger] self.slots@[j]).name@ by {
                    if j == h {
                        assert(old(self).names()[i] == self.slots@[i].name@);
                    }
                }
                Some(h)
            },
        }
    }

    /// The value under `k` in column family `h`.
    pub fn get(&self, h: usize, k: &[u8]) -> (r: Option<Vec<u8>>)
        requires
            self.wf(),
            h < self.data().len(),
        ensures
            r matches Some(v) ==> self.data()[h as int].contains_key(k@) && v@ == self.data()[h as int][k@],
            r is None ==> !self.data()[h as int].contains_key(k@),
    {
        self.slots[h].table.get(k)
    }

    /// Stores `v` under `k` in column family `h`.
    pub fn put(&mut self, h: usize, k: &[u8], v: &[u8])
        requires
            old(self).wf(),
            h < old(self).data().len(),
        ensures
            final(self).wf(),
            final(self).data() == old(self).data().update(h as int, old(self).data()[h as int].insert(k@, v@)),
            final(self).names() == old(self).names(),
            final(self).merges() == old(self).merges(),
            final(self).calls() == old(self).calls(),
    {
        let mut slot = self.slots.remove(h);
        slot.table.put(k, v);
        self.slots.insert(h, slot);
        proof { self.lemma_frame(*old(self), h as int); }
    }

    /// Removes `k` from column family `h`.
    pub fn delete(&mut self, h: usize, k: &[u8])
        requires
            old(self).wf(),
            h < old(self).data().len(),
        ensures
            final(self).wf(),
            final(self).data() == old(self).data().update(h as int, old(self).data()[h as int].remove(k@)),
            final(self).names() == old(self).names(),
            final(self).merges() == old(self).merges(),
            final(self).calls() == old(self).calls(),
    {
        let mut slot = self.slots.remove(h);
        slot.table.delete(k);
        self.slots.insert(h, slot);
        proof { self.lemma_frame(*old(self), h as int); }
    }

    /// Merges `operand` into the value under `k` in column family `h`.
    pub fn merge(&mut self, h: usize, k: &[u8], operand: &[u8])
        requires
            old(self).wf(),
            h < old(self).data().len(),
        ensures
            final(self).wf(),
            final(self).data() == old(self).data().update(
                h as int,
                old(self).data()[h as int].insert(k@, merged(old(self).data()[h as int], k@, operand@)),
            ),
            final(self).names() == old(self).names(),
            final(self).merges() == old(self).merges(),
            final(self).calls() == old(self).calls(),
    {
        let v = match self.get(h, k) {
            Some(cur) => concat_bytes(cur.as_slice(), operand),
            None => concat_bytes(&[], operand),
        };
        assert(Seq::<u8>::empty() + operand@ =~= operand@);
        self.put(h, k, v.as_slice());
    }

    /// Whether column family `h` has a merge operator.
    pub fn merge_enabled(&self, h: usize) -> (r: bool)
        requires
            h < self.data().len(),
        ensures
            r == self.merges()[h as int],
    {
        self.slots[h].merge
    }

    proof fn lemma_frame(&self, old_e: Engine, h: int)
        requires
            old_e.wf(),
            0 <= h < old_e.slots@.len(),
            self.slots@.len() == old_e.slots@.len(),
            forall|i: int| 0 <= i < self.slots@.len() && i != h ==> self.slots@[i] == old_e.slots@[i],
            self.slots@[h].name == old_e.slots@[h].name,
            self.slots@[h].merge == old_e.slots@[h].merge,
            self.slots@[h].table.wf(),
            self.calls == old_e.calls,
        ensures
            self.wf(),
            self.data() == old_e.data().update(h, self.slots@[h].table@),
            self.names() == old_e.names(),
            self.merges() == old_e.merges(),
            self.calls() == old_e.calls(),
    {
        assert(self.data() =~= old_e.data().update(h, self.slots@[h].table@));
        assert(self.names() =~= old_e.names());
        assert(self.merges() =~= old_e.merges());
        assert forall|i: int, j: int| 0 <= i < j < self.slots@.len() implies
            (#[trigger] self.slots@[i]).name@ != (#[trigger] self.slots@[j]).name@ by {
            assert(old_e.slots@[i].name@ != old_e.slots@[j].name@);
        }
    }

    /// The pairs that a scan of column family `h` yields.
    pub fn scan(&self, h: usize, mode: &IteratorMode, same_prefix: bool) -> (r: Vec<Pair>)
        requires
            self.wf(),
            h < self.data().len(),
        ensures
            crate::table::pairs_view(r@) == scan_view(self.pairs()[h as int], *mode, same_prefix),
    {
        scan(&self.slots[h].table, mode, same_prefix)
    }

    /// A copy of column family `h`'s table.
    pub fn copy_table(&self, h: usize) -> (t: Table)
        requires
            self.wf(),
            h < self.data().len(),
        ensures
            t.wf(),
            t.pairs() == self.pairs()[h as int],
    {
        assert(self.slots@[h as int].table.wf());
        self.slots[h].table.copy()
    }

    /// A copy of every column family's table, by handle number.
    pub fn copy_tables(&self) -> (r: Vec<Table>)
        requires
            self.wf(),
        ensures
            r@.len() == self.data().len(),
            forall|i: int| 0 <= i < r@.len() ==> (#[trigger] r@[i]).wf() && r@[i]@ == self.data()[i]
                && r@[i].pairs() == self.pairs()[i],
    {
        let mut r: Vec<Table> = Vec::new();
        let mut i: usize = 0;
        while i < self.slots.len()
            invariant
                self.wf(),
                i <= self.slots@.len(),
                r@.len() == i,
                forall|j: int| 0 <= j < i ==> (#[trigger] r@[j]).wf() && r@[j]@ == self.data()[j]
                    && r@[j].pairs() == self.pairs()[j],
            decreases self.slots@.len() - i,
        {
            assert(self.slots@[i as int].table.wf());
            r.push(self.slots[i].table.copy());
            i = i + 1;
        }
        r
    }

    /// Releases the column-family handle `h`.
    pub fn release_cf(&mut self, h: usize)
        requires
            old(self).wf(),
        ensures
            final(self).wf(),
            final(self).calls() == old(self).calls().push(EngineCall::ReleaseCf(h)),
            final(self).data() == old(self).data(),
            final(self).names() == old(self).names(),
    {
        self.calls.push(EngineCall::ReleaseCf(h));
    }

    /// Closes the database; what it returns is every structural call received, the close last.
    pub fn close(self) -> (r: Vec<EngineCall>)
        ensures
            r@ == self.calls().push(EngineCall::Close),
    {
        let mut calls = self.calls;
        calls.push(EngineCall::Close);
        calls
    }
}

/// The name of the column family that every database has.
pub open spec fn default_name() -> Seq<char> {
    seq!['d', 'e', 'f', 'a', 'u', 'l', 't']
}

/// The name of the default column family, owned.
pub fn default_cf_name() -> (r: String)
    ensures
        r@ == default_name(),
{
    let r = "default".to_owned();
    proof {
        reveal_strlit("default");
    }
    r
}

} // verus!
