//! Write batches: puts, merges and deletes gathered up front and applied as one, and what a
//! sequence of such writes does to the column families.
use vstd::prelude::*;
use crate::bytes::copy_bytes;
use crate::registry::ColumnFamily;
use crate::engine::merged;

verus! {

/// One buffered write: a value to store under a key, or none to remove the key; with
/// `merge`, the value is an operand merged into what the key holds.
#[derive(Debug)]
pub struct WriteOp {
    pub cf: usize,
    pub key: Vec<u8>,
    pub value: Option<Vec<u8>>,
    pub merge: bool,
}

/// A write as numbers and byte sequences: column family, key, value, and whether it merges.
pub type OpView = (usize, Seq<u8>, Option<Seq<u8>>, bool);

pub open spec fn op_view(o: WriteOp) -> OpView {
    (o.cf, o.key@, match o.value { Some(v) => Some(v@), None => None }, o.merge)
}

pub open spec fn ops_view(v: Seq<WriteOp>) -> Seq<OpView> {
    v.map_values(|o: WriteOp| op_view(o))
}

/// The contents after one write.
pub open spec fn apply_op(d: Seq<Map<Seq<u8>, Seq<u8>>>, op: OpView) -> Seq<Map<Seq<u8>, Seq<u8>>> {
    match op.2 {
        Some(v) => if op.3 {
            d.update(op.0 as int, d[op.0 as int].insert(op.1, merged(d[op.0 as int], op.1, v)))
        } else {
            d.update(op.0 as int, d[op.0 as int].insert(op.1, v))
        },
        None => d.update(op.0 as int, d[op.0 as int].remove(op.1)),
    }
}

/// The contents after the writes, in order.
pub open spec fn apply_ops(d: Seq<Map<Seq<u8>, Seq<u8>>>, ops: Seq<OpView>) -> Seq<Map<Seq<u8>, Seq<u8>>>
    decreases ops.len(),
{
    if ops.len() == 0 {
        d
    } else {
        apply_op(apply_ops(d, ops.drop_last()), ops.last())
    }
}

/// Every write names one of the `n` column families.
pub open spec fn ops_fit(n: nat, ops: Seq<OpView>) -> bool {
    forall|i: int| 0 <= i < ops.len() ==> (#[trigger] ops[i]).0 < n
}

/// Every merging write goes to a column family with a merge operator.
pub open spec fn ops_merge_ok(merges: Seq<bool>, ops: Seq<OpView>) -> bool {
    forall|i: int| 0 <= i < ops.len() && (#[trigger] ops[i]).3 ==> merges[ops[i].0 as int]
}

/// The value under `k` in column family `h`, if any.
pub open spec fn value_at(d: Seq<Map<Seq<u8>, Seq<u8>>>, h: int, k: Seq<u8>) -> Option<Seq<u8>> {
    if d[h].contains_key(k) {
        Some(d[h][k])
    } else {
        None
    }
}

/// Writes keep the number of column families.
pub proof fn lemma_apply_ops_len(d: Seq<Map<Seq<u8>, Seq<u8>>>, ops: Seq<OpView>)
    requires
        ops_fit(d.len(), ops),
    ensures
        apply_ops(d, ops).len() == d.len(),
    decreases ops.len(),
{
    if ops.len() > 0 {
        let rest = ops.drop_last();
        assert forall|i: int| 0 <= i < rest.len() implies (#[trigger] rest[i]).0 < d.len() by {
            assert(rest[i] == ops[i]);
        }
        lemma_apply_ops_len(d, rest);
        assert(ops.last() == ops[ops.len() - 1]);
    }
}

/// Writes one after another apply as the writes joined.
pub proof fn lemma_apply_ops_push(d: Seq<Map<Seq<u8>, Seq<u8>>>, ops: Seq<OpView>, op: OpView)
    ensures
        apply_ops(d, ops.push(op)) == apply_op(apply_ops(d, ops), op),
{
    assert(ops.push(op).drop_last() =~= ops);
}

/// Puts, merges and deletes to be applied together.
#[derive(Debug)]
pub struct WriteBatch {
    ops: Vec<WriteOp>,
}

impl WriteBatch {
    /// The writes, in the order given.
    pub closed spec fn ops(&self) -> Seq<OpView> {
        ops_view(self.ops@)
    }

    pub fn new() -> (b: WriteBatch)
        ensures
            b.ops() == Seq::<OpView>::empty(),
    {
        let b = WriteBatch { ops: Vec::new() };
        assert(b.ops() =~= Seq::<OpView>::empty());
        b
    }

    /// The number of writes.
    pub fn len(&self) -> (n: usize)
        ensures
            n == self.ops().len(),
    {
        self.ops.len()
    }

    fn push(&mut self, op: WriteOp)
        ensures
            final(self).ops() == old(self).ops().push(op_view(op)),
    {
        self.ops.push(op);
        assert(self.ops() =~= old(self).ops().push(op_view(op)));
    }

    /// Adds a put into the default column family.
    pub fn put(&mut self, key: &[u8], value: &[u8])
        ensures
            final(self).ops() == old(self).ops().push((0usize, key@, Some(value@), false)),
    {
        self.push(WriteOp { cf: 0, key: copy_bytes(key), value: Some(copy_bytes(value)), merge: false });
    }

    /// Adds a put into column family `cf`.
    pub fn put_cf(&mut self, cf: &ColumnFamily, key: &[u8], value: &[u8])
        ensures
            final(self).ops() == old(self).ops().push((cf.id(), key@, Some(value@), false)),
    {
        self.push(WriteOp { cf: cf.inner(), key: copy_bytes(key), value: Some(copy_bytes(value)), merge: false });
    }

    /// Adds a merge into the default column family.
    pub fn merge(&mut self, key: &[u8], value: &[u8])
        ensures
            final(self).ops() == old(self).ops().push((0usize, key@, Some(value@), true)),
    {
        self.push(WriteOp { cf: 0, key: copy_bytes(key), value: Some(copy_bytes(value)), merge: true });
    }

    /// Adds a merge into column family `cf`.
    pub fn merge_cf(&mut self, cf: &ColumnFamily, key: &[u8], value: &[u8])
        ensures
            final(self).ops() == old(self).ops().push((cf.id(), key@, Some(value@), true)),
    {
        self.push(WriteOp { cf: cf.inner(), key: copy_bytes(key), value: Some(copy_bytes(value)), merge: true });
    }

    /// Adds a delete from the default column family.
    pub fn delete(&mut self, key: &[u8])
        ensures
            final(self).ops() == old(self).ops().push((0usize, key@, None, false)),
    {
        self.push(WriteOp { cf: 0, key: copy_bytes(key), value: None, merge: false });
    }

    /// Adds a delete from column family `cf`.
    pub fn delete_cf(&mut self, cf: &ColumnFamily, key: &[u8])
        ensures
            final(self).ops() == old(self).ops().push((cf.id(), key@, None, false)),
    {
        self.push(WriteOp { cf: cf.inner(), key: copy_bytes(key), value: None, merge: false });
    }

    pub(crate) fn as_ops(&self) -> (r: &Vec<WriteOp>)
        ensures
            ops_view(r@) == self.ops(),
    {
        &self.ops
    }
}

impl Default for WriteBatch {
    fn default() -> (b: WriteBatch)
        ensures
            b.ops() == Seq::<OpView>::empty(),
    {
        WriteBatch::new()
    }
}

} // verus!
