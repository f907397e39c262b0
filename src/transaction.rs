//! Transactions: writes buffered apart from the database, read back by the
//! transaction itself, and applied at commit unless the database changed under them.
use vstd::prelude::*;
use crate::bytes::{compare_keys, copy_bytes, concat_bytes};
use crate::batch::{WriteOp, OpView, op_view, ops_view, apply_ops, ops_fit, ops_merge_ok, value_at};
use crate::db::TransactionDB;
use crate::error::{Error, ErrorKind};
use crate::registry::{ColumnFamily, ThreadMode};

verus! {

/// Where a transaction stands.
#[derive(Clone, Copy, Debug, PartialEq, Eq, Structural)]
pub enum TxnState {
    Active,
    Committed,
    RolledBack,
}

/// What key `k` holds after one write to it, given what it held before.
pub open spec fn step(prev: Option<Seq<u8>>, op: OpView) -> Option<Seq<u8>> {
    match op.2 {
        Some(v) => if op.3 {
            Some(
                match prev {
                    Some(p) => p + v,
                    None => v,
                },
            )
        } else {
            Some(v)
        },
        None => None,
    }
}

/// What key `k` of column family `h` holds after the writes, given that it held `base`.
pub open spec fn read_after(ws: Seq<OpView>, h: usize, k: Seq<u8>, base: Option<Seq<u8>>) -> Option<Seq<u8>>
    decreases ws.len(),
{
    if ws.len() == 0 {
        base
    } else {
        let prev = read_after(ws.drop_last(), h, k, base);
        if ws.last().0 == h && ws.last().1 == k {
            step(prev, ws.last())
        } else {
            prev
        }
    }
}

/// A key reads as the writes to it, in order, leave it, starting from what it held.
pub proof fn lemma_read_through(d: Seq<Map<Seq<u8>, Seq<u8>>>, ws: Seq<OpView>, h: usize, k: Seq<u8>)
    requires
        h < d.len(),
        ops_fit(d.len(), ws),
    ensures
        value_at(apply_ops(d, ws), h as int, k) == read_after(ws, h, k, value_at(d, h as int, k)),
    decreases ws.len(),
{
    if ws.len() > 0 {
        let rest = ws.drop_last();
        assert(ops_fit(d.len(), rest)) by {
            assert forall|i: int| 0 <= i < rest.len() implies (#[trigger] rest[i]).0 < d.len() by {
                assert(rest[i] == ws[i]);
            }
        }
        lemma_read_through(d, rest, h, k);
        crate::batch::lemma_apply_ops_len(d, rest);
        assert(ws.last() == ws[ws.len() - 1]);
    }
}

/// A transaction reads back its own pending put: after buffering `v` under `k` in column
/// family `h`, its view of any database contents `d` holds `v` there.
pub proof fn lemma_reads_own_put(d: Seq<Map<Seq<u8>, Seq<u8>>>, ws: Seq<OpView>, h: usize, k: Seq<u8>, v: Seq<u8>)
    requires
        h < d.len(),
        ops_fit(d.len(), ws),
    ensures
        value_at(apply_ops(d, ws.push((h, k, Some(v), false))), h as int, k) == Some(v),
{
    let ws2 = ws.push((h, k, Some(v), false));
    assert(ops_fit(d.len(), ws2)) by {
        assert forall|i: int| 0 <= i < ws2.len() implies (#[trigger] ws2[i]).0 < d.len() by {
            if i < ws.len() { assert(ws2[i] == ws[i]); }
        }
    }
    lemma_read_through(d, ws2, h, k);
}

/// Nothing written by the transaction changed in the database since it was written:
/// each write's key still holds what it held when the write was buffered.
pub open spec fn unchanged_since(d: Seq<Map<Seq<u8>, Seq<u8>>>, ws: Seq<OpView>, bases: Seq<Option<Seq<u8>>>) -> bool {
    forall|i: int| 0 <= i < ws.len() ==> value_at(d, (#[trigger] ws[i]).0 as int, ws[i].1) == bases[i]
}

/// A transaction, bound to the database that began it (known by its path). While active
/// it buffers its writes and reads them back; a commit applies them to that database, a
/// rollback drops them. Used with any other database, it refuses.
#[derive(Debug)]
pub struct Transaction {
    origin: String,
    writes: Vec<WriteOp>,
    bases: Vec<Option<Vec<u8>>>,
    state: TxnState,
}

pub open spec fn opt_view(o: Option<Vec<u8>>) -> Option<Seq<u8>> {
    match o {
        Some(v) => Some(v@),
        None => None,
    }
}

/// Whether two optional values hold the same bytes.
fn same_value(a: &Option<Vec<u8>>, b: &Option<Vec<u8>>) -> (r: bool)
    ensures
        r == (opt_view(*a) == opt_view(*b)),
{
    match (a, b) {
        (Some(x), Some(y)) => compare_keys(x.as_slice(), y.as_slice()) == 0,
        (None, None) => true,
        _ => false,
    }
}

impl Transaction {
    /// The buffered writes, in order.
    pub closed spec fn writes(&self) -> Seq<OpView> {
        ops_view(self.writes@)
    }

    /// For each buffered write, what its key held in the database when it was buffered.
    pub closed spec fn bases(&self) -> Seq<Option<Seq<u8>>> {
        self.bases@.map_values(|o: Option<Vec<u8>>| opt_view(o))
    }

    pub closed spec fn spec_state(&self) -> TxnState {
        self.state
    }

    pub open spec fn is_active(&self) -> bool {
        self.spec_state() == TxnState::Active
    }

    /// The path of the database that began the transaction; it is bound to that database.
    pub closed spec fn origin(&self) -> Seq<char> {
        self.origin@
    }

    /// The transaction is active and `db` is the database that began it.
    pub open spec fn usable_with<T: ThreadMode>(&self, db: &TransactionDB<T>) -> bool {
        self.is_active() && self.origin() == db.path_view()
    }

    pub closed spec fn wf(&self) -> bool {
        self.writes@.len() == self.bases@.len()
    }

    /// What the transaction reads of database contents `d`: them with its writes applied.
    pub open spec fn view_of(&self, d: Seq<Map<Seq<u8>, Seq<u8>>>) -> Seq<Map<Seq<u8>, Seq<u8>>> {
        apply_ops(d, self.writes())
    }

    pub(crate) fn begin(origin: &str) -> (t: Transaction)
        ensures
            t.is_active(),
            t.origin() == origin@,
            t.wf(),
            t.writes() == Seq::<OpView>::empty(),
            t.bases() == Seq::<Option<Seq<u8>>>::empty(),
    {
        let t = Transaction { origin: origin.to_owned(), writes: Vec::new(), bases: Vec::new(), state: TxnState::Active };
        assert(t.writes() =~= Seq::<OpView>::empty());
        assert(t.bases() =~= Seq::<Option<Seq<u8>>>::empty());
        t
    }

    /// Where the transaction stands.
    pub fn state(&self) -> (s: TxnState)
        ensures
            s == self.spec_state(),
    {
        self.state
    }

    /// Whether `db` is the database that began the transaction.
    fn bound_to<T: ThreadMode>(&self, db: &TransactionDB<T>) -> (r: bool)
        ensures
            r == (self.origin() == db.path_view()),
    {
        let p = db.path().to_owned();
        self.origin == p
    }

    fn buffer<T: ThreadMode>(&mut self, db: &TransactionDB<T>, op: WriteOp) -> (r: Result<(), Error>)
        requires
            old(self).wf(),
            db.wf(),
        ensures
            final(self).wf(),
            final(self).spec_state() == old(self).spec_state(),
            final(self).origin() == old(self).origin(),
            ops_fit(db.data().len(), old(self).writes()) ==> ops_fit(db.data().len(), final(self).writes()),
            ops_merge_ok(db.merge_flags(), old(self).writes()) ==> ops_merge_ok(db.merge_flags(), final(self).writes()),
            !old(self).usable_with(db) ==> (r matches Err(e) && e.spec_kind() == ErrorKind::InvalidArgument),
            old(self).usable_with(db) && !db.has_cf(op.cf) ==> (r matches Err(e) && e.spec_kind() == ErrorKind::InvalidArgument),
            old(self).usable_with(db) && db.has_cf(op.cf) && op.merge && !db.merge_flags()[op.cf as int] ==> (r matches Err(e)
                && e.spec_kind() == ErrorKind::NotSupported),
            r is Err ==> final(self).writes() == old(self).writes() && final(self).bases() == old(self).bases(),
            old(self).usable_with(db) && db.has_cf(op.cf) && (op.merge ==> db.merge_flags()[op.cf as int]) ==> r is Ok
                && final(self).writes() == old(self).writes().push(op_view(op))
                && final(self).bases() == old(self).bases().push(value_at(db.data(), op.cf as int, op.key@)),
    {
        if self.state != TxnState::Active || !self.bound_to(db) {
            return Err(Error::new(ErrorKind::InvalidArgument, "transaction is not active on this database".to_owned()));
        }
        if op.cf >= db.cf_count() {
            return Err(Error::new(ErrorKind::InvalidArgument, "column family handle does not belong to this database".to_owned()));
        }
        if op.merge && !db.merge_enabled(op.cf) {
            return Err(Error::new(ErrorKind::NotSupported, "no merge operator for this column family".to_owned()));
        }
        let base = db.read(op.cf, op.key.as_slice());
        let ghost ov = op_view(op);
        self.writes.push(op);
        self.bases.push(base);
        assert(self.writes() =~= old(self).writes().push(ov));
        assert(self.bases() =~= old(self).bases().push(value_at(db.data(), ov.0 as int, ov.1)));
        Ok(())
    }

    /// Buffers a put into the default column family.
    pub fn put<T: ThreadMode>(&mut self, db: &TransactionDB<T>, key: &[u8], value: &[u8]) -> (r: Result<(), Error>)
        requires
            old(self).wf(),
            db.wf(),
        ensures
            final(self).wf(),
            final(self).spec_state() == old(self).spec_state(),
            final(self).origin() == old(self).origin(),
            ops_fit(db.data().len(), old(self).writes()) ==> ops_fit(db.data().len(), final(self).writes()),
            ops_merge_ok(db.merge_flags(), old(self).writes()) ==> ops_merge_ok(db.merge_flags(), final(self).writes()),
            r is Ok <==> old(self).usable_with(db),
            r matches Err(e) ==> e.spec_kind() == ErrorKind::InvalidArgument && final(self).writes() == old(self).writes(),
            r is Ok ==> final(self).writes() == old(self).writes().push((0usize, key@, Some(value@), false)),
            r is Ok ==> final(self).bases() == old(self).bases().push(value_at(db.data(), 0, key@)),
    {
        proof { db.lemma_wf(); }
        self.buffer(db, WriteOp { cf: 0, key: copy_bytes(key), value: Some(copy_bytes(value)), merge: false })
    }

    /// Buffers a put into column family `cf`.
    pub fn put_cf<T: ThreadMode>(&mut self, db: &TransactionDB<T>, cf: &ColumnFamily, key: &[u8], value: &[u8]) -> (r: Result<(), Error>)
        requires
            old(self).wf(),
            db.wf(),
        ensures
            final(self).wf(),
            final(self).spec_state() == old(self).spec_state(),
            final(self).origin() == old(self).origin(),
            ops_fit(db.data().len(), old(self).writes()) ==> ops_fit(db.data().len(), final(self).writes()),
            ops_merge_ok(db.merge_flags(), old(self).writes()) ==> ops_merge_ok(db.merge_flags(), final(self).writes()),
            r is Ok <==> old(self).usable_with(db) && db.has_cf(cf.id()),
            r matches Err(e) ==> e.spec_kind() == ErrorKind::InvalidArgument && final(self).writes() == old(self).writes(),
            r is Ok ==> final(self).writes() == old(self).writes().push((cf.id(), key@, Some(value@), false)),
            r is Ok ==> final(self).bases() == old(self).bases().push(value_at(db.data(), cf.id() as int, key@)),
    {
        self.buffer(db, WriteOp { cf: cf.inner(), key: copy_bytes(key), value: Some(copy_bytes(value)), merge: false })
    }

    /// Buffers a merge into the default column family.
    pub fn merge<T: ThreadMode>(&mut self, db: &TransactionDB<T>, key: &[u8], value: &[u8]) -> (r: Result<(), Error>)
        requires
            old(self).wf(),
            db.wf(),
        ensures
            final(self).wf(),
            final(self).spec_state() == old(self).spec_state(),
            final(self).origin() == old(self).origin(),
            ops_fit(db.data().len(), old(self).writes()) ==> ops_fit(db.data().len(), final(self).writes()),
            ops_merge_ok(db.merge_flags(), old(self).writes()) ==> ops_merge_ok(db.merge_flags(), final(self).writes()),
            !old(self).usable_with(db) ==> (r matches Err(e) && e.spec_kind() == ErrorKind::InvalidArgument),
            old(self).usable_with(db) && !db.merge_flags()[0] ==> (r matches Err(e) && e.spec_kind() == ErrorKind::NotSupported),
            r is Err ==> final(self).writes() == old(self).writes(),
            old(self).usable_with(db) && db.merge_flags()[0] ==> r is Ok
                && final(self).writes() == old(self).writes().push((0usize, key@, Some(value@), true)),
            r is Ok ==> final(self).bases() == old(self).bases().push(value_at(db.data(), 0, key@)),
    {
        proof { db.lemma_wf(); }
        self.buffer(db, WriteOp { cf: 0, key: copy_bytes(key), value: Some(copy_bytes(value)), merge: true })
    }

    /// Buffers a merge into column family `cf`.
    pub fn merge_cf<T: ThreadMode>(&mut self, db: &TransactionDB<T>, cf: &ColumnFamily, key: &[u8], value: &[u8]) -> (r: Result<(), Error>)
        requires
            old(self).wf(),
            db.wf(),
        ensures
            final(self).wf(),
            final(self).spec_state() == old(self).spec_state(),
            final(self).origin() == old(self).origin(),
            ops_fit(db.data().len(), old(self).writes()) ==> ops_fit(db.data().len(), final(self).writes()),
            ops_merge_ok(db.merge_flags(), old(self).writes()) ==> ops_merge_ok(db.merge_flags(), final(self).writes()),
            !old(self).usable_with(db) || !db.has_cf(cf.id()) ==> (r matches Err(e) && e.spec_kind() == ErrorKind::InvalidArgument),
            old(self).usable_with(db) && db.has_cf(cf.id()) && !db.merge_flags()[cf.id() as int] ==> (r matches Err(e)
                && e.spec_kind() == ErrorKind::NotSupported),
            r is Err ==> final(self).writes() == old(self).writes(),
            old(self).usable_with(db) && db.has_cf(cf.id()) && db.merge_flags()[cf.id() as int] ==> r is Ok
                && final(self).writes() == old(self).writes().push((cf.id(), key@, Some(value@), true)),
            r is Ok ==> final(self).bases() == old(self).bases().push(value_at(db.data(), cf.id() as int, key@)),
    {
        self.buffer(db, WriteOp { cf: cf.inner(), key: copy_bytes(key), value: Some(copy_bytes(value)), merge: true })
    }

    /// Buffers a delete from the default column family.
    pub fn delete<T: ThreadMode>(&mut self, db: &TransactionDB<T>, key: &[u8]) -> (r: Result<(), Error>)
        requires
            old(self).wf(),
            db.wf(),
        ensures
            final(self).wf(),
            final(self).spec_state() == old(self).spec_state(),
            final(self).origin() == old(self).origin(),
            ops_fit(db.data().len(), old(self).writes()) ==> ops_fit(db.data().len(), final(self).writes()),
            ops_merge_ok(db.merge_flags(), old(self).writes()) ==> ops_merge_ok(db.merge_flags(), final(self).writes()),
            r is Ok <==> old(self).usable_with(db),
            r matches Err(e) ==> e.spec_kind() == ErrorKind::InvalidArgument && final(self).writes() == old(self).writes(),
            r is Ok ==> final(self).writes() == old(self).writes().push((0usize, key@, None, false)),
            r is Ok ==> final(self).bases() == old(self).bases().push(value_at(db.data(), 0, key@)),
    {
        proof { db.lemma_wf(); }
        self.buffer(db, WriteOp { cf: 0, key: copy_bytes(key), value: None, merge: false })
    }

    /// Buffers a delete from column family `cf`.
    pub fn delete_cf<T: ThreadMode>(&mut self, db: &TransactionDB<T>, cf: &ColumnFamily, key: &[u8]) -> (r: Result<(), Error>)
        requires
            old(self).wf(),
            db.wf(),
        ensures
            final(self).wf(),
            final(self).spec_state() == old(self).spec_state(),
            final(self).origin() == old(self).origin(),
            ops_fit(db.data().len(), old(self).writes()) ==> ops_fit(db.data().len(), final(self).writes()),
            ops_merge_ok(db.merge_flags(), old(self).writes()) ==> ops_merge_ok(db.merge_flags(), final(self).writes()),
            r is Ok <==> old(self).usable_with(db) && db.has_cf(cf.id()),
            r matches Err(e) ==> e.spec_kind() == ErrorKind::InvalidArgument && final(self).writes() == old(self).writes(),
            r is Ok ==> final(self).writes() == old(self).writes().push((cf.id(), key@, None, false)),
            r is Ok ==> final(self).bases() == old(self).bases().push(value_at(db.data(), cf.id() as int, key@)),
    {
        self.buffer(db, WriteOp { cf: cf.inner(), key: copy_bytes(key), value: None, merge: false })
    }

    /// What the transaction reads under `key` in column family `h`: the database's value
    /// with the transaction's writes to it applied in order.
    fn read<T: ThreadMode>(&self, db: &TransactionDB<T>, h: usize, key: &[u8]) -> (r: Option<Vec<u8>>)
        requires
            db.wf(),
            db.has_cf(h),
        ensures
            opt_view(r) == read_after(self.writes(), h, key@, value_at(db.data(), h as int, key@)),
    {
        let ghost ws = self.writes();
        let ghost base = value_at(db.data(), h as int, key@);
        let mut cur = db.read(h, key);
        let mut i: usize = 0;
        assert(ws.subrange(0, 0) =~= Seq::<OpView>::empty());
        while i < self.writes.len()
            invariant
                i <= self.writes@.len(),
                ws == self.writes(),
                opt_view(cur) == read_after(ws.subrange(0, i as int), h, key@, base),
            decreases self.writes@.len() - i,
        {
            let op = &self.writes[i];
            let ghost sub = ws.subrange(0, i + 1);
            assert(sub.last() == op_view(*op));
            assert(sub.drop_last() =~= ws.subrange(0, i as int));
            if op.cf == h && compare_keys(op.key.as_slice(), key) == 0 {
                let next = match &op.value {
                    Some(v) => if op.merge {
                        match &cur {
                            Some(p) => Some(concat_bytes(p.as_slice(), v.as_slice())),
                            None => Some(copy_bytes(v.as_slice())),
                        }
                    } else {
                        Some(copy_bytes(v.as_slice()))
                    },
                    None => None,
                };
                cur = next;
            }
            i = i + 1;
        }
        assert(ws.subrange(0, ws.len() as int) =~= ws);
        cur
    }

    /// The value under `key` in the default column family, as the transaction sees it.
    /// Writes buffered against another database's column families are refused.
    pub fn get<T: ThreadMode>(&self, db: &TransactionDB<T>, key: &[u8]) -> (r: Result<Option<Vec<u8>>, Error>)
        requires
            db.wf(),
        ensures
            self.origin() == db.path_view() && ops_fit(db.data().len(), self.writes())
                && ops_merge_ok(db.merge_flags(), self.writes()) ==> (r matches Ok(o)
                && opt_view(o) == value_at(self.view_of(db.data()), 0, key@)
                && opt_view(o) == read_after(self.writes(), 0, key@, value_at(db.data(), 0, key@))),
            self.origin() != db.path_view() || !ops_fit(db.data().len(), self.writes())
                || !ops_merge_ok(db.merge_flags(), self.writes()) ==> (r matches Err(e)
                && e.spec_kind() == ErrorKind::InvalidArgument),
    {
        if !self.bound_to(db) || !db.fits(&self.writes) {
            return Err(Error::new(ErrorKind::InvalidArgument, "transaction does not belong to this database".to_owned()));
        }
        proof {
            db.lemma_wf();
            lemma_read_through(db.data(), self.writes(), 0, key@);
        }
        Ok(self.read(db, 0, key))
    }

    /// The value under `key` in column family `cf`, as the transaction sees it.
    pub fn get_cf<T: ThreadMode>(&self, db: &TransactionDB<T>, cf: &ColumnFamily, key: &[u8]) -> (r: Result<Option<Vec<u8>>, Error>)
        requires
            db.wf(),
        ensures
            db.has_cf(cf.id()) && self.origin() == db.path_view() && ops_fit(db.data().len(), self.writes())
                && ops_merge_ok(db.merge_flags(), self.writes()) ==> (r matches Ok(o)
                && opt_view(o) == value_at(self.view_of(db.data()), cf.id() as int, key@)),
            !db.has_cf(cf.id()) || self.origin() != db.path_view() || !ops_fit(db.data().len(), self.writes())
                || !ops_merge_ok(db.merge_flags(), self.writes()) ==> (r matches Err(e)
                && e.spec_kind() == ErrorKind::InvalidArgument),
    {
        let h = cf.inner();
        if h >= db.cf_count() || !self.bound_to(db) || !db.fits(&self.writes) {
            return Err(Error::new(ErrorKind::InvalidArgument, "column family handle or transaction does not belong to this database".to_owned()));
        }
        proof { lemma_read_through(db.data(), self.writes(), h, key@); }
        Ok(self.read(db, h, key))
    }

    /// Whether the database still holds, under each written key, what it held when the
    /// write was buffered.
    fn validate<T: ThreadMode>(&self, db: &TransactionDB<T>) -> (r: bool)
        requires
            self.wf(),
            db.wf(),
            ops_fit(db.data().len(), self.writes()),
        ensures
            r == unchanged_since(db.data(), self.writes(), self.bases()),
    {
        let mut i: usize = 0;
        while i < self.writes.len()
            invariant
                self.wf(),
                db.wf(),
                ops_fit(db.data().len(), self.writes()),
                i <= self.writes@.len(),
                forall|j: int| 0 <= j < i ==> value_at(db.data(), (#[trigger] self.writes()[j]).0 as int, self.writes()[j].1)
                    == self.bases()[j],
            decreases self.writes@.len() - i,
        {
            assert(self.writes()[i as int] == op_view(self.writes@[i as int]));
            assert(self.writes()[i as int].0 < db.data().len());
            let cur = db.read(self.writes[i].cf, self.writes[i].key.as_slice());
            if !same_value(&cur, &self.bases[i]) {
                assert(value_at(db.data(), self.writes()[i as int].0 as int, self.writes()[i as int].1) != self.bases()[i as int]);
                return false;
            }
            i = i + 1;
        }
        true
    }

    /// Applies the buffered writes to the database, unless one of their keys changed in
    /// the database since it was written here; then nothing is applied and the
    /// transaction stays active.
    pub fn commit<T: ThreadMode>(&mut self, db: &mut TransactionDB<T>) -> (r: Result<(), Error>)
        requires
            old(self).wf(),
            old(db).wf(),
        ensures
            final(self).wf(),
            final(self).origin() == old(self).origin(),
            final(db).wf(),
            final(db).same_layout(old(db)),
            final(self).writes() == old(self).writes(),
            !old(self).usable_with(old(db)) || !ops_fit(old(db).data().len(), old(self).writes())
                || !ops_merge_ok(old(db).merge_flags(), old(self).writes()) ==> (r matches Err(e)
                && e.spec_kind() == ErrorKind::InvalidArgument),
            old(self).usable_with(old(db)) && ops_fit(old(db).data().len(), old(self).writes())
                && ops_merge_ok(old(db).merge_flags(), old(self).writes())
                && !unchanged_since(old(db).data(), old(self).writes(), old(self).bases()) ==> (r matches Err(e)
                && e.spec_kind() == ErrorKind::Busy),
            r is Err ==> final(db).data() == old(db).data() && final(self).spec_state() == old(self).spec_state(),
            old(self).usable_with(old(db)) && ops_fit(old(db).data().len(), old(self).writes())
                && ops_merge_ok(old(db).merge_flags(), old(self).writes())
                && unchanged_since(old(db).data(), old(self).writes(), old(self).bases()) ==> r is Ok
                && final(db).data() == old(self).view_of(old(db).data())
                && final(self).spec_state() == TxnState::Committed,
    {
        if self.state != TxnState::Active || !self.bound_to(db) {
            return Err(Error::new(ErrorKind::InvalidArgument, "transaction is not active on this database".to_owned()));
        }
        if !db.fits(&self.writes) {
            return Err(Error::new(ErrorKind::InvalidArgument, "transaction writes to a column family this database does not have".to_owned()));
        }
        if !self.validate(db) {
            return Err(Error::new(ErrorKind::Busy, "a written key changed since the transaction wrote it".to_owned()));
        }
        db.apply_writes(&self.writes);
        self.state = TxnState::Committed;
        Ok(())
    }

    /// Drops the buffered writes and ends the transaction.
    pub fn rollback(&mut self) -> (r: Result<(), Error>)
        requires
            old(self).wf(),
        ensures
            final(self).wf(),
            final(self).origin() == old(self).origin(),
            r is Ok <==> old(self).is_active(),
            r matches Err(e) ==> e.spec_kind() == ErrorKind::InvalidArgument && *final(self) == *old(self),
            r is Ok ==> final(self).spec_state() == TxnState::RolledBack && final(self).writes().len() == 0,
    {
        if self.state != TxnState::Active {
            return Err(Error::new(ErrorKind::InvalidArgument, "transaction is no longer active".to_owned()));
        }
        self.writes = Vec::new();
        self.bases = Vec::new();
        self.state = TxnState::RolledBack;
        assert(self.writes() =~= Seq::<OpView>::empty());
        Ok(())
    }
}

} // verus!
