//! The database handle: how it is opened, how column families are made and found,
//! the read and write operations, and how it is torn down.
use vstd::prelude::*;
use vstd::utf8::encode_utf8;
use std::sync::Arc;
use crate::bytes::{has_nul, contains_nul, copy_bytes};
use crate::engine::{Engine, EngineCall, default_name, default_cf_name, merged};
use crate::error::{Error, ErrorKind};
use crate::options::{Options, TransactionDBOptions, ReadOptions, WriteOptions, TransactionOptions};
use crate::registry::{ColumnFamily, ThreadMode, SingleThreaded, MultiThreaded, lookup_in,
    distinct_names, lemma_lookup_at};
use crate::table::PairView;
use crate::batch::{WriteBatch, WriteOp, OpView, ops_view, apply_ops, ops_fit, ops_merge_ok, value_at, op_view,
    lemma_apply_ops_len, lemma_apply_ops_push};
use crate::transaction::Transaction;
use crate::snapshot::Snapshot;
use crate::iter::{DBIterator, DBRawIterator, IteratorMode, Direction, scan_view, keys_from, while_prefixed};

verus! {

/// A column family to open: its name and its options.
#[derive(Debug)]
pub struct ColumnFamilyDescriptor {
    pub name: String,
    pub options: Options,
}

impl ColumnFamilyDescriptor {
    pub fn new(name: &str, options: Options) -> (d: ColumnFamilyDescriptor)
        ensures
            d.name@ == name@,
            d.options == options,
    {
        ColumnFamilyDescriptor { name: name.to_owned(), options }
    }
}

/// A descriptor as a name and whether its column family merges.
pub open spec fn desc_view(d: ColumnFamilyDescriptor) -> (Seq<char>, bool) {
    (d.name@, d.options.concat_merge)
}

/// The descriptors as opened: a default descriptor with default options is appended
/// when none is named so.
pub open spec fn with_default(ds: Seq<(Seq<char>, bool)>) -> Seq<(Seq<char>, bool)> {
    if exists|i: int| 0 <= i < ds.len() && ds[i].0 == default_name() {
        ds
    } else {
        ds.push((default_name(), false))
    }
}

/// The text holds a zero byte once encoded, so the engine cannot take it as a name.
pub open spec fn text_has_nul(s: Seq<char>) -> bool {
    has_nul(encode_utf8(s))
}

/// A set of descriptors that the engine opens on a fresh database: names without zero
/// bytes, no name twice, and no name but the default's unless missing ones are to be made.
pub open spec fn descs_acceptable(ds: Seq<(Seq<char>, bool)>, create_missing: bool) -> bool {
    &&& forall|i: int| 0 <= i < ds.len() ==> !text_has_nul(#[trigger] ds[i].0)
    &&& forall|i: int, j: int| 0 <= i < j < ds.len() ==> (#[trigger] ds[i]).0 != (#[trigger] ds[j]).0
    &&& create_missing || forall|i: int| 0 <= i < ds.len() ==> (#[trigger] ds[i]).0 == default_name()
}

/// Whether `s` has a zero byte once encoded.
fn str_has_nul(s: &str) -> (r: bool)
    ensures
        r == text_has_nul(s@),
{
    contains_nul(s.as_bytes())
}

/// An open transactional database; `T` is the policy of its column-family registry.
pub struct TransactionDB<T: ThreadMode = SingleThreaded> {
    engine: Engine,
    cfs: T,
    path: String,
}

impl<T: ThreadMode> TransactionDB<T> {
    /// The contents of each column family, by handle number.
    pub closed spec fn data(&self) -> Seq<Map<Seq<u8>, Seq<u8>>> {
        self.engine.data()
    }

    /// The contents of each column family in key order, by handle number.
    pub closed spec fn ordered(&self) -> Seq<Seq<PairView>> {
        self.engine.pairs()
    }

    /// The name of each column family, by handle number.
    pub closed spec fn cf_names(&self) -> Seq<Seq<char>> {
        self.engine.names()
    }

    /// Whether each column family merges, by handle number.
    pub closed spec fn merge_flags(&self) -> Seq<bool> {
        self.engine.merges()
    }

    /// The registry: names with their handles, in registration order.
    pub closed spec fn registry(&self) -> Seq<(Seq<char>, usize)> {
        self.cfs.entries()
    }

    /// The path the database was opened at.
    pub closed spec fn path_view(&self) -> Seq<char> {
        self.path@
    }

    /// The handle that the registry holds under `name`.
    pub open spec fn handle_of(&self, name: Seq<char>) -> Option<usize> {
        lookup_in(self.registry(), name)
    }

    /// Whether `h` numbers a column family of this database.
    pub open spec fn has_cf(&self, h: usize) -> bool {
        h < self.data().len()
    }

    pub closed spec fn wf(&self) -> bool {
        &&& self.engine.wf()
        &&& self.engine.calls().len() == 0
        &&& distinct_names(self.cfs.entries())
        &&& forall|i: int| 0 <= i < self.cfs.entries().len() ==> {
            let e = #[trigger] self.cfs.entries()[i];
            e.1 < self.engine.data().len() && self.engine.names()[e.1 as int] == e.0
        }
    }

    /// What holds of every well-formed database.
    pub proof fn lemma_wf(&self)
        requires
            self.wf(),
        ensures
            self.data().len() > 0,
            self.cf_names().len() == self.data().len(),
            self.merge_flags().len() == self.data().len(),
            self.ordered().len() == self.data().len(),
            distinct_names(self.registry()),
            forall|i: int| 0 <= i < self.registry().len() ==> {
                let e = #[trigger] self.registry()[i];
                e.1 < self.data().len() && self.cf_names()[e.1 as int] == e.0
            },
            forall|i: int| 0 <= i < self.data().len() ==> crate::table::sorted_keys(#[trigger] self.ordered()[i]),
            forall|i: int| 0 <= i < self.data().len() ==> #[trigger] self.data()[i] == crate::table::pairs_map(self.ordered()[i]),
    {
        self.engine.lemma_wf();
    }

    /// Opens, making the database if it is missing, with default options.
    /// `dir` is the outcome of making the database's directory.
    pub fn open_default(path: &str, dir: Result<(), String>) -> (r: Result<Self, Error>)
        ensures
            open_outcome(
                r,
                (Options { create_if_missing: true, create_missing_column_families: false, concat_merge: false }),
                path@,
                Seq::empty(),
                dir,
            ),
    {
        let mut opts = Options::default();
        opts.create_if_missing(true);
        let txn_db_opts = TransactionDBOptions::default();
        Self::open(&opts, &txn_db_opts, path, dir)
    }

    /// Opens with the given options and only the default column family.
    pub fn open(opts: &Options, txn_db_opts: &TransactionDBOptions, path: &str, dir: Result<(), String>) -> (r: Result<Self, Error>)
        ensures
            open_outcome(r, *opts, path@, Seq::empty(), dir),
    {
        let none: Vec<ColumnFamilyDescriptor> = Vec::new();
        assert(Seq::new(none@.len(), |i: int| desc_view(none@[i])) =~= Seq::<(Seq<char>, bool)>::empty());
        Self::open_cf_descriptors(opts, txn_db_opts, path, none, dir)
    }

    /// Opens with the given column families, each with default options.
    pub fn open_cf(opts: &Options, txn_db_opts: &TransactionDBOptions, path: &str, cfs: Vec<String>, dir: Result<(), String>) -> (r: Result<Self, Error>)
        ensures
            ({
                let ds = Seq::new(cfs@.len(), |i: int| (cfs@[i]@, false));
                open_outcome(r, *opts, path@, ds, dir)
            }),
    {
        let mut descs: Vec<ColumnFamilyDescriptor> = Vec::new();
        let mut i: usize = 0;
        while i < cfs.len()
            invariant
                i <= cfs@.len(),
                descs@.len() == i,
                forall|j: int| 0 <= j < i ==> desc_view(#[trigger] descs@[j]) == (cfs@[j]@, false),
            decreases cfs@.len() - i,
        {
            descs.push(ColumnFamilyDescriptor::new(cfs[i].as_str(), Options::default()));
            i = i + 1;
        }
        let r = Self::open_cf_descriptors(opts, txn_db_opts, path, descs, dir);
        assert(Seq::new(descs@.len(), |i: int| desc_view(descs@[i])) =~= Seq::new(cfs@.len(), |i: int| (cfs@[i]@, false)));
        r
    }

    /// Opens with the given column-family descriptors.
    #[verifier::rlimit(40)]
    pub fn open_cf_descriptors(opts: &Options, _txn_db_opts: &TransactionDBOptions, path: &str, cfs: Vec<ColumnFamilyDescriptor>, dir: Result<(), String>) -> (r: Result<Self, Error>)
        ensures
            open_outcome(r, *opts, path@, Seq::new(cfs@.len(), |i: int| desc_view(cfs@[i])), dir),
    {
        let ghost ds = Seq::new(cfs@.len(), |i: int| desc_view(cfs@[i]));
        if str_has_nul(path) {
            return Err(Error::new(ErrorKind::InvalidArgument, "path holds a zero byte".to_owned()));
        }
        match dir {
            Err(msg) => {
                return Err(Error::new(ErrorKind::Io, msg));
            },
            Ok(()) => {},
        }
        if !opts.create_if_missing {
            return Err(Error::new(ErrorKind::InvalidArgument, "database does not exist (create_if_missing is false)".to_owned()));
        }
        if cfs.len() == 0 {
            let engine = Engine::open(opts.concat_merge);
            let db = TransactionDB { engine, cfs: T::new_cf_map(Vec::new(), Vec::new()), path: path.to_owned() };
            assert(db.registry().len() == 0);
            return Ok(db);
        }
        if !descs_ok(&cfs, opts.create_missing_column_families) {
            return Err(Error::new(ErrorKind::InvalidArgument, "column families cannot be opened as described".to_owned()));
        }
        let mut cfs = cfs;
        let default_at = find_default(&cfs);
        if default_at.is_none() {
            cfs.push(ColumnFamilyDescriptor { name: default_cf_name(), options: Options::default() });
        }
        let ghost nds = Seq::new(cfs@.len(), |i: int| desc_view(cfs@[i]));
        proof {
            if default_at is None {
                assert(nds =~= ds.push((default_name(), false)));
                assert(!exists|i: int| 0 <= i < ds.len() && ds[i].0 == default_name()) by {
                    if exists|i: int| 0 <= i < ds.len() && ds[i].0 == default_name() {
                        let i = choose|i: int| 0 <= i < ds.len() && ds[i].0 == default_name();
                        assert(cfs@[i].name@ != default_name());
                    }
                }
            } else {
                assert(nds =~= ds);
                let d = default_at->Some_0 as int;
                assert(ds[d].0 == default_name());
            }
            assert(nds == with_default(ds));
        }
        let default_merge = match default_at {
            Some(i) => cfs[i].options.concat_merge,
            None => false,
        };
        let mut engine = Engine::open(default_merge);
        let mut names: Vec<String> = Vec::new();
        let mut handles: Vec<usize> = Vec::new();
        let mut i: usize = 0;
        while i < cfs.len()
            invariant
                nds == Seq::new(cfs@.len(), |i: int| desc_view(cfs@[i])),
                nds == with_default(ds),
                descs_acceptable(ds, opts.create_missing_column_families),
                i <= cfs@.len(),
                engine.wf(),
                engine.calls().len() == 0,
                engine.data().len() > 0,
                engine.names().len() == engine.data().len(),
                engine.merges().len() == engine.data().len(),
                engine.names()[0] == default_name(),
                engine.merges()[0] == default_merge,
                default_at matches Some(d) ==> d < nds.len() && nds[d as int] == (default_name(), default_merge),
                default_at is None ==> nds.last() == (default_name(), default_merge),
                names@.len() == i,
                handles@.len() == i,
                forall|j: int| 0 <= j < engine.data().len() ==> #[trigger] engine.data()[j] == Map::<Seq<u8>, Seq<u8>>::empty(),
                forall|j: int| 0 <= j < i ==> #[trigger] opened_as(names@, handles@, engine.names(), engine.merges(), nds, j),
                forall|h: int| 0 < h < engine.data().len() ==> #[trigger] made_for(handles@, i as int, engine.names(), nds, h),
                forall|j: int| 0 <= j < i && nds[j].0 == default_name() ==> #[trigger] handles@[j] == 0,
            decreases cfs@.len() - i,
        {
            proof { engine.lemma_wf(); }
            let ghost e0 = engine;
            let ghost names0 = names@;
            let ghost handles0 = handles@;
            let is_default = cfs[i].name == default_cf_name();
            let h: usize;
            if is_default {
                h = 0;
                proof {
                    assert forall|hh: int| 0 < hh < engine.data().len() implies #[trigger] made_for(handles@.push(h), i + 1, engine.names(), nds, hh) by {
                        assert(made_for(handles@, i as int, engine.names(), nds, hh));
                        let j = choose|j: int| 0 <= j < i && handles@[j] == hh && engine.names()[hh] == nds[j].0;
                        assert(handles@.push(h)[j] == hh);
                    }
                    assert(nds[i as int].0 == default_name());
                    if default_at is Some {
                        let d = default_at->Some_0;
                        assert(d == i) by {
                            if d != i {
                                if (d as int) < (i as int) { assert(nds[d as int].0 != nds[i as int].0); }
                                else { assert(nds[i as int].0 != nds[d as int].0); }
                            }
                        }
                    } else {
                        assert(i == nds.len() - 1) by {
                            if i < nds.len() - 1 {
                                assert(ds[i as int] == nds[i as int]);
                            }
                        }
                    }
                }
            } else {
                let ghost before = engine;
                proof {
                    assert(nds[i as int].0 == cfs@[i as int].name@);
                    assert(!engine.names().contains(nds[i as int].0)) by {
                        if engine.names().contains(nds[i as int].0) {
                            let hh = choose|hh: int| 0 <= hh < engine.names().len() && engine.names()[hh] == nds[i as int].0;
                            if hh > 0 {
                                assert(made_for(handles@, i as int, engine.names(), nds, hh));
                                let j = choose|j: int| 0 <= j < i && handles@[j] == hh && engine.names()[hh] == nds[j].0;
                                if default_at is None && i == nds.len() - 1 {
                                } else {
                                    assert(ds[j] == nds[j] && ds[i as int] == nds[i as int]);
                                    assert(ds[j].0 != ds[i as int].0);
                                }
                                if default_at is None && i == nds.len() - 1 {
                                    assert(nds[i as int].0 == default_name());
                                }
                            }
                        }
                    }
                }
                match engine.create_cf(&cfs[i].name, cfs[i].options.concat_merge) {
                    Some(nh) => {
                        h = nh;
                        proof {
                            assert forall|hh: int| 0 < hh < engine.data().len() implies #[trigger] made_for(handles@.push(h), i + 1, engine.names(), nds, hh) by {
                                if hh == h {
                                    assert(handles@.push(h)[i as int] == hh);
                                } else {
                                    assert(hh < before.data().len());
                                    assert(engine.names()[hh] == before.names()[hh]);
                                    assert(made_for(handles@, i as int, before.names(), nds, hh));
                                    let j = choose|j: int| 0 <= j < i && handles@[j] == hh && before.names()[hh] == nds[j].0;
                                    assert(handles@.push(h)[j] == hh);
                                }
                            }
                        }
                    },
                    None => {
                        return Err(Error::new(ErrorKind::InvalidArgument, "column family already exists".to_owned()));
                    },
                }
            }
            names.push(cfs[i].name.clone());
            handles.push(h);
            proof {
                assert(nds[i as int] == desc_view(cfs@[i as int]));
                assert(forall|x: int| 0 <= x < e0.names().len() ==> engine.names()[x] == e0.names()[x]
                    && engine.merges()[x] == e0.merges()[x]);
                assert forall|j: int| 0 <= j < i + 1 implies #[trigger] opened_as(names@, handles@, engine.names(), engine.merges(), nds, j) by {
                    if j < i {
                        assert(opened_as(names0, handles0, e0.names(), e0.merges(), nds, j));
                        assert(names@[j] == names0[j]);
                        assert(handles@[j] == handles0[j]);
                    }
                }
            }
            i = i + 1;
        }
        let ghost fnames = names@;
        let ghost fhandles = handles@;
        let db = TransactionDB { engine, cfs: T::new_cf_map(names, handles), path: path.to_owned() };
        proof {
            let reg = db.registry();
            assert forall|a: int| 0 <= a < reg.len() implies #[trigger] reg[a] == (nds[a].0, fhandles[a])
                && fhandles[a] < db.engine.data().len()
                && db.engine.names()[fhandles[a] as int] == nds[a].0
                && db.engine.merges()[fhandles[a] as int] == nds[a].1 by {
                assert(opened_as(fnames, fhandles, db.engine.names(), db.engine.merges(), nds, a));
            }
            assert forall|a: int, b: int| 0 <= a < b < reg.len() implies (#[trigger] reg[a]).0 != (#[trigger] reg[b]).0 by {
                assert(reg[a].0 == nds[a].0 && reg[b].0 == nds[b].0);
                if default_at is None && b == nds.len() - 1 {
                    assert(ds[a] == nds[a]);
                } else {
                    assert(ds[a] == nds[a] && ds[b] == nds[b]);
                }
            }
            db.lemma_open_registry(nds);
            let dd: int = if default_at is Some { default_at->Some_0 as int } else { nds.len() - 1 };
            assert(nds[dd].0 == default_name());
            assert forall|h: int| 0 <= h < db.data().len() implies #[trigger] is_registered(db.registry(), h) by {
                if h == 0 {
                    assert(reg_handle(db.registry(), dd) == 0);
                } else {
                    assert(made_for(handles@, nds.len() as int, db.engine.names(), nds, h));
                    let j = choose|j: int| 0 <= j < nds.len() && handles@[j] == h && db.engine.names()[h] == nds[j].0;
                    assert(reg_handle(db.registry(), j) == h);
                }
            }
        }
        Ok(db)
    }

    /// After a new column family `h` named `name` is registered, the database is well formed
    /// and the name leads to `h`.
    proof fn lemma_registered(&self, before: Self, name: Seq<char>, h: usize)
        requires
            before.wf(),
            !before.cf_names().contains(name),
            h == before.data().len(),
            self.engine.wf(),
            self.engine.calls().len() == 0,
            self.cf_names() == before.cf_names().push(name),
            self.data() == before.data().push(Map::empty()),
            self.registry() == before.registry().push((name, h)),
        ensures
            self.wf(),
            self.handle_of(name) == Some(h),
    {
        before.lemma_wf();
        let reg = self.registry();
        assert forall|a: int, b: int| 0 <= a < b < reg.len() implies (#[trigger] reg[a]).0 != (#[trigger] reg[b]).0 by {
            if b == reg.len() - 1 {
                assert(before.cf_names()[reg[a].1 as int] == reg[a].0);
            }
        }
        assert forall|i: int| 0 <= i < reg.len() implies {
            let e = #[trigger] reg[i];
            e.1 < self.engine.data().len() && self.engine.names()[e.1 as int] == e.0
        } by {
            if i < reg.len() - 1 {
                assert(reg[i] == before.registry()[i]);
            }
        }
        lemma_lookup_at(reg, reg.len() - 1);
    }

    proof fn lemma_open_registry(&self, nds: Seq<(Seq<char>, bool)>)
        requires
            self.wf(),
            self.registry().len() == nds.len(),
            forall|j: int| 0 <= j < nds.len() ==> (#[trigger] self.registry()[j]).0 == nds[j].0
                && self.merge_flags()[self.registry()[j].1 as int] == nds[j].1,
        ensures
            forall|j: int| 0 <= j < nds.len() ==> #[trigger] self.handle_of(nds[j].0) == Some(self.registry()[j].1),
    {
        assert forall|j: int| 0 <= j < nds.len() implies #[trigger] self.handle_of(nds[j].0) == Some(self.registry()[j].1) by {
            lemma_lookup_at(self.registry(), j);
        }
    }

    /// Everything but the contents is as in `other`.
    pub open spec fn same_layout(&self, other: &Self) -> bool {
        &&& self.cf_names() == other.cf_names()
        &&& self.merge_flags() == other.merge_flags()
        &&& self.registry() == other.registry()
        &&& self.path_view() == other.path_view()
    }

    /// The number of column families.
    pub(crate) fn cf_count(&self) -> (n: usize)
        requires
            self.wf(),
        ensures
            n == self.data().len(),
    {
        self.engine.cf_count()
    }

    /// Whether column family `h` has a merge operator.
    pub(crate) fn merge_enabled(&self, h: usize) -> (r: bool)
        requires
            self.wf(),
            self.has_cf(h),
        ensures
            r == self.merge_flags()[h as int],
    {
        proof { self.lemma_wf(); }
        self.engine.merge_enabled(h)
    }

    /// Refuses a handle that numbers no column family of this database.
    fn check_cf(&self, h: usize) -> (r: Result<(), Error>)
        requires
            self.wf(),
        ensures
            r is Ok <==> self.has_cf(h),
            r matches Err(e) ==> e.spec_kind() == ErrorKind::InvalidArgument,
    {
        if h < self.engine.cf_count() {
            Ok(())
        } else {
            Err(Error::new(ErrorKind::InvalidArgument, "column family handle does not belong to this database".to_owned()))
        }
    }

    /// The value under `key` in the default column family.
    pub fn get(&self, key: &[u8]) -> (r: Result<Option<Vec<u8>>, Error>)
        requires
            self.wf(),
        ensures
            r matches Ok(o) && read_of(o, self.data()[0], key@),
    {
        self.get_opt(key, &ReadOptions::default())
    }

    /// The value under `key` in column family `cf`.
    pub fn get_cf(&self, cf: &ColumnFamily, key: &[u8]) -> (r: Result<Option<Vec<u8>>, Error>)
        requires
            self.wf(),
        ensures
            self.has_cf(cf.id()) ==> (r matches Ok(o) && read_of(o, self.data()[cf.id() as int], key@)),
            !self.has_cf(cf.id()) ==> (r matches Err(e) && e.spec_kind() == ErrorKind::InvalidArgument),
    {
        self.get_cf_opt(cf, key, &ReadOptions::default())
    }

    /// The value under `key` in the default column family, read with `readopts`.
    pub fn get_opt(&self, key: &[u8], _readopts: &ReadOptions) -> (r: Result<Option<Vec<u8>>, Error>)
        requires
            self.wf(),
        ensures
            r matches Ok(o) && read_of(o, self.data()[0], key@),
    {
        proof { self.lemma_wf(); }
        Ok(self.engine.get(0, key))
    }

    /// The value under `key` in column family `cf`, read with `readopts`.
    pub fn get_cf_opt(&self, cf: &ColumnFamily, key: &[u8], _readopts: &ReadOptions) -> (r: Result<Option<Vec<u8>>, Error>)
        requires
            self.wf(),
        ensures
            self.has_cf(cf.id()) ==> (r matches Ok(o) && read_of(o, self.data()[cf.id() as int], key@)),
            !self.has_cf(cf.id()) ==> (r matches Err(e) && e.spec_kind() == ErrorKind::InvalidArgument),
    {
        let h = cf.inner();
        match self.check_cf(h) {
            Err(e) => Err(e),
            Ok(()) => Ok(self.engine.get(h, key)),
        }
    }

    /// Stores `value` under `key` in the default column family.
    pub fn put(&mut self, key: &[u8], value: &[u8]) -> (r: Result<(), Error>)
        requires
            old(self).wf(),
        ensures
            r is Ok,
            final(self).wf(),
            final(self).same_layout(old(self)),
            final(self).data() == old(self).data().update(0, old(self).data()[0].insert(key@, value@)),
    {
        self.put_opt(key, value, &WriteOptions::default())
    }

    /// Stores `value` under `key` in column family `cf`.
    pub fn put_cf(&mut self, cf: &ColumnFamily, key: &[u8], value: &[u8]) -> (r: Result<(), Error>)
        requires
            old(self).wf(),
        ensures
            final(self).wf(),
            final(self).same_layout(old(self)),
            r is Ok <==> old(self).has_cf(cf.id()),
            r matches Err(e) ==> e.spec_kind() == ErrorKind::InvalidArgument && final(self).data() == old(self).data(),
            r is Ok ==> final(self).data() == old(self).data().update(
                cf.id() as int,
                old(self).data()[cf.id() as int].insert(key@, value@),
            ),
    {
        self.put_cf_opt(cf, key, value, &WriteOptions::default())
    }

    /// Stores `value` under `key` in the default column family, written with `writeopts`.
    pub fn put_opt(&mut self, key: &[u8], value: &[u8], _writeopts: &WriteOptions) -> (r: Result<(), Error>)
        requires
            old(self).wf(),
        ensures
            r is Ok,
            final(self).wf(),
            final(self).same_layout(old(self)),
            final(self).data() == old(self).data().update(0, old(self).data()[0].insert(key@, value@)),
    {
        proof { self.lemma_wf(); }
        self.engine.put(0, key, value);
        Ok(())
    }

    /// Stores `value` under `key` in column family `cf`, written with `writeopts`.
    pub fn put_cf_opt(&mut self, cf: &ColumnFamily, key: &[u8], value: &[u8], _writeopts: &WriteOptions) -> (r: Result<(), Error>)
        requires
            old(self).wf(),
        ensures
            final(self).wf(),
            final(self).same_layout(old(self)),
            r is Ok <==> old(self).has_cf(cf.id()),
            r matches Err(e) ==> e.spec_kind() == ErrorKind::InvalidArgument && final(self).data() == old(self).data(),
            r is Ok ==> final(self).data() == old(self).data().update(
                cf.id() as int,
                old(self).data()[cf.id() as int].insert(key@, value@),
            ),
    {
        let h = cf.inner();
        match self.check_cf(h) {
            Err(e) => Err(e),
            Ok(()) => {
                self.engine.put(h, key, value);
                Ok(())
            },
        }
    }

    /// Merges `value` into what is under `key` in the default column family.
    pub fn merge(&mut self, key: &[u8], value: &[u8]) -> (r: Result<(), Error>)
        requires
            old(self).wf(),
        ensures
            final(self).wf(),
            final(self).same_layout(old(self)),
            r is Ok <==> old(self).merge_flags()[0],
            r matches Err(e) ==> e.spec_kind() == ErrorKind::NotSupported && final(self).data() == old(self).data(),
            r is Ok ==> final(self).data() == old(self).data().update(
                0,
                old(self).data()[0].insert(key@, merged(old(self).data()[0], key@, value@)),
            ),
    {
        self.merge_opt(key, value, &WriteOptions::default())
    }

    /// Merges `value` into what is under `key` in column family `cf`.
    pub fn merge_cf(&mut self, cf: &ColumnFamily, key: &[u8], value: &[u8]) -> (r: Result<(), Error>)
        requires
            old(self).wf(),
        ensures
            final(self).wf(),
            final(self).same_layout(old(self)),
            !old(self).has_cf(cf.id()) ==> (r matches Err(e) && e.spec_kind() == ErrorKind::InvalidArgument),
            old(self).has_cf(cf.id()) && !old(self).merge_flags()[cf.id() as int] ==> (r matches Err(e)
                && e.spec_kind() == ErrorKind::NotSupported),
            r is Err ==> final(self).data() == old(self).data(),
            old(self).has_cf(cf.id()) && old(self).merge_flags()[cf.id() as int] ==> r is Ok
                && final(self).data() == old(self).data().update(
                cf.id() as int,
                old(self).data()[cf.id() as int].insert(key@, merged(old(self).data()[cf.id() as int], key@, value@)),
            ),
    {
        self.merge_cf_opt(cf, key, value, &WriteOptions::default())
    }

    /// Merges `value` into what is under `key` in the default column family, written with `writeopts`.
    pub fn merge_opt(&mut self, key: &[u8], value: &[u8], _writeopts: &WriteOptions) -> (r: Result<(), Error>)
        requires
            old(self).wf(),
        ensures
            final(self).wf(),
            final(self).same_layout(old(self)),
            r is Ok <==> old(self).merge_flags()[0],
            r matches Err(e) ==> e.spec_kind() == ErrorKind::NotSupported && final(self).data() == old(self).data(),
            r is Ok ==> final(self).data() == old(self).data().update(
                0,
                old(self).data()[0].insert(key@, merged(old(self).data()[0], key@, value@)),
            ),
    {
        proof { self.lemma_wf(); }
        if !self.engine.merge_enabled(0) {
            return Err(Error::new(ErrorKind::NotSupported, "no merge operator for this column family".to_owned()));
        }
        self.engine.merge(0, key, value);
        Ok(())
    }

    /// Merges `value` into what is under `key` in column family `cf`, written with `writeopts`.
    pub fn merge_cf_opt(&mut self, cf: &ColumnFamily, key: &[u8], value: &[u8], _writeopts: &WriteOptions) -> (r: Result<(), Error>)
        requires
            old(self).wf(),
        ensures
            final(self).wf(),
            final(self).same_layout(old(self)),
            !old(self).has_cf(cf.id()) ==> (r matches Err(e) && e.spec_kind() == ErrorKind::InvalidArgument),
            old(self).has_cf(cf.id()) && !old(self).merge_flags()[cf.id() as int] ==> (r matches Err(e)
                && e.spec_kind() == ErrorKind::NotSupported),
            r is Err ==> final(self).data() == old(self).data(),
            old(self).has_cf(cf.id()) && old(self).merge_flags()[cf.id() as int] ==> r is Ok
                && final(self).data() == old(self).data().update(
                cf.id() as int,
                old(self).data()[cf.id() as int].insert(key@, merged(old(self).data()[cf.id() as int], key@, value@)),
            ),
    {
        proof { self.lemma_wf(); }
        let h = cf.inner();
        match self.check_cf(h) {
            Err(e) => Err(e),
            Ok(()) => {
                if !self.engine.merge_enabled(h) {
                    return Err(Error::new(ErrorKind::NotSupported, "no merge operator for this column family".to_owned()));
                }
                self.engine.merge(h, key, value);
                Ok(())
            },
        }
    }

    /// Removes `key` from the default column family.
    pub fn delete(&mut self, key: &[u8]) -> (r: Result<(), Error>)
        requires
            old(self).wf(),
        ensures
            r is Ok,
            final(self).wf(),
            final(self).same_layout(old(self)),
            final(self).data() == old(self).data().update(0, old(self).data()[0].remove(key@)),
    {
        self.delete_opt(key, &WriteOptions::default())
    }

    /// Removes `key` from column family `cf`.
    pub fn delete_cf(&mut self, cf: &ColumnFamily, key: &[u8]) -> (r: Result<(), Error>)
        requires
            old(self).wf(),
        ensures
            final(self).wf(),
            final(self).same_layout(old(self)),
            r is Ok <==> old(self).has_cf(cf.id()),
            r matches Err(e) ==> e.spec_kind() == ErrorKind::InvalidArgument && final(self).data() == old(self).data(),
            r is Ok ==> final(self).data() == old(self).data().update(
                cf.id() as int,
                old(self).data()[cf.id() as int].remove(key@),
            ),
    {
        self.delete_cf_opt(cf, key, &WriteOptions::default())
    }

    /// Removes `key` from the default column family, written with `writeopts`.
    pub fn delete_opt(&mut self, key: &[u8], _writeopts: &WriteOptions) -> (r: Result<(), Error>)
        requires
            old(self).wf(),
        ensures
            r is Ok,
            final(self).wf(),
            final(self).same_layout(old(self)),
            final(self).data() == old(self).data().update(0, old(self).data()[0].remove(key@)),
    {
        proof { self.lemma_wf(); }
        self.engine.delete(0, key);
        Ok(())
    }

    /// Removes `key` from column family `cf`, written with `writeopts`.
    pub fn delete_cf_opt(&mut self, cf: &ColumnFamily, key: &[u8], _writeopts: &WriteOptions) -> (r: Result<(), Error>)
        requires
            old(self).wf(),
        ensures
            final(self).wf(),
            final(self).same_layout(old(self)),
            r is Ok <==> old(self).has_cf(cf.id()),
            r matches Err(e) ==> e.spec_kind() == ErrorKind::InvalidArgument && final(self).data() == old(self).data(),
            r is Ok ==> final(self).data() == old(self).data().update(
                cf.id() as int,
                old(self).data()[cf.id() as int].remove(key@),
            ),
    {
        let h = cf.inner();
        match self.check_cf(h) {
            Err(e) => Err(e),
            Ok(()) => {
                self.engine.delete(h, key);
                Ok(())
            },
        }
    }

    /// Applies a batch of writes as one: all of them, or none when one names a column
    /// family that this database does not have, or merges into one without a merge operator.
    pub fn write(&mut self, batch: WriteBatch) -> (r: Result<(), Error>)
        requires
            old(self).wf(),
        ensures
            final(self).wf(),
            final(self).same_layout(old(self)),
            r is Ok <==> ops_fit(old(self).data().len(), batch.ops()) && ops_merge_ok(old(self).merge_flags(), batch.ops()),
            r matches Err(e) ==> e.spec_kind() == ErrorKind::InvalidArgument && final(self).data() == old(self).data(),
            r is Ok ==> final(self).data() == apply_ops(old(self).data(), batch.ops()),
    {
        self.write_opt(batch, &WriteOptions::default())
    }

    /// Applies a batch of writes as one, written with `writeopts`.
    pub fn write_opt(&mut self, batch: WriteBatch, _writeopts: &WriteOptions) -> (r: Result<(), Error>)
        requires
            old(self).wf(),
        ensures
            final(self).wf(),
            final(self).same_layout(old(self)),
            r is Ok <==> ops_fit(old(self).data().len(), batch.ops()) && ops_merge_ok(old(self).merge_flags(), batch.ops()),
            r matches Err(e) ==> e.spec_kind() == ErrorKind::InvalidArgument && final(self).data() == old(self).data(),
            r is Ok ==> final(self).data() == apply_ops(old(self).data(), batch.ops()),
    {
        let ops = batch.as_ops();
        if !self.fits(ops) {
            return Err(Error::new(ErrorKind::InvalidArgument, "batch writes where this database cannot take it".to_owned()));
        }
        self.apply_writes(ops);
        Ok(())
    }

    /// Whether every write names a column family of this database, and every merging
    /// write one with a merge operator.
    pub(crate) fn fits(&self, ops: &Vec<WriteOp>) -> (r: bool)
        requires
            self.wf(),
        ensures
            r == (ops_fit(self.data().len(), ops_view(ops@)) && ops_merge_ok(self.merge_flags(), ops_view(ops@))),
    {
        proof { self.lemma_wf(); }
        let n = self.engine.cf_count();
        let mut i: usize = 0;
        while i < ops.len()
            invariant
                self.wf(),
                n == self.data().len(),
                self.merge_flags().len() == n,
                i <= ops@.len(),
                forall|j: int| 0 <= j < i ==> (#[trigger] ops_view(ops@)[j]).0 < n,
                forall|j: int| 0 <= j < i && (#[trigger] ops_view(ops@)[j]).3 ==> self.merge_flags()[ops_view(ops@)[j].0 as int],
            decreases ops@.len() - i,
        {
            assert(ops_view(ops@)[i as int] == op_view(ops@[i as int]));
            if ops[i].cf >= n {
                return false;
            }
            if ops[i].merge && !self.engine.merge_enabled(ops[i].cf) {
                return false;
            }
            i = i + 1;
        }
        true
    }

    /// Applies the writes in order.
    pub(crate) fn apply_writes(&mut self, ops: &Vec<WriteOp>)
        requires
            old(self).wf(),
            ops_fit(old(self).data().len(), ops_view(ops@)),
        ensures
            final(self).wf(),
            final(self).same_layout(old(self)),
            final(self).data() == apply_ops(old(self).data(), ops_view(ops@)),
    {
        let ghost d0 = self.data();
        let mut i: usize = 0;
        while i < ops.len()
            invariant
                self.wf(),
                self.same_layout(old(self)),
                ops_fit(d0.len(), ops_view(ops@)),
                d0 == old(self).data(),
                i <= ops@.len(),
                self.data() == apply_ops(d0, ops_view(ops@).subrange(0, i as int)),
            decreases ops@.len() - i,
        {
            proof {
                self.lemma_wf();
                assert forall|j: int| 0 <= j < i implies (#[trigger] ops_view(ops@).subrange(0, i as int)[j]).0 < d0.len() by {
                    assert(ops_view(ops@).subrange(0, i as int)[j] == ops_view(ops@)[j]);
                }
                lemma_apply_ops_len(d0, ops_view(ops@).subrange(0, i as int));
                lemma_apply_ops_push(d0, ops_view(ops@).subrange(0, i as int), ops_view(ops@)[i as int]);
                assert(ops_view(ops@).subrange(0, i + 1) =~= ops_view(ops@).subrange(0, i as int).push(ops_view(ops@)[i as int]));
                assert(ops_view(ops@)[i as int].0 < d0.len());
            }
            let op = &ops[i];
            match &op.value {
                Some(v) => if op.merge {
                    self.engine.merge(op.cf, op.key.as_slice(), v.as_slice())
                } else {
                    self.engine.put(op.cf, op.key.as_slice(), v.as_slice())
                },
                None => self.engine.delete(op.cf, op.key.as_slice()),
            }
            i = i + 1;
        }
        assert(ops_view(ops@).subrange(0, ops@.len() as int) =~= ops_view(ops@));
    }

    /// The value under `k` in column family `h`.
    pub(crate) fn read(&self, h: usize, k: &[u8]) -> (r: Option<Vec<u8>>)
        requires
            self.wf(),
            self.has_cf(h),
        ensures
            match r {
                Some(v) => value_at(self.data(), h as int, k@) == Some(v@),
                None => value_at(self.data(), h as int, k@) is None,
            },
    {
        self.engine.get(h, k)
    }

    /// Begins a transaction with default options.
    pub fn transaction(&self) -> (t: Transaction)
        requires
            self.wf(),
        ensures
            t.wf(),
            t.is_active(),
            t.usable_with(self),
            t.writes() == Seq::<OpView>::empty(),
            t.bases() == Seq::<Option<Seq<u8>>>::empty(),
    {
        self.transaction_opt(&WriteOptions::default(), &TransactionOptions::default())
    }

    /// Begins a transaction with the given options.
    pub fn transaction_opt(&self, _write_opts: &WriteOptions, _txn_opts: &TransactionOptions) -> (t: Transaction)
        requires
            self.wf(),
        ensures
            t.wf(),
            t.is_active(),
            t.usable_with(self),
            t.writes() == Seq::<OpView>::empty(),
            t.bases() == Seq::<Option<Seq<u8>>>::empty(),
    {
        Transaction::begin(self.path.as_str())
    }

    /// Iterates over the default column family from where `mode` says.
    pub fn iterator(&self, mode: IteratorMode) -> (it: DBIterator)
        requires
            self.wf(),
        ensures
            it.remaining() == scan_view(self.ordered()[0], mode, false),
    {
        self.iterator_opt(mode, ReadOptions::default())
    }

    /// Iterates over the default column family from where `mode` says, read with `readopts`.
    pub fn iterator_opt(&self, mode: IteratorMode, readopts: ReadOptions) -> (it: DBIterator)
        requires
            self.wf(),
        ensures
            it.remaining() == scan_view(self.ordered()[0], mode, readopts.prefix_same_as_start),
    {
        proof { self.lemma_wf(); }
        DBIterator::from_pairs(self.engine.scan(0, &mode, readopts.prefix_same_as_start))
    }

    /// Iterates over column family `cf` from where `mode` says, read with `readopts`.
    pub fn iterator_cf_opt(&self, cf: &ColumnFamily, readopts: ReadOptions, mode: IteratorMode) -> (it: DBIterator)
        requires
            self.wf(),
            self.has_cf(cf.id()),
        ensures
            it.remaining() == scan_view(self.ordered()[cf.id() as int], mode, readopts.prefix_same_as_start),
    {
        proof { self.lemma_wf(); }
        DBIterator::from_pairs(self.engine.scan(cf.inner(), &mode, readopts.prefix_same_as_start))
    }

    /// Iterates over the default column family in total key order.
    pub fn full_iterator(&self, mode: IteratorMode) -> (it: DBIterator)
        requires
            self.wf(),
        ensures
            it.remaining() == scan_view(self.ordered()[0], mode, false),
    {
        let mut opts = ReadOptions::default();
        opts.set_total_order_seek(true);
        self.iterator_opt(mode, opts)
    }

    /// Iterates forward over the keys of the default column family that start with `prefix`.
    pub fn prefix_iterator(&self, prefix: &[u8]) -> (it: DBIterator)
        requires
            self.wf(),
        ensures
            it.remaining() == while_prefixed(keys_from(self.ordered()[0], prefix@), prefix@),
    {
        let mut opts = ReadOptions::default();
        opts.set_prefix_same_as_start(true);
        self.iterator_opt(IteratorMode::From(copy_bytes(prefix), Direction::Forward), opts)
    }

    /// Iterates over column family `cf` from where `mode` says.
    pub fn iterator_cf(&self, cf: &ColumnFamily, mode: IteratorMode) -> (it: DBIterator)
        requires
            self.wf(),
            self.has_cf(cf.id()),
        ensures
            it.remaining() == scan_view(self.ordered()[cf.id() as int], mode, false),
    {
        self.iterator_cf_opt(cf, ReadOptions::default(), mode)
    }

    /// Iterates over column family `cf` in total key order.
    pub fn full_iterator_cf(&self, cf: &ColumnFamily, mode: IteratorMode) -> (it: DBIterator)
        requires
            self.wf(),
            self.has_cf(cf.id()),
        ensures
            it.remaining() == scan_view(self.ordered()[cf.id() as int], mode, false),
    {
        let mut opts = ReadOptions::default();
        opts.set_total_order_seek(true);
        self.iterator_cf_opt(cf, opts, mode)
    }

    /// Iterates forward over the keys of column family `cf` that start with `prefix`.
    pub fn prefix_iterator_cf(&self, cf: &ColumnFamily, prefix: &[u8]) -> (it: DBIterator)
        requires
            self.wf(),
            self.has_cf(cf.id()),
        ensures
            it.remaining() == while_prefixed(keys_from(self.ordered()[cf.id() as int], prefix@), prefix@),
    {
        let mut opts = ReadOptions::default();
        opts.set_prefix_same_as_start(true);
        self.iterator_cf_opt(cf, opts, IteratorMode::From(copy_bytes(prefix), Direction::Forward))
    }

    /// A cursor over the default column family, standing on nothing until moved.
    pub fn raw_iterator(&self) -> (it: DBRawIterator)
        requires
            self.wf(),
        ensures
            it.wf(),
            it.pairs() == self.ordered()[0],
            !it.is_valid(),
    {
        self.raw_iterator_opt(ReadOptions::default())
    }

    /// A cursor over column family `cf`, standing on nothing until moved.
    pub fn raw_iterator_cf(&self, cf: &ColumnFamily) -> (it: DBRawIterator)
        requires
            self.wf(),
            self.has_cf(cf.id()),
        ensures
            it.wf(),
            it.pairs() == self.ordered()[cf.id() as int],
            !it.is_valid(),
    {
        self.raw_iterator_cf_opt(cf, ReadOptions::default())
    }

    /// A cursor over the default column family, read with `readopts`.
    pub fn raw_iterator_opt(&self, _readopts: ReadOptions) -> (it: DBRawIterator)
        requires
            self.wf(),
        ensures
            it.wf(),
            it.pairs() == self.ordered()[0],
            !it.is_valid(),
    {
        proof { self.lemma_wf(); }
        DBRawIterator::new(self.engine.copy_table(0))
    }

    /// A cursor over column family `cf`, read with `readopts`.
    pub fn raw_iterator_cf_opt(&self, cf: &ColumnFamily, _readopts: ReadOptions) -> (it: DBRawIterator)
        requires
            self.wf(),
            self.has_cf(cf.id()),
        ensures
            it.wf(),
            it.pairs() == self.ordered()[cf.id() as int],
            !it.is_valid(),
    {
        proof { self.lemma_wf(); }
        DBRawIterator::new(self.engine.copy_table(cf.inner()))
    }

    /// A snapshot of every column family as it stands now.
    pub fn snapshot(&self) -> (s: Snapshot)
        requires
            self.wf(),
        ensures
            s.wf(),
            s.data() == self.data(),
    {
        proof { self.lemma_wf(); }
        let s = Snapshot::new(self.engine.copy_tables());
        assert(s.data() =~= self.data());
        s
    }

    /// Asks the engine for a new column family; the registry is not touched.
    fn create_inner_cf_handle(&mut self, name: &str, opts: &Options) -> (r: Result<usize, Error>)
        requires
            old(self).wf(),
        ensures
            final(self).registry() == old(self).registry(),
            final(self).path_view() == old(self).path_view(),
            final(self).engine.calls().len() == 0,
            final(self).engine.wf(),
            (text_has_nul(name@) || old(self).cf_names().contains(name@)) ==> (r matches Err(e)
                && e.spec_kind() == ErrorKind::InvalidArgument && *final(self) == *old(self)),
            text_has_nul(name@) ==> (r matches Err(e)
                && e.spec_message() == "Failed to convert path to CString when creating cf"@),
            !(text_has_nul(name@) || old(self).cf_names().contains(name@)) ==> (r matches Ok(h)
                && h == old(self).data().len()
                && final(self).cf_names() == old(self).cf_names().push(name@)
                && final(self).data() == old(self).data().push(Map::empty())
                && final(self).merge_flags() == old(self).merge_flags().push(opts.concat_merge)),
    {
        if str_has_nul(name) {
            return Err(Error::new(ErrorKind::InvalidArgument, "Failed to convert path to CString when creating cf".to_owned()));
        }
        proof { self.lemma_wf(); }
        let owned = name.to_owned();
        match self.engine.create_cf(&owned, opts.concat_merge) {
            Some(h) => Ok(h),
            None => Err(Error::new(ErrorKind::InvalidArgument, "column family already exists".to_owned())),
        }
    }

    /// Tears the database down: every registered column-family handle is released, in
    /// registration order, and then the database handle is closed. What it returns is the
    /// engine's record of those calls.
    pub fn close(self) -> (r: Vec<EngineCall>)
        requires
            self.wf(),
        ensures
            r@.len() == self.registry().len() + 1,
            forall|i: int| 0 <= i < self.registry().len() ==> #[trigger] r@[i] == EngineCall::ReleaseCf(self.registry()[i].1),
            r@[self.registry().len() as int] == EngineCall::Close,
    {
        let handles = self.cfs.handle_list();
        let mut engine = self.engine;
        let mut i: usize = 0;
        while i < handles.len()
            invariant
                engine.wf(),
                i <= handles@.len(),
                engine.calls().len() == i,
                forall|j: int| 0 <= j < i ==> #[trigger] engine.calls()[j] == EngineCall::ReleaseCf(handles@[j]),
            decreases handles@.len() - i,
        {
            engine.release_cf(handles[i]);
            i = i + 1;
        }
        engine.close()
    }

    /// The path the database was opened at.
    pub fn path(&self) -> (r: &str)
        ensures
            r@ == self.path_view(),
    {
        self.path.as_str()
    }
}

/// Opening with a non-empty set of descriptors that succeeds registers a handle under the
/// default name, whether or not the set named it; that handle numbers the default column family's
/// name in the engine.
pub proof fn lemma_open_registers_default<T: ThreadMode>(
    r: Result<TransactionDB<T>, Error>,
    opts: Options,
    path: Seq<char>,
    ds: Seq<(Seq<char>, bool)>,
    dir: Result<(), String>,
)
    requires
        open_outcome(r, opts, path, ds, dir),
        ds.len() > 0,
        r is Ok,
    ensures
        r matches Ok(db) && db.handle_of(default_name()) matches Some(h) && db.has_cf(h)
            && db.cf_names()[h as int] == default_name(),
{
    let db = r->Ok_0;
    let nds = with_default(ds);
    let j: int = if exists|i: int| 0 <= i < ds.len() && ds[i].0 == default_name() {
        choose|i: int| 0 <= i < ds.len() && ds[i].0 == default_name()
    } else {
        ds.len() as int
    };
    assert(nds[j].0 == default_name());
    assert(db.handle_of(nds[j].0) == Some(db.registry()[j].1));
    db.lemma_wf();
}

/// A handle that the registry holds under a name numbers a column family of that name.
pub proof fn lemma_registered_handle_valid<T: ThreadMode>(db: TransactionDB<T>, name: Seq<char>)
    requires
        db.wf(),
        db.handle_of(name) is Some,
    ensures
        db.handle_of(name) matches Some(h) && db.has_cf(h) && db.cf_names()[h as int] == name,
{
    db.lemma_wf();
    let i = choose|i: int| 0 <= i < db.registry().len() && db.registry()[i].0 == name;
    lemma_lookup_at(db.registry(), i);
}

/// Round trip: after storing `v` under `k` in column family `h`, reading `k` there gives
/// `v`; after removing `k`, reading it gives nothing.
pub proof fn lemma_round_trip(d: Seq<Map<Seq<u8>, Seq<u8>>>, h: int, k: Seq<u8>, v: Seq<u8>)
    requires
        0 <= h < d.len(),
    ensures
        d.update(h, d[h].insert(k, v))[h].contains_key(k),
        d.update(h, d[h].insert(k, v))[h][k] == v,
        !d.update(h, d[h].remove(k))[h].contains_key(k),
{
}

/// Registering a new column family leaves every handle found before it as it was: still
/// found under its name, still numbering a column family, whose contents are unchanged.
pub proof fn lemma_handle_survives_create<T: ThreadMode>(
    before: TransactionDB<T>,
    after: TransactionDB<T>,
    name: Seq<char>,
    new_name: Seq<char>,
    new_h: usize,
)
    requires
        before.wf(),
        after.wf(),
        after.registry() == before.registry().push((new_name, new_h)),
        after.data() == before.data().push(Map::empty()),
        before.handle_of(name) is Some,
    ensures
        after.handle_of(name) == before.handle_of(name),
        after.handle_of(name) matches Some(h) && after.has_cf(h) && after.data()[h as int] == before.data()[h as int],
{
    before.lemma_wf();
    after.lemma_wf();
    let i = choose|i: int| 0 <= i < before.registry().len() && before.registry()[i].0 == name;
    lemma_lookup_at(before.registry(), i);
    assert(after.registry()[i] == before.registry()[i]);
    lemma_lookup_at(after.registry(), i);
}

/// `o` is what `m` holds under `k`: its value, or nothing when `k` is absent.
pub open spec fn read_of(o: Option<Vec<u8>>, m: Map<Seq<u8>, Seq<u8>>, k: Seq<u8>) -> bool {
    match o {
        Some(v) => m.contains_key(k) && v@ == m[k],
        None => !m.contains_key(k),
    }
}

impl TransactionDB<SingleThreaded> {
    /// Makes a column family named `name` and registers it. Takes exclusive access.
    pub fn create_cf(&mut self, name: &str, opts: &Options) -> (r: Result<(), Error>)
        requires
            old(self).wf(),
        ensures
            final(self).wf(),
            final(self).path_view() == old(self).path_view(),
            (text_has_nul(name@) || old(self).cf_names().contains(name@)) ==> (r matches Err(e)
                && e.spec_kind() == ErrorKind::InvalidArgument && *final(self) == *old(self)),
            text_has_nul(name@) ==> (r matches Err(e)
                && e.spec_message() == "Failed to convert path to CString when creating cf"@),
            !(text_has_nul(name@) || old(self).cf_names().contains(name@)) ==> r is Ok
                && final(self).cf_names() == old(self).cf_names().push(name@)
                && final(self).data() == old(self).data().push(Map::empty())
                && final(self).merge_flags() == old(self).merge_flags().push(opts.concat_merge)
                && final(self).registry() == old(self).registry().push((name@, old(self).data().len() as usize))
                && final(self).handle_of(name@) == Some(old(self).data().len() as usize),
    {
        let h = match self.create_inner_cf_handle(name, opts) {
            Ok(h) => h,
            Err(e) => return Err(e),
        };
        self.cfs.insert(name.to_owned(), h);
        proof { self.lemma_registered(*old(self), name@, h); }
        Ok(())
    }

    /// The handle registered under `name`, lent for as long as the database is borrowed.
    pub fn cf_handle(&self, name: &str) -> (r: Option<&ColumnFamily>)
        requires
            self.wf(),
        ensures
            r matches Some(cf) ==> self.handle_of(name@) == Some(cf.id()),
            r is None ==> self.handle_of(name@) is None,
    {
        self.cfs.lookup(&name.to_owned())
    }
}

impl TransactionDB<MultiThreaded> {
    /// Makes a column family named `name` and registers it under a counted handle.
    pub fn create_cf(&mut self, name: &str, opts: &Options) -> (r: Result<(), Error>)
        requires
            old(self).wf(),
        ensures
            final(self).wf(),
            final(self).path_view() == old(self).path_view(),
            (text_has_nul(name@) || old(self).cf_names().contains(name@)) ==> (r matches Err(e)
                && e.spec_kind() == ErrorKind::InvalidArgument && *final(self) == *old(self)),
            text_has_nul(name@) ==> (r matches Err(e)
                && e.spec_message() == "Failed to convert path to CString when creating cf"@),
            !(text_has_nul(name@) || old(self).cf_names().contains(name@)) ==> r is Ok
                && final(self).cf_names() == old(self).cf_names().push(name@)
                && final(self).data() == old(self).data().push(Map::empty())
                && final(self).merge_flags() == old(self).merge_flags().push(opts.concat_merge)
                && final(self).registry() == old(self).registry().push((name@, old(self).data().len() as usize))
                && final(self).handle_of(name@) == Some(old(self).data().len() as usize),
    {
        let h = match self.create_inner_cf_handle(name, opts) {
            Ok(h) => h,
            Err(e) => return Err(e),
        };
        self.cfs.insert(name.to_owned(), h);
        proof { self.lemma_registered(*old(self), name@, h); }
        Ok(())
    }

    /// A counted reference to the handle registered under `name`, which stays usable
    /// whatever is registered later.
    pub fn cf_handle(&self, name: &str) -> (r: Option<Arc<ColumnFamily>>)
        requires
            self.wf(),
        ensures
            r matches Some(cf) ==> self.handle_of(name@) == Some(cf.id()),
            r is None ==> self.handle_of(name@) is None,
    {
        self.cfs.lookup(&name.to_owned())
    }
}

/// What opening with descriptors `ds` gives: the first refusal in the order path,
/// directory (carrying the message that `dir` reports), existence, descriptors; else a database whose registry holds the
/// descriptors, a default one appended when missing, each with an empty column family.
pub open spec fn open_outcome<T: ThreadMode>(
    r: Result<TransactionDB<T>, Error>,
    opts: Options,
    path: Seq<char>,
    ds: Seq<(Seq<char>, bool)>,
    dir: Result<(), String>,
) -> bool {
    if text_has_nul(path) {
        r matches Err(e) && e.spec_kind() == ErrorKind::InvalidArgument
    } else if dir is Err {
        r matches Err(e) && e.spec_kind() == ErrorKind::Io && e.spec_message() == dir->Err_0@
    } else if !opts.create_if_missing {
        r matches Err(e) && e.spec_kind() == ErrorKind::InvalidArgument
    } else if ds.len() == 0 {
        r matches Ok(db) && db.wf() && db.path_view() == path
            && db.cf_names() == seq![default_name()]
            && db.data() == seq![Map::<Seq<u8>, Seq<u8>>::empty()]
            && db.merge_flags() == seq![opts.concat_merge]
            && db.registry().len() == 0
    } else if !descs_acceptable(ds, opts.create_missing_column_families) {
        r matches Err(e) && e.spec_kind() == ErrorKind::InvalidArgument
    } else {
        r matches Ok(db) && db.wf() && db.path_view() == path && {
            let nds = with_default(ds);
            &&& db.registry().len() == nds.len()
            &&& forall|j: int| 0 <= j < nds.len() ==> {
                &&& (#[trigger] db.registry()[j]).0 == nds[j].0
                &&& db.handle_of(nds[j].0) == Some(db.registry()[j].1)
                &&& db.merge_flags()[db.registry()[j].1 as int] == nds[j].1
            }
            &&& forall|h: int| 0 <= h < db.data().len() ==> #[trigger] db.data()[h] == Map::<Seq<u8>, Seq<u8>>::empty()
            &&& forall|h: int| 0 <= h < db.data().len() ==> #[trigger] is_registered(db.registry(), h)
        }
    }
}

/// Descriptor `j` was opened as column family `handles[j]`, registered under `names[j]`.
spec fn opened_as(names: Seq<String>, handles: Seq<usize>, cf_names: Seq<Seq<char>>, merges: Seq<bool>, nds: Seq<(Seq<char>, bool)>, j: int) -> bool {
    &&& names[j]@ == nds[j].0
    &&& handles[j] < cf_names.len()
    &&& handles[j] < merges.len()
    &&& cf_names[handles[j] as int] == nds[j].0
    &&& merges[handles[j] as int] == nds[j].1
}

/// Column family `h` was made for one of the first `i` descriptors.
spec fn made_for(handles: Seq<usize>, i: int, names: Seq<Seq<char>>, nds: Seq<(Seq<char>, bool)>, h: int) -> bool {
    exists|j: int| 0 <= j < i && handles[j] == h && names[h] == nds[j].0
}

spec fn reg_handle(e: Seq<(Seq<char>, usize)>, j: int) -> usize {
    e[j].1
}

/// Some name is registered with handle `h`.
pub open spec fn is_registered(e: Seq<(Seq<char>, usize)>, h: int) -> bool {
    exists|j: int| 0 <= j < e.len() && e[j].1 == h
}

/// Whether the engine opens the descriptors on a fresh database.
fn descs_ok(cfs: &Vec<ColumnFamilyDescriptor>, create_missing: bool) -> (r: bool)
    ensures
        r == descs_acceptable(Seq::new(cfs@.len(), |i: int| desc_view(cfs@[i])), create_missing),
{
    let ghost ds = Seq::new(cfs@.len(), |i: int| desc_view(cfs@[i]));
    let default = default_cf_name();
    let mut i: usize = 0;
    while i < cfs.len()
        invariant
            i <= cfs@.len(),
            ds == Seq::new(cfs@.len(), |i: int| desc_view(cfs@[i])),
            default@ == default_name(),
            forall|a: int| 0 <= a < i ==> !text_has_nul(#[trigger] ds[a].0),
            forall|a: int, b: int| 0 <= a < b < ds.len() && a < i ==> (#[trigger] ds[a]).0 != (#[trigger] ds[b]).0,
            create_missing || forall|a: int| 0 <= a < i ==> (#[trigger] ds[a]).0 == default_name(),
        decreases cfs@.len() - i,
    {
        assert(ds[i as int].0 == cfs@[i as int].name@);
        if str_has_nul(cfs[i].name.as_str()) {
            assert(text_has_nul(ds[i as int].0));
            return false;
        }
        if !create_missing && cfs[i].name != default {
            assert(ds[i as int].0 != default_name());
            return false;
        }
        let mut j: usize = i + 1;
        while j < cfs.len()
            invariant
                i < j <= cfs@.len(),
                ds == Seq::new(cfs@.len(), |i: int| desc_view(cfs@[i])),
                forall|b: int| i < b < j ==> ds[i as int].0 != (#[trigger] ds[b]).0,
            decreases cfs@.len() - j,
        {
            if cfs[i].name == cfs[j].name {
                assert(ds[i as int].0 == ds[j as int].0);
                return false;
            }
            j = j + 1;
        }
        i = i + 1;
    }
    true
}

/// Where the descriptor of the default column family stands, if any.
fn find_default(cfs: &Vec<ColumnFamilyDescriptor>) -> (r: Option<usize>)
    ensures
        r matches Some(i) ==> i < cfs@.len() && cfs@[i as int].name@ == default_name(),
        r is None ==> forall|i: int| 0 <= i < cfs@.len() ==> (#[trigger] cfs@[i]).name@ != default_name(),
{
    let default = default_cf_name();
    let mut i: usize = 0;
    while i < cfs.len()
        invariant
            i <= cfs@.len(),
            default@ == default_name(),
            forall|a: int| 0 <= a < i ==> (#[trigger] cfs@[a]).name@ != default_name(),
        decreases cfs@.len() - i,
    {
        if cfs[i].name == default {
            return Some(i);
        }
        i = i + 1;
    }
    None
}

} // verus!
