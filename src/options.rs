//! Option values handed through to the engine: for the database and its column
//! families, for reads, for writes, and for transactions.
use vstd::prelude::*;

verus! {

/// Options of a database or of one column family.
#[derive(Clone, Copy, Debug)]
pub struct Options {
    /// Make the database when it does not exist yet.
    pub create_if_missing: bool,
    /// Make the named column families that do not exist yet.
    pub create_missing_column_families: bool,
    /// Give the column family a merge operator that appends the operand to the value.
    pub concat_merge: bool,
}

impl Options {
    pub fn create_if_missing(&mut self, v: bool)
        ensures
            *final(self) == (Options { create_if_missing: v, ..*old(self) }),
    {
        self.create_if_missing = v;
    }

    pub fn create_missing_column_families(&mut self, v: bool)
        ensures
            *final(self) == (Options { create_missing_column_families: v, ..*old(self) }),
    {
        self.create_missing_column_families = v;
    }

    pub fn set_concat_merge_operator(&mut self)
        ensures
            *final(self) == (Options { concat_merge: true, ..*old(self) }),
    {
        self.concat_merge = true;
    }
}

impl Default for Options {
    fn default() -> (o: Options)
        ensures
            !o.create_if_missing,
            !o.create_missing_column_families,
            !o.concat_merge,
    {
        Options { create_if_missing: false, create_missing_column_families: false, concat_merge: false }
    }
}

/// Options of the transaction machinery of a database; the engine keeps them as given.
#[derive(Clone, Copy, Debug)]
pub struct TransactionDBOptions {
    /// How long a transaction waits for a lock, in milliseconds; negative waits forever.
    pub txn_lock_timeout: i64,
}

impl Default for TransactionDBOptions {
    fn default() -> (o: TransactionDBOptions)
        ensures
            o.txn_lock_timeout == 1000,
    {
        TransactionDBOptions { txn_lock_timeout: 1000 }
    }
}

/// Options of one read or scan.
#[derive(Clone, Copy, Debug)]
pub struct ReadOptions {
    /// Scan in total key order, with no prefix index.
    pub total_order_seek: bool,
    /// A forward scan from a key stops at the first key that does not start with it.
    pub prefix_same_as_start: bool,
}

impl ReadOptions {
    pub fn set_total_order_seek(&mut self, v: bool)
        ensures
            *final(self) == (ReadOptions { total_order_seek: v, ..*old(self) }),
    {
        self.total_order_seek = v;
    }

    pub fn set_prefix_same_as_start(&mut self, v: bool)
        ensures
            *final(self) == (ReadOptions { prefix_same_as_start: v, ..*old(self) }),
    {
        self.prefix_same_as_start = v;
    }
}

impl Default for ReadOptions {
    fn default() -> (o: ReadOptions)
        ensures
            !o.total_order_seek,
            !o.prefix_same_as_start,
    {
        ReadOptions { total_order_seek: false, prefix_same_as_start: false }
    }
}

/// Options of one write; the engine keeps them as given.
#[derive(Clone, Copy, Debug)]
pub struct WriteOptions {
    pub sync: bool,
    pub disable_wal: bool,
}

impl Default for WriteOptions {
    fn default() -> (o: WriteOptions)
        ensures
            !o.sync,
            !o.disable_wal,
    {
        WriteOptions { sync: false, disable_wal: false }
    }
}

/// Options of one transaction; the engine keeps them as given.
#[derive(Clone, Copy, Debug)]
pub struct TransactionOptions {
    pub set_snapshot: bool,
}

impl Default for TransactionOptions {
    fn default() -> (o: TransactionOptions)
        ensures
            !o.set_snapshot,
    {
        TransactionOptions { set_snapshot: false }
    }
}

} // verus!
