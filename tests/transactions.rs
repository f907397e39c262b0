use txndb::{ErrorKind, Options, SingleThreaded, TransactionDB, TransactionOptions, TxnState, WriteOptions};

fn fresh() -> TransactionDB<SingleThreaded> {
    TransactionDB::open_default("/tmp/db_txn", Ok(())).unwrap()
}

#[test]
fn uncommitted_put_seen_only_by_transaction() {
    let mut db = fresh();
    let mut txn = db.transaction();
    txn.put(&db, b"k", b"v").unwrap();
    assert_eq!(txn.get(&db, b"k").unwrap(), Some(b"v".to_vec()));
    assert_eq!(db.get(b"k").unwrap(), None);
    txn.commit(&mut db).unwrap();
    assert_eq!(txn.state(), TxnState::Committed);
    assert_eq!(db.get(b"k").unwrap(), Some(b"v".to_vec()));
}

#[test]
fn transaction_reads_its_own_delete_and_last_write() {
    let mut db = fresh();
    db.put(b"k", b"base").unwrap();
    let mut txn = db.transaction_opt(&WriteOptions::default(), &TransactionOptions::default());
    assert_eq!(txn.get(&db, b"k").unwrap(), Some(b"base".to_vec()));
    txn.delete(&db, b"k").unwrap();
    assert_eq!(txn.get(&db, b"k").unwrap(), None);
    txn.put(&db, b"k", b"one").unwrap();
    txn.put(&db, b"k", b"two").unwrap();
    assert_eq!(txn.get(&db, b"k").unwrap(), Some(b"two".to_vec()));
    assert_eq!(db.get(b"k").unwrap(), Some(b"base".to_vec()));
    txn.commit(&mut db).unwrap();
    assert_eq!(db.get(b"k").unwrap(), Some(b"two".to_vec()));
}

#[test]
fn rollback_discards_writes() {
    let mut db = fresh();
    let mut txn = db.transaction();
    txn.put(&db, b"k", b"v").unwrap();
    txn.rollback().unwrap();
    assert_eq!(txn.state(), TxnState::RolledBack);
    assert_eq!(txn.commit(&mut db).err().unwrap().kind(), ErrorKind::InvalidArgument);
    assert_eq!(db.get(b"k").unwrap(), None);
    assert_eq!(txn.rollback().err().unwrap().kind(), ErrorKind::InvalidArgument);
    assert_eq!(txn.put(&db, b"k", b"v").err().unwrap().kind(), ErrorKind::InvalidArgument);
}

#[test]
fn conflicting_write_makes_commit_busy() {
    let mut db = fresh();
    let mut txn = db.transaction();
    txn.put(&db, b"k", b"mine").unwrap();
    db.put(b"k", b"theirs").unwrap();
    let e = txn.commit(&mut db).err().unwrap();
    assert_eq!(e.kind(), ErrorKind::Busy);
    assert_eq!(txn.state(), TxnState::Active);
    assert_eq!(db.get(b"k").unwrap(), Some(b"theirs".to_vec()));
    txn.rollback().unwrap();
}

#[test]
fn second_commit_is_refused() {
    let mut db = fresh();
    let mut txn = db.transaction();
    txn.put(&db, b"a", b"1").unwrap();
    txn.commit(&mut db).unwrap();
    assert_eq!(txn.commit(&mut db).err().unwrap().kind(), ErrorKind::InvalidArgument);
}

#[test]
fn transaction_on_named_cf() {
    let mut db = fresh();
    db.create_cf("c", &Options::default()).unwrap();
    let c = *db.cf_handle("c").unwrap();
    db.put_cf(&c, b"gone", b"x").unwrap();
    let mut txn = db.transaction();
    txn.put_cf(&db, &c, b"k", b"v").unwrap();
    txn.delete_cf(&db, &c, b"gone").unwrap();
    assert_eq!(txn.get_cf(&db, &c, b"k").unwrap(), Some(b"v".to_vec()));
    assert_eq!(txn.get_cf(&db, &c, b"gone").unwrap(), None);
    assert_eq!(txn.get(&db, b"k").unwrap(), None);
    assert_eq!(db.get_cf(&c, b"k").unwrap(), None);
    txn.commit(&mut db).unwrap();
    assert_eq!(db.get_cf(&c, b"k").unwrap(), Some(b"v".to_vec()));
    assert_eq!(db.get_cf(&c, b"gone").unwrap(), None);
}

#[test]
fn transaction_refuses_foreign_handle() {
    let mut other = fresh();
    other.create_cf("c", &Options::default()).unwrap();
    let c = *other.cf_handle("c").unwrap();
    let db = fresh();
    let mut txn = db.transaction();
    assert_eq!(txn.put_cf(&db, &c, b"k", b"v").err().unwrap().kind(), ErrorKind::InvalidArgument);
    assert_eq!(txn.get_cf(&db, &c, b"k").err().unwrap().kind(), ErrorKind::InvalidArgument);
}

fn merging() -> TransactionDB<SingleThreaded> {
    let mut o = Options::default();
    o.create_if_missing(true);
    o.set_concat_merge_operator();
    TransactionDB::open(&o, &txndb::TransactionDBOptions::default(), "/tmp/db_txn_merge", Ok(())).unwrap()
}

#[test]
fn transaction_merge_reads_through_and_commits() {
    let mut db = merging();
    db.put(b"k", b"a").unwrap();
    let mut txn = db.transaction();
    txn.merge(&db, b"k", b"b").unwrap();
    txn.merge(&db, b"k", b"c").unwrap();
    assert_eq!(txn.get(&db, b"k").unwrap(), Some(b"abc".to_vec()));
    txn.delete(&db, b"k").unwrap();
    txn.merge(&db, b"k", b"z").unwrap();
    assert_eq!(txn.get(&db, b"k").unwrap(), Some(b"z".to_vec()));
    assert_eq!(db.get(b"k").unwrap(), Some(b"a".to_vec()));
    txn.commit(&mut db).unwrap();
    assert_eq!(db.get(b"k").unwrap(), Some(b"z".to_vec()));
}

#[test]
fn transaction_merge_without_operator_is_not_supported() {
    let db = fresh();
    let mut txn = db.transaction();
    assert_eq!(txn.merge(&db, b"k", b"v").err().unwrap().kind(), ErrorKind::NotSupported);
    let mut other = fresh();
    let mut o = Options::default();
    o.set_concat_merge_operator();
    other.create_cf("m", &o).unwrap();
    other.create_cf("p", &Options::default()).unwrap();
    let m = *other.cf_handle("m").unwrap();
    let p = *other.cf_handle("p").unwrap();
    let mut t2 = other.transaction();
    t2.merge_cf(&other, &m, b"k", b"1").unwrap();
    t2.merge_cf(&other, &m, b"k", b"2").unwrap();
    assert_eq!(t2.get_cf(&other, &m, b"k").unwrap(), Some(b"12".to_vec()));
    assert_eq!(t2.merge_cf(&other, &p, b"k", b"1").err().unwrap().kind(), ErrorKind::NotSupported);
    t2.commit(&mut other).unwrap();
    assert_eq!(other.get_cf(&m, b"k").unwrap(), Some(b"12".to_vec()));
}

#[test]
fn transaction_is_bound_to_its_database() {
    let mut a: TransactionDB<SingleThreaded> = TransactionDB::open_default("/tmp/db_bound_a", Ok(())).unwrap();
    let mut b: TransactionDB<SingleThreaded> = TransactionDB::open_default("/tmp/db_bound_b", Ok(())).unwrap();
    let mut txn = a.transaction();
    txn.put(&a, b"k", b"v").unwrap();
    assert_eq!(txn.put(&b, b"k", b"w").err().unwrap().kind(), ErrorKind::InvalidArgument);
    assert_eq!(txn.get(&b, b"k").err().unwrap().kind(), ErrorKind::InvalidArgument);
    assert_eq!(txn.commit(&mut b).err().unwrap().kind(), ErrorKind::InvalidArgument);
    assert_eq!(b.get(b"k").unwrap(), None);
    assert_eq!(txn.state(), TxnState::Active);
    txn.commit(&mut a).unwrap();
    assert_eq!(a.get(b"k").unwrap(), Some(b"v".to_vec()));
}
