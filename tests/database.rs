use txndb::{
    ColumnFamilyDescriptor, Direction, EngineCall, ErrorKind, IteratorMode, MultiThreaded, Options,
    ReadOptions, SingleThreaded, TransactionDB, TransactionDBOptions, WriteBatch,
};

fn fresh() -> TransactionDB<SingleThreaded> {
    TransactionDB::open_default("/tmp/db_fresh", Ok(())).unwrap()
}

fn missing_ok() -> Options {
    let mut o = Options::default();
    o.create_if_missing(true);
    o.create_missing_column_families(true);
    o
}

fn drain(mut it: txndb::DBIterator) -> Vec<(Vec<u8>, Vec<u8>)> {
    let mut out = Vec::new();
    while let Some(p) = it.next() {
        out.push(p);
    }
    out
}

fn pair(k: &str, v: &str) -> (Vec<u8>, Vec<u8>) {
    (k.as_bytes().to_vec(), v.as_bytes().to_vec())
}

#[test]
fn example_scenario_default_and_named_cf() {
    let mut db = fresh();
    db.put(b"a", b"1").unwrap();
    assert_eq!(db.get(b"a").unwrap(), Some(b"1".to_vec()));
    db.create_cf("x", &Options::default()).unwrap();
    let x = *db.cf_handle("x").unwrap();
    db.put_cf(&x, b"a", b"2").unwrap();
    assert_eq!(db.get_cf(&x, b"a").unwrap(), Some(b"2".to_vec()));
    assert_eq!(db.get(b"a").unwrap(), Some(b"1".to_vec()));
}

#[test]
fn put_get_delete_round_trip() {
    let mut db = fresh();
    db.put(b"k", b"v").unwrap();
    assert_eq!(db.get(b"k").unwrap(), Some(b"v".to_vec()));
    db.put(b"k", b"w").unwrap();
    assert_eq!(db.get(b"k").unwrap(), Some(b"w".to_vec()));
    db.delete(b"k").unwrap();
    assert_eq!(db.get(b"k").unwrap(), None);
    db.delete(b"never").unwrap();
    assert_eq!(db.get(b"never").unwrap(), None);
}

#[test]
fn empty_key_and_value_are_stored() {
    let mut db = fresh();
    db.put(b"", b"").unwrap();
    assert_eq!(db.get(b"").unwrap(), Some(Vec::new()));
}

#[test]
fn open_without_default_descriptor_registers_default() {
    let descs = vec![ColumnFamilyDescriptor::new("a", Options::default())];
    let db: TransactionDB<SingleThreaded> =
        TransactionDB::open_cf_descriptors(&missing_ok(), &TransactionDBOptions::default(), "/tmp/db_a", descs, Ok(()))
            .unwrap();
    assert!(db.cf_handle("default").is_some());
    assert!(db.cf_handle("a").is_some());
    assert!(db.cf_handle("b").is_none());
}

#[test]
fn open_with_no_descriptors_registers_nothing() {
    let db = fresh();
    assert!(db.cf_handle("default").is_none());
}

#[test]
fn open_cf_by_names() {
    let db: TransactionDB<SingleThreaded> = TransactionDB::open_cf(
        &missing_ok(),
        &TransactionDBOptions::default(),
        "/tmp/db_names",
        vec!["one".to_string(), "two".to_string()],
        Ok(()),
    )
    .unwrap();
    assert!(db.cf_handle("one").is_some());
    assert!(db.cf_handle("two").is_some());
    assert!(db.cf_handle("default").is_some());
    assert_eq!(db.path(), "/tmp/db_names");
}

#[test]
fn open_refuses_missing_column_families_unless_asked() {
    let mut o = Options::default();
    o.create_if_missing(true);
    let r: Result<TransactionDB<SingleThreaded>, _> =
        TransactionDB::open_cf(&o, &TransactionDBOptions::default(), "/tmp/db_m", vec!["one".to_string()], Ok(()));
    assert_eq!(r.err().unwrap().kind(), ErrorKind::InvalidArgument);
    let r: Result<TransactionDB<SingleThreaded>, _> =
        TransactionDB::open_cf(&o, &TransactionDBOptions::default(), "/tmp/db_m", vec!["default".to_string()], Ok(()));
    assert!(r.is_ok());
}

#[test]
fn open_refuses_duplicate_descriptors() {
    let r: Result<TransactionDB<SingleThreaded>, _> = TransactionDB::open_cf(
        &missing_ok(),
        &TransactionDBOptions::default(),
        "/tmp/db_d",
        vec!["a".to_string(), "a".to_string()],
        Ok(()),
    );
    assert_eq!(r.err().unwrap().kind(), ErrorKind::InvalidArgument);
}

#[test]
fn open_refuses_name_with_zero_byte() {
    let r: Result<TransactionDB<SingleThreaded>, _> = TransactionDB::open_cf(
        &missing_ok(),
        &TransactionDBOptions::default(),
        "/tmp/db_z",
        vec!["a\0b".to_string()],
        Ok(()),
    );
    assert_eq!(r.err().unwrap().kind(), ErrorKind::InvalidArgument);
}

#[test]
fn open_refuses_path_with_zero_byte() {
    let r: Result<TransactionDB<SingleThreaded>, _> = TransactionDB::open_default("/tmp/a\0b", Ok(()));
    assert_eq!(r.err().unwrap().kind(), ErrorKind::InvalidArgument);
}

#[test]
fn directory_failure_is_an_init_error() {
    let msg = "Failed to create RocksDB directory: `Os { code: 13, kind: PermissionDenied }`.".to_string();
    let r: Result<TransactionDB<SingleThreaded>, _> = TransactionDB::open_default("/proc/denied/db", Err(msg.clone()));
    let e = r.err().unwrap();
    assert_eq!(e.kind(), ErrorKind::Io);
    assert!(e.into_string().starts_with("Failed to create RocksDB directory"));
}

#[test]
fn open_without_create_if_missing_fails() {
    let r: Result<TransactionDB<SingleThreaded>, _> =
        TransactionDB::open(&Options::default(), &TransactionDBOptions::default(), "/tmp/db_n", Ok(()));
    assert_eq!(r.err().unwrap().kind(), ErrorKind::InvalidArgument);
}

#[test]
fn create_cf_then_lookup_and_use() {
    let mut db = fresh();
    db.create_cf("c", &Options::default()).unwrap();
    let c = *db.cf_handle("c").unwrap();
    db.put_cf(&c, b"k", b"v").unwrap();
    assert_eq!(db.get_cf(&c, b"k").unwrap(), Some(b"v".to_vec()));
    db.delete_cf(&c, b"k").unwrap();
    assert_eq!(db.get_cf(&c, b"k").unwrap(), None);
    assert!(db.cf_handle("unknown").is_none());
}

#[test]
fn create_cf_twice_fails_and_leaves_registry() {
    let mut db = fresh();
    db.create_cf("c", &Options::default()).unwrap();
    let e = db.create_cf("c", &Options::default()).err().unwrap();
    assert_eq!(e.kind(), ErrorKind::InvalidArgument);
    assert!(db.cf_handle("c").is_some());
    let e = db.create_cf("default", &Options::default()).err().unwrap();
    assert_eq!(e.kind(), ErrorKind::InvalidArgument);
    let e = db.create_cf("x\0", &Options::default()).err().unwrap();
    assert_eq!(e.kind(), ErrorKind::InvalidArgument);
    assert_eq!(e.into_string(), "Failed to convert path to CString when creating cf");
}

#[test]
fn handle_of_other_database_is_refused() {
    let mut a = fresh();
    let mut b = fresh();
    a.create_cf("c", &Options::default()).unwrap();
    a.create_cf("d", &Options::default()).unwrap();
    let d = *a.cf_handle("d").unwrap();
    assert_eq!(b.put_cf(&d, b"k", b"v").err().unwrap().kind(), ErrorKind::InvalidArgument);
    assert_eq!(b.get_cf(&d, b"k").err().unwrap().kind(), ErrorKind::InvalidArgument);
}

#[test]
fn shared_registry_handle_survives_later_create() {
    let mut db: TransactionDB<MultiThreaded> = TransactionDB::open_default("/tmp/db_mt", Ok(())).unwrap();
    db.create_cf("one", &Options::default()).unwrap();
    let one = db.cf_handle("one").unwrap();
    db.create_cf("two", &Options::default()).unwrap();
    db.create_cf("three", &Options::default()).unwrap();
    db.put_cf(&one, b"k", b"1").unwrap();
    assert_eq!(db.get_cf(&one, b"k").unwrap(), Some(b"1".to_vec()));
    let again = db.cf_handle("one").unwrap();
    assert_eq!(db.get_cf(&again, b"k").unwrap(), Some(b"1".to_vec()));
    assert!(db.cf_handle("two").is_some());
    assert!(db.cf_handle("three").is_some());
    assert!(db.cf_handle("four").is_none());
}

#[test]
fn close_releases_handles_before_database() {
    let descs = vec![
        ColumnFamilyDescriptor::new("a", Options::default()),
        ColumnFamilyDescriptor::new("b", Options::default()),
    ];
    let mut db: TransactionDB<SingleThreaded> =
        TransactionDB::open_cf_descriptors(&missing_ok(), &TransactionDBOptions::default(), "/tmp/db_c", descs, Ok(()))
            .unwrap();
    db.create_cf("c", &Options::default()).unwrap();
    let calls = db.close();
    assert_eq!(calls.len(), 5);
    assert_eq!(calls[4], EngineCall::Close);
    for c in &calls[..4] {
        assert!(matches!(c, EngineCall::ReleaseCf(_)));
    }
    assert_eq!(calls[3], EngineCall::ReleaseCf(3));
    assert_eq!(calls[2], EngineCall::ReleaseCf(0));
}

#[test]
fn close_with_empty_registry_only_closes() {
    let db = fresh();
    assert_eq!(db.close(), vec![EngineCall::Close]);
}

#[test]
fn merge_appends_when_operator_set() {
    let mut o = Options::default();
    o.create_if_missing(true);
    o.set_concat_merge_operator();
    let mut db: TransactionDB<SingleThreaded> =
        TransactionDB::open(&o, &TransactionDBOptions::default(), "/tmp/db_merge", Ok(())).unwrap();
    db.merge(b"k", b"ab").unwrap();
    db.merge(b"k", b"cd").unwrap();
    assert_eq!(db.get(b"k").unwrap(), Some(b"abcd".to_vec()));
}

#[test]
fn merge_without_operator_is_not_supported() {
    let mut db = fresh();
    db.put(b"k", b"v").unwrap();
    assert_eq!(db.merge(b"k", b"x").err().unwrap().kind(), ErrorKind::NotSupported);
    assert_eq!(db.get(b"k").unwrap(), Some(b"v".to_vec()));
}

#[test]
fn merge_cf_uses_the_column_family_options() {
    let mut db = fresh();
    let mut o = Options::default();
    o.set_concat_merge_operator();
    db.create_cf("m", &o).unwrap();
    db.create_cf("p", &Options::default()).unwrap();
    let m = *db.cf_handle("m").unwrap();
    let p = *db.cf_handle("p").unwrap();
    db.put_cf(&m, b"k", b"1").unwrap();
    db.merge_cf(&m, b"k", b"2").unwrap();
    assert_eq!(db.get_cf(&m, b"k").unwrap(), Some(b"12".to_vec()));
    assert_eq!(db.merge_cf(&p, b"k", b"2").err().unwrap().kind(), ErrorKind::NotSupported);
}

#[test]
fn write_batch_applies_in_order() {
    let mut db = fresh();
    db.put(b"gone", b"x").unwrap();
    let mut b = WriteBatch::new();
    b.put(b"a", b"1");
    b.put(b"a", b"2");
    b.delete(b"gone");
    assert_eq!(b.len(), 3);
    db.write(b).unwrap();
    assert_eq!(db.get(b"a").unwrap(), Some(b"2".to_vec()));
    assert_eq!(db.get(b"gone").unwrap(), None);
}

#[test]
fn write_batch_with_foreign_handle_applies_nothing() {
    let mut a = fresh();
    a.create_cf("c", &Options::default()).unwrap();
    let c = *a.cf_handle("c").unwrap();
    let mut db = fresh();
    let mut b = WriteBatch::new();
    b.put(b"a", b"1");
    b.put_cf(&c, b"a", b"2");
    assert_eq!(db.write(b).err().unwrap().kind(), ErrorKind::InvalidArgument);
    assert_eq!(db.get(b"a").unwrap(), None);
}

#[test]
fn iterator_modes() {
    let mut db = fresh();
    for k in ["b", "d", "a", "c"] {
        db.put(k.as_bytes(), k.to_uppercase().as_bytes()).unwrap();
    }
    let all = drain(db.iterator(IteratorMode::Start));
    assert_eq!(all, vec![pair("a", "A"), pair("b", "B"), pair("c", "C"), pair("d", "D")]);
    let rev = drain(db.iterator(IteratorMode::End));
    assert_eq!(rev, vec![pair("d", "D"), pair("c", "C"), pair("b", "B"), pair("a", "A")]);
    let from = drain(db.iterator(IteratorMode::From(b"bb".to_vec(), Direction::Forward)));
    assert_eq!(from, vec![pair("c", "C"), pair("d", "D")]);
    let back = drain(db.iterator(IteratorMode::From(b"c".to_vec(), Direction::Reverse)));
    assert_eq!(back, vec![pair("c", "C"), pair("b", "B"), pair("a", "A")]);
    let full = drain(db.full_iterator(IteratorMode::From(b"b".to_vec(), Direction::Forward)));
    assert_eq!(full, vec![pair("b", "B"), pair("c", "C"), pair("d", "D")]);
}

#[test]
fn iterator_on_empty_database() {
    let db = fresh();
    assert!(drain(db.iterator(IteratorMode::Start)).is_empty());
    assert!(drain(db.iterator(IteratorMode::From(b"a".to_vec(), Direction::Reverse))).is_empty());
}

#[test]
fn prefix_iterator_stops_at_other_prefix() {
    let mut db = fresh();
    for k in ["aa", "ab1", "ab2", "ac", "b"] {
        db.put(k.as_bytes(), b"v").unwrap();
    }
    let got = drain(db.prefix_iterator(b"ab"));
    assert_eq!(got, vec![pair("ab1", "v"), pair("ab2", "v")]);
    let mut ro = ReadOptions::default();
    ro.set_prefix_same_as_start(true);
    let got = drain(db.iterator_opt(IteratorMode::From(b"a".to_vec(), Direction::Forward), ro));
    assert_eq!(got.len(), 4);
}

#[test]
fn iterators_over_named_cf() {
    let mut db = fresh();
    db.create_cf("c", &Options::default()).unwrap();
    let c = *db.cf_handle("c").unwrap();
    db.put_cf(&c, b"x1", b"1").unwrap();
    db.put_cf(&c, b"x2", b"2").unwrap();
    db.put_cf(&c, b"y", b"3").unwrap();
    db.put(b"x0", b"0").unwrap();
    assert_eq!(drain(db.iterator_cf(&c, IteratorMode::Start)).len(), 3);
    assert_eq!(drain(db.full_iterator_cf(&c, IteratorMode::End))[0], pair("y", "3"));
    assert_eq!(drain(db.prefix_iterator_cf(&c, b"x")), vec![pair("x1", "1"), pair("x2", "2")]);
    let got = drain(db.iterator_cf_opt(&c, ReadOptions::default(), IteratorMode::From(b"x2".to_vec(), Direction::Forward)));
    assert_eq!(got, vec![pair("x2", "2"), pair("y", "3")]);
}

#[test]
fn raw_iterator_moves_both_ways() {
    let mut db = fresh();
    db.put(b"a", b"1").unwrap();
    db.put(b"c", b"3").unwrap();
    let mut it = db.raw_iterator();
    assert!(!it.valid());
    it.seek_to_first();
    assert_eq!(it.key(), Some(&b"a"[..]));
    it.next();
    assert_eq!(it.value(), Some(&b"3"[..]));
    it.next();
    assert!(!it.valid());
    it.seek(b"b");
    assert_eq!(it.key(), Some(&b"c"[..]));
    it.prev();
    assert_eq!(it.key(), Some(&b"a"[..]));
    it.prev();
    assert!(!it.valid());
    it.seek_to_last();
    assert_eq!(it.key(), Some(&b"c"[..]));
}

#[test]
fn raw_iterator_over_named_cf() {
    let mut db = fresh();
    db.create_cf("c", &Options::default()).unwrap();
    let c = *db.cf_handle("c").unwrap();
    db.put_cf(&c, b"k", b"v").unwrap();
    let mut it = db.raw_iterator_cf(&c);
    it.seek_to_first();
    assert_eq!(it.value(), Some(&b"v"[..]));
    let mut it = db.raw_iterator_cf_opt(&c, ReadOptions::default());
    it.seek_to_last();
    assert_eq!(it.key(), Some(&b"k"[..]));
    let mut it = db.raw_iterator_opt(ReadOptions::default());
    it.seek_to_first();
    assert!(!it.valid());
}

#[test]
fn snapshot_keeps_capture_time_view() {
    let mut db = fresh();
    db.create_cf("c", &Options::default()).unwrap();
    let c = *db.cf_handle("c").unwrap();
    db.put(b"k", b"old").unwrap();
    db.put_cf(&c, b"k", b"cold").unwrap();
    let snap = db.snapshot();
    db.put(b"k", b"new").unwrap();
    db.delete_cf(&c, b"k").unwrap();
    db.put(b"later", b"x").unwrap();
    assert_eq!(snap.get(b"k").unwrap(), Some(b"old".to_vec()));
    assert_eq!(snap.get_cf(&c, b"k").unwrap(), Some(b"cold".to_vec()));
    assert_eq!(snap.get(b"later").unwrap(), None);
    assert_eq!(db.get(b"k").unwrap(), Some(b"new".to_vec()));
}

#[test]
fn write_batch_merges() {
    let mut o = Options::default();
    o.create_if_missing(true);
    o.set_concat_merge_operator();
    let mut db: TransactionDB<SingleThreaded> =
        TransactionDB::open(&o, &TransactionDBOptions::default(), "/tmp/db_bm", Ok(())).unwrap();
    let mut b = WriteBatch::new();
    b.put(b"k", b"x");
    b.merge(b"k", b"y");
    b.merge(b"n", b"z");
    db.write(b).unwrap();
    assert_eq!(db.get(b"k").unwrap(), Some(b"xy".to_vec()));
    assert_eq!(db.get(b"n").unwrap(), Some(b"z".to_vec()));
}

#[test]
fn write_batch_merge_without_operator_applies_nothing() {
    let mut db = fresh();
    let mut b = WriteBatch::new();
    b.put(b"a", b"1");
    b.merge(b"a", b"2");
    assert_eq!(db.write(b).err().unwrap().kind(), ErrorKind::InvalidArgument);
    assert_eq!(db.get(b"a").unwrap(), None);
    db.create_cf("c", &Options::default()).unwrap();
    let c = *db.cf_handle("c").unwrap();
    let mut b = WriteBatch::default();
    b.put_cf(&c, b"a", b"1");
    b.delete_cf(&c, b"a");
    b.merge_cf(&c, b"a", b"2");
    assert_eq!(db.write(b).err().unwrap().kind(), ErrorKind::InvalidArgument);
}
