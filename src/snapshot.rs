//! Snapshots: the contents of every column family as they were when it was taken.
use vstd::prelude::*;
use crate::db::read_of;
use crate::error::{Error, ErrorKind};
use crate::registry::ColumnFamily;
use crate::table::Table;

verus! {

/// A read view of a database, fixed when it was taken; later writes do not reach it.
#[derive(Debug)]
pub struct Snapshot {
    tables: Vec<Table>,
}

impl Snapshot {
    /// The contents of each column family when the snapshot was taken, by handle number.
    pub closed spec fn data(&self) -> Seq<Map<Seq<u8>, Seq<u8>>> {
        self.tables@.map_values(|t: Table| t@)
    }

    pub closed spec fn wf(&self) -> bool {
        &&& self.tables@.len() > 0
        &&& forall|i: int| 0 <= i < self.tables@.len() ==> (#[trigger] self.tables@[i]).wf()
    }

    pub(crate) fn new(tables: Vec<Table>) -> (s: Snapshot)
        requires
            tables@.len() > 0,
            forall|i: int| 0 <= i < tables@.len() ==> (#[trigger] tables@[i]).wf(),
        ensures
            s.wf(),
            s.data().len() == tables@.len(),
            forall|i: int| 0 <= i < tables@.len() ==> #[trigger] s.data()[i] == tables@[i]@,
    {
        Snapshot { tables }
    }

    /// The value that was under `key` in the default column family.
    pub fn get(&self, key: &[u8]) -> (r: Result<Option<Vec<u8>>, Error>)
        requires
            self.wf(),
        ensures
            r matches Ok(o) && read_of(o, self.data()[0], key@),
    {
        assert(self.tables@[0].wf());
        Ok(self.tables[0].get(key))
    }

    /// The value that was under `key` in column family `cf`.
    pub fn get_cf(&self, cf: &ColumnFamily, key: &[u8]) -> (r: Result<Option<Vec<u8>>, Error>)
        requires
            self.wf(),
        ensures
            cf.id() < self.data().len() ==> (r matches Ok(o) && read_of(o, self.data()[cf.id() as int], key@)),
            cf.id() >= self.data().len() ==> (r matches Err(e) && e.spec_kind() == ErrorKind::InvalidArgument),
    {
        let h = cf.inner();
        if h >= self.tables.len() {
            return Err(Error::new(ErrorKind::InvalidArgument, "column family handle does not belong to this database".to_owned()));
        }
        assert(self.tables@[h as int].wf());
        Ok(self.tables[h].get(key))
    }
}

} // verus!
