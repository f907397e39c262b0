//! The column-family registry: names mapped to handles, under two policies. With
//! `SingleThreaded` a lookup lends the handle out; with `MultiThreaded` each handle is
//! reference-counted and a lookup hands out a counted reference of its own.
use vstd::prelude::*;
use std::sync::Arc;

verus! {

/// A handle on one column family of an open database.
#[derive(Clone, Copy, Debug)]
pub struct ColumnFamily {
    inner: usize,
}

impl ColumnFamily {
    /// The engine's number for the column family.
    pub closed spec fn id(&self) -> usize {
        self.inner
    }

    pub(crate) fn new(inner: usize) -> (cf: ColumnFamily)
        ensures
            cf.id() == inner,
    {
        ColumnFamily { inner }
    }

    pub(crate) fn inner(&self) -> (h: usize)
        ensures
            h == self.id(),
    {
        self.inner
    }
}

/// The handle registered under `name` in `e`, if any; names in a registry are distinct.
pub open spec fn lookup_in(e: Seq<(Seq<char>, usize)>, name: Seq<char>) -> Option<usize> {
    if exists|i: int| 0 <= i < e.len() && e[i].0 == name {
        Some(e[choose|i: int| 0 <= i < e.len() && e[i].0 == name].1)
    } else {
        None
    }
}

/// No name is registered twice.
pub open spec fn distinct_names(e: Seq<(Seq<char>, usize)>) -> bool {
    forall|i: int, j: int| 0 <= i < j < e.len() ==> (#[trigger] e[i]).0 != (#[trigger] e[j]).0
}

pub proof fn lemma_lookup_at(e: Seq<(Seq<char>, usize)>, i: int)
    requires
        distinct_names(e),
        0 <= i < e.len(),
    ensures
        lookup_in(e, e[i].0) == Some(e[i].1),
{
    let j = choose|j: int| 0 <= j < e.len() && e[j].0 == e[i].0;
    if j < i {
        assert(e[j].0 != e[i].0);
    } else if j > i {
        assert(e[i].0 != e[j].0);
    }
}

/// What a registry holds, whatever its policy.
pub trait ThreadMode: Sized {
    /// The registered names with their handles, in registration order.
    spec fn entries(&self) -> Seq<(Seq<char>, usize)>;

    /// A registry of the given names and handles, in that order.
    fn new_cf_map(names: Vec<String>, handles: Vec<usize>) -> (r: Self)
        requires
            names@.len() == handles@.len(),
        ensures
            r.entries().len() == names@.len(),
            forall|i: int| 0 <= i < names@.len() ==> #[trigger] r.entries()[i] == (names@[i]@, handles@[i]);

    /// The registered handles, in registration order.
    fn handle_list(&self) -> (r: Vec<usize>)
        ensures
            r@.len() == self.entries().len(),
            forall|i: int| 0 <= i < r@.len() ==> #[trigger] r@[i] == self.entries()[i].1;

    /// Where `name` is registered.
    fn position(&self, name: &String) -> (r: Option<usize>)
        requires
            distinct_names(self.entries()),
        ensures
            r matches Some(i) ==> i < self.entries().len() && self.entries()[i as int].0 == name@,
            r is None ==> lookup_in(self.entries(), name@) is None;
}

/// The registry that lends handles out; adding to it takes exclusive access.
pub struct SingleThreaded {
    cfs: Vec<(String, ColumnFamily)>,
}

/// The registry of reference-counted handles, each lookup handing out its own reference.
pub struct MultiThreaded {
    cfs: Vec<(String, Arc<ColumnFamily>)>,
}

impl ThreadMode for SingleThreaded {
    closed spec fn entries(&self) -> Seq<(Seq<char>, usize)> {
        self.cfs@.map_values(|e: (String, ColumnFamily)| (e.0@, e.1.inner))
    }

    fn new_cf_map(names: Vec<String>, handles: Vec<usize>) -> (r: Self) {
        let mut cfs: Vec<(String, ColumnFamily)> = Vec::new();
        let mut i: usize = 0;
        while i < handles.len()
            invariant
                names@.len() == handles@.len(),
                i <= handles@.len(),
                cfs@.len() == i,
                forall|j: int| 0 <= j < i ==> (#[trigger] cfs@[j]).0@ == names@[j]@ && cfs@[j].1.inner == handles@[j],
            decreases handles@.len() - i,
        {
            cfs.push((names[i].clone(), ColumnFamily { inner: handles[i] }));
            i = i + 1;
        }
        let r = SingleThreaded { cfs };
        assert forall|j: int| 0 <= j < names@.len() implies #[trigger] r.entries()[j] == (names@[j]@, handles@[j]) by {
            assert(r.cfs@[j].0@ == names@[j]@);
        }
        r
    }

    fn handle_list(&self) -> (r: Vec<usize>) {
        let mut r: Vec<usize> = Vec::new();
        let mut i: usize = 0;
        while i < self.cfs.len()
            invariant
                i <= self.cfs@.len(),
                r@.len() == i,
                forall|j: int| 0 <= j < i ==> #[trigger] r@[j] == self.entries()[j].1,
            decreases self.cfs@.len() - i,
        {
            r.push(self.cfs[i].1.inner);
            i = i + 1;
        }
        r
    }

    fn position(&self, name: &String) -> (r: Option<usize>) {
        let mut i: usize = 0;
        while i < self.cfs.len()
            invariant
                i <= self.cfs@.len(),
                forall|j: int| 0 <= j < i ==> (#[trigger] self.entries()[j]).0 != name@,
            decreases self.cfs@.len() - i,
        {
            if self.cfs[i].0 == *name {
                return Some(i);
            }
            assert(self.entries()[i as int].0 == self.cfs@[i as int].0@);
            i = i + 1;
        }
        None
    }
}

impl ThreadMode for MultiThreaded {
    closed spec fn entries(&self) -> Seq<(Seq<char>, usize)> {
        self.cfs@.map_values(|e: (String, Arc<ColumnFamily>)| (e.0@, e.1.inner))
    }

    fn new_cf_map(names: Vec<String>, handles: Vec<usize>) -> (r: Self) {
        let mut cfs: Vec<(String, Arc<ColumnFamily>)> = Vec::new();
        let mut i: usize = 0;
        while i < handles.len()
            invariant
                names@.len() == handles@.len(),
                i <= handles@.len(),
                cfs@.len() == i,
                forall|j: int| 0 <= j < i ==> (#[trigger] cfs@[j]).0@ == names@[j]@ && cfs@[j].1.inner == handles@[j],
            decreases handles@.len() - i,
        {
            cfs.push((names[i].clone(), Arc::new(ColumnFamily { inner: handles[i] })));
            i = i + 1;
        }
        let r = MultiThreaded { cfs };
        assert forall|j: int| 0 <= j < names@.len() implies #[trigger] r.entries()[j] == (names@[j]@, handles@[j]) by {
            assert(r.cfs@[j].0@ == names@[j]@);
        }
        r
    }

    fn handle_list(&self) -> (r: Vec<usize>) {
        let mut r: Vec<usize> = Vec::new();
        let mut i: usize = 0;
        while i < self.cfs.len()
            invariant
                i <= self.cfs@.len(),
                r@.len() == i,
                forall|j: int| 0 <= j < i ==> #[trigger] r@[j] == self.entries()[j].1,
            decreases self.cfs@.len() - i,
        {
            r.push(self.cfs[i].1.inner);
            i = i + 1;
        }
        r
    }

    fn position(&self, name: &String) -> (r: Option<usize>) {
        let mut i: usize = 0;
        while i < self.cfs.len()
            invariant
                i <= self.cfs@.len(),
                forall|j: int| 0 <= j < i ==> (#[trigger] self.entries()[j]).0 != name@,
            decreases self.cfs@.len() - i,
        {
            if self.cfs[i].0 == *name {
                return Some(i);
            }
            assert(self.entries()[i as int].0 == self.cfs@[i as int].0@);
            i = i + 1;
        }
        None
    }
}

impl SingleThreaded {
    /// The handle registered under `name`, lent out.
    pub(crate) fn lookup(&self, name: &String) -> (r: Option<&ColumnFamily>)
        requires
            distinct_names(self.entries()),
        ensures
            r matches Some(cf) ==> lookup_in(self.entries(), name@) == Some(cf.id()),
            r is None ==> lookup_in(self.entries(), name@) is None,
    {
        match self.position(name) {
            Some(i) => {
                proof { lemma_lookup_at(self.entries(), i as int); }
                Some(&self.cfs[i].1)
            },
            None => None,
        }
    }

    /// Registers `name` with handle `h`; the name is not registered yet.
    pub(crate) fn insert(&mut self, name: String, h: usize)
        ensures
            final(self).entries() == old(self).entries().push((name@, h)),
    {
        self.cfs.push((name, ColumnFamily { inner: h }));
        assert(self.entries() =~= old(self).entries().push((name@, h)));
    }
}

impl MultiThreaded {
    /// A counted reference to the handle registered under `name`.
    pub(crate) fn lookup(&self, name: &String) -> (r: Option<Arc<ColumnFamily>>)
        requires
            distinct_names(self.entries()),
        ensures
            r matches Some(cf) ==> lookup_in(self.entries(), name@) == Some(cf.id()),
            r is None ==> lookup_in(self.entries(), name@) is None,
    {
        match self.position(name) {
            Some(i) => {
                proof { lemma_lookup_at(self.entries(), i as int); }
                Some(self.cfs[i].1.clone())
            },
            None => None,
        }
    }

    /// Registers `name` with handle `h`; the name is not registered yet.
    pub(crate) fn insert(&mut self, name: String, h: usize)
        ensures
            final(self).entries() == old(self).entries().push((name@, h)),
    {
        self.cfs.push((name, Arc::new(ColumnFamily { inner: h })));
        assert(self.entries() =~= old(self).entries().push((name@, h)));
    }
}

} // verus!
