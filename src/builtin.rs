//! Built-in resources: handles materialized in-process under reserved paths, which
//! win over the cache and the registry.
use vstd::prelude::*;
use vstd::slice::slice_to_vec;
use crate::manager::{Resource, UntypedResource};
use crate::path::{extension, extension_of, same_text};

verus! {

/// The embedded bytes of a built-in resource.
#[derive(Debug)]
pub struct DataSource {
    /// File extension associated with the data.
    pub extension: String,
    /// The actual data.
    pub bytes: Vec<u8>,
}

impl DataSource {
    /// A data source for the bytes of the file at `path`; the extension is taken
    /// from the path (empty when it has none).
    pub fn new(path: &str, data: &[u8]) -> (r: Self)
        ensures
            r.extension@ == extension_of(path@),
            r.bytes@ == data@,
    {
        let ext = match extension(path) {
            Some(e) => e,
            None => String::new(),
        };
        DataSource { extension: ext, bytes: slice_to_vec(data) }
    }
}

/// A built-in resource without its type tag.
#[derive(Debug)]
pub struct UntypedBuiltInResource {
    /// The data the resource was made from.
    pub data_source: Option<DataSource>,
    /// The ready-to-use resource.
    pub resource: UntypedResource,
}

/// A built-in resource: a reserved path, the data, and the ready-to-use resource.
#[derive(Debug)]
pub struct BuiltInResource {
    pub id: String,
    /// The data the resource was made from.
    pub data_source: Option<DataSource>,
    /// The ready-to-use resource.
    pub resource: Resource,
}

impl BuiltInResource {
    /// Makes the resource from the data with `make`.
    pub fn new<F: FnOnce(&Vec<u8>) -> Resource>(id: &str, data_source: DataSource, make: F) -> (r:
        Self)
        requires
            make.requires((&data_source.bytes,)),
        ensures
            r.id@ == id@,
            r.data_source == Some(data_source),
            make.ensures((&data_source.bytes,), r.resource),
    {
        let resource = make(&data_source.bytes);
        BuiltInResource { id: id.to_owned(), data_source: Some(data_source), resource }
    }

    /// A built-in resource that has no embedded data.
    pub fn new_no_source(id: &str, resource: Resource) -> (r: Self)
        ensures
            r.id@ == id@,
            r.data_source is None,
            r.resource == resource,
    {
        BuiltInResource { id: id.to_owned(), data_source: None, resource }
    }

    /// The ready-to-use resource.
    pub fn resource(&self) -> (r: Resource)
        ensures
            r == self.resource,
    {
        self.resource
    }
}

impl From<BuiltInResource> for UntypedBuiltInResource {
    fn from(value: BuiltInResource) -> (r: UntypedBuiltInResource) {
        UntypedBuiltInResource { data_source: value.data_source, resource: value.resource.untyped }
    }
}

impl vstd::std_specs::convert::FromSpecImpl<BuiltInResource> for UntypedBuiltInResource {
    open spec fn obeys_from_spec() -> bool {
        true
    }

    open spec fn from_spec(value: BuiltInResource) -> UntypedBuiltInResource {
        UntypedBuiltInResource { data_source: value.data_source, resource: value.resource.untyped }
    }
}

/// A built-in resource under its reserved path.
#[derive(Debug)]
pub struct BuiltInEntry {
    pub id: String,
    pub resource: UntypedBuiltInResource,
}

/// The built-in resources, keyed by reserved path; each path occurs once.
#[derive(Debug)]
pub struct BuiltInResourcesContainer {
    pub entries: Vec<BuiltInEntry>,
}

/// `i` is the position of the entry whose id is `id`.
pub open spec fn is_entry_for(s: Seq<BuiltInEntry>, id: Seq<char>, i: int) -> bool {
    0 <= i < s.len() && s[i].id@ == id
}

impl BuiltInResourcesContainer {
    /// Each reserved path occurs once.
    pub open spec fn wf(&self) -> bool {
        forall|i: int, j: int|
            0 <= i < self.entries@.len() && 0 <= j < self.entries@.len() && i != j
                ==> (#[trigger] self.entries@[i]).id@ != (#[trigger] self.entries@[j]).id@
    }

    /// The position of the entry for `id`, if any.
    pub open spec fn position_of(&self, id: Seq<char>) -> Option<int> {
        if exists|i: int| is_entry_for(self.entries@, id, i) {
            Some(choose|i: int| is_entry_for(self.entries@, id, i))
        } else {
            None
        }
    }

    /// An empty container.
    pub fn new() -> (r: Self)
        ensures
            r.wf(),
            r.entries@.len() == 0,
    {
        BuiltInResourcesContainer { entries: Vec::new() }
    }

    /// Number of built-in resources.
    pub fn len(&self) -> (r: usize)
        ensures
            r == self.entries@.len(),
    {
        self.entries.len()
    }

    /// True when there is no built-in resource.
    pub fn is_empty(&self) -> (r: bool)
        ensures
            r == (self.entries@.len() == 0),
    {
        self.entries.len() == 0
    }

    /// The position of the entry for `id`.
    pub fn find(&self, id: &str) -> (r: Option<usize>)
        requires
            self.wf(),
        ensures
            match r {
                Some(i) => self.position_of(id@) == Some(i as int),
                None => self.position_of(id@) is None,
            },
    {
        let n = self.entries.len();
        let mut i: usize = 0;
        while i < n
            invariant
                n == self.entries@.len(),
                0 <= i <= n,
                self.wf(),
                forall|j: int| 0 <= j < i ==> (#[trigger] self.entries@[j]).id@ != id@,
            decreases n - i,
        {
            if same_text(self.entries[i].id.as_str(), id) {
                proof {
                    assert(is_entry_for(self.entries@, id@, i as int));
                    let k = choose|k: int| is_entry_for(self.entries@, id@, k);
                    assert(is_entry_for(self.entries@, id@, k));
                    assert(k == i);
                }
                return Some(i);
            }
            i = i + 1;
        }
        None
    }

    /// The built-in resource under `id`.
    pub fn get(&self, id: &str) -> (r: Option<&UntypedBuiltInResource>)
        requires
            self.wf(),
        ensures
            match self.position_of(id@) {
                Some(i) => r == Some(&self.entries@[i].resource),
                None => r is None,
            },
    {
        match self.find(id) {
            Some(i) => Some(&self.entries[i].resource),
            None => None,
        }
    }

    /// Adds a built-in resource under `id`, replacing the one that was there.
    pub fn add_untyped(&mut self, id: String, resource: UntypedBuiltInResource)
        requires
            old(self).wf(),
        ensures
            final(self).wf(),
            match old(self).position_of(id@) {
                Some(i) => final(self).entries@ == old(self).entries@.update(
                    i,
                    BuiltInEntry { id, resource },
                ),
                None => final(self).entries@ == old(self).entries@.push(
                    BuiltInEntry { id, resource },
                ),
            },
    {
        let ghost idv = id@;
        match self.find(id.as_str()) {
            Some(i) => {
                let ghost k = choose|k: int| is_entry_for(self.entries@, id@, k);
                assert(is_entry_for(self.entries@, id@, k));
                let mut e = BuiltInEntry { id, resource };
                self.entries.set_and_swap(i, &mut e);
                proof {
                    let s = self.entries@;
                    let o = old(self).entries@;
                    assert forall|a: int, b: int|
                        0 <= a < s.len() && 0 <= b < s.len() && a != b implies (#[trigger] s[a]).id@
                        != (#[trigger] s[b]).id@ by {
                        if a != i && b != i {
                            assert(s[a] == o[a] && s[b] == o[b]);
                        } else if a == i {
                            assert(s[b] == o[b]);
                            assert(o[a].id@ == idv);
                        } else {
                            assert(s[a] == o[a]);
                            assert(o[b].id@ == idv);
                        }
                    }
                }
            },
            None => {
                assert(forall|j: int|
                    0 <= j < self.entries@.len() ==> !is_entry_for(self.entries@, id@, j));
                self.entries.push(BuiltInEntry { id, resource });
                proof {
                    let s = self.entries@;
                    let o = old(self).entries@;
                    assert forall|a: int, b: int|
                        0 <= a < s.len() && 0 <= b < s.len() && a != b implies (#[trigger] s[a]).id@
                        != (#[trigger] s[b]).id@ by {
                        if a < o.len() && b < o.len() {
                            assert(s[a] == o[a] && s[b] == o[b]);
                        } else if a < o.len() {
                            assert(s[a] == o[a]);
                            assert(!is_entry_for(o, idv, a));
                        } else {
                            assert(s[b] == o[b]);
                            assert(!is_entry_for(o, idv, b));
                        }
                    }
                }
            },
        }
    }

    /// Adds a typed built-in resource under its id.
    pub fn add(&mut self, resource: BuiltInResource)
        requires
            old(self).wf(),
        ensures
            final(self).wf(),
            exists|e: BuiltInEntry|
                e.id@ == resource.id@ && e.resource.resource == resource.resource.untyped
                    && e.resource.data_source == resource.data_source && match old(
                    self,
                ).position_of(resource.id@) {
                    Some(i) => final(self).entries@ == old(self).entries@.update(i, e),
                    None => final(self).entries@ == old(self).entries@.push(e),
                },
    {
        let id = resource.id.clone();
        let ghost before = resource;
        let untyped = UntypedBuiltInResource::from(resource);
        assert(untyped.resource == before.resource.untyped);
        assert(untyped.data_source == before.data_source);
        let ghost e = BuiltInEntry { id, resource: untyped };
        self.add_untyped(id, untyped);
        assert(e.id@ == before.id@);
    }
}

} // verus!
