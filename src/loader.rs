//! The set of resource loaders, each claiming some file extensions.
use vstd::prelude::*;
use crate::path::{extension, extension_matches, extension_of, has_extension, same_extension};

verus! {

/// What the manager knows of a loader: the extensions it claims (lower case) and
/// the type UUID of the data it produces. The loading itself runs outside.
#[derive(Debug)]
pub struct ResourceLoader {
    pub extensions: Vec<String>,
    pub data_type_uuid: u128,
}

/// The loader claims the extension `ext`, ignoring ASCII case.
pub open spec fn claims_extension(l: ResourceLoader, ext: Seq<char>) -> bool {
    exists|k: int| 0 <= k < l.extensions@.len() && same_extension(#[trigger] l.extensions@[k]@, ext)
}

/// The loader claims the extension of `path`.
pub open spec fn claims_path(l: ResourceLoader, path: Seq<char>) -> bool {
    has_extension(path) && claims_extension(l, extension_of(path))
}

/// `i` is the first loader that claims `path`.
pub open spec fn is_first_claiming(ls: Seq<ResourceLoader>, path: Seq<char>, i: int) -> bool {
    &&& 0 <= i < ls.len()
    &&& claims_path(ls[i], path)
    &&& forall|j: int| 0 <= j < i ==> !claims_path(#[trigger] ls[j], path)
}

/// The index of the loader chosen for `path`: the first one that claims it.
pub open spec fn loader_index(ls: Seq<ResourceLoader>, path: Seq<char>) -> Option<int> {
    if exists|i: int| is_first_claiming(ls, path, i) {
        Some(choose|i: int| is_first_claiming(ls, path, i))
    } else {
        None
    }
}

proof fn lemma_first_claiming_unique(ls: Seq<ResourceLoader>, path: Seq<char>, i: int)
    requires
        is_first_claiming(ls, path, i),
    ensures
        loader_index(ls, path) == Some(i),
{
    let j = choose|j: int| is_first_claiming(ls, path, j);
    assert(is_first_claiming(ls, path, j));
    if j < i {
        assert(!claims_path(ls[j], path));
    } else if i < j {
        assert(!claims_path(ls[i], path));
    }
}

impl ResourceLoader {
    /// Whether this loader claims the extension `ext`, ignoring ASCII case.
    pub fn supports_extension(&self, ext: &str) -> (r: bool)
        ensures
            r == claims_extension(*self, ext@),
    {
        let n = self.extensions.len();
        let mut k: usize = 0;
        while k < n
            invariant
                n == self.extensions@.len(),
                0 <= k <= n,
                forall|j: int| 0 <= j < k ==> !same_extension(#[trigger] self.extensions@[j]@, ext@),
            decreases n - k,
        {
            if extension_matches(self.extensions[k].as_str(), ext) {
                return true;
            }
            k = k + 1;
        }
        false
    }
}

/// The registered loaders, in registration order.
#[derive(Debug)]
pub struct ResourceLoadersContainer {
    pub loaders: Vec<ResourceLoader>,
}

impl ResourceLoadersContainer {
    /// An empty set of loaders.
    pub fn new() -> (r: Self)
        ensures
            r.loaders@.len() == 0,
    {
        ResourceLoadersContainer { loaders: Vec::new() }
    }

    /// Number of loaders.
    pub fn len(&self) -> (r: usize)
        ensures
            r == self.loaders@.len(),
    {
        self.loaders.len()
    }

    /// True when no loader is registered.
    pub fn is_empty(&self) -> (r: bool)
        ensures
            r == (self.loaders@.len() == 0),
    {
        self.loaders.len() == 0
    }

    /// Adds a loader, or replaces the one that produces the same data type, which
    /// is then returned.
    pub fn set(&mut self, loader: ResourceLoader) -> (r: Option<ResourceLoader>)
        ensures
            match r {
                Some(old_loader) => exists|i: int|
                    0 <= i < old(self).loaders@.len()
                    && old(self).loaders@[i] == old_loader
                    && old_loader.data_type_uuid == loader.data_type_uuid
                    && final(self).loaders@ == old(self).loaders@.update(i, loader)
                    && forall|j: int| 0 <= j < i
                        ==> (#[trigger] old(self).loaders@[j]).data_type_uuid != loader.data_type_uuid,
                None => final(self).loaders@ == old(self).loaders@.push(loader)
                    && forall|j: int| 0 <= j < old(self).loaders@.len()
                        ==> (#[trigger] old(self).loaders@[j]).data_type_uuid != loader.data_type_uuid,
            },
    {
        let n = self.loaders.len();
        let mut i: usize = 0;
        while i < n
            invariant
                n == self.loaders@.len(),
                self.loaders@ == old(self).loaders@,
                0 <= i <= n,
                forall|j: int|
                    0 <= j < i ==> (#[trigger] self.loaders@[j]).data_type_uuid
                        != loader.data_type_uuid,
            decreases n - i,
        {
            if self.loaders[i].data_type_uuid == loader.data_type_uuid {
                let mut replaced = loader;
                self.loaders.set_and_swap(i, &mut replaced);
                return Some(replaced);
            }
            i = i + 1;
        }
        self.loaders.push(loader);
        None
    }

    /// The index of the loader for `path`: the first that claims its extension.
    pub fn loader_for(&self, path: &str) -> (r: Option<usize>)
        ensures
            match r {
                Some(i) => loader_index(self.loaders@, path@) == Some(i as int),
                None => loader_index(self.loaders@, path@) is None,
            },
            r is None <==> forall|j: int|
                0 <= j < self.loaders@.len() ==> !claims_path(#[trigger] self.loaders@[j], path@),
    {
        let ext = match extension(path) {
            Some(e) => e,
            None => {
                return None;
            },
        };
        let n = self.loaders.len();
        let mut i: usize = 0;
        while i < n
            invariant
                n == self.loaders@.len(),
                0 <= i <= n,
                has_extension(path@),
                ext@ == extension_of(path@),
                forall|j: int| 0 <= j < i ==> !claims_path(#[trigger] self.loaders@[j], path@),
            decreases n - i,
        {
            if self.loaders[i].supports_extension(ext.as_str()) {
                proof {
                    lemma_first_claiming_unique(self.loaders@, path@, i as int);
                }
                return Some(i);
            }
            i = i + 1;
        }
        None
    }

    /// Whether some loader claims the extension of `path`.
    pub fn is_supported_resource(&self, path: &str) -> (r: bool)
        ensures
            r == (loader_index(self.loaders@, path@) is Some),
            r == exists|j: int|
                0 <= j < self.loaders@.len() && claims_path(#[trigger] self.loaders@[j], path@),
    {
        self.loader_for(path).is_some()
    }

    /// Whether the loader for `path` produces data of the type `type_uuid`.
    pub fn is_extension_matches_type(&self, path: &str, type_uuid: u128) -> (r: bool)
        ensures
            r == (loader_index(self.loaders@, path@) matches Some(i)
                && self.loaders@[i].data_type_uuid == type_uuid),
    {
        match self.loader_for(path) {
            Some(i) => self.loaders[i].data_type_uuid == type_uuid,
            None => false,
        }
    }
}

} // verus!
