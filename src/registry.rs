//! The resource registry: the persisted mapping from stable UUIDs to relative paths,
//! with a readiness flag that load tasks wait on.
use vstd::prelude::*;
use crate::path::same_text;
use crate::loader::{loader_index, ResourceLoader, ResourceLoadersContainer};
use std::collections::BTreeMap;

verus! {

/// Where the registry is kept by default.
pub const DEFAULT_REGISTRY_PATH: &'static str = "./resources.registry";

/// One association of the registry.
#[derive(Debug)]
pub struct RegistryEntry {
    pub uuid: u128,
    pub path: String,
}

/// No two entries share a UUID.
pub open spec fn entries_unique(s: Seq<RegistryEntry>) -> bool {
    forall|i: int, j: int|
        0 <= i < s.len() && 0 <= j < s.len() && i != j ==> #[trigger] s[i].uuid != #[trigger] s[j].uuid
}

/// Some entry holds the UUID `u`.
pub open spec fn entries_have(s: Seq<RegistryEntry>, u: u128) -> bool {
    exists|i: int| 0 <= i < s.len() && #[trigger] s[i].uuid == u
}

/// The mapping that a sequence of entries stands for.
pub open spec fn entries_map(s: Seq<RegistryEntry>) -> Map<u128, Seq<char>> {
    Map::new(
        |u: u128| entries_have(s, u),
        |u: u128| s[choose|i: int| 0 <= i < s.len() && s[i].uuid == u].path@,
    )
}

/// `u` is the smallest UUID that `m` maps to `p`.
pub open spec fn is_least_uuid_for(m: Map<u128, Seq<char>>, p: Seq<char>, u: u128) -> bool {
    &&& m.contains_key(u)
    &&& m[u] == p
    &&& forall|k: u128| #[trigger] m.contains_key(k) && m[k] == p ==> u <= k
}

/// The UUID registered for the path `p`: the smallest one when several are.
pub open spec fn uuid_of_path(m: Map<u128, Seq<char>>, p: Seq<char>) -> Option<u128> {
    if exists|u: u128| is_least_uuid_for(m, p, u) {
        Some(choose|u: u128| is_least_uuid_for(m, p, u))
    } else {
        None
    }
}

/// The mapping that a directory scan builds from `(uuid, path)` pairs, in walk
/// order: files that no loader claims are skipped, and a later file wins a UUID.
pub open spec fn scan_map(ls: Seq<ResourceLoader>, files: Seq<RegistryEntry>) -> Map<
    u128,
    Seq<char>,
>
    decreases files.len(),
{
    if files.len() == 0 {
        Map::empty()
    } else {
        let prev = scan_map(ls, files.drop_last());
        let f = files.last();
        if loader_index(ls, f.path@) is Some {
            prev.insert(f.uuid, f.path@)
        } else {
            prev
        }
    }
}

/// The paths of the scanned files whose UUID was already taken by an earlier file.
pub open spec fn scan_collisions(ls: Seq<ResourceLoader>, files: Seq<RegistryEntry>) -> Seq<
    Seq<char>,
>
    decreases files.len(),
{
    if files.len() == 0 {
        Seq::empty()
    } else {
        let prev = scan_collisions(ls, files.drop_last());
        let f = files.last();
        if loader_index(ls, f.path@) is Some && scan_map(ls, files.drop_last()).contains_key(
            f.uuid,
        ) {
            prev.push(f.path@)
        } else {
            prev
        }
    }
}

proof fn lemma_entry_value(s: Seq<RegistryEntry>, i: int)
    requires
        entries_unique(s),
        0 <= i < s.len(),
    ensures
        entries_map(s).contains_key(s[i].uuid),
        entries_map(s)[s[i].uuid] == s[i].path@,
{
    let u = s[i].uuid;
    assert(entries_have(s, u));
    let j = choose|j: int| 0 <= j < s.len() && s[j].uuid == u;
    assert(s[j].uuid == u);
    assert(j == i);
}

proof fn lemma_entries_push(s: Seq<RegistryEntry>, e: RegistryEntry)
    requires
        entries_unique(s),
        !entries_map(s).contains_key(e.uuid),
    ensures
        entries_unique(s.push(e)),
        entries_map(s.push(e)) =~= entries_map(s).insert(e.uuid, e.path@),
{
    let t = s.push(e);
    assert forall|i: int| 0 <= i < s.len() implies #[trigger] s[i].uuid != e.uuid by {
        lemma_entry_value(s, i);
    }
    assert(entries_unique(t)) by {
        assert forall|i: int, j: int|
            0 <= i < t.len() && 0 <= j < t.len() && i != j implies #[trigger] t[i].uuid
            != #[trigger] t[j].uuid by {
            if i < s.len() && j < s.len() {
                assert(t[i] == s[i] && t[j] == s[j]);
            } else if i < s.len() {
                assert(t[i] == s[i]);
            } else {
                assert(t[j] == s[j]);
            }
        }
    }
    let m = entries_map(s).insert(e.uuid, e.path@);
    assert forall|k: u128| #[trigger] entries_map(t).contains_key(k) <==> m.contains_key(k) by {
        if m.contains_key(k) {
            if k == e.uuid {
                assert(t[s.len() as int].uuid == k);
            } else {
                let j = choose|j: int| 0 <= j < s.len() && s[j].uuid == k;
                assert(t[j] == s[j]);
            }
        }
        if entries_map(t).contains_key(k) {
            let j = choose|j: int| 0 <= j < t.len() && t[j].uuid == k;
            if j < s.len() {
                assert(t[j] == s[j]);
            }
        }
    }
    assert forall|k: u128| #[trigger] entries_map(t).contains_key(k) implies entries_map(t)[k]
        == m[k] by {
        let j = choose|j: int| 0 <= j < t.len() && t[j].uuid == k;
        lemma_entry_value(t, j);
        if j < s.len() {
            assert(t[j] == s[j]);
            lemma_entry_value(s, j);
        }
    }
}

proof fn lemma_entries_update(s: Seq<RegistryEntry>, i: int, e: RegistryEntry)
    requires
        entries_unique(s),
        0 <= i < s.len(),
        s[i].uuid == e.uuid,
    ensures
        entries_unique(s.update(i, e)),
        entries_map(s.update(i, e)) =~= entries_map(s).insert(e.uuid, e.path@),
{
    let t = s.update(i, e);
    assert(entries_unique(t)) by {
        assert forall|a: int, b: int|
            0 <= a < t.len() && 0 <= b < t.len() && a != b implies #[trigger] t[a].uuid
            != #[trigger] t[b].uuid by {
            assert(t[a].uuid == s[a].uuid && t[b].uuid == s[b].uuid);
        }
    }
    let m = entries_map(s).insert(e.uuid, e.path@);
    assert forall|k: u128| #[trigger] entries_map(t).contains_key(k) <==> m.contains_key(k) by {
        if m.contains_key(k) {
            if k == e.uuid {
                assert(t[i].uuid == k);
            } else {
                let j = choose|j: int| 0 <= j < s.len() && s[j].uuid == k;
                assert(t[j].uuid == s[j].uuid);
            }
        }
        if entries_map(t).contains_key(k) {
            let j = choose|j: int| 0 <= j < t.len() && t[j].uuid == k;
            assert(t[j].uuid == s[j].uuid);
        }
    }
    assert forall|k: u128| #[trigger] entries_map(t).contains_key(k) implies entries_map(t)[k]
        == m[k] by {
        let j = choose|j: int| 0 <= j < t.len() && t[j].uuid == k;
        lemma_entry_value(t, j);
        if j != i {
            assert(t[j] == s[j]);
            lemma_entry_value(s, j);
        }
    }
}

proof fn lemma_entries_remove(s: Seq<RegistryEntry>, i: int)
    requires
        entries_unique(s),
        0 <= i < s.len(),
    ensures
        entries_unique(s.remove(i)),
        entries_map(s.remove(i)) =~= entries_map(s).remove(s[i].uuid),
{
    let t = s.remove(i);
    let u = s[i].uuid;
    assert(entries_unique(t)) by {
        assert forall|a: int, b: int|
            0 <= a < t.len() && 0 <= b < t.len() && a != b implies #[trigger] t[a].uuid
            != #[trigger] t[b].uuid by {
            let a2 = if a < i {
                a
            } else {
                a + 1
            };
            let b2 = if b < i {
                b
            } else {
                b + 1
            };
            assert(t[a] == s[a2] && t[b] == s[b2]);
        }
    }
    let m = entries_map(s).remove(u);
    assert forall|k: u128| #[trigger] entries_map(t).contains_key(k) <==> m.contains_key(k) by {
        if m.contains_key(k) {
            let j = choose|j: int| 0 <= j < s.len() && s[j].uuid == k;
            assert(j != i);
            let j2 = if j < i {
                j
            } else {
                j - 1
            };
            assert(t[j2] == s[j]);
        }
        if entries_map(t).contains_key(k) {
            let j = choose|j: int| 0 <= j < t.len() && t[j].uuid == k;
            let j2 = if j < i {
                j
            } else {
                j + 1
            };
            assert(t[j] == s[j2]);
            assert(j2 != i);
        }
    }
    assert forall|k: u128| #[trigger] entries_map(t).contains_key(k) implies entries_map(t)[k]
        == m[k] by {
        let j = choose|j: int| 0 <= j < t.len() && t[j].uuid == k;
        lemma_entry_value(t, j);
        let j2 = if j < i {
            j
        } else {
            j + 1
        };
        assert(t[j] == s[j2]);
        lemma_entry_value(s, j2);
    }
}

proof fn lemma_least_unique(m: Map<u128, Seq<char>>, p: Seq<char>, u: u128)
    requires
        is_least_uuid_for(m, p, u),
    ensures
        uuid_of_path(m, p) == Some(u),
{
    let v = choose|v: u128| is_least_uuid_for(m, p, v);
    assert(is_least_uuid_for(m, p, v));
    assert(u <= v && v <= u);
}

/// A text encoding of the mapping `m`, as the ron format writes it.
pub uninterp spec fn ron_registry_text(m: Map<u128, Seq<char>>) -> Seq<char>;

/// The mapping that the ron text `b` decodes to, if it decodes.
pub uninterp spec fn ron_registry_value(b: Seq<u8>) -> Option<Map<u128, Seq<char>>>;

/// Relies on `ron::ser::to_string_pretty` with the default pretty configuration
/// and `\n` line ends, the keys written as `uuid::Uuid` strings: serializing into
/// its in-memory buffer a map whose keys and values are strings cannot fail, and
/// the text depends on the mapping alone (a `BTreeMap` writes its keys in order).
#[verifier::external_body]
fn encode_ron(c: &RegistryContainer) -> (r: Option<String>)
    requires
        c.wf(),
    ensures
        r is Some,
        r matches Some(s) ==> s@ == ron_registry_text(c@),
{
    let map: BTreeMap<uuid::Uuid, String> =
        c.entries.iter().map(|e| (uuid::Uuid::from_u128(e.uuid), e.path.clone())).collect();
    let config = ron::ser::PrettyConfig::default().new_line("\n".to_string());
    ron::ser::to_string_pretty(&map, config).ok()
}

/// Relies on `ron::de::from_bytes` into a `BTreeMap<uuid::Uuid, String>`: the
/// result depends on the bytes alone, and a map holds each key once.
#[verifier::external_body]
fn decode_ron(b: &[u8]) -> (r: Option<RegistryContainer>)
    ensures
        match r {
            Some(c) => c.wf() && ron_registry_value(b@) == Some(c@),
            None => ron_registry_value(b@) is None,
        },
{
    let map = ron::de::from_bytes::<BTreeMap<uuid::Uuid, String>>(b).ok()?;
    let entries = map.into_iter().map(|(u, path)| RegistryEntry { uuid: u.as_u128(), path });
    Some(RegistryContainer { entries: entries.collect() })
}

/// The UUID of a resource file during a scan: the one its metadata sidecar holds,
/// or, when the sidecar is missing or unreadable, `fresh`, in which case a new
/// sidecar is to be written (an existing one is never deleted).
pub fn sidecar_uuid(read: Option<u128>, fresh: u128) -> (r: (u128, bool))
    ensures
        match read {
            Some(u) => r == (u, false),
            None => r == (fresh, true),
        },
{
    match read {
        Some(u) => (u, false),
        None => (fresh, true),
    }
}

/// A mapping from UUIDs to relative paths; each UUID occurs once.
#[derive(Debug)]
pub struct RegistryContainer {
    pub entries: Vec<RegistryEntry>,
}

impl View for RegistryContainer {
    type V = Map<u128, Seq<char>>;

    open spec fn view(&self) -> Map<u128, Seq<char>> {
        entries_map(self.entries@)
    }
}

impl RegistryContainer {
    /// Each UUID occurs once.
    pub open spec fn wf(&self) -> bool {
        entries_unique(self.entries@)
    }

    /// An empty mapping.
    pub fn new() -> (r: Self)
        ensures
            r.wf(),
            r@ == Map::<u128, Seq<char>>::empty(),
    {
        let r = RegistryContainer { entries: Vec::new() };
        assert(r@ =~= Map::<u128, Seq<char>>::empty());
        r
    }

    /// Number of associations.
    pub fn len(&self) -> (r: usize)
        ensures
            r == self.entries@.len(),
    {
        self.entries.len()
    }

    /// Position of the entry for `uuid`.
    fn index_of(&self, uuid: u128) -> (r: Option<usize>)
        requires
            self.wf(),
        ensures
            match r {
                Some(i) => i < self.entries@.len() && self.entries@[i as int].uuid == uuid,
                None => !self@.contains_key(uuid),
            },
    {
        let n = self.entries.len();
        let mut i: usize = 0;
        while i < n
            invariant
                n == self.entries@.len(),
                0 <= i <= n,
                forall|j: int| 0 <= j < i ==> (#[trigger] self.entries@[j]).uuid != uuid,
            decreases n - i,
        {
            if self.entries[i].uuid == uuid {
                return Some(i);
            }
            i = i + 1;
        }
        None
    }

    /// The path registered for `uuid`.
    pub fn get(&self, uuid: u128) -> (r: Option<&String>)
        requires
            self.wf(),
        ensures
            r is Some <==> self@.contains_key(uuid),
            r matches Some(p) ==> p@ == self@[uuid],
    {
        match self.index_of(uuid) {
            Some(i) => {
                proof {
                    lemma_entry_value(self.entries@, i as int);
                }
                Some(&self.entries[i].path)
            },
            None => None,
        }
    }

    /// Associates `uuid` with `path`, returning the path it had before.
    pub fn insert(&mut self, uuid: u128, path: String) -> (r: Option<String>)
        requires
            old(self).wf(),
        ensures
            final(self).wf(),
            final(self)@ == old(self)@.insert(uuid, path@),
            r is Some <==> old(self)@.contains_key(uuid),
            r matches Some(p) ==> p@ == old(self)@[uuid],
    {
        let ghost p = path@;
        match self.index_of(uuid) {
            Some(i) => {
                proof {
                    lemma_entry_value(self.entries@, i as int);
                    lemma_entries_update(self.entries@, i as int, RegistryEntry { uuid, path });
                }
                let mut e = RegistryEntry { uuid, path };
                self.entries.set_and_swap(i, &mut e);
                Some(e.path)
            },
            None => {
                let e = RegistryEntry { uuid, path };
                proof {
                    lemma_entries_push(self.entries@, e);
                }
                self.entries.push(e);
                None
            },
        }
    }

    /// The smallest UUID registered for `path`.
    pub fn uuid_for_path(&self, path: &str) -> (r: Option<u128>)
        requires
            self.wf(),
        ensures
            r == uuid_of_path(self@, path@),
    {
        let n = self.entries.len();
        let mut best: Option<u128> = None;
        let mut i: usize = 0;
        while i < n
            invariant
                n == self.entries@.len(),
                0 <= i <= n,
                self.wf(),
                match best {
                    Some(b) => (exists|j: int|
                        0 <= j < i && (#[trigger] self.entries@[j]).uuid == b
                            && self.entries@[j].path@ == path@) && forall|j: int|
                        0 <= j < i && (#[trigger] self.entries@[j]).path@ == path@ ==> b
                            <= self.entries@[j].uuid,
                    None => forall|j: int|
                        0 <= j < i ==> (#[trigger] self.entries@[j]).path@ != path@,
                },
            decreases n - i,
        {
            let e = &self.entries[i];
            let same = same_text(e.path.as_str(), path);
            assert(same == (self.entries@[i as int].path@ == path@));
            if same {
                match best {
                    Some(b) => {
                        if e.uuid < b {
                            best = Some(e.uuid);
                        }
                    },
                    None => {
                        best = Some(e.uuid);
                    },
                }
            }
            proof {
                if same {
                    assert(self.entries@[i as int].uuid == self.entries@[i as int].uuid);
                    if best == Some(self.entries@[i as int].uuid) {
                        assert(0 <= i < i + 1 && self.entries@[i as int].path@ == path@);
                    }
                }
            }
            i = i + 1;
        }
        let ghost m = self@;
        match best {
            Some(b) => {
                proof {
                    let j = choose|j: int|
                        0 <= j < n && (#[trigger] self.entries@[j]).uuid == b
                            && self.entries@[j].path@ == path@;
                    lemma_entry_value(self.entries@, j);
                    assert forall|k: u128| #[trigger] m.contains_key(k) && m[k] == path@ implies b
                        <= k by {
                        let jk = choose|jk: int| 0 <= jk < n && self.entries@[jk].uuid == k;
                        lemma_entry_value(self.entries@, jk);
                    }
                    lemma_least_unique(m, path@, b);
                }
            },
            None => {
                proof {
                    assert forall|u: u128| !is_least_uuid_for(m, path@, u) by {
                        if m.contains_key(u) {
                            let jk = choose|jk: int| 0 <= jk < n && self.entries@[jk].uuid == u;
                            lemma_entry_value(self.entries@, jk);
                        }
                    }
                }
            },
        }
        best
    }

    /// Removes the association of the UUID registered for `path` and returns it.
    pub fn remove_path(&mut self, path: &str) -> (r: Option<u128>)
        requires
            old(self).wf(),
        ensures
            final(self).wf(),
            r == uuid_of_path(old(self)@, path@),
            match r {
                Some(u) => final(self)@ == old(self)@.remove(u),
                None => final(self)@ == old(self)@,
            },
    {
        match self.uuid_for_path(path) {
            Some(u) => {
                match self.index_of(u) {
                    Some(i) => {
                        proof {
                            lemma_entries_remove(self.entries@, i as int);
                        }
                        self.entries.remove(i);
                        Some(u)
                    },
                    None => {
                        // The UUID was found among the entries a moment ago.
                        Some(u)
                    },
                }
            },
            None => None,
        }
    }

    /// Encodes the mapping as pretty-printed ron text, keyed by UUID in order.
    pub fn to_ron(&self) -> (r: Option<String>)
        requires
            self.wf(),
        ensures
            r is Some,
            r matches Some(s) ==> s@ == ron_registry_text(self@),
    {
        encode_ron(self)
    }

    /// Decodes a mapping from ron text; `None` when the bytes do not decode.
    pub fn from_ron(bytes: &[u8]) -> (r: Option<RegistryContainer>)
        ensures
            match r {
                Some(c) => c.wf() && ron_registry_value(bytes@) == Some(c@),
                None => ron_registry_value(bytes@) is None,
            },
    {
        decode_ron(bytes)
    }
}

/// The registry of resources: which relative path each UUID stands for, and
/// whether it has been populated (load tasks wait until it is).
#[derive(Debug)]
pub struct ResourceRegistry {
    pub paths: RegistryContainer,
    pub is_ready: bool,
}

impl View for ResourceRegistry {
    type V = Map<u128, Seq<char>>;

    open spec fn view(&self) -> Map<u128, Seq<char>> {
        self.paths@
    }
}

impl ResourceRegistry {
    pub open spec fn wf(&self) -> bool {
        self.paths.wf()
    }

    /// An empty registry, ready for use.
    pub fn new() -> (r: Self)
        ensures
            r.wf(),
            r@ == Map::<u128, Seq<char>>::empty(),
            r.is_ready,
    {
        ResourceRegistry { paths: RegistryContainer::new(), is_ready: true }
    }

    /// Associates `uuid` with `path`, returning the path it had before.
    pub fn register(&mut self, uuid: u128, path: String) -> (r: Option<String>)
        requires
            old(self).wf(),
        ensures
            final(self).wf(),
            final(self)@ == old(self)@.insert(uuid, path@),
            final(self).is_ready == old(self).is_ready,
            r is Some <==> old(self)@.contains_key(uuid),
            r matches Some(p) ==> p@ == old(self)@[uuid],
    {
        self.paths.insert(uuid, path)
    }

    /// Replaces the whole mapping.
    pub fn set_container(&mut self, container: RegistryContainer)
        requires
            container.wf(),
        ensures
            final(self).wf(),
            final(self)@ == container@,
            final(self).is_ready == old(self).is_ready,
    {
        self.paths = container;
    }

    /// The path registered for `uuid`.
    pub fn uuid_to_path(&self, uuid: u128) -> (r: Option<&String>)
        requires
            self.wf(),
        ensures
            r is Some <==> self@.contains_key(uuid),
            r matches Some(p) ==> p@ == self@[uuid],
    {
        self.paths.get(uuid)
    }

    /// The UUID registered for `path` (the smallest, should there be several).
    pub fn path_to_uuid(&self, path: &str) -> (r: Option<u128>)
        requires
            self.wf(),
        ensures
            r == uuid_of_path(self@, path@),
    {
        self.paths.uuid_for_path(path)
    }

    /// The UUID registered for `path`, or `random` when there is none.
    pub fn path_to_uuid_or_random(&self, path: &str, random: u128) -> (r: u128)
        requires
            self.wf(),
        ensures
            r == match uuid_of_path(self@, path@) {
                Some(u) => u,
                None => random,
            },
    {
        match self.paths.uuid_for_path(path) {
            Some(u) => u,
            None => random,
        }
    }

    /// Removes the association for `path` and returns its UUID.
    pub fn unregister_path(&mut self, path: &str) -> (r: Option<u128>)
        requires
            old(self).wf(),
        ensures
            final(self).wf(),
            r == uuid_of_path(old(self)@, path@),
            match r {
                Some(u) => final(self)@ == old(self)@.remove(u),
                None => final(self)@ == old(self)@,
            },
            final(self).is_ready == old(self).is_ready,
    {
        self.paths.remove_path(path)
    }

    /// Marks the registry as ready: load tasks may resolve paths and UUIDs.
    pub fn mark_as_ready(&mut self)
        ensures
            final(self).is_ready,
            final(self).paths == old(self).paths,
    {
        self.is_ready = true;
    }

    /// Marks the registry as not ready while it is being rebuilt.
    pub fn mark_as_not_ready(&mut self)
        ensures
            !final(self).is_ready,
            final(self).paths == old(self).paths,
    {
        self.is_ready = false;
    }

    /// Builds a mapping from the files found under the asset root, each given with
    /// the UUID of its metadata sidecar, in walk order. Files that no loader claims
    /// are skipped; when two files carry one UUID the later wins, and the paths of
    /// such files are returned beside the mapping.
    pub fn scan(loaders: &ResourceLoadersContainer, files: &Vec<RegistryEntry>) -> (r: (
        RegistryContainer,
        Vec<String>,
    ))
        ensures
            r.0.wf(),
            r.0@ == scan_map(loaders.loaders@, files@),
            r.1@.map_values(|p: String| p@) == scan_collisions(loaders.loaders@, files@),
    {
        let mut container = RegistryContainer::new();
        let mut collisions: Vec<String> = Vec::new();
        let n = files.len();
        let mut i: usize = 0;
        while i < n
            invariant
                n == files@.len(),
                0 <= i <= n,
                container.wf(),
                container@ == scan_map(loaders.loaders@, files@.take(i as int)),
                collisions@.map_values(|p: String| p@) == scan_collisions(
                    loaders.loaders@,
                    files@.take(i as int),
                ),
            decreases n - i,
        {
            let f = &files[i];
            proof {
                assert(files@.take(i + 1).drop_last() =~= files@.take(i as int));
                assert(files@.take(i + 1).last() == files@[i as int]);
            }
            if loaders.is_supported_resource(f.path.as_str()) {
                let previous = container.insert(f.uuid, f.path.clone());
                if previous.is_some() {
                    let ghost before = collisions@;
                    collisions.push(f.path.clone());
                    proof {
                        assert(collisions@.map_values(|p: String| p@) =~= before.map_values(
                            |p: String| p@,
                        ).push(f.path@));
                    }
                }
            }
            i = i + 1;
        }
        proof {
            assert(files@.take(n as int) =~= files@);
        }
        (container, collisions)
    }
}

} // verus!
