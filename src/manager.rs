//! The resource manager's state: the records of all resources, the cache of timed
//! entries, the load tasks in flight, and the events published to subscribers.
use vstd::prelude::*;
use crate::builtin::{BuiltInResource, BuiltInResourcesContainer};
use crate::loader::ResourceLoadersContainer;
use crate::loader::loader_index;
use crate::registry::{ResourceRegistry, RegistryContainer, uuid_of_path};
use crate::path::{append_extension, same_text, with_extension_appended};
use crate::state::{ResourceData, ResourceKind, ResourcePath, ResourcePathView, ResourceState, LoadError};

verus! {

/// How long (in milliseconds) an entry that only the cache holds survives.
pub const DEFAULT_RESOURCE_LIFETIME: u64 = 60000;

/// A shared handle to one resource record. Two handles are equal exactly when they
/// refer to the same record.
#[derive(Clone, Copy, Debug, PartialEq, Eq, Structural)]
pub struct UntypedResource {
    pub index: usize,
}

/// A handle that also carries the type UUID its holder expects of the data.
#[derive(Clone, Copy, Debug, PartialEq, Eq, Structural)]
pub struct Resource {
    pub untyped: UntypedResource,
    pub type_uuid: u128,
}

impl Resource {
    /// The handle without its type tag.
    pub fn into_untyped(self) -> (r: UntypedResource)
        ensures
            r == self.untyped,
    {
        self.untyped
    }
}

/// The record behind a handle.
#[derive(Debug)]
pub struct ResourceHeader {
    pub kind: ResourceKind,
    pub state: ResourceState,
}

/// A cache entry: a handle and the time it has left once only the cache holds it.
#[derive(Clone, Copy, Debug, PartialEq, Eq, Structural)]
pub struct TimedEntry {
    pub value: UntypedResource,
    pub time_to_live: u64,
}

/// What the manager publishes to its subscribers.
#[derive(Debug)]
pub enum ResourceEvent {
    /// A handle entered the cache.
    Added(UntypedResource),
    /// A first load committed its data.
    Loaded(UntypedResource),
    /// A reload committed its data.
    Reloaded(UntypedResource),
    /// An entry left the cache; the path it was registered under.
    Removed(String),
}

/// A load that has been scheduled for a pending resource.
#[derive(Debug)]
pub struct LoadTask {
    /// The resource to commit into.
    pub resource: UntypedResource,
    /// The key the load was requested by.
    pub path: ResourcePath,
    /// Whether the load replaces data loaded earlier.
    pub reload: bool,
    /// The filesystem path, once resolved.
    pub fs_path: Option<String>,
}

/// An error that may occur during registration of a resource.
#[derive(Clone, Copy, Debug, PartialEq, Eq, Structural)]
pub enum ResourceRegistrationError {
    /// The registration callback refused the resource.
    UnableToRegister,
    /// The resource was not loaded (pending or failed).
    InvalidState,
    /// A loaded resource with the same UUID is already cached.
    AlreadyRegistered,
}

impl ResourceRegistrationError {
    /// A human readable description of the error.
    pub fn message(&self) -> (r: &'static str)
        ensures
            *self == ResourceRegistrationError::UnableToRegister ==> r@
                == "Unable to register the resource!"@,
            *self == ResourceRegistrationError::InvalidState ==> r@
                == "A resource was in invalid state!"@,
            *self == ResourceRegistrationError::AlreadyRegistered ==> r@
                == "A resource is already registered!"@,
    {
        match self {
            ResourceRegistrationError::UnableToRegister => "Unable to register the resource!",
            ResourceRegistrationError::InvalidState => "A resource was in invalid state!",
            ResourceRegistrationError::AlreadyRegistered => "A resource is already registered!",
        }
    }
}

/// The internal state of the resource manager.
#[derive(Debug)]
pub struct ResourceManagerState {
    /// The registered loaders.
    pub loaders: ResourceLoadersContainer,
    /// The UUID to path registry.
    pub resource_registry: ResourceRegistry,
    /// Resources materialized in-process under reserved paths.
    pub built_in_resources: BuiltInResourcesContainer,
    /// The record of every resource ever created, indexed by handle.
    pub headers: Vec<ResourceHeader>,
    /// For each record, how many handles to it are held outside the cache.
    pub holders: Vec<usize>,
    /// The cache.
    pub resources: Vec<TimedEntry>,
    /// The load tasks in flight.
    pub tasks: Vec<LoadTask>,
    /// Events not yet taken by the subscribers.
    pub events: Vec<ResourceEvent>,
}

impl ResourceManagerState {
    /// The handle refers to a record of this manager.
    pub open spec fn valid(&self, h: UntypedResource) -> bool {
        h.index < self.headers@.len()
    }

    /// The state of the record behind `h`.
    pub open spec fn state_of(&self, h: UntypedResource) -> ResourceState {
        self.headers@[h.index as int].state
    }

    /// The kind of the record behind `h`.
    pub open spec fn kind_of(&self, h: UntypedResource) -> ResourceKind {
        self.headers@[h.index as int].kind
    }

    /// The number of handles to `h` held outside the cache.
    pub open spec fn holders_of(&self, h: UntypedResource) -> usize {
        self.holders@[h.index as int]
    }

    /// The cached handles, in insertion order.
    pub open spec fn cached(&self) -> Seq<UntypedResource> {
        self.resources@.map_values(|e: TimedEntry| e.value)
    }

    /// `h` is in the cache.
    pub open spec fn in_cache(&self, h: UntypedResource) -> bool {
        exists|i: int| 0 <= i < self.resources@.len() && (#[trigger] self.resources@[i]).value == h
    }

    /// The count of holders of `h`, the cache included.
    pub open spec fn use_count_of(&self, h: UntypedResource) -> int {
        self.holders_of(h) + if self.in_cache(h) {
            1int
        } else {
            0int
        }
    }

    /// The well-formedness of the manager's state.
    pub open spec fn wf(&self) -> bool {
        &&& self.resource_registry.wf()
        &&& self.built_in_resources.wf()
        &&& self.holders@.len() == self.headers@.len()
        &&& forall|i: int|
            0 <= i < self.built_in_resources.entries@.len() ==> self.valid(
                (#[trigger] self.built_in_resources.entries@[i]).resource.resource,
            )
        &&& forall|i: int|
            0 <= i < self.resources@.len() ==> self.valid((#[trigger] self.resources@[i]).value)
                && self.resources@[i].time_to_live <= DEFAULT_RESOURCE_LIFETIME
        &&& forall|i: int, j: int|
            0 <= i < self.resources@.len() && 0 <= j < self.resources@.len() && i != j
                ==> (#[trigger] self.resources@[i]).value != (#[trigger] self.resources@[j]).value
        &&& forall|i: int|
            0 <= i < self.tasks@.len() ==> self.valid((#[trigger] self.tasks@[i]).resource)
                && self.state_of(self.tasks@[i].resource) is Pending
        &&& forall|i: int, j: int|
            0 <= i < self.tasks@.len() && 0 <= j < self.tasks@.len() && i != j
                ==> (#[trigger] self.tasks@[i]).resource != (#[trigger] self.tasks@[j]).resource
        &&& forall|i: int|
            0 <= i < self.headers@.len() ==> ((#[trigger] self.headers@[i]).state matches ResourceState::Ready {
                resource_uuid,
                ..
            } ==> resource_uuid != 0)
    }

    /// An empty manager with no loaders and an empty registry that is ready.
    pub fn new() -> (r: Self)
        ensures
            r.wf(),
            r.headers@.len() == 0,
            r.resources@.len() == 0,
            r.tasks@.len() == 0,
            r.events@.len() == 0,
            r.loaders.loaders@.len() == 0,
            r.built_in_resources.entries@.len() == 0,
            r.resource_registry@ == Map::<u128, Seq<char>>::empty(),
            r.resource_registry.is_ready,
    {
        ResourceManagerState {
            loaders: ResourceLoadersContainer::new(),
            resource_registry: ResourceRegistry::new(),
            built_in_resources: BuiltInResourcesContainer::new(),
            headers: Vec::new(),
            holders: Vec::new(),
            resources: Vec::new(),
            tasks: Vec::new(),
            events: Vec::new(),
        }
    }

    /// Creates a record, held once by the caller.
    fn add_record(&mut self, kind: ResourceKind, state: ResourceState) -> (r: UntypedResource)
        requires
            old(self).wf(),
            state matches ResourceState::Ready { resource_uuid, .. } ==> resource_uuid != 0,
        ensures
            final(self).wf(),
            r.index == old(self).headers@.len(),
            final(self).headers@ == old(self).headers@.push(ResourceHeader { kind, state }),
            final(self).holders@ == old(self).holders@.push(1),
            final(self).resources@ == old(self).resources@,
            final(self).tasks@ == old(self).tasks@,
            final(self).events@ == old(self).events@,
            final(self).resource_registry == old(self).resource_registry,
            final(self).loaders == old(self).loaders,
            final(self).built_in_resources == old(self).built_in_resources,
    {
        let r = UntypedResource { index: self.headers.len() };
        self.headers.push(ResourceHeader { kind, state });
        self.holders.push(1);
        assert(forall|i: int|
            0 <= i < self.tasks@.len() ==> self.state_of(self.tasks@[i].resource) == old(self).state_of(self.tasks@[i].resource));
        assert(forall|i: int|
            0 <= i < old(self).headers@.len() ==> self.headers@[i] == old(self).headers@[i]);
        r
    }

    /// A new resource in the `Pending` state, held once by the caller.
    pub fn new_pending(&mut self, kind: ResourceKind, path: ResourcePath) -> (r: UntypedResource)
        requires
            old(self).wf(),
        ensures
            final(self).wf(),
            r.index == old(self).headers@.len(),
            final(self).headers@ == old(self).headers@.push(
                ResourceHeader { kind, state: ResourceState::Pending { path } },
            ),
            final(self).holders@ == old(self).holders@.push(1),
            final(self).resources@ == old(self).resources@,
            final(self).tasks@ == old(self).tasks@,
            final(self).events@ == old(self).events@,
            final(self).resource_registry == old(self).resource_registry,
            final(self).loaders == old(self).loaders,
            final(self).built_in_resources == old(self).built_in_resources,
    {
        self.add_record(kind, ResourceState::Pending { path })
    }

    /// A new resource in the `LoadError` state, held once by the caller.
    pub fn new_load_error(&mut self, kind: ResourceKind, path: ResourcePath, error: LoadError) -> (r:
        UntypedResource)
        requires
            old(self).wf(),
        ensures
            final(self).wf(),
            r.index == old(self).headers@.len(),
            final(self).headers@ == old(self).headers@.push(
                ResourceHeader { kind, state: ResourceState::LoadError { path, error } },
            ),
            final(self).holders@ == old(self).holders@.push(1),
            final(self).resources@ == old(self).resources@,
            final(self).tasks@ == old(self).tasks@,
            final(self).events@ == old(self).events@,
            final(self).resource_registry == old(self).resource_registry,
            final(self).loaders == old(self).loaders,
            final(self).built_in_resources == old(self).built_in_resources,
    {
        self.add_record(kind, ResourceState::LoadError { path, error })
    }

    /// A new resource whose data is already materialized, held once by the caller.
    pub fn new_ok(&mut self, resource_uuid: u128, kind: ResourceKind, data: ResourceData) -> (r:
        UntypedResource)
        requires
            old(self).wf(),
            resource_uuid != 0,
        ensures
            final(self).wf(),
            r.index == old(self).headers@.len(),
            final(self).headers@ == old(self).headers@.push(
                ResourceHeader { kind, state: ResourceState::Ready { data, resource_uuid } },
            ),
            final(self).holders@ == old(self).holders@.push(1),
            final(self).resources@ == old(self).resources@,
            final(self).tasks@ == old(self).tasks@,
            final(self).events@ == old(self).events@,
            final(self).resource_registry == old(self).resource_registry,
            final(self).loaders == old(self).loaders,
            final(self).built_in_resources == old(self).built_in_resources,
    {
        self.add_record(kind, ResourceState::Ready { data, resource_uuid })
    }

    /// The state of the resource behind `h`.
    pub fn state(&self, h: UntypedResource) -> (r: &ResourceState)
        requires
            self.valid(h),
        ensures
            *r == self.state_of(h),
    {
        &self.headers[h.index].state
    }

    /// The kind of the resource behind `h`.
    pub fn kind(&self, h: UntypedResource) -> (r: ResourceKind)
        requires
            self.valid(h),
        ensures
            r == self.kind_of(h),
    {
        self.headers[h.index].kind
    }

    /// True while the resource behind `h` is loading.
    pub fn is_loading(&self, h: UntypedResource) -> (r: bool)
        requires
            self.valid(h),
        ensures
            r == (self.state_of(h) is Pending),
    {
        self.headers[h.index].state.is_loading()
    }

    /// The UUID of the resource behind `h`, known once it is loaded.
    pub fn resource_uuid(&self, h: UntypedResource) -> (r: Option<u128>)
        requires
            self.valid(h),
        ensures
            r == self.state_of(h).uuid_spec(),
    {
        self.headers[h.index].state.resource_uuid()
    }

    /// Position of `h` in the cache.
    fn cache_position(&self, h: UntypedResource) -> (r: Option<usize>)
        ensures
            match r {
                Some(i) => i < self.resources@.len() && self.resources@[i as int].value == h,
                None => !self.in_cache(h),
            },
    {
        let n = self.resources.len();
        let mut i: usize = 0;
        while i < n
            invariant
                n == self.resources@.len(),
                0 <= i <= n,
                forall|j: int| 0 <= j < i ==> (#[trigger] self.resources@[j]).value != h,
            decreases n - i,
        {
            if self.resources[i].value == h {
                return Some(i);
            }
            i = i + 1;
        }
        None
    }

    /// How many holders the resource behind `h` has, the cache included.
    pub fn use_count(&self, h: UntypedResource) -> (r: usize)
        requires
            self.wf(),
            self.valid(h),
        ensures
            r as int == if self.use_count_of(h) <= usize::MAX {
                self.use_count_of(h)
            } else {
                usize::MAX as int
            },
    {
        let held = self.holders[h.index];
        match self.cache_position(h) {
            Some(_) => if held < usize::MAX {
                held + 1
            } else {
                held
            },
            None => held,
        }
    }

    /// Another handle to the resource behind `h`, counted as one more holder.
    pub fn clone_resource(&mut self, h: UntypedResource) -> (r: UntypedResource)
        requires
            old(self).wf(),
            old(self).valid(h),
        ensures
            final(self).wf(),
            r == h,
            final(self).holders@ == old(self).holders@.update(
                h.index as int,
                if old(self).holders_of(h) < usize::MAX {
                    (old(self).holders_of(h) + 1) as usize
                } else {
                    old(self).holders_of(h)
                },
            ),
            final(self).headers@ == old(self).headers@,
            final(self).resources@ == old(self).resources@,
            final(self).tasks@ == old(self).tasks@,
            final(self).events@ == old(self).events@,
            final(self).resource_registry == old(self).resource_registry,
            final(self).loaders == old(self).loaders,
            final(self).built_in_resources == old(self).built_in_resources,
    {
        self.acquire(h);
        h
    }

    fn acquire(&mut self, h: UntypedResource)
        requires
            old(self).wf(),
            old(self).valid(h),
        ensures
            final(self).wf(),
            final(self).holders@ == old(self).holders@.update(
                h.index as int,
                if old(self).holders_of(h) < usize::MAX {
                    (old(self).holders_of(h) + 1) as usize
                } else {
                    old(self).holders_of(h)
                },
            ),
            final(self).headers@ == old(self).headers@,
            final(self).resources@ == old(self).resources@,
            final(self).tasks@ == old(self).tasks@,
            final(self).events@ == old(self).events@,
            final(self).resource_registry == old(self).resource_registry,
            final(self).loaders == old(self).loaders,
            final(self).built_in_resources == old(self).built_in_resources,
    {
        let held = self.holders[h.index];
        if held < usize::MAX {
            self.holders.set(h.index, held + 1);
        }
    }

    /// Gives up one handle to the resource behind `h`.
    pub fn release(&mut self, h: UntypedResource)
        requires
            old(self).wf(),
            old(self).valid(h),
        ensures
            final(self).wf(),
            final(self).holders@ == old(self).holders@.update(
                h.index as int,
                if old(self).holders_of(h) > 0 {
                    (old(self).holders_of(h) - 1) as usize
                } else {
                    0usize
                },
            ),
            final(self).headers@ == old(self).headers@,
            final(self).resources@ == old(self).resources@,
            final(self).tasks@ == old(self).tasks@,
            final(self).events@ == old(self).events@,
            final(self).resource_registry == old(self).resource_registry,
            final(self).loaders == old(self).loaders,
            final(self).built_in_resources == old(self).built_in_resources,
    {
        let held = self.holders[h.index];
        if held > 0 {
            self.holders.set(h.index, held - 1);
        }
    }

    /// Makes the resource behind `h` external.
    pub fn make_external(&mut self, h: UntypedResource)
        requires
            old(self).wf(),
            old(self).valid(h),
        ensures
            final(self).wf(),
            final(self).headers@ == old(self).headers@.update(
                h.index as int,
                ResourceHeader { kind: ResourceKind::External, state: old(self).state_of(h) },
            ),
            final(self).holders@ == old(self).holders@,
            final(self).resources@ == old(self).resources@,
            final(self).tasks@ == old(self).tasks@,
            final(self).events@ == old(self).events@,
            final(self).resource_registry == old(self).resource_registry,
            final(self).loaders == old(self).loaders,
            final(self).built_in_resources == old(self).built_in_resources,
    {
        self.headers[h.index].kind = ResourceKind::External;
        assert(forall|i: int|
            0 <= i < self.headers@.len() ==> (#[trigger] self.headers@[i]).state == old(self).headers@[i].state);
    }

    /// Adds `h` to the cache with a full lifetime and publishes `Added`; a handle
    /// that is cached already is left as it is.
    pub fn push(&mut self, h: UntypedResource)
        requires
            old(self).wf(),
            old(self).valid(h),
        ensures
            final(self).wf(),
            old(self).in_cache(h) ==> final(self).resources@ == old(self).resources@
                && final(self).events@ == old(self).events@,
            !old(self).in_cache(h) ==> final(self).resources@ == old(self).resources@.push(
                TimedEntry { value: h, time_to_live: DEFAULT_RESOURCE_LIFETIME },
            ) && final(self).events@ == old(self).events@.push(ResourceEvent::Added(h)),
            final(self).headers@ == old(self).headers@,
            final(self).holders@ == old(self).holders@,
            final(self).tasks@ == old(self).tasks@,
            final(self).resource_registry == old(self).resource_registry,
            final(self).loaders == old(self).loaders,
            final(self).built_in_resources == old(self).built_in_resources,
    {
        match self.cache_position(h) {
            Some(_) => {},
            None => {
                self.events.push(ResourceEvent::Added(h));
                self.resources.push(TimedEntry { value: h, time_to_live: DEFAULT_RESOURCE_LIFETIME });
                proof {
                    let s = self.resources@;
                    let o = old(self).resources@;
                    assert forall|a: int, b: int|
                        0 <= a < s.len() && 0 <= b < s.len() && a != b implies (#[trigger] s[a]).value
                        != (#[trigger] s[b]).value by {
                        if a < o.len() && b < o.len() {
                            assert(s[a] == o[a] && s[b] == o[b]);
                        } else if a < o.len() {
                            assert(s[a] == o[a]);
                        } else {
                            assert(s[b] == o[b]);
                        }
                    }
                    assert forall|a: int| 0 <= a < s.len() implies self.valid(
                        (#[trigger] s[a]).value,
                    ) && s[a].time_to_live <= DEFAULT_RESOURCE_LIFETIME by {
                        if a < o.len() {
                            assert(s[a] == o[a]);
                        }
                    }
                }
            },
        }
    }

    /// Number of cached resources.
    pub fn len(&self) -> (r: usize)
        ensures
            r == self.resources@.len(),
    {
        self.resources.len()
    }

    /// True when the cache is empty.
    pub fn is_empty(&self) -> (r: bool)
        ensures
            r == (self.resources@.len() == 0),
    {
        self.resources.len() == 0
    }

    /// Number of cached resources.
    pub fn count_registered_resources(&self) -> (r: usize)
        ensures
            r == self.resources@.len(),
    {
        self.resources.len()
    }

    /// Number of cached resources that are still loading.
    pub fn count_pending_resources(&self) -> (r: usize)
        requires
            self.wf(),
        ensures
            r == count_where(self.resources@, |h: UntypedResource| self.state_of(h) is Pending),
    {
        let ghost p = |h: UntypedResource| self.state_of(h) is Pending;
        let n = self.resources.len();
        let mut c: usize = 0;
        let mut i: usize = 0;
        while i < n
            invariant
                n == self.resources@.len(),
                0 <= i <= n,
                self.wf(),
                p == (|h: UntypedResource| self.state_of(h) is Pending),
                c == count_where(self.resources@.take(i as int), p),
                c <= i,
            decreases n - i,
        {
            proof {
                lemma_count_where_step(self.resources@, p, i as int);
            }
            if self.headers[self.resources[i].value.index].state.is_loading() {
                c = c + 1;
            }
            i = i + 1;
        }
        proof {
            assert(self.resources@.take(n as int) =~= self.resources@);
        }
        c
    }

    /// Number of cached resources whose data is loaded.
    pub fn count_loaded_resources(&self) -> (r: usize)
        requires
            self.wf(),
        ensures
            r == count_where(self.resources@, |h: UntypedResource| self.state_of(h) is Ready),
            r <= self.resources@.len(),
    {
        let ghost p = |h: UntypedResource| self.state_of(h) is Ready;
        let n = self.resources.len();
        let mut c: usize = 0;
        let mut i: usize = 0;
        while i < n
            invariant
                n == self.resources@.len(),
                0 <= i <= n,
                self.wf(),
                p == (|h: UntypedResource| self.state_of(h) is Ready),
                c == count_where(self.resources@.take(i as int), p),
                c <= i,
            decreases n - i,
        {
            proof {
                lemma_count_where_step(self.resources@, p, i as int);
            }
            if self.headers[self.resources[i].value.index].state.is_ok() {
                c = c + 1;
            }
            i = i + 1;
        }
        proof {
            assert(self.resources@.take(n as int) =~= self.resources@);
        }
        c
    }

    /// The share of cached resources that are loaded, in percent (100 when the
    /// cache is empty).
    pub fn loading_progress(&self) -> (r: usize)
        requires
            self.wf(),
        ensures
            self.resources@.len() == 0 ==> r == 100,
            self.resources@.len() > 0 ==> r == count_where(
                self.resources@,
                |h: UntypedResource| self.state_of(h) is Ready,
            ) * 100 / self.resources@.len(),
    {
        let registered = self.count_registered_resources();
        if registered > 0 {
            let loaded = self.count_loaded_resources();
            let percent: u128 = (loaded as u128) * 100 / (registered as u128);
            proof {
                let l = loaded as int;
                let g = registered as int;
                assert(l * 100 <= g * 100) by (nonlinear_arith)
                    requires
                        l <= g,
                ;
                assert((l * 100) / g <= (g * 100) / g) by (nonlinear_arith)
                    requires
                        l * 100 <= g * 100,
                        g > 0,
                ;
                assert((g * 100) / g == 100) by (nonlinear_arith)
                    requires
                        g > 0,
                ;
            }
            percent as usize
        } else {
            100
        }
    }

    /// The cached handles, in insertion order.
    pub fn resources(&self) -> (r: Vec<UntypedResource>)
        ensures
            r@ == self.cached(),
    {
        let n = self.resources.len();
        let mut out: Vec<UntypedResource> = Vec::new();
        let mut i: usize = 0;
        while i < n
            invariant
                n == self.resources@.len(),
                0 <= i <= n,
                out@ == self.resources@.take(i as int).map_values(|e: TimedEntry| e.value),
            decreases n - i,
        {
            out.push(self.resources[i].value);
            i = i + 1;
            assert(out@ =~= self.resources@.take(i as int).map_values(|e: TimedEntry| e.value));
        }
        assert(self.resources@.take(n as int) =~= self.resources@);
        out
    }

    /// A set of the cached resources that can be polled until all are loaded.
    pub fn get_wait_context(&self) -> (r: ResourceWaitContext)
        ensures
            r.resources@ == self.cached(),
    {
        ResourceWaitContext { resources: self.resources() }
    }

    /// Takes the events published since the last call.
    pub fn take_events(&mut self) -> (r: Vec<ResourceEvent>)
        requires
            old(self).wf(),
        ensures
            final(self).wf(),
            r@ == old(self).events@,
            final(self).events@.len() == 0,
            final(self).headers@ == old(self).headers@,
            final(self).holders@ == old(self).holders@,
            final(self).resources@ == old(self).resources@,
            final(self).tasks@ == old(self).tasks@,
            final(self).resource_registry == old(self).resource_registry,
            final(self).loaders == old(self).loaders,
            final(self).built_in_resources == old(self).built_in_resources,
    {
        let mut taken: Vec<ResourceEvent> = Vec::new();
        std::mem::swap(&mut self.events, &mut taken);
        taken
    }

    /// The cached handle `h` answers a request by `key`: a pending or failed
    /// resource by the key it was requested by; a loaded one by its UUID, or by
    /// the path the registry gives for its UUID.
    pub open spec fn entry_matches(&self, h: UntypedResource, key: ResourcePathView) -> bool {
        match self.state_of(h) {
            ResourceState::Pending { path } => path@ == key,
            ResourceState::LoadError { path, .. } => path@ == key,
            ResourceState::Ready { resource_uuid, .. } => match key {
                ResourcePathView::Explicit(p) => self.resource_registry@.contains_key(resource_uuid)
                    && self.resource_registry@[resource_uuid] == p,
                ResourcePathView::Implicit(u) => resource_uuid == u,
            },
        }
    }

    /// `i` is the first cache entry that answers `key`.
    pub open spec fn is_first_match(&self, key: ResourcePathView, i: int) -> bool {
        &&& 0 <= i < self.resources@.len()
        &&& self.entry_matches(self.resources@[i].value, key)
        &&& forall|j: int|
            0 <= j < i ==> !self.entry_matches(#[trigger] self.resources@[j].value, key)
    }

    /// The cached handle that answers `key`: the first one in the cache.
    pub open spec fn cache_lookup(&self, key: ResourcePathView) -> Option<UntypedResource> {
        if exists|i: int| self.is_first_match(key, i) {
            Some(self.resources@[choose|i: int| self.is_first_match(key, i)].value)
        } else {
            None
        }
    }

    /// `i` is the first cache entry that is loaded with the UUID `u`.
    pub open spec fn is_first_with_uuid(&self, u: u128, i: int) -> bool {
        &&& 0 <= i < self.resources@.len()
        &&& self.state_of(self.resources@[i].value).uuid_spec() == Some(u)
        &&& forall|j: int|
            0 <= j < i ==> self.state_of(#[trigger] self.resources@[j].value).uuid_spec() != Some(
                u,
            )
    }

    /// The first cached handle loaded with the UUID `u`.
    pub open spec fn find_spec(&self, u: u128) -> Option<UntypedResource> {
        if exists|i: int| self.is_first_with_uuid(u, i) {
            Some(self.resources@[choose|i: int| self.is_first_with_uuid(u, i)].value)
        } else {
            None
        }
    }

    /// The built-in resource reserved under `p`.
    pub open spec fn builtin_for_path(&self, p: Seq<char>) -> Option<UntypedResource> {
        match self.built_in_resources.position_of(p) {
            Some(i) => Some(self.built_in_resources.entries@[i].resource.resource),
            None => None,
        }
    }

    /// `i` is the first built-in resource loaded with the UUID `u`.
    pub open spec fn is_first_builtin_with_uuid(&self, u: u128, i: int) -> bool {
        let b = self.built_in_resources.entries@;
        &&& 0 <= i < b.len()
        &&& self.state_of(b[i].resource.resource).uuid_spec() == Some(u)
        &&& forall|j: int|
            0 <= j < i ==> self.state_of((#[trigger] b[j]).resource.resource).uuid_spec() != Some(u)
    }

    /// The first built-in resource loaded with the UUID `u`.
    pub open spec fn builtin_for_uuid(&self, u: u128) -> Option<UntypedResource> {
        if exists|i: int| self.is_first_builtin_with_uuid(u, i) {
            Some(
                self.built_in_resources.entries@[choose|i: int|
                    self.is_first_builtin_with_uuid(u, i)].resource.resource,
            )
        } else {
            None
        }
    }

    /// `new` is `old` with one more holder of `h` and nothing else changed.
    pub open spec fn acquired(old: &Self, new: &Self, h: UntypedResource) -> bool {
        &&& new.holders@ == old.holders@.update(h.index as int, inc(old.holders_of(h)))
        &&& new.headers@ == old.headers@
        &&& new.resources@ == old.resources@
        &&& new.tasks@ == old.tasks@
        &&& new.events@ == old.events@
        &&& new.resource_registry == old.resource_registry
        &&& new.loaders == old.loaders
        &&& new.built_in_resources == old.built_in_resources
    }

    /// `new` is `old` with a fresh pending external resource `r` for `key`: held
    /// by the caller and by the cache, with a load task scheduled and `Added`
    /// published.
    pub open spec fn scheduled_fresh(old: &Self, new: &Self, r: UntypedResource, key: ResourcePathView) -> bool {
        &&& r.index == old.headers@.len()
        &&& new.headers@.len() == old.headers@.len() + 1
        &&& forall|i: int| 0 <= i < old.headers@.len() ==> new.headers@[i] == old.headers@[i]
        &&& new.kind_of(r) == ResourceKind::External
        &&& new.state_of(r) matches ResourceState::Pending { path } && path@ == key
        &&& new.holders@ == old.holders@.push(1)
        &&& new.resources@ == old.resources@.push(
            TimedEntry { value: r, time_to_live: DEFAULT_RESOURCE_LIFETIME },
        )
        &&& new.events@ == old.events@.push(ResourceEvent::Added(r))
        &&& new.tasks@.len() == old.tasks@.len() + 1
        &&& forall|i: int| 0 <= i < old.tasks@.len() ==> new.tasks@[i] == old.tasks@[i]
        &&& new.tasks@.last().resource == r
        &&& new.tasks@.last().path@ == key
        &&& !new.tasks@.last().reload
        &&& new.tasks@.last().fs_path is None
        &&& new.resource_registry == old.resource_registry
        &&& new.loaders == old.loaders
        &&& new.built_in_resources == old.built_in_resources
    }

    /// Whether the cached handle `h` answers a request by `key`.
    fn matches_key(&self, h: UntypedResource, key: &ResourcePath) -> (r: bool)
        requires
            self.wf(),
            self.valid(h),
        ensures
            r == self.entry_matches(h, key@),
    {
        match &self.headers[h.index].state {
            ResourceState::Pending { path } => path.matches(key),
            ResourceState::LoadError { path, .. } => path.matches(key),
            ResourceState::Ready { resource_uuid, .. } => match key {
                ResourcePath::Explicit(p) => match self.resource_registry.uuid_to_path(
                    *resource_uuid,
                ) {
                    Some(q) => same_text(q.as_str(), p.as_str()),
                    None => false,
                },
                ResourcePath::Implicit(u) => *resource_uuid == *u,
            },
        }
    }

    /// The position of the first cache entry that answers `key`.
    fn find_by_resource_path(&self, key: &ResourcePath) -> (r: Option<usize>)
        requires
            self.wf(),
        ensures
            match r {
                Some(i) => self.is_first_match(key@, i as int) && self.cache_lookup(key@) == Some(
                    self.resources@[i as int].value,
                ),
                None => self.cache_lookup(key@) is None,
            },
    {
        let n = self.resources.len();
        let mut i: usize = 0;
        while i < n
            invariant
                n == self.resources@.len(),
                0 <= i <= n,
                self.wf(),
                forall|j: int|
                    0 <= j < i ==> !self.entry_matches(#[trigger] self.resources@[j].value, key@),
            decreases n - i,
        {
            if self.matches_key(self.resources[i].value, key) {
                proof {
                    assert(self.is_first_match(key@, i as int));
                    let k = choose|k: int| self.is_first_match(key@, k);
                    assert(self.is_first_match(key@, k));
                    if k < i {
                        assert(!self.entry_matches(self.resources@[k].value, key@));
                    } else if k > i {
                        assert(!self.entry_matches(self.resources@[i as int].value, key@));
                    }
                }
                return Some(i);
            }
            i = i + 1;
        }
        None
    }

    /// The first cached handle that is loaded with the UUID `uuid`.
    pub fn find(&self, uuid: u128) -> (r: Option<UntypedResource>)
        requires
            self.wf(),
        ensures
            r == self.find_spec(uuid),
    {
        let n = self.resources.len();
        let mut i: usize = 0;
        while i < n
            invariant
                n == self.resources@.len(),
                0 <= i <= n,
                self.wf(),
                forall|j: int|
                    0 <= j < i ==> self.state_of(#[trigger] self.resources@[j].value).uuid_spec()
                        != Some(uuid),
            decreases n - i,
        {
            let h = self.resources[i].value;
            if self.resource_uuid(h) == Some(uuid) {
                proof {
                    assert(self.is_first_with_uuid(uuid, i as int));
                    let k = choose|k: int| self.is_first_with_uuid(uuid, k);
                    assert(self.is_first_with_uuid(uuid, k));
                    if k < i {
                        assert(self.state_of(self.resources@[k].value).uuid_spec() != Some(uuid));
                    } else if k > i {
                        assert(self.state_of(self.resources@[i as int].value).uuid_spec() != Some(
                            uuid,
                        ));
                    }
                }
                return Some(h);
            }
            i = i + 1;
        }
        None
    }

    /// The cached handle that answers a request by the path `path`.
    pub fn find_by_path(&self, path: &str) -> (r: Option<UntypedResource>)
        requires
            self.wf(),
        ensures
            r == self.cache_lookup(ResourcePathView::Explicit(path@)),
    {
        let key = ResourcePath::Explicit(path.to_owned());
        match self.find_by_resource_path(&key) {
            Some(i) => Some(self.resources[i].value),
            None => None,
        }
    }

    /// The first built-in resource that is loaded with the UUID `uuid`.
    fn find_builtin_by_uuid(&self, uuid: u128) -> (r: Option<UntypedResource>)
        requires
            self.wf(),
        ensures
            r == self.builtin_for_uuid(uuid),
    {
        let n = self.built_in_resources.entries.len();
        let mut i: usize = 0;
        while i < n
            invariant
                n == self.built_in_resources.entries@.len(),
                0 <= i <= n,
                self.wf(),
                forall|j: int|
                    0 <= j < i ==> self.state_of(
                        (#[trigger] self.built_in_resources.entries@[j]).resource.resource,
                    ).uuid_spec() != Some(uuid),
            decreases n - i,
        {
            let h = self.built_in_resources.entries[i].resource.resource;
            if self.resource_uuid(h) == Some(uuid) {
                proof {
                    assert(self.is_first_builtin_with_uuid(uuid, i as int));
                    let k = choose|k: int| self.is_first_builtin_with_uuid(uuid, k);
                    assert(self.is_first_builtin_with_uuid(uuid, k));
                    let b = self.built_in_resources.entries@;
                    if k < i {
                        assert(self.state_of(b[k].resource.resource).uuid_spec() != Some(uuid));
                    } else if k > i {
                        assert(self.state_of(b[i as int].resource.resource).uuid_spec() != Some(
                            uuid,
                        ));
                    }
                }
                return Some(h);
            }
            i = i + 1;
        }
        None
    }

    /// Schedules a load task.
    fn push_task(&mut self, task: LoadTask)
        requires
            old(self).wf(),
            old(self).valid(task.resource),
            old(self).state_of(task.resource) is Pending,
            forall|i: int|
                0 <= i < old(self).tasks@.len() ==> (#[trigger] old(self).tasks@[i]).resource
                    != task.resource,
        ensures
            final(self).wf(),
            final(self).tasks@ == old(self).tasks@.push(task),
            final(self).headers@ == old(self).headers@,
            final(self).holders@ == old(self).holders@,
            final(self).resources@ == old(self).resources@,
            final(self).events@ == old(self).events@,
            final(self).resource_registry == old(self).resource_registry,
            final(self).loaders == old(self).loaders,
            final(self).built_in_resources == old(self).built_in_resources,
    {
        self.tasks.push(task);
        proof {
            let s = self.tasks@;
            let o = old(self).tasks@;
            assert forall|a: int, b: int|
                0 <= a < s.len() && 0 <= b < s.len() && a != b implies (#[trigger] s[a]).resource
                != (#[trigger] s[b]).resource by {
                if a < o.len() && b < o.len() {
                    assert(s[a] == o[a] && s[b] == o[b]);
                } else if a < o.len() {
                    assert(s[a] == o[a]);
                } else {
                    assert(s[b] == o[b]);
                }
            }
            assert forall|a: int| 0 <= a < s.len() implies self.valid((#[trigger] s[a]).resource)
                && self.state_of(s[a].resource) is Pending by {
                if a < o.len() {
                    assert(s[a] == o[a]);
                }
            }
        }
    }

    /// The cached handle for `key`, or a fresh pending one with its load task.
    fn find_or_load(&mut self, key: ResourcePath) -> (r: UntypedResource)
        requires
            old(self).wf(),
        ensures
            final(self).wf(),
            final(self).valid(r),
            match old(self).cache_lookup(key@) {
                Some(h) => r == h && Self::acquired(old(self), final(self), h),
                None => Self::scheduled_fresh(old(self), final(self), r, key@),
            },
    {
        match self.find_by_resource_path(&key) {
            Some(i) => {
                let h = self.resources[i].value;
                self.acquire(h);
                h
            },
            None => {
                let ghost k = key;
                let h = self.add_record(
                    ResourceKind::External,
                    ResourceState::Pending { path: key.duplicate() },
                );
                assert forall|i: int| 0 <= i < self.tasks@.len() implies (#[trigger] self.tasks@[i]).resource
                    != h by {
                    assert(self.valid(self.tasks@[i].resource));
                }
                self.push_task(LoadTask { resource: h, path: key, reload: false, fs_path: None });
                assert(!self.in_cache(h)) by {
                    assert forall|i: int| 0 <= i < self.resources@.len() implies (#[trigger] self.resources@[i]).value
                        != h by {
                        assert(old(self).valid(self.resources@[i].value));
                    }
                }
                self.push(h);
                h
            },
        }
    }

    /// The resource at `path`: the built-in one reserved under it, else the cached
    /// one that answers the path, else a fresh pending one whose load is
    /// scheduled. The caller holds the returned handle.
    pub fn request(&mut self, path: &str) -> (r: UntypedResource)
        requires
            old(self).wf(),
        ensures
            final(self).wf(),
            final(self).valid(r),
            match old(self).builtin_for_path(path@) {
                Some(b) => r == b && Self::acquired(old(self), final(self), b),
                None => match old(self).cache_lookup(ResourcePathView::Explicit(path@)) {
                    Some(h) => r == h && Self::acquired(old(self), final(self), h),
                    None => Self::scheduled_fresh(
                        old(self),
                        final(self),
                        r,
                        ResourcePathView::Explicit(path@),
                    ),
                },
            },
    {
        match self.built_in_resources.find(path) {
            Some(i) => {
                let h = self.built_in_resources.entries[i].resource.resource;
                self.acquire(h);
                h
            },
            None => self.find_or_load(ResourcePath::Explicit(path.to_owned())),
        }
    }

    /// The resource with the UUID `uuid`: the built-in one loaded with it, else the
    /// cached one, else a fresh pending one whose path is resolved through the
    /// registry when its load runs. The caller holds the returned handle.
    pub fn request_by_uuid(&mut self, uuid: u128) -> (r: UntypedResource)
        requires
            old(self).wf(),
            uuid != 0,
        ensures
            final(self).wf(),
            final(self).valid(r),
            match old(self).builtin_for_uuid(uuid) {
                Some(b) => r == b && Self::acquired(old(self), final(self), b),
                None => match old(self).cache_lookup(ResourcePathView::Implicit(uuid)) {
                    Some(h) => r == h && Self::acquired(old(self), final(self), h),
                    None => Self::scheduled_fresh(
                        old(self),
                        final(self),
                        r,
                        ResourcePathView::Implicit(uuid),
                    ),
                },
            },
    {
        match self.find_builtin_by_uuid(uuid) {
            Some(h) => {
                self.acquire(h);
                h
            },
            None => self.find_or_load(ResourcePath::Implicit(uuid)),
        }
    }

    /// What the sweep does with the cache entry `e` after `dt` milliseconds: an
    /// entry that only the cache holds loses `dt` of its time and leaves once its
    /// time is exceeded; an entry held elsewhere gets its full lifetime back.
    pub open spec fn sweep_entry(&self, e: TimedEntry, dt: u64) -> Option<TimedEntry> {
        if self.holders_of(e.value) == 0 {
            if e.time_to_live < dt {
                None
            } else {
                Some(TimedEntry { value: e.value, time_to_live: (e.time_to_live - dt) as u64 })
            }
        } else {
            Some(TimedEntry { value: e.value, time_to_live: DEFAULT_RESOURCE_LIFETIME })
        }
    }

    /// The entries that remain after a sweep over `es`.
    pub open spec fn swept(&self, es: Seq<TimedEntry>, dt: u64) -> Seq<TimedEntry>
        decreases es.len(),
    {
        if es.len() == 0 {
            Seq::empty()
        } else {
            let prev = self.swept(es.drop_last(), dt);
            match self.sweep_entry(es.last(), dt) {
                Some(k) => prev.push(k),
                None => prev,
            }
        }
    }

    /// The path under which the registry knows the resource behind `h`.
    pub open spec fn registered_path(&self, h: UntypedResource) -> Option<Seq<char>> {
        match self.state_of(h).uuid_spec() {
            Some(u) => if self.resource_registry@.contains_key(u) {
                Some(self.resource_registry@[u])
            } else {
                None
            },
            None => None,
        }
    }

    /// The paths published as `Removed` by a sweep over `es`: one for each entry
    /// that leaves and whose path is known.
    pub open spec fn evicted_paths(&self, es: Seq<TimedEntry>, dt: u64) -> Seq<Seq<char>>
        decreases es.len(),
    {
        if es.len() == 0 {
            Seq::empty()
        } else {
            let prev = self.evicted_paths(es.drop_last(), dt);
            if self.sweep_entry(es.last(), dt) is None && self.registered_path(es.last().value) is Some {
                prev.push(self.registered_path(es.last().value)->0)
            } else {
                prev
            }
        }
    }

    /// The resource behind `h` is known to the registry under `path`.
    fn registered_path_of(&self, h: UntypedResource) -> (r: Option<String>)
        requires
            self.wf(),
            self.valid(h),
        ensures
            match self.registered_path(h) {
                Some(p) => r matches Some(q) && q@ == p,
                None => r is None,
            },
    {
        match self.resource_uuid(h) {
            Some(u) => match self.resource_registry.uuid_to_path(u) {
                Some(p) => Some(p.clone()),
                None => None,
            },
            None => None,
        }
    }

    /// Cache maintenance after `dt` milliseconds: each entry that only the cache
    /// holds loses `dt` of its time and is evicted once its time is exceeded,
    /// publishing `Removed` with its registered path when one is known; each entry
    /// held elsewhere gets the full lifetime back.
    pub fn update(&mut self, dt: u64)
        requires
            old(self).wf(),
        ensures
            final(self).wf(),
            final(self).resources@ == old(self).swept(old(self).resources@, dt),
            final(self).events@.len() == old(self).events@.len() + old(self).evicted_paths(
                old(self).resources@,
                dt,
            ).len(),
            forall|i: int|
                0 <= i < old(self).events@.len() ==> final(self).events@[i] == old(self).events@[i],
            forall|k: int|
                0 <= k < old(self).evicted_paths(old(self).resources@, dt).len() ==> is_removed_event(#[trigger] final(self).events@[old(self).events@.len() + k], old(self).evicted_paths(old(self).resources@, dt)[k]),
            forall|i: int|
                0 <= i < final(self).resources@.len() && final(self).holders_of(
                    (#[trigger] final(self).resources@[i]).value,
                ) > 0 ==> final(self).resources@[i].time_to_live == DEFAULT_RESOURCE_LIFETIME,
            forall|i: int|
                0 <= i < old(self).resources@.len() && old(self).holders_of(
                    (#[trigger] old(self).resources@[i]).value,
                ) > 0 ==> final(self).in_cache(old(self).resources@[i].value),
            final(self).headers@ == old(self).headers@,
            final(self).holders@ == old(self).holders@,
            final(self).tasks@ == old(self).tasks@,
            final(self).resource_registry == old(self).resource_registry,
            final(self).loaders == old(self).loaders,
            final(self).built_in_resources == old(self).built_in_resources,
    {
        let ghost es = self.resources@;
        let ghost ev0 = self.events@;
        let n = self.resources.len();
        let mut kept: Vec<TimedEntry> = Vec::new();
        let mut i: usize = 0;
        while i < n
            invariant
                n == es.len(),
                0 <= i <= n,
                self.wf(),
                self.resources@ == es,
                self.headers@ == old(self).headers@,
                self.holders@ == old(self).holders@,
                self.tasks@ == old(self).tasks@,
                self.resource_registry == old(self).resource_registry,
                self.loaders == old(self).loaders,
                self.built_in_resources == old(self).built_in_resources,
                es == old(self).resources@,
                ev0 == old(self).events@,
                kept@ == old(self).swept(es.take(i as int), dt),
                forall|k: int|
                    0 <= k < kept@.len() ==> exists|j: int|
                        0 <= j < i && (#[trigger] kept@[k]).value == es[j].value,
                forall|a: int, b: int|
                    0 <= a < kept@.len() && 0 <= b < kept@.len() && a != b
                        ==> (#[trigger] kept@[a]).value != (#[trigger] kept@[b]).value,
                forall|k: int|
                    0 <= k < kept@.len() ==> (#[trigger] kept@[k]).time_to_live
                        <= DEFAULT_RESOURCE_LIFETIME,
                self.events@.len() == ev0.len() + old(self).evicted_paths(es.take(i as int), dt).len(),
                forall|j: int| 0 <= j < ev0.len() ==> self.events@[j] == ev0[j],
                forall|k: int|
                    0 <= k < old(self).evicted_paths(es.take(i as int), dt).len() ==> is_removed_event(#[trigger] self.events@[ev0.len() + k], old(self).evicted_paths(es.take(i as int), dt)[k]),
            decreases n - i,
        {
            proof {
                assert(es.take(i + 1).drop_last() =~= es.take(i as int));
                assert(es.take(i + 1).last() == es[i as int]);
            }
            let e = self.resources[i];
            let held = self.holders[e.value.index];
            let ghost kept_before = kept@;
            let ghost events_before = self.events@;
            if held == 0 {
                if e.time_to_live < dt {
                    match self.registered_path_of(e.value) {
                        Some(p) => {
                            self.events.push(ResourceEvent::Removed(p));
                            proof {
                                assert forall|k: int|
                                    0 <= k < old(self).evicted_paths(es.take(i + 1), dt).len() implies is_removed_event(#[trigger] self.events@[ev0.len() + k], old(self).evicted_paths(es.take(i + 1), dt)[k]) by {
                                    if k < old(self).evicted_paths(es.take(i as int), dt).len() {
                                        assert(self.events@[ev0.len() + k] == events_before[ev0.len() + k]);
                                    }
                                }
                            }
                        },
                        None => {},
                    }
                } else {
                    kept.push(TimedEntry { value: e.value, time_to_live: e.time_to_live - dt });
                }
            } else {
                kept.push(TimedEntry { value: e.value, time_to_live: DEFAULT_RESOURCE_LIFETIME });
            }
            proof {
                assert forall|k: int|
                    0 <= k < kept@.len() implies exists|j: int|
                        0 <= j < i + 1 && (#[trigger] kept@[k]).value == es[j].value by {
                    if k < kept_before.len() {
                        assert(kept@[k] == kept_before[k]);
                        let j = choose|j: int| 0 <= j < i && kept_before[k].value == es[j].value;
                        assert(0 <= j < i + 1 && kept@[k].value == es[j].value);
                    } else {
                        assert(kept@[k].value == es[i as int].value);
                    }
                }
                assert forall|a: int, b: int|
                    0 <= a < kept@.len() && 0 <= b < kept@.len() && a != b implies (#[trigger] kept@[a]).value
                    != (#[trigger] kept@[b]).value by {
                    if a < kept_before.len() && b < kept_before.len() {
                        assert(kept@[a] == kept_before[a] && kept@[b] == kept_before[b]);
                    } else if a < kept_before.len() {
                        assert(kept@[a] == kept_before[a]);
                        let j = choose|j: int| 0 <= j < i && kept_before[a].value == es[j].value;
                        assert(es[j].value != es[i as int].value);
                    } else if b < kept_before.len() {
                        assert(kept@[b] == kept_before[b]);
                        let j = choose|j: int| 0 <= j < i && kept_before[b].value == es[j].value;
                        assert(es[j].value != es[i as int].value);
                    }
                }
                assert forall|k: int| 0 <= k < kept@.len() implies (#[trigger] kept@[k]).time_to_live
                    <= DEFAULT_RESOURCE_LIFETIME by {
                    if k < kept_before.len() {
                        assert(kept@[k] == kept_before[k]);
                    }
                }
            }
            i = i + 1;
        }
        proof {
            assert(es.take(n as int) =~= es);
            lemma_swept_keeps_used(&*old(self), es, dt);
        }
        self.resources = kept;
        proof {
            assert forall|j: int| 0 <= j < self.resources@.len() implies self.valid((#[trigger] self.resources@[j]).value)
                && self.resources@[j].time_to_live <= DEFAULT_RESOURCE_LIFETIME by {
                let jj = choose|jj: int| 0 <= jj < n && self.resources@[j].value == es[jj].value;
                assert(old(self).valid(es[jj].value));
            }
            assert forall|j: int|
                0 <= j < old(self).resources@.len() && old(self).holders_of(
                    (#[trigger] old(self).resources@[j]).value,
                ) > 0 implies self.in_cache(old(self).resources@[j].value) by {
                let k = choose|k: int|
                    0 <= k < self.resources@.len() && self.resources@[k] == TimedEntry {
                        value: es[j].value,
                        time_to_live: DEFAULT_RESOURCE_LIFETIME,
                    };
                assert(self.resources@[k].value == old(self).resources@[j].value);
            }
        }
    }

    /// Drops at once every cache entry that only the cache holds; the others
    /// stay, in order, with their time unchanged.
    pub fn destroy_unused_resources(&mut self)
        requires
            old(self).wf(),
        ensures
            final(self).wf(),
            final(self).resources@ == old(self).resources@.filter(
                |e: TimedEntry| old(self).holders_of(e.value) > 0,
            ),
            final(self).headers@ == old(self).headers@,
            final(self).holders@ == old(self).holders@,
            final(self).tasks@ == old(self).tasks@,
            final(self).events@ == old(self).events@,
            final(self).resource_registry == old(self).resource_registry,
            final(self).loaders == old(self).loaders,
            final(self).built_in_resources == old(self).built_in_resources,
    {
        let ghost es = self.resources@;
        let ghost p = |e: TimedEntry| old(self).holders_of(e.value) > 0;
        let n = self.resources.len();
        let mut kept: Vec<TimedEntry> = Vec::new();
        let mut i: usize = 0;
        while i < n
            invariant
                n == es.len(),
                0 <= i <= n,
                self.wf(),
                *self == *old(self),
                es == old(self).resources@,
                p == (|e: TimedEntry| old(self).holders_of(e.value) > 0),
                kept@ == es.take(i as int).filter(p),
                forall|k: int|
                    0 <= k < kept@.len() ==> exists|j: int|
                        0 <= j < i && (#[trigger] kept@[k]) == es[j],
                forall|a: int, b: int|
                    0 <= a < kept@.len() && 0 <= b < kept@.len() && a != b
                        ==> (#[trigger] kept@[a]).value != (#[trigger] kept@[b]).value,
            decreases n - i,
        {
            proof {
                lemma_filter_step(es, p, i as int);
            }
            let e = self.resources[i];
            let ghost kept_before = kept@;
            if self.holders[e.value.index] > 0 {
                kept.push(e);
            }
            proof {
                assert forall|k: int|
                    0 <= k < kept@.len() implies exists|j: int|
                        0 <= j < i + 1 && (#[trigger] kept@[k]) == es[j] by {
                    if k < kept_before.len() {
                        assert(kept@[k] == kept_before[k]);
                        let j = choose|j: int| 0 <= j < i && kept_before[k] == es[j];
                        assert(0 <= j < i + 1 && kept@[k] == es[j]);
                    } else {
                        assert(kept@[k] == es[i as int]);
                    }
                }
                assert forall|a: int, b: int|
                    0 <= a < kept@.len() && 0 <= b < kept@.len() && a != b implies (#[trigger] kept@[a]).value
                    != (#[trigger] kept@[b]).value by {
                    if a < kept_before.len() && b < kept_before.len() {
                        assert(kept@[a] == kept_before[a] && kept@[b] == kept_before[b]);
                    } else if a < kept_before.len() {
                        assert(kept@[a] == kept_before[a]);
                        let j = choose|j: int| 0 <= j < i && kept_before[a] == es[j];
                        assert(es[j].value != es[i as int].value);
                    } else if b < kept_before.len() {
                        assert(kept@[b] == kept_before[b]);
                        let j = choose|j: int| 0 <= j < i && kept_before[b] == es[j];
                        assert(es[j].value != es[i as int].value);
                    }
                }
            }
            i = i + 1;
        }
        proof {
            assert(es.take(n as int) =~= es);
        }
        self.resources = kept;
        proof {
            assert forall|j: int| 0 <= j < self.resources@.len() implies self.valid((#[trigger] self.resources@[j]).value)
                && self.resources@[j].time_to_live <= DEFAULT_RESOURCE_LIFETIME by {
                let jj = choose|jj: int| 0 <= jj < n && self.resources@[j] == es[jj];
                assert(old(self).valid(es[jj].value));
            }
        }
    }

    /// The key a reload of `h` requests by: the failed request's key, or the UUID
    /// of a loaded resource; none for a pending or embedded resource, which a
    /// reload leaves alone.
    pub open spec fn reload_key(&self, h: UntypedResource) -> Option<ResourcePathView> {
        if self.kind_of(h) == ResourceKind::Embedded {
            None
        } else {
            match self.state_of(h) {
                ResourceState::Pending { .. } => None,
                ResourceState::LoadError { path, .. } => Some(path@),
                ResourceState::Ready { resource_uuid, .. } => Some(
                    ResourcePathView::Implicit(resource_uuid),
                ),
            }
        }
    }

    /// `new` is `old` where the resource `h` went back to `Pending` for `key` and
    /// a load task with `reload` set was scheduled for it.
    pub open spec fn rescheduled(old: &Self, new: &Self, h: UntypedResource, key: ResourcePathView) -> bool {
        &&& new.headers@.len() == old.headers@.len()
        &&& forall|i: int|
            0 <= i < old.headers@.len() && i != h.index ==> new.headers@[i] == old.headers@[i]
        &&& new.kind_of(h) == old.kind_of(h)
        &&& new.state_of(h) matches ResourceState::Pending { path } && path@ == key
        &&& new.tasks@.len() == old.tasks@.len() + 1
        &&& forall|i: int| 0 <= i < old.tasks@.len() ==> new.tasks@[i] == old.tasks@[i]
        &&& new.tasks@.last().resource == h
        &&& new.tasks@.last().path@ == key
        &&& new.tasks@.last().reload
        &&& new.tasks@.last().fs_path is None
        &&& new.holders@ == old.holders@
        &&& new.resources@ == old.resources@
        &&& new.events@ == old.events@
        &&& new.resource_registry == old.resource_registry
        &&& new.loaders == old.loaders
        &&& new.built_in_resources == old.built_in_resources
    }

    /// Reloads the resource behind `h`: a loaded or failed external resource goes
    /// back to `Pending` and a load is scheduled (by its UUID when it was loaded,
    /// by its request key when it failed). A pending resource is loading already
    /// and an embedded one has no source: for them nothing changes.
    pub fn reload_resource(&mut self, h: UntypedResource)
        requires
            old(self).wf(),
            old(self).valid(h),
        ensures
            final(self).wf(),
            match old(self).reload_key(h) {
                None => *final(self) == *old(self),
                Some(key) => Self::rescheduled(old(self), final(self), h, key),
            },
    {
        if !self.headers[h.index].kind.is_external() {
            return;
        }
        let key = match &self.headers[h.index].state {
            ResourceState::Pending { .. } => {
                return;
            },
            ResourceState::LoadError { path, .. } => path.duplicate(),
            ResourceState::Ready { resource_uuid, .. } => ResourcePath::Implicit(*resource_uuid),
        };
        assert forall|i: int| 0 <= i < self.tasks@.len() implies (#[trigger] self.tasks@[i]).resource
            != h by {
            assert(self.state_of(self.tasks@[i].resource) is Pending);
        }
        let ghost tasks_before = self.tasks@;
        self.headers[h.index].state = ResourceState::Pending { path: key.duplicate() };
        proof {
            assert forall|i: int| 0 <= i < self.tasks@.len() implies self.valid(
                (#[trigger] self.tasks@[i]).resource,
            ) && self.state_of(self.tasks@[i].resource) is Pending by {
                assert(old(self).state_of(self.tasks@[i].resource) is Pending);
                assert(self.tasks@[i].resource != h);
            }
            assert forall|i: int| 0 <= i < self.headers@.len() implies ((#[trigger] self.headers@[i]).state matches ResourceState::Ready {
                resource_uuid,
                ..
            } ==> resource_uuid != 0) by {
                if i != h.index {
                    assert(self.headers@[i] == old(self).headers@[i]);
                }
            }
        }
        self.push_task(LoadTask { resource: h, path: key, reload: true, fs_path: None });
    }

    /// Reloads every cached resource (see `reload_resource`) and returns the
    /// cached handles, in cache order.
    pub fn reload_resources(&mut self) -> (r: Vec<UntypedResource>)
        requires
            old(self).wf(),
        ensures
            final(self).wf(),
            r@ == old(self).cached(),
            final(self).resources@ == old(self).resources@,
            final(self).holders@ == old(self).holders@,
            final(self).events@ == old(self).events@,
            final(self).resource_registry == old(self).resource_registry,
            final(self).headers@.len() == old(self).headers@.len(),
            forall|i: int|
                0 <= i < old(self).resources@.len() ==> (old(self).reload_key(
                    (#[trigger] old(self).resources@[i]).value,
                ) matches Some(key) ==> final(self).state_of(old(self).resources@[i].value) matches ResourceState::Pending {
                    path,
                } && path@ == key),
            forall|i: int|
                0 <= i < old(self).resources@.len() && old(self).reload_key(
                    (#[trigger] old(self).resources@[i]).value,
                ) is None ==> final(self).headers@[old(self).resources@[i].value.index as int]
                    == old(self).headers@[old(self).resources@[i].value.index as int],
            final(self).tasks@.len() >= old(self).tasks@.len(),
            forall|t: int| 0 <= t < old(self).tasks@.len() ==> final(self).tasks@[t] == old(self).tasks@[t],
            forall|i: int|
                0 <= i < old(self).resources@.len() ==> (old(self).reload_key(
                    (#[trigger] old(self).resources@[i]).value,
                ) matches Some(key) ==> exists|t: int| 0 <= t < final(self).tasks@.len()
                    && final(self).tasks@[t].resource == old(self).resources@[i].value
                    && final(self).tasks@[t].path@ == key && final(self).tasks@[t].reload),
            forall|t: int|
                old(self).tasks@.len() <= t < final(self).tasks@.len() ==> exists|i: int|
                    0 <= i < old(self).resources@.len()
                    && (#[trigger] final(self).tasks@[t]).resource == old(self).resources@[i].value
                    && old(self).reload_key(old(self).resources@[i].value) is Some,
    {
        let handles = self.resources();
        let n = handles.len();
        let mut i: usize = 0;
        while i < n
            invariant
                n == handles@.len(),
                handles@ == old(self).cached(),
                0 <= i <= n,
                self.wf(),
                self.resources@ == old(self).resources@,
                self.holders@ == old(self).holders@,
                self.events@ == old(self).events@,
                self.resource_registry == old(self).resource_registry,
                self.headers@.len() == old(self).headers@.len(),
                forall|j: int|
                    0 <= j < old(self).headers@.len() && (forall|k: int|
                        0 <= k < i ==> handles@[k].index != j) ==> #[trigger] self.headers@[j]
                        == old(self).headers@[j],
                forall|k: int|
                    0 <= k < i ==> (old(self).reload_key(#[trigger] handles@[k]) matches Some(key)
                        ==> self.state_of(handles@[k]) matches ResourceState::Pending { path }
                        && path@ == key),
                self.tasks@.len() >= old(self).tasks@.len(),
                forall|t: int| 0 <= t < old(self).tasks@.len() ==> self.tasks@[t] == old(self).tasks@[t],
                forall|k: int|
                    0 <= k < i && old(self).reload_key(#[trigger] handles@[k]) is None
                        ==> self.headers@[handles@[k].index as int] == old(self).headers@[handles@[k].index as int],
                forall|k: int|
                    0 <= k < i ==> (old(self).reload_key(#[trigger] handles@[k]) matches Some(key)
                        ==> exists|t: int| 0 <= t < self.tasks@.len()
                        && self.tasks@[t].resource == handles@[k]
                        && self.tasks@[t].path@ == key && self.tasks@[t].reload),
                forall|t: int|
                    old(self).tasks@.len() <= t < self.tasks@.len() ==> exists|k: int|
                        0 <= k < i && (#[trigger] self.tasks@[t]).resource == handles@[k]
                        && old(self).reload_key(handles@[k]) is Some,
            decreases n - i,
        {
            let h = handles[i];
            let ghost before = *self;
            proof {
                assert(handles@[i as int] == old(self).resources@[i as int].value);
                assert forall|k: int| 0 <= k < i implies handles@[k].index != h.index by {
                    assert(handles@[k] == old(self).resources@[k].value);
                    assert(old(self).resources@[k].value != old(self).resources@[i as int].value);
                }
                assert(self.headers@[h.index as int] == old(self).headers@[h.index as int]);
            }
            assert(before.reload_key(h) == old(self).reload_key(h));
            self.reload_resource(h);
            proof {
                assert forall|k: int|
                    0 <= k < i + 1 implies (old(self).reload_key(#[trigger] handles@[k]) matches Some(key)
                        ==> self.state_of(handles@[k]) matches ResourceState::Pending { path }
                        && path@ == key) by {
                    if k < i {
                        assert(handles@[k].index != h.index);
                        assert(self.headers@[handles@[k].index as int] == before.headers@[handles@[k].index as int]);
                    }
                }
                assert forall|k: int|
                    0 <= k < i + 1 implies (old(self).reload_key(#[trigger] handles@[k]) matches Some(key)
                        ==> exists|t: int| 0 <= t < self.tasks@.len()
                        && self.tasks@[t].resource == handles@[k]
                        && self.tasks@[t].path@ == key && self.tasks@[t].reload) by {
                    if k < i {
                        if let Some(key) = old(self).reload_key(handles@[k]) {
                            let t = choose|t: int| 0 <= t < before.tasks@.len()
                                && before.tasks@[t].resource == handles@[k]
                                && before.tasks@[t].path@ == key && before.tasks@[t].reload;
                            assert(self.tasks@[t] == before.tasks@[t]);
                        }
                    } else if let Some(key) = old(self).reload_key(h) {
                        let t = self.tasks@.len() - 1;
                        assert(self.tasks@[t].resource == handles@[k]);
                    }
                }
                assert forall|k: int|
                    0 <= k < i + 1 && old(self).reload_key(#[trigger] handles@[k]) is None
                        implies self.headers@[handles@[k].index as int] == old(self).headers@[handles@[k].index as int] by {
                    if k < i {
                        assert(handles@[k].index != h.index);
                    }
                }
                assert forall|t: int|
                    old(self).tasks@.len() <= t < self.tasks@.len() implies exists|k: int|
                        0 <= k < i + 1 && (#[trigger] self.tasks@[t]).resource == handles@[k]
                        && old(self).reload_key(handles@[k]) is Some by {
                    if t < before.tasks@.len() {
                        assert(self.tasks@[t] == before.tasks@[t]);
                        let k = choose|k: int| 0 <= k < i && before.tasks@[t].resource == handles@[k]
                            && old(self).reload_key(handles@[k]) is Some;
                        assert(0 <= k < i + 1);
                    } else {
                        assert(self.tasks@[t].resource == handles@[i as int]);
                    }
                }
            }
            i = i + 1;
        }
        proof {
            assert forall|i: int|
                0 <= i < old(self).resources@.len() implies (old(self).reload_key(
                    (#[trigger] old(self).resources@[i]).value,
                ) matches Some(key) ==> self.state_of(old(self).resources@[i].value) matches ResourceState::Pending {
                    path,
                } && path@ == key) by {
                assert(handles@[i] == old(self).resources@[i].value);
            }
            assert forall|i: int|
                0 <= i < old(self).resources@.len() && old(self).reload_key(
                    (#[trigger] old(self).resources@[i]).value,
                ) is None implies self.headers@[old(self).resources@[i].value.index as int]
                    == old(self).headers@[old(self).resources@[i].value.index as int] by {
                assert(handles@[i] == old(self).resources@[i].value);
            }
            assert forall|i: int|
                0 <= i < old(self).resources@.len() implies (old(self).reload_key(
                    (#[trigger] old(self).resources@[i]).value,
                ) matches Some(key) ==> exists|t: int| 0 <= t < self.tasks@.len()
                    && self.tasks@[t].resource == old(self).resources@[i].value
                    && self.tasks@[t].path@ == key && self.tasks@[t].reload) by {
                assert(handles@[i] == old(self).resources@[i].value);
            }
            assert forall|t: int|
                old(self).tasks@.len() <= t < self.tasks@.len() implies exists|i: int|
                    0 <= i < old(self).resources@.len()
                    && (#[trigger] self.tasks@[t]).resource == old(self).resources@[i].value
                    && old(self).reload_key(old(self).resources@[i].value) is Some by {
                let k = choose|k: int| 0 <= k < n && self.tasks@[t].resource == handles@[k]
                    && old(self).reload_key(handles@[k]) is Some;
                assert(handles@[k] == old(self).resources@[k].value);
            }
        }
        handles
    }

    /// Position of the load task for `h`.
    fn task_position(&self, h: UntypedResource) -> (r: Option<usize>)
        ensures
            match r {
                Some(i) => i < self.tasks@.len() && self.tasks@[i as int].resource == h,
                None => forall|j: int| 0 <= j < self.tasks@.len() ==> (#[trigger] self.tasks@[j]).resource != h,
            },
    {
        let n = self.tasks.len();
        let mut i: usize = 0;
        while i < n
            invariant
                n == self.tasks@.len(),
                0 <= i <= n,
                forall|j: int| 0 <= j < i ==> (#[trigger] self.tasks@[j]).resource != h,
            decreases n - i,
        {
            if self.tasks[i].resource == h {
                return Some(i);
            }
            i = i + 1;
        }
        None
    }

    /// Ends the load task at position `i`, committing `state` into its resource.
    fn finish_task(&mut self, i: usize, state: ResourceState)
        requires
            old(self).wf(),
            i < old(self).tasks@.len(),
            !(state is Pending),
            state matches ResourceState::Ready { resource_uuid, .. } ==> resource_uuid != 0,
        ensures
            final(self).wf(),
            final(self).tasks@ == old(self).tasks@.remove(i as int),
            final(self).headers@ == old(self).headers@.update(
                old(self).tasks@[i as int].resource.index as int,
                ResourceHeader { kind: old(self).kind_of(old(self).tasks@[i as int].resource), state },
            ),
            final(self).holders@ == old(self).holders@,
            final(self).resources@ == old(self).resources@,
            final(self).events@ == old(self).events@,
            final(self).resource_registry == old(self).resource_registry,
            final(self).loaders == old(self).loaders,
            final(self).built_in_resources == old(self).built_in_resources,
    {
        let h = self.tasks[i].resource;
        let ghost t = self.tasks@;
        self.tasks.remove(i);
        self.headers[h.index].state = state;
        proof {
            let s = self.tasks@;
            assert forall|a: int| 0 <= a < s.len() implies self.valid((#[trigger] s[a]).resource)
                && self.state_of(s[a].resource) is Pending by {
                let a2 = if a < i { a } else { a + 1 };
                assert(s[a] == t[a2]);
                assert(a2 != i);
                assert(t[a2].resource != h);
            }
            assert forall|a: int, b: int|
                0 <= a < s.len() && 0 <= b < s.len() && a != b implies (#[trigger] s[a]).resource
                != (#[trigger] s[b]).resource by {
                let a2 = if a < i { a } else { a + 1 };
                let b2 = if b < i { b } else { b + 1 };
                assert(s[a] == t[a2] && s[b] == t[b2]);
            }
            assert forall|a: int| 0 <= a < self.headers@.len() implies ((#[trigger] self.headers@[a]).state matches ResourceState::Ready {
                resource_uuid,
                ..
            } ==> resource_uuid != 0) by {
                if a != h.index {
                    assert(self.headers@[a] == old(self).headers@[a]);
                }
            }
        }
    }

    /// The position of the load task for `h`.
    pub open spec fn task_index(&self, h: UntypedResource) -> Option<int> {
        if exists|i: int| 0 <= i < self.tasks@.len() && self.tasks@[i].resource == h {
            Some(choose|i: int| 0 <= i < self.tasks@.len() && self.tasks@[i].resource == h)
        } else {
            None
        }
    }

    /// The filesystem path a request key resolves to: the path itself, or the
    /// path the registry gives for the UUID.
    pub open spec fn resolve(&self, key: ResourcePathView) -> Option<Seq<char>> {
        match key {
            ResourcePathView::Explicit(p) => Some(p),
            ResourcePathView::Implicit(u) => if self.resource_registry@.contains_key(u) {
                Some(self.resource_registry@[u])
            } else {
                None
            },
        }
    }

    /// The UUID a load of `fs` commits with: the one the registry gives for the
    /// path, else `fresh` when it is not nil and not taken.
    pub open spec fn commit_uuid(&self, fs: Seq<char>, fresh: u128) -> Option<u128> {
        match uuid_of_path(self.resource_registry@, fs) {
            Some(u) if u != 0 => Some(u),
            _ => if fresh != 0 && !self.resource_registry@.contains_key(fresh) {
                Some(fresh)
            } else {
                None
            },
        }
    }

    /// `new` is `old` where the task at `ti` ended: removed, its resource now in
    /// `state` (given by predicate), all else unchanged but what the caller says.
    pub open spec fn task_ended(old: &Self, new: &Self, ti: int) -> bool {
        let h = old.tasks@[ti].resource;
        &&& new.tasks@ == old.tasks@.remove(ti)
        &&& new.headers@.len() == old.headers@.len()
        &&& forall|i: int|
            0 <= i < old.headers@.len() && i != h.index ==> new.headers@[i] == old.headers@[i]
        &&& new.kind_of(h) == old.kind_of(h)
        &&& new.holders@ == old.holders@
        &&& new.resources@ == old.resources@
        &&& new.loaders == old.loaders
        &&& new.built_in_resources == old.built_in_resources
    }

    /// Finds the position of the task for `h`.
    proof fn lemma_task_index(&self, h: UntypedResource, i: int)
        requires
            self.wf(),
            0 <= i < self.tasks@.len(),
            self.tasks@[i].resource == h,
        ensures
            self.task_index(h) == Some(i),
    {
        let k = choose|k: int| 0 <= k < self.tasks@.len() && self.tasks@[k].resource == h;
        assert(0 <= k < self.tasks@.len() && self.tasks@[k].resource == h);
    }

    /// Takes the next step of the load task for `h`. While the registry is not
    /// ready the task waits. Otherwise its key is resolved to a filesystem path
    /// and the loader for it is chosen; when either fails, the failure is
    /// committed and the task ends. Else the task records the path and the loader
    /// is to be run on it (`Load`), after which `complete_task` commits the result.
    pub fn process_task(&mut self, h: UntypedResource) -> (r: LoadStep)
        requires
            old(self).wf(),
        ensures
            final(self).wf(),
            match old(self).task_index(h) {
                None => r is NoTask && *final(self) == *old(self),
                Some(ti) => {
                    let t = old(self).tasks@[ti];
                    if !old(self).resource_registry.is_ready {
                        r is WaitForRegistry && *final(self) == *old(self)
                    } else {
                        match old(self).resolve(t.path@) {
                            None => r is Failed && Self::task_ended(old(self), final(self), ti)
                                && final(self).events@ == old(self).events@
                                && final(self).resource_registry == old(self).resource_registry
                                && failed_with(final(self).state_of(h), t.path@, LoadErrorView::NoPathForUuid),
                            Some(fs) => match loader_index(old(self).loaders.loaders@, fs) {
                                None => r is Failed && Self::task_ended(old(self), final(self), ti)
                                    && final(self).events@ == old(self).events@
                                    && final(self).resource_registry == old(self).resource_registry
                                    && failed_with(final(self).state_of(h), t.path@, LoadErrorView::NoLoader(fs)),
                                Some(li) => (r matches LoadStep::Load { path, loader } && path@ == fs
                                    && loader == li) && final(self).tasks@.len() == old(self).tasks@.len()
                                    && final(self).tasks@[ti].resource == h
                                    && final(self).tasks@[ti].path@ == t.path@
                                    && final(self).tasks@[ti].reload == t.reload
                                    && (final(self).tasks@[ti].fs_path matches Some(q) && q@ == fs)
                                    && (forall|j: int| 0 <= j < old(self).tasks@.len() && j != ti
                                        ==> final(self).tasks@[j] == old(self).tasks@[j])
                                    && final(self).headers@ == old(self).headers@
                                    && final(self).holders@ == old(self).holders@
                                    && final(self).resources@ == old(self).resources@
                                    && final(self).events@ == old(self).events@
                                    && final(self).resource_registry == old(self).resource_registry
                                    && final(self).loaders == old(self).loaders
                                    && final(self).built_in_resources == old(self).built_in_resources,
                            },
                        }
                    }
                },
            },
    {
        let ti = match self.task_position(h) {
            Some(i) => i,
            None => {
                return LoadStep::NoTask;
            },
        };
        proof {
            self.lemma_task_index(h, ti as int);
        }
        if !self.resource_registry.is_ready {
            return LoadStep::WaitForRegistry;
        }
        let fs: String = match &self.tasks[ti].path {
            ResourcePath::Explicit(p) => p.clone(),
            ResourcePath::Implicit(u) => match self.resource_registry.uuid_to_path(*u) {
                Some(p) => p.clone(),
                None => {
                    let path = self.tasks[ti].path.duplicate();
                    let error = LoadError::NoPathForUuid(*u);
                    self.finish_task(ti, ResourceState::LoadError { path, error });
                    return LoadStep::Failed;
                },
            },
        };
        match self.loaders.loader_for(fs.as_str()) {
            None => {
                let path = self.tasks[ti].path.duplicate();
                self.finish_task(ti, ResourceState::LoadError { path, error: LoadError::NoLoader(fs) });
                LoadStep::Failed
            },
            Some(li) => {
                self.tasks[ti].fs_path = Some(fs.clone());
                proof {
                    let s = self.tasks@;
                    let o = old(self).tasks@;
                    assert forall|a: int| 0 <= a < s.len() implies (#[trigger] s[a]).resource == o[a].resource by {
                        if a != ti {
                            assert(s[a] == o[a]);
                        }
                    }
                }
                LoadStep::Load { path: fs, loader: li }
            },
        }
    }

    /// Commits the result of the loader run for the task of `h` that
    /// `process_task` prepared. Loaded data is committed with the UUID the
    /// registry gives for the path; when there is none, `fresh` is registered for
    /// it (when it is not nil and not taken), else the load fails. A committed
    /// load publishes `Loaded`, or `Reloaded` for a reload. The task ends. Returns
    /// false, changing nothing, when `h` has no prepared task.
    pub fn complete_task(&mut self, h: UntypedResource, outcome: Result<ResourceData, LoadError>, fresh: u128) -> (r: bool)
        requires
            old(self).wf(),
        ensures
            final(self).wf(),
            match old(self).task_index(h) {
                None => !r && *final(self) == *old(self),
                Some(ti) => {
                    let t = old(self).tasks@[ti];
                    match t.fs_path {
                        None => !r && *final(self) == *old(self),
                        Some(fs) => r && Self::task_ended(old(self), final(self), ti) && match outcome {
                            Err(e) => final(self).events@ == old(self).events@
                                && final(self).resource_registry == old(self).resource_registry
                                && (final(self).state_of(h) matches ResourceState::LoadError { path, error }
                                    && path@ == t.path@ && error == e),
                            Ok(data) => match old(self).commit_uuid(fs@, fresh) {
                                None => final(self).events@ == old(self).events@
                                    && final(self).resource_registry == old(self).resource_registry
                                    && failed_with(final(self).state_of(h), t.path@, LoadErrorView::NoUuidForPath(fs@)),
                                Some(u) => final(self).state_of(h) == (ResourceState::Ready { data, resource_uuid: u })
                                    && final(self).events@ == old(self).events@.push(
                                        if t.reload { ResourceEvent::Reloaded(h) } else { ResourceEvent::Loaded(h) },
                                    )
                                    && final(self).resource_registry.is_ready == old(self).resource_registry.is_ready
                                    && final(self).resource_registry@ == (if old(self).resource_registry@.contains_key(u) {
                                        old(self).resource_registry@
                                    } else {
                                        old(self).resource_registry@.insert(u, fs@)
                                    }),
                            },
                        },
                    }
                },
            },
    {
        let ti = match self.task_position(h) {
            Some(i) => i,
            None => {
                return false;
            },
        };
        proof {
            self.lemma_task_index(h, ti as int);
        }
        let fs: String = match &self.tasks[ti].fs_path {
            Some(p) => p.clone(),
            None => {
                return false;
            },
        };
        let path = self.tasks[ti].path.duplicate();
        match outcome {
            Err(e) => {
                self.finish_task(ti, ResourceState::LoadError { path, error: e });
                true
            },
            Ok(data) => {
                let known = self.resource_registry.path_to_uuid(fs.as_str());
                let uuid: u128 = match known {
                    Some(u) if u != 0 => u,
                    _ => {
                        if fresh != 0 && self.resource_registry.uuid_to_path(fresh).is_none() {
                            self.resource_registry.register(fresh, fs);
                            fresh
                        } else {
                            self.finish_task(ti, ResourceState::LoadError { path, error: LoadError::NoUuidForPath(fs) });
                            return true;
                        }
                    },
                };
                let reload = self.tasks[ti].reload;
                self.finish_task(ti, ResourceState::Ready { data, resource_uuid: uuid });
                if reload {
                    self.events.push(ResourceEvent::Reloaded(h));
                } else {
                    self.events.push(ResourceEvent::Loaded(h));
                }
                true
            },
        }
    }

    /// The position of the first cache entry loaded with the UUID `u`.
    pub open spec fn first_with_uuid_index(&self, u: u128) -> Option<int> {
        if exists|i: int| self.is_first_with_uuid(u, i) {
            Some(choose|i: int| self.is_first_with_uuid(u, i))
        } else {
            None
        }
    }

    /// The position of the first cache entry loaded with the UUID `uuid`.
    fn find_position(&self, uuid: u128) -> (r: Option<usize>)
        requires
            self.wf(),
        ensures
            match r {
                Some(i) => self.first_with_uuid_index(uuid) == Some(i as int)
                    && self.is_first_with_uuid(uuid, i as int)
                    && self.find_spec(uuid) == Some(self.resources@[i as int].value),
                None => self.first_with_uuid_index(uuid) is None && self.find_spec(uuid) is None
                    && forall|j: int| 0 <= j < self.resources@.len() ==> self.state_of(
                        #[trigger] self.resources@[j].value).uuid_spec() != Some(uuid),
            },
    {
        let n = self.resources.len();
        let mut i: usize = 0;
        while i < n
            invariant
                n == self.resources@.len(),
                0 <= i <= n,
                self.wf(),
                forall|j: int|
                    0 <= j < i ==> self.state_of(#[trigger] self.resources@[j].value).uuid_spec()
                        != Some(uuid),
            decreases n - i,
        {
            if self.resource_uuid(self.resources[i].value) == Some(uuid) {
                proof {
                    assert(self.is_first_with_uuid(uuid, i as int));
                    let k = choose|k: int| self.is_first_with_uuid(uuid, k);
                    assert(self.is_first_with_uuid(uuid, k));
                    if k < i {
                        assert(self.state_of(self.resources@[k].value).uuid_spec() != Some(uuid));
                    } else if k > i {
                        assert(self.state_of(self.resources@[i as int].value).uuid_spec() != Some(
                            uuid,
                        ));
                    }
                }
                return Some(i);
            }
            i = i + 1;
        }
        None
    }

    /// Removes the cache entry at `i`.
    fn remove_entry(&mut self, i: usize)
        requires
            old(self).wf(),
            i < old(self).resources@.len(),
        ensures
            final(self).wf(),
            final(self).resources@ == old(self).resources@.remove(i as int),
            final(self).headers@ == old(self).headers@,
            final(self).holders@ == old(self).holders@,
            final(self).tasks@ == old(self).tasks@,
            final(self).events@ == old(self).events@,
            final(self).resource_registry == old(self).resource_registry,
            final(self).loaders == old(self).loaders,
            final(self).built_in_resources == old(self).built_in_resources,
    {
        let ghost o = self.resources@;
        self.resources.remove(i);
        proof {
            let s = self.resources@;
            assert forall|a: int| 0 <= a < s.len() implies self.valid((#[trigger] s[a]).value)
                && s[a].time_to_live <= DEFAULT_RESOURCE_LIFETIME by {
                let a2 = if a < i { a } else { a + 1 };
                assert(s[a] == o[a2]);
            }
            assert forall|a: int, b: int|
                0 <= a < s.len() && 0 <= b < s.len() && a != b implies (#[trigger] s[a]).value
                != (#[trigger] s[b]).value by {
                let a2 = if a < i { a } else { a + 1 };
                let b2 = if b < i { b } else { b + 1 };
                assert(s[a] == o[a2] && s[b] == o[b2]);
            }
        }
    }

    /// Forgets the resource registered under `path`: its registry association is
    /// removed, and the first cache entry loaded with its UUID leaves the cache,
    /// publishing `Removed`.
    pub fn unregister(&mut self, path: &str)
        requires
            old(self).wf(),
        ensures
            final(self).wf(),
            final(self).resource_registry@ == without_path(old(self).resource_registry@, path@),
            final(self).resource_registry.is_ready == old(self).resource_registry.is_ready,
            final(self).resources@ == old(self).cache_after_unregister(path@),
            old(self).unregister_evicts(path@) ==> final(self).events@.drop_last() == old(self).events@
                && final(self).events@.len() == old(self).events@.len() + 1
                && is_removed_event(final(self).events@.last(), path@),
            !old(self).unregister_evicts(path@) ==> final(self).events@ == old(self).events@,
            match uuid_of_path(old(self).resource_registry@, path@) {
                Some(u) => (forall|i: int| old(self).is_first_with_uuid(u, i)
                    ==> final(self).resources@ == old(self).resources@.remove(i)
                        && final(self).events@.drop_last() == old(self).events@
                        && final(self).events@.len() == old(self).events@.len() + 1
                        && is_removed_event(final(self).events@.last(), path@))
                    && ((forall|i: int| !old(self).is_first_with_uuid(u, i))
                        ==> final(self).resources@ == old(self).resources@
                        && final(self).events@ == old(self).events@),
                None => final(self).resources@ == old(self).resources@
                    && final(self).events@ == old(self).events@,
            },
            final(self).headers@ == old(self).headers@,
            final(self).holders@ == old(self).holders@,
            final(self).tasks@ == old(self).tasks@,
            final(self).loaders == old(self).loaders,
            final(self).built_in_resources == old(self).built_in_resources,
    {
        match self.resource_registry.unregister_path(path) {
            Some(u) => {
                proof {
                    assert forall|j: int| 0 <= j < self.resources@.len() implies self.state_of(
                        #[trigger] self.resources@[j].value) == old(self).state_of(self.resources@[j].value) by {}
                }
                match self.find_position(u) {
                    Some(i) => {
                        proof {
                            assert forall|k: int| old(self).is_first_with_uuid(u, k) implies k == i by {
                                assert(self.is_first_with_uuid(u, i as int));
                                if k < i {
                                    assert(self.state_of(self.resources@[k].value).uuid_spec() != Some(u));
                                } else if k > i {
                                    assert(old(self).state_of(old(self).resources@[i as int].value).uuid_spec() != Some(u));
                                }
                            }
                        }
                        self.remove_entry(i);
                        let ghost before = self.events@;
                        self.events.push(ResourceEvent::Removed(path.to_owned()));
                        assert(self.events@.drop_last() =~= before);
                        assert(is_removed_event(self.events@.last(), path@));
                        assert(self.resources@ == old(self).resources@.remove(i as int));
                        assert(old(self).is_first_with_uuid(u, i as int));
                        assert(!(forall|k: int| !old(self).is_first_with_uuid(u, k)));
                        proof {
                            lemma_first_with_uuid(&*old(self), u, i as int);
                        }
                    },
                    None => {
                        assert(forall|i: int| !old(self).is_first_with_uuid(u, i));
                        assert(old(self).first_with_uuid_index(u) is None);
                    },
                }
            },
            None => {},
        }
    }

    /// The cache left by `unregister(p)`: without the first entry loaded with the
    /// UUID registered for `p`, if there is one.
    pub open spec fn cache_after_unregister(&self, p: Seq<char>) -> Seq<TimedEntry> {
        match uuid_of_path(self.resource_registry@, p) {
            Some(u) => match self.first_with_uuid_index(u) {
                Some(i) => self.resources@.remove(i),
                None => self.resources@,
            },
            None => self.resources@,
        }
    }

    /// `unregister(p)` drops a cache entry.
    pub open spec fn unregister_evicts(&self, p: Seq<char>) -> bool {
        uuid_of_path(self.resource_registry@, p) matches Some(u) && self.first_with_uuid_index(u) is Some
    }

    /// Registers the loaded resource behind `h` under `path`. It fails with
    /// `InvalidState` when the resource is not loaded, with `AlreadyRegistered`
    /// when a loaded resource with its UUID is cached, and with
    /// `UnableToRegister` when `on_register`, given the data and the path,
    /// refuses; in each case nothing changes. Otherwise whatever was registered
    /// under `path` is forgotten (see `unregister`), the resource becomes
    /// external, its UUID is registered under `path`, and it enters the cache.
    pub fn register<F: FnOnce(&ResourceData, &str) -> bool>(&mut self, h: UntypedResource, path: &str, on_register: F) -> (r: Result<(), ResourceRegistrationError>)
        requires
            old(self).wf(),
            old(self).valid(h),
            forall|d: &ResourceData, p: &str| on_register.requires((d, p)),
        ensures
            final(self).wf(),
            match old(self).state_of(h) {
                ResourceState::Ready { data, resource_uuid } => if old(self).find_spec(resource_uuid) is Some {
                    r == Err::<(), ResourceRegistrationError>(ResourceRegistrationError::AlreadyRegistered) && *final(self) == *old(self)
                } else {
                    &&& (r is Err ==> r == Err::<(), ResourceRegistrationError>(ResourceRegistrationError::UnableToRegister)
                        && on_register.ensures((&data, path), false)
                        && *final(self) == *old(self))
                    &&& (r is Ok ==> {
                        &&& on_register.ensures((&data, path), true)
                        &&& final(self).resource_registry@ == without_path(old(self).resource_registry@, path@).insert(resource_uuid, path@)
                        &&& final(self).resource_registry.is_ready == old(self).resource_registry.is_ready
                        &&& final(self).resources@ == old(self).cache_after_unregister(path@).push(
                            TimedEntry { value: h, time_to_live: DEFAULT_RESOURCE_LIFETIME },
                        )
                        &&& forall|j: int| 0 <= j < final(self).resources@.len() - 1 ==> final(self).state_of(
                            #[trigger] final(self).resources@[j].value).uuid_spec() != Some(resource_uuid)
                        &&& (old(self).unregister_evicts(path@) ==> final(self).events@.len() == old(self).events@.len() + 2
                            && final(self).events@.take(old(self).events@.len() as int) == old(self).events@
                            && is_removed_event(final(self).events@[old(self).events@.len() as int], path@)
                            && final(self).events@.last() == ResourceEvent::Added(h))
                        &&& (!old(self).unregister_evicts(path@) ==> final(self).events@ == old(self).events@.push(ResourceEvent::Added(h)))
                        &&& final(self).headers@ == old(self).headers@.update(
                            h.index as int,
                            ResourceHeader { kind: ResourceKind::External, state: old(self).state_of(h) },
                        )
                        &&& final(self).holders@ == old(self).holders@
                        &&& final(self).tasks@ == old(self).tasks@
                        &&& final(self).loaders == old(self).loaders
                        &&& final(self).built_in_resources == old(self).built_in_resources
                    })
                },
                _ => r == Err::<(), ResourceRegistrationError>(ResourceRegistrationError::InvalidState) && *final(self) == *old(self),
            },
    {
        let uuid = match self.resource_uuid(h) {
            Some(u) => u,
            None => {
                return Err(ResourceRegistrationError::InvalidState);
            },
        };
        if self.find_position(uuid).is_some() {
            return Err(ResourceRegistrationError::AlreadyRegistered);
        }
        let accepted = match &self.headers[h.index].state {
            ResourceState::Ready { data, .. } => on_register(data, path),
            _ => false,
        };
        if !accepted {
            return Err(ResourceRegistrationError::UnableToRegister);
        }
        let ghost o = self.resources@;
        let ghost ev = self.events@;
        self.unregister(path);
        proof {
            let m = self.resources@;
            assert forall|j: int| 0 <= j < m.len() implies old(self).state_of(
                #[trigger] m[j].value).uuid_spec() != Some(uuid) by {
                if m != o {
                    let u2 = uuid_of_path(old(self).resource_registry@, path@)->0;
                    let i = old(self).first_with_uuid_index(u2)->0;
                    assert(m == o.remove(i));
                    let j2 = if j < i { j } else { j + 1 };
                    assert(m[j] == o[j2]);
                } else {
                    assert(m[j] == o[j]);
                }
            }
        }
        let ghost ev_mid = self.events@;
        self.make_external(h);
        self.resource_registry.register(uuid, path.to_owned());
        proof {
            assert(!self.in_cache(h)) by {
                if self.in_cache(h) {
                    let j = choose|j: int| 0 <= j < self.resources@.len() && self.resources@[j].value == h;
                    assert(self.state_of(self.resources@[j].value).uuid_spec() == Some(uuid));
                }
            }
        }
        let ghost before_push = self.resources@;
        self.push(h);
        proof {
            assert forall|j: int| 0 <= j < self.resources@.len() - 1 implies self.state_of(
                #[trigger] self.resources@[j].value).uuid_spec() != Some(uuid) by {
                assert(self.resources@[j] == before_push[j]);
                assert(self.state_of(before_push[j].value) == old(self).state_of(before_push[j].value));
            }
            if old(self).unregister_evicts(path@) {
                assert(self.events@ == ev_mid.push(ResourceEvent::Added(h)));
                assert(ev_mid.drop_last() == ev);
                assert(self.events@.take(ev.len() as int) =~= ev);
                assert(self.events@[ev.len() as int] == ev_mid.last());
            }
        }
        Ok(())
    }

    /// Reloads the resource whose file at `path` changed: the path's association
    /// is removed from the registry (so that a rescan resolves it anew), and the
    /// first cached resource loaded with its UUID is reloaded. Returns whether
    /// there was such a resource.
    pub fn try_reload_resource_from_path(&mut self, path: &str) -> (r: bool)
        requires
            old(self).wf(),
        ensures
            final(self).wf(),
            r == (uuid_of_path(old(self).resource_registry@, path@) matches Some(u)
                && old(self).find_spec(u) is Some),
            final(self).resource_registry@ == without_path(old(self).resource_registry@, path@),
            final(self).resource_registry.is_ready == old(self).resource_registry.is_ready,
            final(self).resources@ == old(self).resources@,
            final(self).holders@ == old(self).holders@,
            final(self).events@ == old(self).events@,
            !r ==> final(self).headers@ == old(self).headers@ && final(self).tasks@ == old(self).tasks@,
            r ==> {
                let u = uuid_of_path(old(self).resource_registry@, path@)->0;
                let h = old(self).find_spec(u)->0;
                &&& old(self).kind_of(h) == ResourceKind::External ==> (final(self).state_of(h) matches ResourceState::Pending { path }
                    && path@ == ResourcePathView::Implicit(u))
                    && final(self).tasks@.len() == old(self).tasks@.len() + 1
                    && (forall|i: int| 0 <= i < old(self).tasks@.len() ==> final(self).tasks@[i] == old(self).tasks@[i])
                    && final(self).tasks@.last().resource == h
                    && final(self).tasks@.last().path@ == ResourcePathView::Implicit(u)
                    && final(self).tasks@.last().reload
                    && final(self).tasks@.last().fs_path is None
                &&& old(self).kind_of(h) == ResourceKind::Embedded ==> final(self).headers@ == old(self).headers@
                    && final(self).tasks@ == old(self).tasks@
            },
    {
        match self.resource_registry.unregister_path(path) {
            Some(u) => {
                proof {
                    assert forall|j: int| 0 <= j < self.resources@.len() implies self.state_of(
                        #[trigger] self.resources@[j].value) == old(self).state_of(self.resources@[j].value) by {}
                }
                match self.find_position(u) {
                    Some(i) => {
                        let h = self.resources[i].value;
                        proof {
                            assert(old(self).is_first_with_uuid(u, i as int));
                            lemma_first_with_uuid(&*old(self), u, i as int);
                        }
                        self.reload_resource(h);
                        true
                    },
                    None => {
                        proof {
                            assert forall|k: int| !old(self).is_first_with_uuid(u, k) by {
                                if old(self).is_first_with_uuid(u, k) {
                                    assert(self.state_of(self.resources@[k].value).uuid_spec() != Some(u));
                                }
                            }
                        }
                        false
                    },
                }
            },
            None => false,
        }
    }

    /// `p` is registered in `m` for a UUID that a cached resource is loaded with.
    pub open spec fn reloads_from(&self, m: Map<u128, Seq<char>>, p: Seq<char>) -> bool {
        uuid_of_path(m, p) matches Some(u) && self.find_spec(u) is Some
    }

    /// Handles a burst of file modifications (relative paths, in the order
    /// reported): paths are tried in turn with `try_reload_resource_from_path`
    /// until one reloads a resource, whose position is returned; later paths are
    /// left for a rescan of the registry.
    #[verifier::rlimit(40)]
    pub fn reload_from_modified_paths(&mut self, paths: &Vec<String>) -> (r: Option<usize>)
        requires
            old(self).wf(),
        ensures
            final(self).wf(),
            final(self).resources@ == old(self).resources@,
            final(self).holders@ == old(self).holders@,
            final(self).events@ == old(self).events@,
            match r {
                Some(i) => i < paths@.len()
                    && old(self).reloads_from(
                        without_paths(old(self).resource_registry@, paths@.take(i as int)),
                        paths@[i as int]@,
                    )
                    && (forall|k: int| 0 <= k < i ==> !old(self).reloads_from(
                        without_paths(old(self).resource_registry@, paths@.take(k)),
                        #[trigger] paths@[k]@,
                    ))
                    && final(self).resource_registry@ == without_paths(
                        old(self).resource_registry@,
                        paths@.take(i + 1),
                    ),
                None => (forall|k: int| 0 <= k < paths@.len() ==> !old(self).reloads_from(
                        without_paths(old(self).resource_registry@, paths@.take(k)),
                        #[trigger] paths@[k]@,
                    ))
                    && final(self).resource_registry@ == without_paths(
                        old(self).resource_registry@,
                        paths@,
                    ) && final(self).headers@ == old(self).headers@,
            },
    {
        let n = paths.len();
        let mut i: usize = 0;
        while i < n
            invariant
                n == paths@.len(),
                0 <= i <= n,
                self.wf(),
                self.resources@ == old(self).resources@,
                self.headers@ == old(self).headers@,
                self.holders@ == old(self).holders@,
                self.events@ == old(self).events@,
                self.resource_registry@ == without_paths(old(self).resource_registry@, paths@.take(i as int)),
                forall|k: int| 0 <= k < i ==> !old(self).reloads_from(
                    without_paths(old(self).resource_registry@, paths@.take(k)),
                    #[trigger] paths@[k]@,
                ),
            decreases n - i,
        {
            proof {
                assert(paths@.take(i + 1).drop_last() =~= paths@.take(i as int));
                assert(paths@.take(i + 1).last() == paths@[i as int]);
                assert forall|u: u128| #[trigger] self.find_spec(u) == old(self).find_spec(u) by {
                    assert forall|k: int| #[trigger] self.is_first_with_uuid(u, k) == old(self).is_first_with_uuid(u, k) by {}
                    if exists|k: int| old(self).is_first_with_uuid(u, k) {
                        let k = choose|k: int| old(self).is_first_with_uuid(u, k);
                        lemma_first_with_uuid(&*old(self), u, k);
                        assert(self.is_first_with_uuid(u, k));
                        lemma_first_with_uuid(&*self, u, k);
                    }
                }
            }
            if self.try_reload_resource_from_path(paths[i].as_str()) {
                return Some(i);
            }
            i = i + 1;
        }
        proof {
            assert(paths@.take(n as int) =~= paths@);
        }
        None
    }

    /// The path under which the registry knows the resource behind `h`.
    pub fn resource_path(&self, h: UntypedResource) -> (r: Option<String>)
        requires
            self.wf(),
            self.valid(h),
        ensures
            match self.registered_path(h) {
                Some(p) => r matches Some(q) && q@ == p,
                None => r is None,
            },
    {
        self.registered_path_of(h)
    }

    /// The files to move so that the resource behind `h` lives at `new_path`: the
    /// resource file, then its import options and its metadata sidecars when they
    /// exist. Fails for a resource that is not loaded, and for one the registry
    /// does not know (an embedded one).
    pub fn move_plan(&self, h: UntypedResource, new_path: &str) -> (r: Result<MovePlan, ResourceMoveError>)
        requires
            self.wf(),
            self.valid(h),
        ensures
            match self.state_of(h).uuid_spec() {
                None => r == Err::<MovePlan, ResourceMoveError>(ResourceMoveError::NotLoaded),
                Some(u) => if !self.resource_registry@.contains_key(u) {
                    r == Err::<MovePlan, ResourceMoveError>(ResourceMoveError::NotRegistered)
                } else {
                    r matches Ok(plan) && plan.from@ == self.resource_registry@[u]
                        && plan.to@ == new_path@
                        && plan.options_from@ == with_extension_appended(plan.from@, OPTIONS_EXTENSION@)
                        && plan.options_to@ == with_extension_appended(new_path@, OPTIONS_EXTENSION@)
                        && plan.metadata_from@ == with_extension_appended(plan.from@, METADATA_EXTENSION@)
                        && plan.metadata_to@ == with_extension_appended(new_path@, METADATA_EXTENSION@)
                },
            },
    {
        let u = match self.resource_uuid(h) {
            Some(u) => u,
            None => {
                return Err(ResourceMoveError::NotLoaded);
            },
        };
        let from = match self.resource_registry.uuid_to_path(u) {
            Some(p) => p.clone(),
            None => {
                return Err(ResourceMoveError::NotRegistered);
            },
        };
        let options_from = append_extension(from.as_str(), OPTIONS_EXTENSION);
        let options_to = append_extension(new_path, OPTIONS_EXTENSION);
        let metadata_from = append_extension(from.as_str(), METADATA_EXTENSION);
        let metadata_to = append_extension(new_path, METADATA_EXTENSION);
        Ok(
            MovePlan {
                from,
                to: new_path.to_owned(),
                options_from,
                options_to,
                metadata_from,
                metadata_to,
            },
        )
    }

    /// The handle a request by `p` answers with: the built-in one, the cached one,
    /// or the fresh one it creates.
    pub open spec fn answer_for_path(&self, p: Seq<char>) -> UntypedResource {
        match self.builtin_for_path(p) {
            Some(b) => b,
            None => match self.cache_lookup(ResourcePathView::Explicit(p)) {
                Some(h) => h,
                None => UntypedResource { index: self.headers@.len() as usize },
            },
        }
    }

    /// The loader for `p` produces data of the type `type_uuid`.
    pub open spec fn type_matches(&self, p: Seq<char>, type_uuid: u128) -> bool {
        loader_index(self.loaders.loaders@, p) matches Some(i) && self.loaders.loaders@[i].data_type_uuid == type_uuid
    }

    /// Requests the resource at `path` (see `request`) with the type `type_uuid`,
    /// which the loader for its extension must produce.
    pub fn request_typed(&mut self, path: &str, type_uuid: u128) -> (r: Resource)
        requires
            old(self).wf(),
            old(self).type_matches(path@, type_uuid),
        ensures
            final(self).wf(),
            final(self).valid(r.untyped),
            r == (Resource { untyped: old(self).answer_for_path(path@), type_uuid }),
    {
        let untyped = self.request(path);
        Resource { untyped, type_uuid }
    }

    /// Requests the resource at `path` (see `request`), and returns it with the
    /// type `type_uuid` when the loader for its extension produces that type;
    /// else the handle is given up and `None` returned.
    pub fn try_request(&mut self, path: &str, type_uuid: u128) -> (r: Option<Resource>)
        requires
            old(self).wf(),
        ensures
            final(self).wf(),
            r is Some <==> old(self).type_matches(path@, type_uuid),
            r matches Some(res) ==> res == (Resource { untyped: old(self).answer_for_path(path@), type_uuid })
                && final(self).valid(res.untyped),
    {
        let untyped = self.request(path);
        if self.loaders.is_extension_matches_type(path, type_uuid) {
            Some(Resource { untyped, type_uuid })
        } else {
            self.release(untyped);
            None
        }
    }

    /// The resource behind `h` as data of the type `type_uuid`: `None` unless it
    /// is loaded with data of that type.
    pub fn try_cast(&self, h: UntypedResource, type_uuid: u128) -> (r: Option<Resource>)
        requires
            self.valid(h),
        ensures
            r is Some <==> (self.state_of(h) matches ResourceState::Ready { data, .. } && data.type_uuid == type_uuid),
            r matches Some(res) ==> res == (Resource { untyped: h, type_uuid }),
    {
        match &self.headers[h.index].state {
            ResourceState::Ready { data, .. } => if data.type_uuid == type_uuid {
                Some(Resource { untyped: h, type_uuid })
            } else {
                None
            },
            _ => None,
        }
    }

    /// Adds a built-in resource, replacing the one reserved under the same path.
    pub fn add_built_in(&mut self, resource: BuiltInResource)
        requires
            old(self).wf(),
            old(self).valid(resource.resource.untyped),
        ensures
            final(self).wf(),
            final(self).builtin_for_path(resource.id@) == Some(resource.resource.untyped),
            final(self).headers@ == old(self).headers@,
            final(self).holders@ == old(self).holders@,
            final(self).resources@ == old(self).resources@,
            final(self).tasks@ == old(self).tasks@,
            final(self).events@ == old(self).events@,
            final(self).resource_registry == old(self).resource_registry,
    {
        let ghost id = resource.id@;
        let ghost h = resource.resource.untyped;
        self.built_in_resources.add(resource);
        proof {
            let b = self.built_in_resources.entries@;
            let o = old(self).built_in_resources.entries@;
            assert forall|i: int| 0 <= i < b.len() implies self.valid((#[trigger] b[i]).resource.resource) by {
                if i < o.len() && b[i] != o[i] {
                    assert(b[i].resource.resource == h);
                } else if i < o.len() {
                    assert(old(self).valid(o[i].resource.resource));
                }
            }
            let e = choose|e: crate::builtin::BuiltInEntry|
                e.id@ == id && e.resource.resource == h
                    && e.resource.data_source == resource.data_source && match old(self).built_in_resources.position_of(id) {
                    Some(i) => b == o.update(i, e),
                    None => b == o.push(e),
                };
            let k = match old(self).built_in_resources.position_of(id) {
                Some(i) => i,
                None => o.len() as int,
            };
            if let Some(i) = old(self).built_in_resources.position_of(id) {
                let c = choose|c: int| crate::builtin::is_entry_for(o, id, c);
                assert(crate::builtin::is_entry_for(o, id, c));
            }
            assert(b[k] == e);
            assert(crate::builtin::is_entry_for(b, id, k));
            let j = choose|j: int| crate::builtin::is_entry_for(b, id, j);
            assert(crate::builtin::is_entry_for(b, id, j));
            assert(j == k);
        }
    }

    /// Marks the registry as not ready while it is rebuilt; load tasks wait meanwhile.
    pub fn begin_registry_update(&mut self)
        requires
            old(self).wf(),
        ensures
            final(self).wf(),
            !final(self).resource_registry.is_ready,
            final(self).resource_registry@ == old(self).resource_registry@,
    {
        self.resource_registry.mark_as_not_ready();
    }

    /// Installs a rebuilt registry and marks it ready.
    pub fn finish_registry_update(&mut self, container: RegistryContainer)
        requires
            old(self).wf(),
            container.wf(),
        ensures
            final(self).wf(),
            final(self).resource_registry.is_ready,
            final(self).resource_registry@ == container@,
    {
        self.resource_registry.set_container(container);
        self.resource_registry.mark_as_ready();
    }
}


/// The first cache entry loaded with a UUID is the one `find` gives.
proof fn lemma_first_with_uuid(s: &ResourceManagerState, u: u128, i: int)
    requires
        s.is_first_with_uuid(u, i),
    ensures
        s.find_spec(u) == Some(s.resources@[i].value),
        s.first_with_uuid_index(u) == Some(i),
{
    let k = choose|k: int| s.is_first_with_uuid(u, k);
    assert(s.is_first_with_uuid(u, k));
    if k < i {
        assert(s.state_of(s.resources@[k].value).uuid_spec() != Some(u));
    } else if k > i {
        assert(s.state_of(s.resources@[i].value).uuid_spec() != Some(u));
    }
}

/// The extension of a resource's import options sidecar.
pub const OPTIONS_EXTENSION: &'static str = "options";

/// The extension of a resource's metadata sidecar.
pub const METADATA_EXTENSION: &'static str = "meta";

/// The file moves that relocate a resource with its sidecars.
#[derive(Debug)]
pub struct MovePlan {
    pub from: String,
    pub to: String,
    pub options_from: String,
    pub options_to: String,
    pub metadata_from: String,
    pub metadata_to: String,
}

/// Why a resource cannot be moved.
#[derive(Clone, Copy, Debug, PartialEq, Eq, Structural)]
pub enum ResourceMoveError {
    /// The resource is not loaded.
    NotLoaded,
    /// The registry has no path for the resource (it is embedded).
    NotRegistered,
}

impl ResourceMoveError {
    /// A human readable description of the error.
    pub fn message(&self) -> (r: &'static str)
        ensures
            *self == ResourceMoveError::NotLoaded ==> r@ == "Unable to move non-loaded resource!"@,
            *self == ResourceMoveError::NotRegistered ==> r@ == "Cannot move embedded resource!"@,
    {
        match self {
            ResourceMoveError::NotLoaded => "Unable to move non-loaded resource!",
            ResourceMoveError::NotRegistered => "Cannot move embedded resource!",
        }
    }
}

/// `m` without the association of the UUID registered for `p`.
pub open spec fn without_path(m: Map<u128, Seq<char>>, p: Seq<char>) -> Map<u128, Seq<char>> {
    match uuid_of_path(m, p) {
        Some(u) => m.remove(u),
        None => m,
    }
}

/// `m` after the associations of the paths `ps` were removed one by one.
pub open spec fn without_paths(m: Map<u128, Seq<char>>, ps: Seq<String>) -> Map<u128, Seq<char>>
    decreases ps.len(),
{
    if ps.len() == 0 {
        m
    } else {
        without_path(without_paths(m, ps.drop_last()), ps.last()@)
    }
}

/// The shape of a load error, with the path it names.
pub enum LoadErrorView {
    NoLoader(Seq<char>),
    NoPathForUuid,
    NoUuidForPath(Seq<char>),
}

/// `s` is a failed load for the request `key`, with an error of the shape `e`.
pub open spec fn failed_with(s: ResourceState, key: ResourcePathView, e: LoadErrorView) -> bool {
    match s {
        ResourceState::LoadError { path, error } => path@ == key && match (error, e) {
            (LoadError::NoLoader(p), LoadErrorView::NoLoader(q)) => p@ == q,
            (LoadError::NoPathForUuid(_), LoadErrorView::NoPathForUuid) => true,
            (LoadError::NoUuidForPath(p), LoadErrorView::NoUuidForPath(q)) => p@ == q,
            _ => false,
        },
        _ => false,
    }
}

/// What a load task needs next.
#[derive(Debug)]
pub enum LoadStep {
    /// There is no load task for the resource.
    NoTask,
    /// The registry is being rebuilt; try again once it is ready.
    WaitForRegistry,
    /// The load failed before the loader ran; the failure was committed.
    Failed,
    /// Run the loader at position `loader` on `path`, then report the result.
    Load { path: String, loader: usize },
}

/// After a sweep, every entry that is held outside the cache has its full
/// lifetime, and every such entry of the cache before the sweep is still there
/// with it.
pub proof fn lemma_swept_keeps_used(s: &ResourceManagerState, es: Seq<TimedEntry>, dt: u64)
    ensures
        forall|k: int|
            0 <= k < s.swept(es, dt).len() && s.holders_of((#[trigger] s.swept(es, dt)[k]).value) > 0
                ==> s.swept(es, dt)[k].time_to_live == DEFAULT_RESOURCE_LIFETIME,
        forall|j: int|
            0 <= j < es.len() && s.holders_of((#[trigger] es[j]).value) > 0 ==> s.swept(
                es,
                dt,
            ).contains(TimedEntry { value: es[j].value, time_to_live: DEFAULT_RESOURCE_LIFETIME }),
    decreases es.len(),
{
    if es.len() > 0 {
        let prev = es.drop_last();
        lemma_swept_keeps_used(s, prev, dt);
        let sp = s.swept(prev, dt);
        let sw = s.swept(es, dt);
        assert forall|j: int|
            0 <= j < es.len() && s.holders_of((#[trigger] es[j]).value) > 0 implies sw.contains(
            TimedEntry { value: es[j].value, time_to_live: DEFAULT_RESOURCE_LIFETIME },
        ) by {
            let t = TimedEntry { value: es[j].value, time_to_live: DEFAULT_RESOURCE_LIFETIME };
            if j < prev.len() {
                assert(prev[j] == es[j]);
                let k = choose|k: int| 0 <= k < sp.len() && sp[k] == t;
                assert(sw[k] == t);
            } else {
                assert(sw[sw.len() - 1] == t);
            }
        }
    }
}

/// Sweeping with no time elapsed evicts nothing, and doing it a second time
/// leaves the cache as the first time did: two `update(0)` calls are one.
pub proof fn lemma_update_zero_idempotent(s: &ResourceManagerState, es: Seq<TimedEntry>)
    requires
        forall|j: int| 0 <= j < es.len() ==> (#[trigger] es[j]).time_to_live <= DEFAULT_RESOURCE_LIFETIME,
    ensures
        s.swept(s.swept(es, 0), 0) == s.swept(es, 0),
        s.evicted_paths(es, 0).len() == 0,
        s.evicted_paths(s.swept(es, 0), 0).len() == 0,
    decreases es.len(),
{
    if es.len() > 0 {
        let prev = es.drop_last();
        assert forall|j: int| 0 <= j < prev.len() implies (#[trigger] prev[j]).time_to_live
            <= DEFAULT_RESOURCE_LIFETIME by {
            assert(prev[j] == es[j]);
        }
        lemma_update_zero_idempotent(s, prev);
        let sp = s.swept(prev, 0);
        let sw = s.swept(es, 0);
        assert(sw == sp.push(s.sweep_entry(es.last(), 0)->0));
        assert(sw.drop_last() =~= sp);
    }
}

/// A request by a registered path and a request by the UUID registered for it
/// answer with the same handle, when the cache holds a resource loaded with that
/// UUID, the path has no other UUID in the registry, no built-in resource is
/// reserved under the path or loaded with the UUID, and no pending or failed
/// entry was requested by either key.
pub proof fn lemma_path_and_uuid_requests_agree(s: &ResourceManagerState, p: Seq<char>, u: u128)
    requires
        s.wf(),
        u != 0,
        s.resource_registry@.contains_key(u),
        s.resource_registry@[u] == p,
        forall|k: u128| #[trigger] s.resource_registry@.contains_key(k) && s.resource_registry@[k] == p ==> k == u,
        s.find_spec(u) is Some,
        s.builtin_for_path(p) is None,
        s.builtin_for_uuid(u) is None,
        forall|i: int|
            0 <= i < s.resources@.len() && !(s.state_of((#[trigger] s.resources@[i]).value) is Ready)
                ==> !s.entry_matches(s.resources@[i].value, ResourcePathView::Explicit(p))
                && !s.entry_matches(s.resources@[i].value, ResourcePathView::Implicit(u)),
    ensures
        s.cache_lookup(ResourcePathView::Explicit(p)) == s.cache_lookup(ResourcePathView::Implicit(u)),
        s.cache_lookup(ResourcePathView::Explicit(p)) == s.find_spec(u),
        s.cache_lookup(ResourcePathView::Explicit(p)) is Some,
{
    let kp = ResourcePathView::Explicit(p);
    let ku = ResourcePathView::Implicit(u);
    assert forall|j: int| 0 <= j < s.resources@.len() implies (s.entry_matches(
        #[trigger] s.resources@[j].value,
        kp,
    ) <==> s.state_of(s.resources@[j].value).uuid_spec() == Some(u)) && (s.entry_matches(
        s.resources@[j].value,
        ku,
    ) <==> s.state_of(s.resources@[j].value).uuid_spec() == Some(u)) by {
        let h = s.resources@[j].value;
        if s.state_of(h) is Ready {
            let v = s.state_of(h)->resource_uuid;
            if s.resource_registry@.contains_key(v) && s.resource_registry@[v] == p {
                assert(v == u);
            }
        }
    }
    let i = choose|i: int| s.is_first_with_uuid(u, i);
    assert(s.is_first_with_uuid(u, i));
    assert(s.is_first_match(kp, i));
    assert(s.is_first_match(ku, i));
    lemma_first_match_lookup(s, kp, i);
    lemma_first_match_lookup(s, ku, i);
}

/// At most one load task is in flight for any resource: two tasks for the same
/// resource are the same task.
pub proof fn lemma_one_load_task_per_resource(s: &ResourceManagerState, h: UntypedResource, i: int, j: int)
    requires
        s.wf(),
        0 <= i < s.tasks@.len(),
        0 <= j < s.tasks@.len(),
        s.tasks@[i].resource == h,
        s.tasks@[j].resource == h,
    ensures
        i == j,
{
}

/// The first entry that answers a key is the one the lookup gives.
pub proof fn lemma_first_match_lookup(s: &ResourceManagerState, key: ResourcePathView, i: int)
    requires
        s.is_first_match(key, i),
    ensures
        s.cache_lookup(key) == Some(s.resources@[i].value),
{
    let k = choose|k: int| s.is_first_match(key, k);
    assert(s.is_first_match(key, k));
    if k < i {
        assert(!s.entry_matches(s.resources@[k].value, key));
    } else if k > i {
        assert(!s.entry_matches(s.resources@[i].value, key));
    }
}

/// `e` publishes the removal of the entry registered under `p`.
pub open spec fn is_removed_event(e: ResourceEvent, p: Seq<char>) -> bool {
    e matches ResourceEvent::Removed(q) && q@ == p
}

/// One more, unless the count is at its largest.
pub open spec fn inc(x: usize) -> usize {
    if x < usize::MAX {
        (x + 1) as usize
    } else {
        x
    }
}

proof fn lemma_filter_step(s: Seq<TimedEntry>, p: spec_fn(TimedEntry) -> bool, i: int)
    requires
        0 <= i < s.len(),
    ensures
        s.take(i + 1).filter(p) == if p(s[i]) {
            s.take(i).filter(p).push(s[i])
        } else {
            s.take(i).filter(p)
        },
{
    reveal(Seq::filter);
    assert(s.take(i + 1).drop_last() =~= s.take(i));
    assert(s.take(i + 1).last() == s[i]);
}

/// How many entries of `s` hold a handle that satisfies `p`.
pub open spec fn count_where(s: Seq<TimedEntry>, p: spec_fn(UntypedResource) -> bool) -> nat
    decreases s.len(),
{
    if s.len() == 0 {
        0
    } else {
        count_where(s.drop_last(), p) + if p(s.last().value) {
            1nat
        } else {
            0nat
        }
    }
}

proof fn lemma_count_where_step(s: Seq<TimedEntry>, p: spec_fn(UntypedResource) -> bool, i: int)
    requires
        0 <= i < s.len(),
    ensures
        count_where(s.take(i + 1), p) == count_where(s.take(i), p) + if p(s[i].value) {
            1nat
        } else {
            0nat
        },
{
    assert(s.take(i + 1).drop_last() =~= s.take(i));
}

/// A set of resources that can be polled until none is loading.
#[derive(Debug)]
pub struct ResourceWaitContext {
    pub resources: Vec<UntypedResource>,
}

impl ResourceWaitContext {
    /// True when no resource of the set is loading any more (each is loaded or
    /// failed).
    pub fn is_all_loaded(&self, state: &ResourceManagerState) -> (r: bool)
        requires
            forall|i: int| 0 <= i < self.resources@.len() ==> state.valid(#[trigger] self.resources@[i]),
        ensures
            r == forall|i: int|
                0 <= i < self.resources@.len() ==> !(state.state_of(#[trigger] self.resources@[i]) is Pending),
    {
        let n = self.resources.len();
        let mut i: usize = 0;
        while i < n
            invariant
                n == self.resources@.len(),
                0 <= i <= n,
                forall|j: int| 0 <= j < self.resources@.len() ==> state.valid(#[trigger] self.resources@[j]),
                forall|j: int| 0 <= j < i ==> !(state.state_of(#[trigger] self.resources@[j]) is Pending),
            decreases n - i,
        {
            if state.is_loading(self.resources[i]) {
                return false;
            }
            i = i + 1;
        }
        true
    }
}

} // verus!
