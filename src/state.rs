//! The per-resource state machine (pending, loaded, failed) and the values it holds.
use vstd::prelude::*;
use vstd::string::*;

verus! {

/// The nil UUID, which never identifies a resource.
pub const NIL_UUID: u128 = 0;

/// Where a resource comes from.
#[derive(Clone, Copy, Debug, PartialEq, Eq, Structural)]
pub enum ResourceKind {
    /// Materialized in-process; has no on-disk path and is never reloaded.
    Embedded,
    /// Sourced from the I/O backend; reloadable and registerable.
    External,
}

impl ResourceKind {
    /// True for an external resource.
    pub fn is_external(&self) -> (r: bool)
        ensures
            r == (*self == ResourceKind::External),
    {
        match self {
            ResourceKind::External => true,
            ResourceKind::Embedded => false,
        }
    }
}

/// The key a resource was requested by.
#[derive(Debug)]
pub enum ResourcePath {
    /// A relative filesystem path.
    Explicit(String),
    /// A stable resource UUID, resolved to a path through the registry.
    Implicit(u128),
}

/// The mathematical value of a request key.
pub enum ResourcePathView {
    Explicit(Seq<char>),
    Implicit(u128),
}

impl View for ResourcePath {
    type V = ResourcePathView;

    open spec fn view(&self) -> ResourcePathView {
        match *self {
            ResourcePath::Explicit(p) => ResourcePathView::Explicit(p@),
            ResourcePath::Implicit(u) => ResourcePathView::Implicit(u),
        }
    }
}

/// Two request keys are the same key.
pub open spec fn same_key(a: ResourcePath, b: ResourcePath) -> bool {
    a@ == b@
}

impl ResourcePath {
    /// Compares two request keys.
    pub fn matches(&self, other: &ResourcePath) -> (r: bool)
        ensures
            r == same_key(*self, *other),
    {
        match (self, other) {
            (ResourcePath::Explicit(x), ResourcePath::Explicit(y)) => *x == *y,
            (ResourcePath::Implicit(u), ResourcePath::Implicit(v)) => *u == *v,
            _ => false,
        }
    }

    /// A copy of the key.
    pub fn duplicate(&self) -> (r: ResourcePath)
        ensures
            same_key(r, *self),
    {
        match self {
            ResourcePath::Explicit(x) => ResourcePath::Explicit(x.clone()),
            ResourcePath::Implicit(u) => ResourcePath::Implicit(*u),
        }
    }
}

/// The hyphenated lower-case text of a UUID (`xxxxxxxx-xxxx-xxxx-xxxx-xxxxxxxxxxxx`).
pub uninterp spec fn uuid_text(u: u128) -> Seq<char>;

/// Relies on `uuid::Uuid::hyphenated` and its `Display`: the text depends on the
/// value alone.
#[verifier::external_body]
fn hyphenated(u: u128) -> (r: String)
    ensures
        r@ == uuid_text(u),
{
    uuid::Uuid::from_u128(u).hyphenated().to_string()
}

/// Why a resource failed to load.
#[derive(Debug)]
pub enum LoadError {
    /// No registered loader claims the path's extension.
    NoLoader(String),
    /// The registry holds no path for the requested UUID.
    NoPathForUuid(u128),
    /// The registry holds no UUID for the path and none could be assigned.
    NoUuidForPath(String),
    /// The loader itself failed.
    Loader(String),
}

impl LoadError {
    /// A human readable description of the error.
    pub fn message(&self) -> (r: String)
        ensures
            self matches LoadError::NoLoader(p) ==> r@ == "There's no resource loader for "@
                + p@ + " resource!"@,
            self matches LoadError::Loader(m) ==> r@ == m@,
            self matches LoadError::NoUuidForPath(p) ==> r@ == "There's no resource id for "@
                + p@ + " resource!"@,
            *self matches LoadError::NoPathForUuid(u) ==> r@ == "Unable to load a resource by "@
                + uuid_text(u) + " id! There's no matching path to it in the resource registry. A resource might be deleted or the registry is outdated."@,
    {
        match self {
            LoadError::NoLoader(p) => {
                String::from_str("There's no resource loader for ").concat(p.as_str()).concat(
                    " resource!",
                )
            },
            LoadError::NoPathForUuid(u) => String::from_str("Unable to load a resource by ").concat(
                hyphenated(*u).as_str(),
            ).concat(
                " id! There's no matching path to it in the resource registry. A resource might be deleted or the registry is outdated.",
            ),
            LoadError::NoUuidForPath(p) => String::from_str(
                "There's no resource id for ",
            ).concat(p.as_str()).concat(" resource!"),
            LoadError::Loader(m) => m.clone(),
        }
    }
}

/// The materialized data of a resource.
#[derive(Debug)]
pub struct ResourceData {
    /// The UUID of the data's type.
    pub type_uuid: u128,
    /// Whether the data can be written back to a file.
    pub can_be_saved: bool,
    /// The data's content.
    pub bytes: Vec<u8>,
}

/// The state of one resource.
#[derive(Debug)]
pub enum ResourceState {
    /// A load task has been scheduled or is running.
    Pending { path: ResourcePath },
    /// Loading failed.
    LoadError { path: ResourcePath, error: LoadError },
    /// The data is materialized and its UUID is known.
    Ready { data: ResourceData, resource_uuid: u128 },
}

impl ResourceState {
    /// True while the resource is loading.
    pub fn is_loading(&self) -> (r: bool)
        ensures
            r == (*self is Pending),
    {
        match self {
            ResourceState::Pending { .. } => true,
            _ => false,
        }
    }

    /// True when the data is materialized.
    pub fn is_ok(&self) -> (r: bool)
        ensures
            r == (*self is Ready),
    {
        match self {
            ResourceState::Ready { .. } => true,
            _ => false,
        }
    }

    /// The resource's UUID, known only in the `Ready` state.
    pub fn resource_uuid(&self) -> (r: Option<u128>)
        ensures
            r == self.uuid_spec(),
    {
        match self {
            ResourceState::Ready { resource_uuid, .. } => Some(*resource_uuid),
            _ => None,
        }
    }

    /// The resource's UUID, known only in the `Ready` state.
    pub open spec fn uuid_spec(&self) -> Option<u128> {
        match *self {
            ResourceState::Ready { resource_uuid, .. } => Some(resource_uuid),
            _ => None,
        }
    }
}

} // verus!
