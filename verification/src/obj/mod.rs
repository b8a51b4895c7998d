//! Kernel objects: per-kind arenas with generation-tagged typed handles.
//!
//! Every capability names a kernel object. Each kind ([`task::Task`],
//! [`endpoint::Endpoint`], [`notification::Notification`]) lives in its own
//! fixed-capacity [`arena::Arena`] and is referred to through a typed
//! handle, so a handle of one kind can never be passed where another kind
//! is expected. Destruction is explicit; whether a capability table still
//! names an object is checked by callers through
//! [`crate::cap::table::CapabilityTable::references_object`].
use vstd::prelude::*;

pub mod arena;
pub mod endpoint;
pub mod notification;
pub mod task;

pub use endpoint::{Endpoint, EndpointArena, EndpointHandle};
pub use notification::{Notification, NotificationArena, NotificationHandle};
pub use task::{Task, TaskArena, TaskHandle};

verus! {

/// Bound on the number of live `Task` kernel objects.
pub const TASK_ARENA_CAPACITY: usize = 16;

/// Bound on the number of live `Endpoint` kernel objects.
pub const ENDPOINT_ARENA_CAPACITY: usize = 16;

/// Bound on the number of live `Notification` kernel objects.
pub const NOTIFICATION_ARENA_CAPACITY: usize = 16;

/// Errors returned by kernel-object operations.
#[non_exhaustive]
#[derive(Copy, Clone, Debug, PartialEq, Eq, Structural)]
pub enum ObjError {
    /// The arena of this kind is full; no free slot.
    ArenaFull,
    /// The handle does not name a live slot: never allocated, already
    /// freed, or stale after reuse.
    InvalidHandle,
    /// Returned by callers that enforce reachability: a capability table
    /// still names the object.
    StillReachable,
}

} // verus!
