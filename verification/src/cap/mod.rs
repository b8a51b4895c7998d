//! Capability subsystem.
//!
//! Every privileged action requires a capability: an unforgeable,
//! move-only token held in a per-task [`table::CapabilityTable`] and named
//! through an opaque generation-tagged handle. Capabilities form an
//! explicit derivation tree; revocation cascades down it.
use vstd::prelude::*;

pub mod rights;
pub mod table;

pub use rights::CapRights;
pub use table::{CapHandle, CapabilityTable, CAP_TABLE_CAPACITY, MAX_DERIVATION_DEPTH};

use crate::obj::{EndpointHandle, NotificationHandle, TaskHandle};

verus! {

/// Kinds of kernel object a capability can refer to.
#[derive(Copy, Clone, Debug, PartialEq, Eq, Structural)]
pub enum CapKind {
    /// Refers to a task kernel object.
    Task,
    /// Refers to an IPC endpoint kernel object.
    Endpoint,
    /// Refers to an asynchronous notification kernel object.
    Notification,
    /// Refers to a physical memory region (reserved; no object of this kind exists yet).
    MemoryRegion,
}

/// Typed reference to a kernel object: each variant carries the typed
/// handle of its kind.
#[derive(Copy, Clone, Debug, PartialEq, Eq, Structural)]
pub enum CapObject {
    /// Names a task kernel object.
    Task(TaskHandle),
    /// Names an endpoint kernel object.
    Endpoint(EndpointHandle),
    /// Names a notification kernel object.
    Notification(NotificationHandle),
}

/// The kind matching an object's variant.
pub open spec fn kind_of(object: CapObject) -> CapKind {
    match object {
        CapObject::Task(_) => CapKind::Task,
        CapObject::Endpoint(_) => CapKind::Endpoint,
        CapObject::Notification(_) => CapKind::Notification,
    }
}

impl CapObject {
    /// Return the [`CapKind`] discriminator matching this object.
    pub fn kind(self) -> (r: CapKind)
        ensures
            r == kind_of(self),
    {
        match self {
            CapObject::Task(_) => CapKind::Task,
            CapObject::Endpoint(_) => CapKind::Endpoint,
            CapObject::Notification(_) => CapKind::Notification,
        }
    }
}

/// A capability: a set of rights over one kernel object.
///
/// Deliberately neither `Copy` nor `Clone`: duplication happens only
/// through [`CapabilityTable::cap_copy`], which checks the `DUPLICATE` right.
#[derive(Debug)]
pub struct Capability {
    rights: CapRights,
    object: CapObject,
}

impl Capability {
    /// The rights this capability confers.
    pub closed spec fn granted(&self) -> CapRights {
        self.rights
    }

    /// The kernel object this capability names.
    pub closed spec fn target(&self) -> CapObject {
        self.object
    }

    /// Construct a capability with `rights` over `object`; its kind is the
    /// object's kind, so the two cannot disagree.
    pub fn new(rights: CapRights, object: CapObject) -> (r: Capability)
        ensures
            r.granted() == rights,
            r.target() == object,
    {
        Capability { rights, object }
    }

    /// Return the capability's kind, derived from its object.
    pub fn kind(&self) -> (r: CapKind)
        ensures
            r == kind_of(self.target()),
    {
        self.object.kind()
    }

    /// Return the capability's rights.
    pub fn rights(&self) -> (r: CapRights)
        ensures
            r == self.granted(),
    {
        self.rights
    }

    /// Return the capability's object reference.
    pub fn object(&self) -> (r: CapObject)
        ensures
            r == self.target(),
    {
        self.object
    }
}

/// Errors returned by capability-table operations.
#[non_exhaustive]
#[derive(Copy, Clone, Debug, PartialEq, Eq, Structural)]
pub enum CapError {
    /// The table has no free slot.
    CapsExhausted,
    /// The handle does not name a live capability: its slot is free or its
    /// generation is stale.
    InvalidHandle,
    /// The new capability would hold a right the source does not.
    WidenedRights,
    /// The source lacks the right the operation needs (`DUPLICATE` for
    /// copy, `DERIVE` for derive, `REVOKE` for revoke).
    InsufficientRights,
    /// The derived capability would be deeper than [`MAX_DERIVATION_DEPTH`].
    DerivationTooDeep,
    /// The capability still has derived children; revoke them first.
    HasChildren,
}

} // verus!
