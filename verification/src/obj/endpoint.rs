//! `Endpoint` kernel object: a synchronous IPC rendezvous point, stored in a per-kind arena.
use vstd::prelude::*;

use super::arena::{Arena, SlotId};
use super::{ObjError, ENDPOINT_ARENA_CAPACITY};

verus! {

/// The `Endpoint` kernel object; its view is its identifier.
#[derive(Debug)]
pub struct Endpoint {
    id: u32,
}

impl View for Endpoint {
    type V = u32;

    closed spec fn view(&self) -> u32 {
        self.id
    }
}

impl Endpoint {
    /// Construct a endpoint object with the given identifier.
    pub fn new(id: u32) -> (r: Endpoint)
        ensures
            r@ == id,
    {
        Endpoint { id }
    }

    /// Return the identifier.
    pub fn id(&self) -> (r: u32)
        ensures
            r == self@,
    {
        self.id
    }
}

/// Typed handle naming a endpoint in a [`EndpointArena`]; its view is the slot id.
#[derive(Copy, Clone, Debug, PartialEq, Eq, Structural)]
pub struct EndpointHandle(SlotId);

impl View for EndpointHandle {
    type V = SlotId;

    closed spec fn view(&self) -> SlotId {
        self.0
    }
}

impl EndpointHandle {
    /// Wrap a slot id of the endpoint arena.
    pub fn from_slot(slot: SlotId) -> (r: EndpointHandle)
        ensures
            r@ == slot,
    {
        EndpointHandle(slot)
    }

    /// The slot id this handle wraps.
    pub fn slot(self) -> (r: SlotId)
        ensures
            r == self@,
    {
        self.0
    }

    /// Build a handle from raw `(index, generation)` parts without
    /// allocating, for composing capabilities in tests.
    pub fn test_handle(index: u16, generation: u32) -> (r: EndpointHandle)
        ensures
            r@.idx() == index,
            r@.gen() == generation,
    {
        EndpointHandle(SlotId::from_parts(index, generation))
    }

    /// Two handles are equal exactly when their slot ids are.
    pub broadcast proof fn lemma_eq(a: EndpointHandle, b: EndpointHandle)
        ensures
            #![trigger a@, b@]
            (a == b) <==> a@ == b@,
    {
    }
}

/// The concrete arena type for endpoints.
pub type EndpointArena = Arena<Endpoint, ENDPOINT_ARENA_CAPACITY>;

impl Default for Arena<Endpoint, ENDPOINT_ARENA_CAPACITY> {
    fn default() -> (r: Self)
        ensures
            r.wf(),
            forall|i: int| 0 <= i < ENDPOINT_ARENA_CAPACITY ==> #[trigger] r.slot(i) is None && r.slot_generation(i) == 0,
            r.free_order() == Seq::new(ENDPOINT_ARENA_CAPACITY as nat, |i: int| i as u16),
    {
        Arena::new()
    }
}

/// Allocate a endpoint in `arena`, returning the handle that names it.
///
/// Fails with [`ObjError::ArenaFull`], leaving the arena unchanged,
/// exactly when every slot is in use.
pub fn create_endpoint(arena: &mut EndpointArena, endpoint: Endpoint) -> (r: Result<EndpointHandle, ObjError>)
    requires
        old(arena).wf(),
    ensures
        final(arena).wf(),
        r is Err <==> old(arena).is_exhausted(),
        r matches Err(e) ==> e == ObjError::ArenaFull && old(arena).same_slots(&*final(arena)),
        r matches Ok(h) ==> old(arena).allocation(&*final(arena), endpoint, h@),
{
    match arena.allocate(endpoint) {
        Some(slot) => Ok(EndpointHandle::from_slot(slot)),
        None => Err(ObjError::ArenaFull),
    }
}

/// Free the endpoint at `handle`, returning the stored value.
///
/// Fails with [`ObjError::InvalidHandle`], leaving the arena unchanged,
/// exactly when `handle` is stale or already freed. Whether a capability
/// table still names the object is the caller's check.
pub fn destroy_endpoint(arena: &mut EndpointArena, handle: EndpointHandle) -> (r: Result<Endpoint, ObjError>)
    requires
        old(arena).wf(),
    ensures
        final(arena).wf(),
        r is Err <==> !old(arena).live(handle@),
        r matches Err(e) ==> e == ObjError::InvalidHandle && old(arena).same_slots(&*final(arena)),
        r matches Ok(v) ==> v == old(arena).value(handle@) && old(arena).release(
            &*final(arena),
            handle@,
        ),
{
    match arena.free(handle.slot()) {
        Some(v) => Ok(v),
        None => Err(ObjError::InvalidHandle),
    }
}

/// Return the endpoint at `handle`, or `None` if the handle is stale.
pub fn get_endpoint(arena: &EndpointArena, handle: EndpointHandle) -> (r: Option<&Endpoint>)
    requires
        arena.wf(),
    ensures
        r is Some <==> arena.live(handle@),
        r matches Some(v) ==> *v == arena.value(handle@),
{
    arena.get(handle.slot())
}

} // verus!
