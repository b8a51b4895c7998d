//! `Notification` kernel object: a saturating 64-bit signal word, stored in a per-kind arena.
use vstd::prelude::*;

use super::arena::{Arena, SlotId};
use super::{ObjError, NOTIFICATION_ARENA_CAPACITY};

verus! {

/// The `Notification` kernel object: a 64-bit word into which signal bits
/// are OR-ed and from which they are consumed. Its view is the word.
#[derive(Debug)]
pub struct Notification {
    word: u64,
}

impl View for Notification {
    type V = u64;

    closed spec fn view(&self) -> u64 {
        self.word
    }
}

impl Notification {
    /// Construct a notification holding the initial `word` (typically `0`).
    pub fn new(word: u64) -> (r: Notification)
        ensures
            r@ == word,
    {
        Notification { word }
    }

    /// The current word.
    pub fn word(&self) -> (r: u64)
        ensures
            r == self@,
    {
        self.word
    }

    /// OR `bits` into the word; a bit once set stays set until consumed.
    pub fn set(&mut self, bits: u64)
        ensures
            final(self)@ == old(self)@ | bits,
    {
        self.word = self.word | bits;
    }

    /// Clear every bit, returning the bits that were set before.
    pub fn consume(&mut self) -> (r: u64)
        ensures
            r == old(self)@,
            final(self)@ == 0,
    {
        let current = self.word;
        self.word = 0;
        current
    }
}

/// Typed handle naming a notification in a [`NotificationArena`]; its view is the slot id.
#[derive(Copy, Clone, Debug, PartialEq, Eq, Structural)]
pub struct NotificationHandle(SlotId);

impl View for NotificationHandle {
    type V = SlotId;

    closed spec fn view(&self) -> SlotId {
        self.0
    }
}

impl NotificationHandle {
    /// Wrap a slot id of the notification arena.
    pub fn from_slot(slot: SlotId) -> (r: NotificationHandle)
        ensures
            r@ == slot,
    {
        NotificationHandle(slot)
    }

    /// The slot id this handle wraps.
    pub fn slot(self) -> (r: SlotId)
        ensures
            r == self@,
    {
        self.0
    }

    /// Build a handle from raw `(index, generation)` parts without
    /// allocating, for composing capabilities in tests.
    pub fn test_handle(index: u16, generation: u32) -> (r: NotificationHandle)
        ensures
            r@.idx() == index,
            r@.gen() == generation,
    {
        NotificationHandle(SlotId::from_parts(index, generation))
    }

    /// Two handles are equal exactly when their slot ids are.
    pub broadcast proof fn lemma_eq(a: NotificationHandle, b: NotificationHandle)
        ensures
            #![trigger a@, b@]
            (a == b) <==> a@ == b@,
    {
    }
}

/// The concrete arena type for notifications.
pub type NotificationArena = Arena<Notification, NOTIFICATION_ARENA_CAPACITY>;

impl Default for Arena<Notification, NOTIFICATION_ARENA_CAPACITY> {
    fn default() -> (r: Self)
        ensures
            r.wf(),
            forall|i: int| 0 <= i < NOTIFICATION_ARENA_CAPACITY ==> #[trigger] r.slot(i) is None && r.slot_generation(i) == 0,
            r.free_order() == Seq::new(NOTIFICATION_ARENA_CAPACITY as nat, |i: int| i as u16),
    {
        Arena::new()
    }
}

/// Allocate a notification in `arena`, returning the handle that names it.
///
/// Fails with [`ObjError::ArenaFull`], leaving the arena unchanged,
/// exactly when every slot is in use.
pub fn create_notification(arena: &mut NotificationArena, notification: Notification) -> (r: Result<NotificationHandle, ObjError>)
    requires
        old(arena).wf(),
    ensures
        final(arena).wf(),
        r is Err <==> old(arena).is_exhausted(),
        r matches Err(e) ==> e == ObjError::ArenaFull && old(arena).same_slots(&*final(arena)),
        r matches Ok(h) ==> old(arena).allocation(&*final(arena), notification, h@),
{
    match arena.allocate(notification) {
        Some(slot) => Ok(NotificationHandle::from_slot(slot)),
        None => Err(ObjError::ArenaFull),
    }
}

/// Free the notification at `handle`, returning the stored value.
///
/// Fails with [`ObjError::InvalidHandle`], leaving the arena unchanged,
/// exactly when `handle` is stale or already freed. Whether a capability
/// table still names the object is the caller's check.
pub fn destroy_notification(arena: &mut NotificationArena, handle: NotificationHandle) -> (r: Result<Notification, ObjError>)
    requires
        old(arena).wf(),
    ensures
        final(arena).wf(),
        r is Err <==> !old(arena).live(handle@),
        r matches Err(e) ==> e == ObjError::InvalidHandle && old(arena).same_slots(&*final(arena)),
        r matches Ok(v) ==> v == old(arena).value(handle@) && old(arena).release(
            &*final(arena),
            handle@,
        ),
{
    match arena.free(handle.slot()) {
        Some(v) => Ok(v),
        None => Err(ObjError::InvalidHandle),
    }
}

/// Return the notification at `handle`, or `None` if the handle is stale.
pub fn get_notification(arena: &NotificationArena, handle: NotificationHandle) -> (r: Option<&Notification>)
    requires
        arena.wf(),
    ensures
        r is Some <==> arena.live(handle@),
        r matches Some(v) ==> *v == arena.value(handle@),
{
    arena.get(handle.slot())
}

} // verus!
