//! IPC primitives: synchronous rendezvous send / receive on an endpoint,
//! and a non-blocking bit-OR into a notification.
//!
//! Each endpoint is in one of four waiter states:
//!
//! ```text
//! Idle ──send──► SendPending   (message + optional capability waiting for a receiver)
//! Idle ──recv──► RecvWaiting   (a receiver is registered; no sender yet)
//! RecvWaiting ──send──► RecvComplete  (sender delivered to the waiting receiver)
//! RecvComplete ──recv──► Idle         (the receiver picks up the delivery)
//! SendPending  ──recv──► Idle         (the receiver drains the pending send)
//! ```
//!
//! A capability sent with a message leaves the sender's table when the
//! send commits, is held by the endpoint state in between, and is
//! installed as a root in the receiver's table when the receive commits.
use vstd::prelude::*;

use crate::cap::rights::{bits_include, CapRights, NOTIFY_BIT, RECV_BIT, SEND_BIT, TRANSFER_BIT};
use crate::cap::table::CapNode;
use crate::cap::{CapHandle, CapObject, Capability, CapabilityTable};
use crate::obj::endpoint::{EndpointArena, EndpointHandle};
use crate::obj::notification::{NotificationArena, NotificationHandle};
use crate::obj::ENDPOINT_ARENA_CAPACITY;

verus! {

/// Fixed-size IPC message body, passed by value. The kernel does not
/// interpret `label` or `params`.
#[derive(Copy, Clone, Debug, Default, PartialEq, Eq)]
pub struct Message {
    /// Caller-defined discriminator.
    pub label: u64,
    /// Up to three data words.
    pub params: [u64; 3],
}

/// Errors returned by IPC operations.
#[non_exhaustive]
#[derive(Copy, Clone, Debug, PartialEq, Eq, Structural)]
pub enum IpcError {
    /// The endpoint or notification capability is stale, names another
    /// kind of object, or lacks the needed right (`SEND`, `RECV`, `NOTIFY`).
    InvalidCapability,
    /// A second sender or a second receiver arrived while the endpoint's
    /// single waiter slot was taken.
    QueueFull,
    /// The capability nominated for transfer is stale, lacks `TRANSFER`, or
    /// still has derived children.
    InvalidTransferCap,
    /// The receiver's table has no free slot for the transferred
    /// capability; nothing was delivered.
    ReceiverTableFull,
    /// A scheduler resumed a blocked receiver whose receive still found no
    /// message.
    PendingAfterResume,
}

/// Outcome of a successful [`ipc_send`].
#[derive(Copy, Clone, Debug, PartialEq, Eq, Structural)]
pub enum SendOutcome {
    /// A receiver was waiting; the message now awaits its pickup.
    Delivered,
    /// No receiver was waiting; the message is queued on the endpoint.
    Enqueued,
}

/// Outcome of a successful [`ipc_recv`].
#[derive(Debug)]
pub enum RecvOutcome {
    /// A message was available. `cap` is the handle, in the receiver's
    /// table, of the capability the sender transferred, if any.
    Received {
        /// The delivered message body.
        msg: Message,
        /// The transferred capability's handle in the receiver's table.
        cap: Option<CapHandle>,
    },
    /// No message was available; the endpoint now records a waiting
    /// receiver.
    Pending,
}

/// Waiter state of one endpoint.
#[derive(Debug)]
pub enum EndpointState {
    /// Nobody is waiting.
    Idle,
    /// A sender left a message (and possibly a capability).
    SendPending { msg: Message, cap: Option<Capability> },
    /// A receiver is registered.
    RecvWaiting,
    /// A sender delivered to the registered receiver, which has not yet
    /// picked the message up.
    RecvComplete { msg: Message, cap: Option<Capability> },
}

/// A state holding an undelivered message.
pub open spec fn has_message(st: EndpointState) -> bool {
    st is SendPending || st is RecvComplete
}

/// The message a state holds.
pub open spec fn held_message(st: EndpointState) -> Message {
    match st {
        EndpointState::SendPending { msg, .. } => msg,
        EndpointState::RecvComplete { msg, .. } => msg,
        _ => Message { label: 0, params: [0, 0, 0] },
    }
}

/// The capability a state holds.
pub open spec fn held_cap(st: EndpointState) -> Option<Capability> {
    match st {
        EndpointState::SendPending { cap, .. } => cap,
        EndpointState::RecvComplete { cap, .. } => cap,
        _ => None,
    }
}

/// `cap` is what moving the capability at `transfer` out of `table`
/// yields: nothing when no transfer was asked for, otherwise a capability
/// with the same rights and object.
pub open spec fn carries_transfer(
    cap: Option<Capability>,
    table: CapabilityTable,
    transfer: Option<CapHandle>,
) -> bool {
    match transfer {
        None => cap is None,
        Some(x) => cap matches Some(c) && c.granted() == table.node(x).rights && c.target()
            == table.node(x).object,
    }
}

/// The endpoint an endpoint capability names when it is live and holds the
/// right `required`.
pub open spec fn endpoint_target(table: CapabilityTable, ep_cap: CapHandle, required: u32) -> Option<
    EndpointHandle,
> {
    if table.live(ep_cap) && bits_include(table.node(ep_cap).rights.bits(), required) {
        match table.node(ep_cap).object {
            CapObject::Endpoint(h) => Some(h),
            _ => None,
        }
    } else {
        None
    }
}

/// The notification a notification capability names when it is live and
/// holds `NOTIFY`.
pub open spec fn notification_target(table: CapabilityTable, cap: CapHandle) -> Option<
    NotificationHandle,
> {
    if table.live(cap) && bits_include(table.node(cap).rights.bits(), NOTIFY_BIT) {
        match table.node(cap).object {
            CapObject::Notification(h) => Some(h),
            _ => None,
        }
    } else {
        None
    }
}

/// Waiter state for every endpoint slot, indexed by the endpoint's slot
/// index. Each slot also records the generation of the endpoint that last
/// used it: an endpoint allocated in a reused slot starts `Idle` instead of
/// inheriting its predecessor's waiter.
pub struct IpcQueues {
    states: Vec<EndpointState>,
    slot_generations: Vec<u32>,
}

impl IpcQueues {
    /// The state stored for slot `i`.
    pub closed spec fn state_at(&self, i: int) -> EndpointState {
        self.states@[i]
    }

    /// The generation recorded for slot `i`.
    pub closed spec fn generation_at(&self, i: int) -> u32 {
        self.slot_generations@[i]
    }

    /// Both arrays cover every endpoint slot.
    pub closed spec fn wf(&self) -> bool {
        &&& self.states@.len() == ENDPOINT_ARENA_CAPACITY
        &&& self.slot_generations@.len() == ENDPOINT_ARENA_CAPACITY
    }

    /// The waiter state endpoint `h` is in: its slot's state when the slot
    /// last served this very endpoint, `Idle` otherwise.
    pub open spec fn current(&self, h: EndpointHandle) -> EndpointState {
        if self.generation_at(h@.idx() as int) == h@.gen() {
            self.state_at(h@.idx() as int)
        } else {
            EndpointState::Idle
        }
    }

    /// `post` differs from `self` at most in the slot of `h`, which holds
    /// `st` and records `h`'s generation.
    pub open spec fn sets(&self, post: &Self, h: EndpointHandle, st: EndpointState) -> bool {
        &&& post.state_at(h@.idx() as int) == st
        &&& post.generation_at(h@.idx() as int) == h@.gen()
        &&& forall|i: int|
            0 <= i < ENDPOINT_ARENA_CAPACITY && i != h@.idx() ==> #[trigger] post.state_at(i)
                == self.state_at(i) && post.generation_at(i) == self.generation_at(i)
    }

    /// `post` is `self` with the slot of `h` claimed for `h`: reset to
    /// `Idle` if it last served another endpoint.
    pub open spec fn refreshed(&self, post: &Self, h: EndpointHandle) -> bool {
        self.sets(post, h, self.current(h))
    }

    /// `post` holds the same states and generations as `self`.
    pub open spec fn same(&self, post: &Self) -> bool {
        forall|i: int|
            0 <= i < ENDPOINT_ARENA_CAPACITY ==> #[trigger] post.state_at(i) == self.state_at(i)
                && post.generation_at(i) == self.generation_at(i)
    }

    /// Construct queues with every endpoint slot `Idle` at generation 0.
    pub fn new() -> (r: IpcQueues)
        ensures
            r.wf(),
            forall|i: int|
                0 <= i < ENDPOINT_ARENA_CAPACITY ==> #[trigger] r.state_at(i) == EndpointState::Idle
                    && r.generation_at(i) == 0,
    {
        let mut states: Vec<EndpointState> = Vec::new();
        let mut slot_generations: Vec<u32> = Vec::new();
        let mut i: usize = 0;
        while i < ENDPOINT_ARENA_CAPACITY
            invariant
                i <= ENDPOINT_ARENA_CAPACITY,
                states@.len() == i,
                slot_generations@.len() == i,
                forall|j: int| 0 <= j < i ==> #[trigger] states@[j] == EndpointState::Idle,
                forall|j: int| 0 <= j < i ==> #[trigger] slot_generations@[j] == 0,
            decreases ENDPOINT_ARENA_CAPACITY - i,
        {
            states.push(EndpointState::Idle);
            slot_generations.push(0);
            i = i + 1;
        }
        IpcQueues { states, slot_generations }
    }

    /// Reset the slot of `handle` to `Idle` if it last served an older
    /// endpoint, record `handle`'s generation, and return the slot index.
    fn reset_if_stale_generation(&mut self, handle: EndpointHandle) -> (r: usize)
        requires
            old(self).wf(),
            handle@.idx() < ENDPOINT_ARENA_CAPACITY,
        ensures
            final(self).wf(),
            r == handle@.idx(),
            old(self).refreshed(&*final(self), handle),
            final(self).states@ == old(self).states@.update(r as int, old(self).current(handle)),
            final(self).slot_generations@ == old(self).slot_generations@.update(
                r as int,
                handle@.gen(),
            ),
    {
        let idx = handle.slot().index() as usize;
        let gen = handle.slot().generation();
        if self.slot_generations[idx] != gen {
            self.states.set(idx, EndpointState::Idle);
            self.slot_generations.set(idx, gen);
        }
        idx
    }

    /// Return `true` when a receiver is registered on `handle`.
    pub fn receiver_waiting(&self, handle: EndpointHandle) -> (r: bool)
        requires
            self.wf(),
            handle@.idx() < ENDPOINT_ARENA_CAPACITY,
        ensures
            r == (self.current(handle) is RecvWaiting),
    {
        let idx = handle.slot().index() as usize;
        if self.slot_generations[idx] != handle.slot().generation() {
            return false;
        }
        match &self.states[idx] {
            EndpointState::RecvWaiting => true,
            _ => false,
        }
    }

    /// Claim the slot of `handle` and return its state for update.
    fn state_of(&mut self, handle: EndpointHandle) -> (r: &mut EndpointState)
        requires
            old(self).wf(),
            handle@.idx() < ENDPOINT_ARENA_CAPACITY,
        ensures
            final(self).wf(),
            *r == old(self).current(handle),
            old(self).sets(&*final(self), handle, *final(r)),
    {
        let idx = self.reset_if_stale_generation(handle);
        &mut self.states[idx]
    }

    /// Claim the slot of `handle` and return its state for inspection.
    fn peek_state(&mut self, handle: EndpointHandle) -> (r: &EndpointState)
        requires
            old(self).wf(),
            handle@.idx() < ENDPOINT_ARENA_CAPACITY,
        ensures
            final(self).wf(),
            *r == old(self).current(handle),
            old(self).refreshed(&*final(self), handle),
    {
        let idx = self.reset_if_stale_generation(handle);
        &self.states[idx]
    }
}

impl Default for IpcQueues {
    fn default() -> (r: IpcQueues)
        ensures
            r.wf(),
            forall|i: int|
                0 <= i < ENDPOINT_ARENA_CAPACITY ==> #[trigger] r.state_at(i) == EndpointState::Idle
                    && r.generation_at(i) == 0,
    {
        IpcQueues::new()
    }
}

// ── Public IPC operations ───────────────────────────────────────────────────

/// The transfer capability is unusable: stale or lacking `TRANSFER`.
pub open spec fn bad_transfer(table: CapabilityTable, transfer: Option<CapHandle>) -> bool {
    match transfer {
        Some(x) => !(table.live(x) && bits_include(table.node(x).rights.bits(), TRANSFER_BIT)),
        None => false,
    }
}

/// The transfer capability still has derived children.
pub open spec fn transfer_has_children(table: CapabilityTable, transfer: Option<CapHandle>) -> bool {
    match transfer {
        Some(x) => table.has_children(x.idx() as int),
        None => false,
    }
}

/// A send gets past validation and inspects the endpoint's waiter state.
pub open spec fn send_reaches_queue(
    arena: EndpointArena,
    table: CapabilityTable,
    ep_cap: CapHandle,
    transfer: Option<CapHandle>,
) -> bool {
    &&& endpoint_target(table, ep_cap, SEND_BIT) is Some
    &&& !bad_transfer(table, transfer)
    &&& arena.live(endpoint_target(table, ep_cap, SEND_BIT)->0@)
}

/// The error `ipc_send` reports, or `None` when it succeeds.
pub open spec fn send_error(
    queues: IpcQueues,
    arena: EndpointArena,
    table: CapabilityTable,
    ep_cap: CapHandle,
    transfer: Option<CapHandle>,
) -> Option<IpcError> {
    match endpoint_target(table, ep_cap, SEND_BIT) {
        None => Some(IpcError::InvalidCapability),
        Some(h) => if bad_transfer(table, transfer) {
            Some(IpcError::InvalidTransferCap)
        } else if !arena.live(h@) {
            Some(IpcError::InvalidCapability)
        } else if has_message(queues.current(h)) {
            Some(IpcError::QueueFull)
        } else if transfer_has_children(table, transfer) {
            Some(IpcError::InvalidTransferCap)
        } else {
            None
        },
    }
}

/// The result `ipc_send` returns: the first failing check's error, else
/// whether a registered receiver took the message.
pub open spec fn send_outcome(
    queues: IpcQueues,
    arena: EndpointArena,
    table: CapabilityTable,
    ep_cap: CapHandle,
    transfer: Option<CapHandle>,
) -> Result<SendOutcome, IpcError> {
    match send_error(queues, arena, table, ep_cap, transfer) {
        Some(e) => Err(e),
        None => if queues.current(endpoint_target(table, ep_cap, SEND_BIT)->0) is RecvWaiting {
            Ok(SendOutcome::Delivered)
        } else {
            Ok(SendOutcome::Enqueued)
        },
    }
}

/// What a call of `ipc_send` that returned `r` did to the waiter states
/// (`q1` to `q2`) and to the caller's table (`t1` to `t2`).
pub open spec fn send_effect(
    q1: IpcQueues,
    q2: IpcQueues,
    arena: EndpointArena,
    t1: CapabilityTable,
    t2: CapabilityTable,
    ep_cap: CapHandle,
    msg: Message,
    transfer: Option<CapHandle>,
    r: Result<SendOutcome, IpcError>,
) -> bool {
    match r {
        Err(e) => {
            &&& send_error(q1, arena, t1, ep_cap, transfer) == Some(e)
            &&& t1.unchanged(&t2)
            &&& if send_reaches_queue(arena, t1, ep_cap, transfer) {
                q1.refreshed(&q2, endpoint_target(t1, ep_cap, SEND_BIT)->0)
            } else {
                q1.same(&q2)
            }
        },
        Ok(out) => {
            let h = endpoint_target(t1, ep_cap, SEND_BIT)->0;
            let st = q2.state_at(h@.idx() as int);
            &&& q1.sets(&q2, h, st)
            &&& (out == SendOutcome::Delivered ==> st is RecvComplete)
            &&& (out == SendOutcome::Enqueued ==> st is SendPending)
            &&& held_message(st) == msg
            &&& carries_transfer(held_cap(st), t1, transfer)
            &&& match transfer {
                None => t1.unchanged(&t2),
                Some(x) => t1.removes(&t2, x),
            }
        },
    }
}

/// Send `msg` on the endpoint named by `ep_cap` (which must hold `SEND`),
/// optionally moving the capability `transfer` out of `caller_table`.
///
/// If a receiver is registered the message is delivered to it
/// ([`SendOutcome::Delivered`]); otherwise it waits on the endpoint
/// ([`SendOutcome::Enqueued`]). Errors, in order of checking:
/// [`IpcError::InvalidCapability`] for a bad endpoint capability,
/// [`IpcError::InvalidTransferCap`] for a stale transfer capability or one
/// lacking `TRANSFER`, [`IpcError::InvalidCapability`] for a destroyed
/// endpoint, [`IpcError::QueueFull`] when a message is already waiting,
/// [`IpcError::InvalidTransferCap`] when the transfer capability has
/// children. No error changes the caller's table or the waiter state
/// (an endpoint slot left by a destroyed endpoint may be reset to `Idle`).
pub fn ipc_send(
    ep_arena: &mut EndpointArena,
    queues: &mut IpcQueues,
    ep_cap: CapHandle,
    caller_table: &mut CapabilityTable,
    msg: Message,
    transfer: Option<CapHandle>,
) -> (r: Result<SendOutcome, IpcError>)
    requires
        old(ep_arena).wf(),
        old(queues).wf(),
        old(caller_table).wf(),
    ensures
        *final(ep_arena) == *old(ep_arena),
        final(queues).wf(),
        final(caller_table).wf(),
        r == send_outcome(*old(queues), *old(ep_arena), *old(caller_table), ep_cap, transfer),
        send_effect(
            *old(queues),
            *final(queues),
            *old(ep_arena),
            *old(caller_table),
            *final(caller_table),
            ep_cap,
            msg,
            transfer,
            r,
        ),
{
    let ep_handle = validate_ep_cap(caller_table, ep_cap, CapRights::send())?;
    // The transfer capability must be live and carry TRANSFER.
    if let Some(xfer) = transfer {
        let xfer_cap = match caller_table.lookup(xfer) {
            Ok(c) => c,
            Err(_) => return Err(IpcError::InvalidTransferCap),
        };
        if !xfer_cap.rights().contains(CapRights::transfer()) {
            return Err(IpcError::InvalidTransferCap);
        }
    }
    // The endpoint must still be live in the arena.
    if ep_arena.get(ep_handle.slot()).is_none() {
        return Err(IpcError::InvalidCapability);
    }
    // A waiting message leaves no room for another.
    let full = match queues.peek_state(ep_handle) {
        EndpointState::SendPending { .. } => true,
        EndpointState::RecvComplete { .. } => true,
        _ => false,
    };
    if full {
        return Err(IpcError::QueueFull);
    }
    // Take the capability before touching the waiter state, so a failed
    // take leaves a registered receiver in place.
    let owned = take_cap_if_some(caller_table, transfer)?;
    let state = queues.state_of(ep_handle);
    let mut previous = EndpointState::Idle;
    core::mem::swap(state, &mut previous);
    match previous {
        EndpointState::RecvWaiting => {
            *state = EndpointState::RecvComplete { msg, cap: owned };
            Ok(SendOutcome::Delivered)
        },
        _ => {
            *state = EndpointState::SendPending { msg, cap: owned };
            Ok(SendOutcome::Enqueued)
        },
    }
}

/// The endpoint a send with these arguments would hand its message to:
/// `Some` exactly when `ipc_send` would report `Delivered`. Nothing is
/// changed.
pub fn send_delivers_to(
    ep_arena: &EndpointArena,
    queues: &IpcQueues,
    ep_cap: CapHandle,
    caller_table: &CapabilityTable,
    transfer: Option<CapHandle>,
) -> (r: Option<EndpointHandle>)
    requires
        ep_arena.wf(),
        queues.wf(),
        caller_table.wf(),
    ensures
        r is Some <==> send_outcome(*queues, *ep_arena, *caller_table, ep_cap, transfer) == Ok::<
            SendOutcome,
            IpcError,
        >(SendOutcome::Delivered),
        r matches Some(h) ==> h == endpoint_target(*caller_table, ep_cap, SEND_BIT)->0,
{
    let h = match validate_ep_cap(caller_table, ep_cap, CapRights::send()) {
        Ok(h) => h,
        Err(_) => return None,
    };
    if let Some(x) = transfer {
        match caller_table.lookup(x) {
            Ok(c) => {
                if !c.rights().contains(CapRights::transfer()) {
                    return None;
                }
            },
            Err(_) => return None,
        }
    }
    if ep_arena.get(h.slot()).is_none() {
        return None;
    }
    if !queues.receiver_waiting(h) {
        return None;
    }
    if let Some(x) = transfer {
        if caller_table.has_derived(x) {
            return None;
        }
    }
    Some(h)
}

/// A receive gets past validation and inspects the endpoint's waiter state.
pub open spec fn recv_reaches_queue(arena: EndpointArena, table: CapabilityTable, ep_cap: CapHandle) -> bool {
    &&& endpoint_target(table, ep_cap, RECV_BIT) is Some
    &&& arena.live(endpoint_target(table, ep_cap, RECV_BIT)->0@)
}

/// The error `ipc_recv` reports, or `None` when it succeeds.
pub open spec fn recv_error(
    queues: IpcQueues,
    arena: EndpointArena,
    table: CapabilityTable,
    ep_cap: CapHandle,
) -> Option<IpcError> {
    match endpoint_target(table, ep_cap, RECV_BIT) {
        None => Some(IpcError::InvalidCapability),
        Some(h) => if !arena.live(h@) {
            Some(IpcError::InvalidCapability)
        } else if held_cap(queues.current(h)) is Some && table.is_exhausted() {
            Some(IpcError::ReceiverTableFull)
        } else if queues.current(h) is RecvWaiting {
            Some(IpcError::QueueFull)
        } else {
            None
        },
    }
}

/// What a call of `ipc_recv` that returned `r` did to the waiter states
/// (`q1` to `q2`) and to the caller's table (`t1` to `t2`).
pub open spec fn recv_effect(
    q1: IpcQueues,
    q2: IpcQueues,
    arena: EndpointArena,
    t1: CapabilityTable,
    t2: CapabilityTable,
    ep_cap: CapHandle,
    r: Result<RecvOutcome, IpcError>,
) -> bool {
    match r {
        Err(e) => {
            &&& recv_error(q1, arena, t1, ep_cap) == Some(e)
            &&& t1.unchanged(&t2)
            &&& if recv_reaches_queue(arena, t1, ep_cap) {
                q1.refreshed(&q2, endpoint_target(t1, ep_cap, RECV_BIT)->0)
            } else {
                q1.same(&q2)
            }
        },
        Ok(out) => {
            let h = endpoint_target(t1, ep_cap, RECV_BIT)->0;
            let st = q1.current(h);
            match out {
                RecvOutcome::Pending => {
                    &&& st is Idle
                    &&& q1.sets(&q2, h, EndpointState::RecvWaiting)
                    &&& t1.unchanged(&t2)
                },
                RecvOutcome::Received { msg, cap } => {
                    &&& has_message(st)
                    &&& msg == held_message(st)
                    &&& q1.sets(&q2, h, EndpointState::Idle)
                    &&& match held_cap(st) {
                        None => cap is None && t1.unchanged(&t2),
                        Some(c) => cap matches Some(ch) && t1.installs(
                            &t2,
                            CapNode { rights: c.granted(), object: c.target(), parent: None, depth: 0 },
                            ch,
                        ),
                    }
                },
            }
        },
    }
}

/// Receive on the endpoint named by `ep_cap` (which must hold `RECV`).
///
/// If a message waits (from a pending sender or delivered to an earlier
/// registration), it is returned, any capability carried with it is
/// installed as a root in `caller_table`, and the endpoint returns to
/// `Idle`. Otherwise the endpoint records a waiting receiver and
/// [`RecvOutcome::Pending`] is returned. Errors, in order of checking:
/// [`IpcError::InvalidCapability`] for a bad endpoint capability or a
/// destroyed endpoint, [`IpcError::ReceiverTableFull`] when the waiting
/// message carries a capability and the caller's table is full,
/// [`IpcError::QueueFull`] when a receiver is already registered. No error
/// changes the caller's table or the waiter state (an endpoint slot left by
/// a destroyed endpoint may be reset to `Idle`).
pub fn ipc_recv(
    ep_arena: &mut EndpointArena,
    queues: &mut IpcQueues,
    ep_cap: CapHandle,
    caller_table: &mut CapabilityTable,
) -> (r: Result<RecvOutcome, IpcError>)
    requires
        old(ep_arena).wf(),
        old(queues).wf(),
        old(caller_table).wf(),
    ensures
        *final(ep_arena) == *old(ep_arena),
        final(queues).wf(),
        final(caller_table).wf(),
        r is Err <==> recv_error(*old(queues), *old(ep_arena), *old(caller_table), ep_cap) is Some,
        recv_effect(*old(queues), *final(queues), *old(ep_arena), *old(caller_table), *final(caller_table), ep_cap, r),
{
    let ep_handle = validate_ep_cap(caller_table, ep_cap, CapRights::recv())?;
    if ep_arena.get(ep_handle.slot()).is_none() {
        return Err(IpcError::InvalidCapability);
    }
    // Make sure a carried capability has a slot to land in before the
    // waiter state is consumed.
    let pending_has_cap = match queues.peek_state(ep_handle) {
        EndpointState::SendPending { cap: Some(_), .. } => true,
        EndpointState::RecvComplete { cap: Some(_), .. } => true,
        _ => false,
    };
    if pending_has_cap && caller_table.is_full() {
        return Err(IpcError::ReceiverTableFull);
    }
    let state = queues.state_of(ep_handle);
    let mut previous = EndpointState::Idle;
    core::mem::swap(state, &mut previous);
    match previous {
        EndpointState::SendPending { msg, cap } => {
            let xfer = install_cap_if_some(caller_table, cap)?;
            Ok(RecvOutcome::Received { msg, cap: xfer })
        },
        EndpointState::RecvComplete { msg, cap } => {
            let xfer = install_cap_if_some(caller_table, cap)?;
            Ok(RecvOutcome::Received { msg, cap: xfer })
        },
        EndpointState::Idle => {
            *state = EndpointState::RecvWaiting;
            Ok(RecvOutcome::Pending)
        },
        EndpointState::RecvWaiting => {
            *state = EndpointState::RecvWaiting;
            Err(IpcError::QueueFull)
        },
    }
}

/// OR `bits` into the notification named by `notif_cap` (which must hold
/// `NOTIFY`). Non-blocking.
///
/// Fails with [`IpcError::InvalidCapability`], changing nothing, when the
/// capability is stale, lacks `NOTIFY`, names another kind of object, or
/// names a destroyed notification.
pub fn ipc_notify(
    notif_arena: &mut NotificationArena,
    notif_cap: CapHandle,
    caller_table: &CapabilityTable,
    bits: u64,
) -> (r: Result<(), IpcError>)
    requires
        old(notif_arena).wf(),
        caller_table.wf(),
    ensures
        final(notif_arena).wf(),
        r is Ok <==> (notification_target(*caller_table, notif_cap) matches Some(h)
            && old(notif_arena).live(h@)),
        r matches Err(e) ==> e == IpcError::InvalidCapability && old(notif_arena).same_slots(
            &*final(notif_arena),
        ),
        r is Ok ==> {
            let h = notification_target(*caller_table, notif_cap)->0;
            &&& final(notif_arena).live(h@)
            &&& final(notif_arena).value(h@)@ == old(notif_arena).value(h@)@ | bits
            &&& final(notif_arena).free_order() == old(notif_arena).free_order()
            &&& forall|i: int|
                #![trigger final(notif_arena).slot(i)]
                0 <= i < crate::obj::NOTIFICATION_ARENA_CAPACITY ==> {
                    &&& final(notif_arena).slot_generation(i) == old(notif_arena).slot_generation(i)
                    &&& i != h@.idx() ==> final(notif_arena).slot(i) == old(notif_arena).slot(i)
                }
        },
{
    let notif_handle = validate_notif_cap(caller_table, notif_cap)?;
    let notif = match notif_arena.get_mut(notif_handle.slot()) {
        Some(n) => n,
        None => return Err(IpcError::InvalidCapability),
    };
    notif.set(bits);
    Ok(())
}

// ── Laws ─────────────────────────────────────────────────────────────────────

/// What a send leaves on an endpoint is what the next receive on it sees:
/// the same message and the same carried capability.
pub proof fn lemma_send_is_seen_by_recv(q1: IpcQueues, q2: IpcQueues, h: EndpointHandle, st: EndpointState)
    requires
        q1.sets(&q2, h, st),
        has_message(st),
    ensures
        q2.current(h) == st,
        has_message(q2.current(h)),
        held_message(q2.current(h)) == held_message(st),
        held_cap(q2.current(h)) == held_cap(st),
{
}

/// A message sent with a capability and then received on the same
/// endpoint arrives unchanged, and the capability arrives in the
/// receiver's table with the rights and object it had in the sender's
/// table, which no longer holds it.
pub proof fn lemma_transfer_moves_capability(
    q1: IpcQueues,
    q2: IpcQueues,
    q3: IpcQueues,
    arena: EndpointArena,
    s1: CapabilityTable,
    s2: CapabilityTable,
    r1: CapabilityTable,
    r2: CapabilityTable,
    send_cap: CapHandle,
    recv_cap: CapHandle,
    msg: Message,
    x: CapHandle,
    out: SendOutcome,
    got: Message,
    ch: CapHandle,
)
    requires
        send_effect(q1, q2, arena, s1, s2, send_cap, msg, Some(x), Ok(out)),
        recv_effect(q2, q3, arena, r1, r2, recv_cap, Ok(RecvOutcome::Received { msg: got, cap: Some(ch) })),
        endpoint_target(r1, recv_cap, RECV_BIT) == endpoint_target(s1, send_cap, SEND_BIT),
        r1.wf(),
    ensures
        got == msg,
        r2.live(ch),
        r2.node(ch).rights == s1.node(x).rights,
        r2.node(ch).object == s1.node(x).object,
        !s2.live(x),
{
    let h = endpoint_target(s1, send_cap, SEND_BIT)->0;
    let st = q2.state_at(h@.idx() as int);
    assert(q2.current(h) == st);
    r1.lemma_free_slots_in_range();
}

/// An endpoint allocated in a slot that last served another endpoint
/// starts `Idle`: it inherits no waiter and no message from its
/// predecessor.
pub proof fn lemma_reused_slot_starts_idle(q: IpcQueues, previous: EndpointHandle, fresh: EndpointHandle)
    requires
        q.generation_at(previous@.idx() as int) == previous@.gen(),
        fresh@.idx() == previous@.idx(),
        fresh@.gen() != previous@.gen(),
    ensures
        q.current(fresh) is Idle,
{
}

/// A receiver that found no message is registered: the next send on the
/// endpoint is delivered to it rather than queued.
pub proof fn lemma_registered_receiver_gets_delivery(q1: IpcQueues, q2: IpcQueues, h: EndpointHandle)
    requires
        q1.sets(&q2, h, EndpointState::RecvWaiting),
    ensures
        q2.current(h) is RecvWaiting,
{
}

/// A failed send or receive leaves the endpoint in the waiter state it
/// was in: a registered receiver stays registered and a waiting message
/// stays waiting.
pub proof fn lemma_failed_call_keeps_waiter(q1: IpcQueues, q2: IpcQueues, h: EndpointHandle, k: EndpointHandle)
    requires
        q1.refreshed(&q2, h) || q1.same(&q2),
        h@.idx() < ENDPOINT_ARENA_CAPACITY,
        k@.idx() < ENDPOINT_ARENA_CAPACITY,
        k == h || k@.idx() != h@.idx(),
    ensures
        q2.current(k) == q1.current(k),
{
    if q1.refreshed(&q2, h) && k@.idx() != h@.idx() {
        assert(q2.state_at(k@.idx() as int) == q1.state_at(k@.idx() as int));
    }
    if q1.same(&q2) {
        assert(q2.state_at(k@.idx() as int) == q1.state_at(k@.idx() as int));
    }
}

/// A send never overwrites a message an endpoint still holds. While a
/// live endpoint holds a message no receive has taken (a queued send, or
/// a delivery its registered receiver has not collected), every send
/// leaves that endpoint's waiter state as it was; a send aimed at it
/// whose capabilities check out is refused with `QueueFull` and leaves
/// the caller's table unchanged.
pub proof fn lemma_send_keeps_held_message(
    q1: IpcQueues,
    q2: IpcQueues,
    arena: EndpointArena,
    t1: CapabilityTable,
    t2: CapabilityTable,
    ep_cap: CapHandle,
    msg: Message,
    transfer: Option<CapHandle>,
    r: Result<SendOutcome, IpcError>,
    g: EndpointHandle,
)
    requires
        r == send_outcome(q1, arena, t1, ep_cap, transfer),
        send_effect(q1, q2, arena, t1, t2, ep_cap, msg, transfer, r),
        arena.live(g@),
        q1.current(g) is SendPending || q1.current(g) is RecvComplete,
    ensures
        q2.current(g) == q1.current(g),
        endpoint_target(t1, ep_cap, SEND_BIT) == Some(g) && !bad_transfer(t1, transfer) ==> r
            == Err::<SendOutcome, IpcError>(IpcError::QueueFull) && t1.unchanged(&t2),
{
    let i = g@.idx() as int;
    match endpoint_target(t1, ep_cap, SEND_BIT) {
        Some(h) => {
            if h@.idx() == g@.idx() && arena.live(h@) {
                assert(h@.gen() == g@.gen());
                assert(q1.current(h) == q1.current(g));
            }
            if h@.idx() != g@.idx() {
                if send_reaches_queue(arena, t1, ep_cap, transfer) || r is Ok {
                    assert(q2.state_at(i) == q1.state_at(i));
                } else {
                    assert(q2.state_at(i) == q1.state_at(i));
                }
            }
        },
        None => {
            assert(q2.state_at(i) == q1.state_at(i));
        },
    }
}

// ── Helpers ─────────────────────────────────────────────────────────────────

/// Resolve an endpoint capability holding `required` to its endpoint.
fn validate_ep_cap(table: &CapabilityTable, ep_cap: CapHandle, required: CapRights) -> (r: Result<
    EndpointHandle,
    IpcError,
>)
    requires
        table.wf(),
    ensures
        r == (match endpoint_target(*table, ep_cap, required.bits()) {
            Some(h) => Ok::<EndpointHandle, IpcError>(h),
            None => Err(IpcError::InvalidCapability),
        }),
{
    let cap = match table.lookup(ep_cap) {
        Ok(c) => c,
        Err(_) => return Err(IpcError::InvalidCapability),
    };
    if !cap.rights().contains(required) {
        return Err(IpcError::InvalidCapability);
    }
    match cap.object() {
        CapObject::Endpoint(h) => Ok(h),
        _ => Err(IpcError::InvalidCapability),
    }
}

/// Resolve a notification capability holding `NOTIFY` to its notification.
fn validate_notif_cap(table: &CapabilityTable, notif_cap: CapHandle) -> (r: Result<
    NotificationHandle,
    IpcError,
>)
    requires
        table.wf(),
    ensures
        r == (match notification_target(*table, notif_cap) {
            Some(h) => Ok::<NotificationHandle, IpcError>(h),
            None => Err(IpcError::InvalidCapability),
        }),
{
    let cap = match table.lookup(notif_cap) {
        Ok(c) => c,
        Err(_) => return Err(IpcError::InvalidCapability),
    };
    if !cap.rights().contains(CapRights::notify()) {
        return Err(IpcError::InvalidCapability);
    }
    match cap.object() {
        CapObject::Notification(h) => Ok(h),
        _ => Err(IpcError::InvalidCapability),
    }
}

/// Move the capability at `handle` (if any) out of `table`.
fn take_cap_if_some(table: &mut CapabilityTable, handle: Option<CapHandle>) -> (r: Result<
    Option<Capability>,
    IpcError,
>)
    requires
        old(table).wf(),
    ensures
        final(table).wf(),
        match handle {
            None => r matches Ok(c) && c is None && old(table).unchanged(&*final(table)),
            Some(h) => {
                &&& r is Err <==> old(table).remove_error(h) is Some
                &&& r matches Err(e) ==> e == IpcError::InvalidTransferCap && old(table).unchanged(
                    &*final(table),
                )
                &&& r matches Ok(c) ==> carries_transfer(c, *old(table), handle) && old(
                    table,
                ).removes(&*final(table), h)
            },
        },
{
    match handle {
        Some(h) => match table.cap_take(h) {
            Ok(c) => Ok(Some(c)),
            Err(_) => Err(IpcError::InvalidTransferCap),
        },
        None => Ok(None),
    }
}

/// Install the capability `cap` (if any) as a root in `table`.
fn install_cap_if_some(table: &mut CapabilityTable, cap: Option<Capability>) -> (r: Result<
    Option<CapHandle>,
    IpcError,
>)
    requires
        old(table).wf(),
    ensures
        final(table).wf(),
        match cap {
            None => r matches Ok(h) && h is None && old(table).unchanged(&*final(table)),
            Some(c) => {
                &&& r is Err <==> old(table).is_exhausted()
                &&& r matches Err(e) ==> e == IpcError::ReceiverTableFull && old(table).unchanged(
                    &*final(table),
                )
                &&& r matches Ok(h) ==> h matches Some(hh) && old(table).installs(
                    &*final(table),
                    CapNode { rights: c.granted(), object: c.target(), parent: None, depth: 0 },
                    hh,
                )
            },
        },
{
    match cap {
        Some(c) => match table.insert_root(c) {
            Ok(h) => Ok(Some(h)),
            Err(_) => Err(IpcError::ReceiverTableFull),
        },
        None => Ok(None),
    }
}

} // verus!
