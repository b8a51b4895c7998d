//! Cooperative, single-core scheduler bookkeeping.
//!
//! The scheduler keeps a FIFO ready queue of task handles, a per-slot
//! [`TaskState`], the handle stored for each slot, and the identity of the
//! running task. Each operation here is the decision half of a scheduling
//! step: it updates that bookkeeping and reports which saved register
//! context to switch away from and to. Performing the switch itself is
//! the board support package's work.
//!
//! The IPC bridge ([`ipc_send_and_yield`], [`ipc_recv_and_yield`],
//! [`ipc_recv_after_resume`]) layers scheduling on top of
//! [`crate::ipc`]; the IPC module itself knows nothing of scheduling.
use vstd::prelude::*;

use vstd::multiset::Multiset;

pub mod queue;

pub use queue::SchedQueue;

use crate::cap::{CapHandle, CapObject, CapabilityTable};
use crate::ipc::{
    endpoint_target, ipc_recv, ipc_send, recv_effect, recv_error, send_delivers_to, send_effect,
    send_outcome,
    IpcError, IpcQueues, Message, RecvOutcome, SendOutcome,
};
use crate::cap::rights::{RECV_BIT, SEND_BIT};
use crate::obj::endpoint::{EndpointArena, EndpointHandle};
use crate::obj::{TaskHandle, TASK_ARENA_CAPACITY};

verus! {

/// Scheduling state of one task slot.
#[derive(Copy, Clone, Debug, PartialEq, Eq, Structural)]
pub enum TaskState {
    /// Slot is not occupied by a live task.
    Idle,
    /// Task is in the ready queue or currently running.
    Ready,
    /// Task is waiting for a message on an endpoint.
    Blocked {
        /// The endpoint the task is blocked on.
        on: EndpointHandle,
    },
}

/// Errors returned by scheduler operations.
#[non_exhaustive]
#[derive(Copy, Clone, Debug, PartialEq, Eq, Structural)]
pub enum SchedError {
    /// No task is currently running; the operation requires a current task.
    NoCurrentTask,
    /// The ready queue is full.
    QueueFull,
    /// IPC operation failed.
    Ipc(IpcError),
    /// The ready queue is empty while the current task has just blocked:
    /// every task is waiting on IPC and no idle task is registered. The
    /// scheduler state is restored before this is returned; the endpoint
    /// keeps the receiver registration the receive made.
    Deadlock,
}

impl From<IpcError> for SchedError {
    fn from(e: IpcError) -> (r: SchedError) {
        SchedError::Ipc(e)
    }
}

impl vstd::std_specs::convert::FromSpecImpl<IpcError> for SchedError {
    open spec fn obeys_from_spec() -> bool {
        true
    }

    open spec fn from_spec(v: IpcError) -> SchedError {
        SchedError::Ipc(v)
    }
}

/// The pair of saved-context slots a scheduling step switches between.
#[derive(Copy, Clone, Debug, PartialEq, Eq, Structural)]
pub struct Switch {
    /// Slot of the task whose registers are saved.
    pub current_idx: usize,
    /// Slot of the task whose registers are restored.
    pub next_idx: usize,
}

/// What the first half of a receive through the scheduler produced.
#[derive(Debug)]
pub enum RecvStep {
    /// A message was waiting and has been received.
    Received(RecvOutcome),
    /// No message was waiting: the running task is now blocked on the
    /// endpoint and the given switch is to be performed; the receive is
    /// completed by [`ipc_recv_after_resume`] once the task runs again.
    Blocked(Switch),
}

/// Slot index that a task handle names.
pub open spec fn slot_of(h: TaskHandle) -> int {
    h@.idx() as int
}

/// The endpoint an endpoint capability names, when the capability is
/// live (whatever its rights).
pub open spec fn named_endpoint(table: CapabilityTable, ep_cap: CapHandle) -> Option<EndpointHandle> {
    if table.live(ep_cap) {
        match table.node(ep_cap).object {
            CapObject::Endpoint(h) => Some(h),
            _ => None,
        }
    } else {
        None
    }
}

/// Cooperative, single-core scheduler: ready queue, per-slot task state
/// and stored handle, and the running task.
pub struct Scheduler {
    ready: SchedQueue<TASK_ARENA_CAPACITY>,
    task_states: Vec<TaskState>,
    task_handles: Vec<Option<TaskHandle>>,
    current: Option<TaskHandle>,
}

impl Scheduler {
    /// Handles in the ready queue, front first.
    pub closed spec fn queued(&self) -> Seq<TaskHandle> {
        self.ready.view()
    }

    /// State of every task slot.
    pub closed spec fn states(&self) -> Seq<TaskState> {
        self.task_states@
    }

    /// Handle stored for every task slot.
    pub closed spec fn handles(&self) -> Seq<Option<TaskHandle>> {
        self.task_handles@
    }

    /// The running task.
    pub closed spec fn running(&self) -> Option<TaskHandle> {
        self.current
    }

    /// Internal consistency: one state and one handle per slot, every
    /// stored handle sits at its own slot, and every queued or running
    /// handle names a slot.
    pub closed spec fn wf(&self) -> bool {
        &&& self.ready.wf()
        &&& self.task_states@.len() == TASK_ARENA_CAPACITY
        &&& self.task_handles@.len() == TASK_ARENA_CAPACITY
        &&& forall|i: int|
            0 <= i < TASK_ARENA_CAPACITY ==> (#[trigger] self.task_handles@[i] matches Some(h) ==> slot_of(
                h,
            ) == i)
        &&& forall|k: int|
            0 <= k < self.ready.view().len() ==> slot_of(#[trigger] self.ready.view()[k])
                < TASK_ARENA_CAPACITY
        &&& self.current matches Some(c) ==> slot_of(c) < TASK_ARENA_CAPACITY
    }

    /// Every task the scheduler can run: the running task, if any, and the
    /// ready queue.
    pub open spec fn tasks(&self) -> Multiset<TaskHandle> {
        match self.running() {
            Some(c) => self.queued().to_multiset().insert(c),
            None => self.queued().to_multiset(),
        }
    }

    /// The bookkeeping of `post` equals that of `self`.
    pub open spec fn same(&self, post: &Self) -> bool {
        &&& post.queued() == self.queued()
        &&& post.states() == self.states()
        &&& post.handles() == self.handles()
        &&& post.running() == self.running()
    }

    /// Slot `i` holds a task blocked on `ep` with a stored handle.
    pub open spec fn is_waiter(&self, i: int, ep: EndpointHandle) -> bool {
        &&& 0 <= i < TASK_ARENA_CAPACITY
        &&& self.states()[i] == (TaskState::Blocked { on: ep })
        &&& self.handles()[i] is Some
    }

    /// Slot `i` is the lowest slot waiting on `ep`.
    pub open spec fn is_first_waiter(&self, i: int, ep: EndpointHandle) -> bool {
        &&& self.is_waiter(i, ep)
        &&& forall|j: int| 0 <= j < i ==> !#[trigger] self.is_waiter(j, ep)
    }

    /// Some slot waits on `ep`.
    pub open spec fn has_waiter(&self, ep: EndpointHandle) -> bool {
        exists|i: int| #[trigger] self.is_first_waiter(i, ep)
    }

    /// The lowest slot waiting on `ep`.
    pub open spec fn first_waiter(&self, ep: EndpointHandle) -> int {
        choose|i: int| #[trigger] self.is_first_waiter(i, ep)
    }

    /// `post` is `self` after waking the first waiter on `ep`, if any:
    /// that slot becomes `Ready` and its handle joins the back of the
    /// ready queue.
    pub open spec fn wakes(&self, post: &Self, ep: EndpointHandle) -> bool {
        if self.has_waiter(ep) {
            let i = self.first_waiter(ep);
            &&& post.states() == self.states().update(i, TaskState::Ready)
            &&& post.queued() == self.queued().push(self.handles()[i]->0)
            &&& post.handles() == self.handles()
            &&& post.running() == self.running()
        } else {
            self.same(post)
        }
    }

    /// `post` and the result `r` are what yielding the CPU from `self`
    /// gives: the running task goes to the back of the ready queue and the
    /// front of the queue becomes the running task. When that front task
    /// is the running task itself, nothing switches.
    pub open spec fn yields(&self, post: &Self, r: Result<Option<Switch>, SchedError>) -> bool {
        match self.running() {
            None => r == Err::<Option<Switch>, SchedError>(SchedError::NoCurrentTask) && self.same(post),
            Some(c) => {
                let q = self.queued().push(c);
                let n = q[0];
                let st = self.states().update(slot_of(c), TaskState::Ready);
                &&& post.queued() == q.drop_first()
                &&& post.handles() == self.handles()
                &&& if n == c {
                    &&& r == Ok::<Option<Switch>, SchedError>(None)
                    &&& post.running() == Some(c)
                    &&& post.states() == st
                } else {
                    &&& r == Ok::<Option<Switch>, SchedError>(
                        Some(Switch { current_idx: slot_of(c) as usize, next_idx: slot_of(n) as usize }),
                    )
                    &&& post.running() == Some(n)
                    &&& post.states() == st.update(slot_of(n), TaskState::Ready)
                }
            },
        }
    }

    /// `post` and the result `r` are what blocking the running task of
    /// `self` on `ep` gives: it is marked blocked and the front of the
    /// ready queue becomes the running task. With no running task, or an
    /// empty ready queue, nothing changes and the matching error is
    /// returned.
    pub open spec fn blocks(&self, post: &Self, ep: EndpointHandle, r: Result<RecvStep, SchedError>) -> bool {
        match self.running() {
            None => r == Err::<RecvStep, SchedError>(SchedError::NoCurrentTask) && self.same(post),
            Some(c) => if self.queued().len() == 0 {
                r == Err::<RecvStep, SchedError>(SchedError::Deadlock) && self.same(post)
            } else {
                let n = self.queued()[0];
                &&& r == Ok::<RecvStep, SchedError>(
                    RecvStep::Blocked(
                        Switch { current_idx: slot_of(c) as usize, next_idx: slot_of(n) as usize },
                    ),
                )
                &&& post.queued() == self.queued().drop_first()
                &&& post.states() == self.states().update(slot_of(c), TaskState::Blocked { on: ep }).update(
                    slot_of(n),
                    TaskState::Ready,
                )
                &&& post.handles() == self.handles()
                &&& post.running() == Some(n)
            },
        }
    }

    /// Construct an empty scheduler: every slot `Idle` with no handle, an
    /// empty ready queue, and no running task.
    pub fn new() -> (r: Scheduler)
        ensures
            r.wf(),
            r.queued() == Seq::<TaskHandle>::empty(),
            r.states() == Seq::new(TASK_ARENA_CAPACITY as nat, |i: int| TaskState::Idle),
            r.handles() == Seq::new(TASK_ARENA_CAPACITY as nat, |i: int| None::<TaskHandle>),
            r.running() is None,
    {
        let mut task_states: Vec<TaskState> = Vec::new();
        let mut task_handles: Vec<Option<TaskHandle>> = Vec::new();
        let mut i: usize = 0;
        while i < TASK_ARENA_CAPACITY
            invariant
                i <= TASK_ARENA_CAPACITY,
                task_states@.len() == i,
                task_handles@.len() == i,
                forall|j: int| 0 <= j < i ==> #[trigger] task_states@[j] == TaskState::Idle,
                forall|j: int| 0 <= j < i ==> #[trigger] task_handles@[j] is None,
            decreases TASK_ARENA_CAPACITY - i,
        {
            task_states.push(TaskState::Idle);
            task_handles.push(None);
            i = i + 1;
        }
        let r = Scheduler { ready: SchedQueue::new(), task_states, task_handles, current: None };
        assert(r.states() =~= Seq::new(TASK_ARENA_CAPACITY as nat, |i: int| TaskState::Idle));
        assert(r.handles() =~= Seq::new(TASK_ARENA_CAPACITY as nat, |i: int| None::<TaskHandle>));
        r
    }

    /// Register the task `handle` and enqueue it as ready.
    ///
    /// Fails with [`SchedError::QueueFull`], registering nothing, exactly
    /// when the ready queue is at capacity. Preparing the task's saved
    /// register context is the caller's work.
    pub fn add_task(&mut self, handle: TaskHandle) -> (r: Result<(), SchedError>)
        requires
            old(self).wf(),
            slot_of(handle) < TASK_ARENA_CAPACITY,
        ensures
            final(self).wf(),
            r is Err <==> old(self).queued().len() == TASK_ARENA_CAPACITY,
            r matches Err(e) ==> e == SchedError::QueueFull && old(self).same(&*final(self)),
            r is Ok ==> {
                &&& final(self).queued() == old(self).queued().push(handle)
                &&& final(self).states() == old(self).states().update(
                    slot_of(handle),
                    TaskState::Ready,
                )
                &&& final(self).handles() == old(self).handles().update(
                    slot_of(handle),
                    Some(handle),
                )
                &&& final(self).running() == old(self).running()
            },
    {
        let idx = handle.slot().index() as usize;
        // Enqueue first so that a full queue leaves no partial registration.
        match self.ready.enqueue(handle) {
            Ok(()) => {},
            Err(_) => return Err(SchedError::QueueFull),
        }
        self.task_states.set(idx, TaskState::Ready);
        self.task_handles.set(idx, Some(handle));
        Ok(())
    }

    /// Resolve a capability handle to the endpoint it names.
    fn resolve_ep_cap(caller_table: &CapabilityTable, ep_cap: CapHandle) -> (r: Result<
        EndpointHandle,
        SchedError,
    >)
        requires
            caller_table.wf(),
        ensures
            r == (match named_endpoint(*caller_table, ep_cap) {
                Some(h) => Ok::<EndpointHandle, SchedError>(h),
                None => Err(SchedError::Ipc(IpcError::InvalidCapability)),
            }),
    {
        let cap = match caller_table.lookup(ep_cap) {
            Ok(c) => c,
            Err(_) => return Err(SchedError::Ipc(IpcError::InvalidCapability)),
        };
        match cap.object() {
            CapObject::Endpoint(h) => Ok(h),
            _ => Err(SchedError::Ipc(IpcError::InvalidCapability)),
        }
    }

    /// Wake the lowest-slot task blocked on `ep`: mark it `Ready` and
    /// enqueue it. Only that one task is woken; any other task blocked on
    /// `ep` stays blocked. Nothing changes when no task waits on `ep`.
    pub fn unblock_receiver_on(&mut self, ep: EndpointHandle)
        requires
            old(self).wf(),
            old(self).has_waiter(ep) ==> old(self).queued().len() < TASK_ARENA_CAPACITY,
        ensures
            final(self).wf(),
            old(self).wakes(&*final(self), ep),
    {
        let mut idx: usize = 0;
        while idx < TASK_ARENA_CAPACITY
            invariant
                self.wf(),
                *self == *old(self),
                old(self).has_waiter(ep) ==> old(self).queued().len() < TASK_ARENA_CAPACITY,
                idx <= TASK_ARENA_CAPACITY,
                forall|j: int| 0 <= j < idx ==> !#[trigger] self.is_waiter(j, ep),
            decreases TASK_ARENA_CAPACITY - idx,
        {
            if let TaskState::Blocked { on } = self.task_states[idx] {
                if on == ep {
                    if let Some(handle) = self.task_handles[idx] {
                        proof {
                            assert(self.is_first_waiter(idx as int, ep));
                            assert(self.has_waiter(ep));
                            let k = self.first_waiter(ep);
                            assert(self.is_first_waiter(k, ep));
                            if k < idx {
                                assert(!self.is_waiter(k, ep));
                            }
                            if idx < k {
                                assert(!self.is_waiter(idx as int, ep));
                            }
                        }
                        self.task_states.set(idx, TaskState::Ready);
                        let ok = self.ready.enqueue(handle);
                        assert(ok is Ok);
                        return;
                    }
                }
            }
            idx = idx + 1;
        }
        proof {
            if self.has_waiter(ep) {
                let k = choose|i: int| #[trigger] self.is_first_waiter(i, ep);
                assert(!self.is_waiter(k, ep));
            }
        }
    }
    /// Return `true` exactly when some task slot is blocked on `ep`.
    pub fn has_waiter_on(&self, ep: EndpointHandle) -> (r: bool)
        requires
            self.wf(),
        ensures
            r == self.has_waiter(ep),
    {
        let mut idx: usize = 0;
        while idx < TASK_ARENA_CAPACITY
            invariant
                self.wf(),
                idx <= TASK_ARENA_CAPACITY,
                forall|j: int| 0 <= j < idx ==> !#[trigger] self.is_waiter(j, ep),
            decreases TASK_ARENA_CAPACITY - idx,
        {
            if let TaskState::Blocked { on } = self.task_states[idx] {
                if on == ep && self.task_handles[idx].is_some() {
                    proof {
                        assert(self.is_first_waiter(idx as int, ep));
                    }
                    return true;
                }
            }
            idx = idx + 1;
        }
        proof {
            if self.has_waiter(ep) {
                let k = choose|i: int| #[trigger] self.is_first_waiter(i, ep);
                assert(!self.is_waiter(k, ep));
            }
        }
        false
    }

    /// The running task, if any.
    pub fn current(&self) -> (r: Option<TaskHandle>)
        ensures
            r == self.running(),
    {
        self.current
    }

    /// The state of task slot `idx`.
    pub fn task_state(&self, idx: usize) -> (r: TaskState)
        requires
            self.wf(),
            idx < TASK_ARENA_CAPACITY,
        ensures
            r == self.states()[idx as int],
    {
        self.task_states[idx]
    }

    /// The handle stored for task slot `idx`.
    pub fn task_handle(&self, idx: usize) -> (r: Option<TaskHandle>)
        requires
            self.wf(),
            idx < TASK_ARENA_CAPACITY,
        ensures
            r == self.handles()[idx as int],
    {
        self.task_handles[idx]
    }

    /// Number of tasks in the ready queue.
    pub fn ready_len(&self) -> (r: usize)
        requires
            self.wf(),
        ensures
            r == self.queued().len(),
    {
        self.ready.len()
    }
}

impl Default for Scheduler {
    fn default() -> (r: Scheduler)
        ensures
            r.wf(),
            r.queued() == Seq::<TaskHandle>::empty(),
            r.states() == Seq::new(TASK_ARENA_CAPACITY as nat, |i: int| TaskState::Idle),
            r.handles() == Seq::new(TASK_ARENA_CAPACITY as nat, |i: int| None::<TaskHandle>),
            r.running() is None,
    {
        Scheduler::new()
    }
}

/// A consistent scheduler has one state and one handle per task slot,
/// keeps every stored handle at its own slot, and only queues or runs
/// handles that name a task slot.
pub proof fn lemma_wf_shape(s: Scheduler)
    requires
        s.wf(),
    ensures
        s.states().len() == TASK_ARENA_CAPACITY,
        s.handles().len() == TASK_ARENA_CAPACITY,
        forall|i: int|
            0 <= i < TASK_ARENA_CAPACITY ==> (#[trigger] s.handles()[i] matches Some(h) ==> slot_of(h)
                == i),
        forall|k: int| 0 <= k < s.queued().len() ==> slot_of(#[trigger] s.queued()[k]) < TASK_ARENA_CAPACITY,
        s.queued().len() <= TASK_ARENA_CAPACITY,
        s.running() matches Some(c) ==> slot_of(c) < TASK_ARENA_CAPACITY,
{
    s.ready.lemma_len_bounded();
}

/// Some slot waiting on `ep` makes a lowest such slot exist.
proof fn lemma_waiter_has_first(s: Scheduler, i: int, ep: EndpointHandle)
    requires
        s.is_waiter(i, ep),
    ensures
        s.has_waiter(ep),
    decreases i,
{
    if forall|j: int| 0 <= j < i ==> !#[trigger] s.is_waiter(j, ep) {
        assert(s.is_first_waiter(i, ep));
    } else {
        let j = choose|j: int| 0 <= j < i && #[trigger] s.is_waiter(j, ep);
        lemma_waiter_has_first(s, j, ep);
    }
}

/// A task that blocked receiving on `ep` waits there: waking `ep` then
/// finds a waiter, makes it `Ready` and puts its handle at the back of
/// the ready queue.
pub proof fn lemma_blocked_receiver_is_woken(
    pre: Scheduler,
    mid: Scheduler,
    post: Scheduler,
    ep: EndpointHandle,
    sw: Switch,
)
    requires
        pre.wf(),
        pre.blocks(&mid, ep, Ok(RecvStep::Blocked(sw))),
        pre.handles()[sw.current_idx as int] is Some,
        sw.current_idx != sw.next_idx,
        mid.wakes(&post, ep),
    ensures
        mid.has_waiter(ep),
        mid.states()[mid.first_waiter(ep)] == (TaskState::Blocked { on: ep }),
        post.states()[mid.first_waiter(ep)] == TaskState::Ready,
        post.queued() == mid.queued().push(mid.handles()[mid.first_waiter(ep)]->0),
{
    let c = sw.current_idx as int;
    assert(c == slot_of(pre.running()->0));
    assert(mid.is_waiter(c, ep));
    lemma_waiter_has_first(mid, c, ep);
}

/// Taking the front of a queue and putting it back in the multiset gives
/// the queue's multiset.
proof fn lemma_front_and_rest(q: Seq<TaskHandle>)
    requires
        q.len() > 0,
    ensures
        q.drop_first().to_multiset().insert(q[0]) == q.to_multiset(),
{
    vstd::seq_lib::to_multiset_remove(q, 0);
    assert(q.remove(0) =~= q.drop_first());
    assert(q.to_multiset().remove(q[0]).insert(q[0]) =~= q.to_multiset()) by {
        vstd::seq_lib::to_multiset_contains(q, q[0]);
        assert(q.contains(q[0]));
    }
}

/// Yielding neither loses nor duplicates a task: the running task and the
/// ready queue hold the same tasks before and after.
pub proof fn lemma_yield_keeps_tasks(pre: Scheduler, post: Scheduler, r: Result<Option<Switch>, SchedError>)
    requires
        pre.yields(&post, r),
    ensures
        post.tasks() == pre.tasks(),
{
    if let Some(c) = pre.running() {
        let q = pre.queued().push(c);
        lemma_front_and_rest(q);
        vstd::seq_lib::to_multiset_build(pre.queued(), c);
    }
}

/// Dequeue the first ready task and make it the running task. The caller
/// then restores that task's saved context, abandoning its own frame.
pub fn start(sched: &mut Scheduler) -> (next: TaskHandle)
    requires
        old(sched).wf(),
        old(sched).queued().len() > 0,
    ensures
        final(sched).wf(),
        next == old(sched).queued()[0],
        final(sched).queued() == old(sched).queued().drop_first(),
        final(sched).states() == old(sched).states().update(slot_of(next), TaskState::Ready),
        final(sched).handles() == old(sched).handles(),
        final(sched).running() == Some(next),
        old(sched).running() is None ==> final(sched).tasks() == old(sched).tasks(),
{
    proof {
        lemma_front_and_rest(old(sched).queued());
    }
    let next = sched.ready.dequeue().unwrap();
    let next_idx = next.slot().index() as usize;
    sched.task_states.set(next_idx, TaskState::Ready);
    sched.current = Some(next);
    next
}

/// Yield the running task: re-enqueue it as ready and take the front of
/// the ready queue as the running task. Returns the context switch to
/// perform, or `None` when the running task is the only ready one.
///
/// Fails with [`SchedError::NoCurrentTask`], changing nothing, when no
/// task runs.
pub fn yield_now(sched: &mut Scheduler) -> (r: Result<Option<Switch>, SchedError>)
    requires
        old(sched).wf(),
        old(sched).running() is Some ==> old(sched).queued().len() < TASK_ARENA_CAPACITY,
    ensures
        final(sched).wf(),
        old(sched).yields(&*final(sched), r),
        final(sched).tasks() == old(sched).tasks(),
{
    let current_handle = match sched.current {
        Some(h) => h,
        None => return Err(SchedError::NoCurrentTask),
    };
    let current_idx = current_handle.slot().index() as usize;
    sched.task_states.set(current_idx, TaskState::Ready);
    let pushed = sched.ready.enqueue(current_handle);
    assert(pushed is Ok);
    let next_handle = sched.ready.dequeue().unwrap();
    if next_handle == current_handle {
        proof {
            lemma_yield_keeps_tasks(*old(sched), *sched, Ok(None));
        }
        return Ok(None);
    }
    let next_idx = next_handle.slot().index() as usize;
    sched.task_states.set(next_idx, TaskState::Ready);
    sched.current = Some(next_handle);
    proof {
        lemma_yield_keeps_tasks(*old(sched), *sched, Ok(Some(Switch { current_idx, next_idx })));
    }
    Ok(Some(Switch { current_idx, next_idx }))
}

/// A send with these arguments leaves room in the ready queue: when it
/// would be delivered, the ready queue can take both the woken receiver
/// and the yielding sender.
pub open spec fn send_has_room(
    sched: Scheduler,
    ep_arena: EndpointArena,
    queues: IpcQueues,
    caller_table: CapabilityTable,
    ep_cap: CapHandle,
    transfer: Option<CapHandle>,
) -> bool {
    send_outcome(queues, ep_arena, caller_table, ep_cap, transfer) == Ok::<SendOutcome, IpcError>(
        SendOutcome::Delivered,
    ) ==> {
        let h = endpoint_target(caller_table, ep_cap, SEND_BIT)->0;
        sched.queued().len() + (if sched.has_waiter(h) {
            1int
        } else {
            0int
        }) + (if sched.running() is Some {
            1int
        } else {
            0int
        }) <= TASK_ARENA_CAPACITY
    }
}

/// Return `true` exactly when [`ipc_send_and_yield`] can take these
/// arguments: `false` when the send would wake a receiver that, together
/// with the yielding sender, overfills the ready queue. Nothing is changed.
pub fn send_has_room_for(
    sched: &Scheduler,
    ep_arena: &EndpointArena,
    queues: &IpcQueues,
    caller_table: &CapabilityTable,
    ep_cap: CapHandle,
    transfer: Option<CapHandle>,
) -> (r: bool)
    requires
        sched.wf(),
        ep_arena.wf(),
        queues.wf(),
        caller_table.wf(),
    ensures
        r == send_has_room(*sched, *ep_arena, *queues, *caller_table, ep_cap, transfer),
{
    match send_delivers_to(ep_arena, queues, ep_cap, caller_table, transfer) {
        None => true,
        Some(h) => {
            let waiting: usize = if sched.has_waiter_on(h) {
                1
            } else {
                0
            };
            let running: usize = if sched.current().is_some() {
                1
            } else {
                0
            };
            sched.ready_len() <= TASK_ARENA_CAPACITY - waiting - running
        },
    }
}

/// Send `msg` (and optionally the capability `transfer`) on the endpoint
/// named by `ep_cap`; when the send is delivered to a registered
/// receiver, wake that receiver and yield the sender.
///
/// A capability that is stale or names no endpoint fails with
/// `SchedError::Ipc(IpcError::InvalidCapability)` before anything is
/// touched; the send's own errors come back wrapped in
/// [`SchedError::Ipc`] with the scheduler unchanged. After a delivered
/// send, the yield may report [`SchedError::NoCurrentTask`].
pub fn ipc_send_and_yield(
    sched: &mut Scheduler,
    ep_arena: &mut EndpointArena,
    queues: &mut IpcQueues,
    caller_table: &mut CapabilityTable,
    ep_cap: CapHandle,
    msg: Message,
    transfer: Option<CapHandle>,
) -> (r: Result<(SendOutcome, Option<Switch>), SchedError>)
    requires
        old(sched).wf(),
        old(ep_arena).wf(),
        old(queues).wf(),
        old(caller_table).wf(),
        send_has_room(*old(sched), *old(ep_arena), *old(queues), *old(caller_table), ep_cap, transfer),
    ensures
        final(sched).wf(),
        final(queues).wf(),
        final(caller_table).wf(),
        *final(ep_arena) == *old(ep_arena),
        match named_endpoint(*old(caller_table), ep_cap) {
            None => {
                &&& r == Err::<(SendOutcome, Option<Switch>), SchedError>(
                    SchedError::Ipc(IpcError::InvalidCapability),
                )
                &&& *final(queues) == *old(queues)
                &&& *final(caller_table) == *old(caller_table)
                &&& old(sched).same(&*final(sched))
            },
            Some(h) => {
                let s = send_outcome(*old(queues), *old(ep_arena), *old(caller_table), ep_cap, transfer);
                &&& send_effect(
                    *old(queues),
                    *final(queues),
                    *old(ep_arena),
                    *old(caller_table),
                    *final(caller_table),
                    ep_cap,
                    msg,
                    transfer,
                    s,
                )
                &&& match s {
                    Err(e) => r == Err::<(SendOutcome, Option<Switch>), SchedError>(SchedError::Ipc(e))
                        && old(sched).same(&*final(sched)),
                    Ok(SendOutcome::Enqueued) => r == Ok::<(SendOutcome, Option<Switch>), SchedError>(
                        (SendOutcome::Enqueued, None),
                    ) && old(sched).same(&*final(sched)),
                    Ok(SendOutcome::Delivered) => exists|mid: Scheduler, y: Result<Option<Switch>, SchedError>|
                        {
                            &&& #[trigger] old(sched).wakes(&mid, h)
                            &&& #[trigger] mid.yields(&*final(sched), y)
                            &&& match y {
                                Ok(sw) => r == Ok::<(SendOutcome, Option<Switch>), SchedError>(
                                    (SendOutcome::Delivered, sw),
                                ),
                                Err(e) => r == Err::<(SendOutcome, Option<Switch>), SchedError>(e),
                            }
                        },
                }
            },
        },
{
    let ep_handle = Scheduler::resolve_ep_cap(caller_table, ep_cap)?;
    let outcome = match ipc_send(ep_arena, queues, ep_cap, caller_table, msg, transfer) {
        Ok(o) => o,
        Err(e) => return Err(SchedError::Ipc(e)),
    };
    if outcome == SendOutcome::Delivered {
        sched.unblock_receiver_on(ep_handle);
        let ghost mid = *sched;
        let y = yield_now(sched);
        proof {
            assert(old(sched).wakes(&mid, ep_handle));
        }
        match y {
            Ok(sw) => Ok((outcome, sw)),
            Err(e) => Err(e),
        }
    } else {
        Ok((outcome, None))
    }
}

/// Receive on the endpoint named by `ep_cap`. When a message is waiting
/// it is returned at once; otherwise the running task is marked blocked
/// on the endpoint and the switch to the next ready task is returned, to
/// be followed by [`ipc_recv_after_resume`] once the task runs again.
///
/// A capability that is stale or names no endpoint fails with
/// `SchedError::Ipc(IpcError::InvalidCapability)` before anything is
/// touched; the receive's own errors come back wrapped in
/// [`SchedError::Ipc`] with the scheduler unchanged. With no running task
/// the result is [`SchedError::NoCurrentTask`], and with an empty ready
/// queue [`SchedError::Deadlock`]; in both cases the scheduler is left as
/// it was, while the endpoint keeps the receiver registration.
pub fn ipc_recv_and_yield(
    sched: &mut Scheduler,
    ep_arena: &mut EndpointArena,
    queues: &mut IpcQueues,
    caller_table: &mut CapabilityTable,
    ep_cap: CapHandle,
) -> (r: Result<RecvStep, SchedError>)
    requires
        old(sched).wf(),
        old(ep_arena).wf(),
        old(queues).wf(),
        old(caller_table).wf(),
    ensures
        final(sched).wf(),
        final(queues).wf(),
        final(caller_table).wf(),
        *final(ep_arena) == *old(ep_arena),
        match named_endpoint(*old(caller_table), ep_cap) {
            None => {
                &&& r == Err::<RecvStep, SchedError>(SchedError::Ipc(IpcError::InvalidCapability))
                &&& *final(queues) == *old(queues)
                &&& *final(caller_table) == *old(caller_table)
                &&& old(sched).same(&*final(sched))
            },
            Some(h) => match recv_error(*old(queues), *old(ep_arena), *old(caller_table), ep_cap) {
                Some(e) => {
                    &&& r == Err::<RecvStep, SchedError>(SchedError::Ipc(e))
                    &&& recv_effect(
                        *old(queues),
                        *final(queues),
                        *old(ep_arena),
                        *old(caller_table),
                        *final(caller_table),
                        ep_cap,
                        Err(e),
                    )
                    &&& old(sched).same(&*final(sched))
                },
                None => if old(queues).current(h) is Idle {
                    &&& recv_effect(
                        *old(queues),
                        *final(queues),
                        *old(ep_arena),
                        *old(caller_table),
                        *final(caller_table),
                        ep_cap,
                        Ok(RecvOutcome::Pending),
                    )
                    &&& old(sched).blocks(&*final(sched), h, r)
                } else {
                    &&& r matches Ok(RecvStep::Received(o))
                    &&& !(o is Pending)
                    &&& recv_effect(
                        *old(queues),
                        *final(queues),
                        *old(ep_arena),
                        *old(caller_table),
                        *final(caller_table),
                        ep_cap,
                        Ok(o),
                    )
                    &&& old(sched).same(&*final(sched))
                },
            },
        },
{
    let ep_handle = Scheduler::resolve_ep_cap(caller_table, ep_cap)?;
    let outcome = match ipc_recv(ep_arena, queues, ep_cap, caller_table) {
        Ok(o) => o,
        Err(e) => return Err(SchedError::Ipc(e)),
    };
    match outcome {
        RecvOutcome::Pending => {},
        _ => return Ok(RecvStep::Received(outcome)),
    }
    let current_handle = match sched.current {
        Some(h) => h,
        None => return Err(SchedError::NoCurrentTask),
    };
    let current_idx = current_handle.slot().index() as usize;
    let prior_state = sched.task_states[current_idx];
    sched.task_states.set(current_idx, TaskState::Blocked { on: ep_handle });
    sched.current = None;
    let next_handle = match sched.ready.dequeue() {
        Some(h) => h,
        None => {
            // Every task waits on IPC: restore the scheduler state.
            sched.task_states.set(current_idx, prior_state);
            sched.current = Some(current_handle);
            proof {
                assert(sched.task_states@ =~= old(sched).task_states@);
            }
            return Err(SchedError::Deadlock);
        },
    };
    let next_idx = next_handle.slot().index() as usize;
    sched.task_states.set(next_idx, TaskState::Ready);
    sched.current = Some(next_handle);
    Ok(RecvStep::Blocked(Switch { current_idx, next_idx }))
}

/// Complete a receive after the blocked task has been switched back in:
/// receive again on the endpoint and return the message that was
/// delivered meanwhile.
///
/// Errors of the receive come back wrapped in [`SchedError::Ipc`]; when
/// the receive still finds no message, the result is
/// `SchedError::Ipc(IpcError::PendingAfterResume)`.
pub fn ipc_recv_after_resume(
    ep_arena: &mut EndpointArena,
    queues: &mut IpcQueues,
    caller_table: &mut CapabilityTable,
    ep_cap: CapHandle,
) -> (r: Result<RecvOutcome, SchedError>)
    requires
        old(ep_arena).wf(),
        old(queues).wf(),
        old(caller_table).wf(),
    ensures
        final(queues).wf(),
        final(caller_table).wf(),
        *final(ep_arena) == *old(ep_arena),
        r is Ok <==> recv_error(*old(queues), *old(ep_arena), *old(caller_table), ep_cap) is None
            && !(old(queues).current(endpoint_target(*old(caller_table), ep_cap, RECV_BIT)->0) is Idle),
        match r {
            Ok(o) => !(o is Pending) && recv_effect(
                *old(queues),
                *final(queues),
                *old(ep_arena),
                *old(caller_table),
                *final(caller_table),
                ep_cap,
                Ok(o),
            ),
            Err(SchedError::Ipc(IpcError::PendingAfterResume)) => recv_effect(
                *old(queues),
                *final(queues),
                *old(ep_arena),
                *old(caller_table),
                *final(caller_table),
                ep_cap,
                Ok(RecvOutcome::Pending),
            ),
            Err(SchedError::Ipc(e)) => recv_effect(
                *old(queues),
                *final(queues),
                *old(ep_arena),
                *old(caller_table),
                *final(caller_table),
                ep_cap,
                Err(e),
            ),
            Err(_) => false,
        },
{
    match ipc_recv(ep_arena, queues, ep_cap, caller_table) {
        Ok(RecvOutcome::Pending) => Err(SchedError::Ipc(IpcError::PendingAfterResume)),
        Ok(outcome) => Ok(outcome),
        Err(e) => Err(SchedError::Ipc(e)),
    }
}

} // verus!
