use tyrne::cap::{CapHandle, CapObject, CapRights, Capability, CapabilityTable};
use tyrne::ipc::{IpcError, IpcQueues, Message, RecvOutcome, SendOutcome};
use tyrne::obj::arena::SlotId;
use tyrne::obj::endpoint::{create_endpoint, Endpoint, EndpointArena, EndpointHandle};
use tyrne::obj::TaskHandle;
use tyrne::ipc::send_delivers_to;
use tyrne::sched::{
    ipc_recv_after_resume, ipc_recv_and_yield, ipc_send_and_yield, send_has_room_for, start,
    yield_now, RecvStep, SchedError, SchedQueue, Scheduler, Switch, TaskState,
};

fn task_handle(index: u16) -> TaskHandle {
    TaskHandle::from_slot(SlotId::from_parts(index, 0))
}

fn ep_handle(index: u16) -> EndpointHandle {
    EndpointHandle::from_slot(SlotId::from_parts(index, 0))
}

// ── SchedQueue tests ──────────────────────────────────────────────────────

#[test]
fn queue_enqueue_dequeue_fifo_order() {
    let mut q: SchedQueue<4> = SchedQueue::new();
    let h0 = task_handle(0);
    let h1 = task_handle(1);
    q.enqueue(h0).unwrap();
    q.enqueue(h1).unwrap();
    assert_eq!(q.dequeue(), Some(h0));
    assert_eq!(q.dequeue(), Some(h1));
    assert_eq!(q.dequeue(), None);
}

#[test]
fn queue_full_returns_error() {
    let mut q: SchedQueue<2> = SchedQueue::new();
    q.enqueue(task_handle(0)).unwrap();
    q.enqueue(task_handle(1)).unwrap();
    assert!(q.enqueue(task_handle(2)).is_err());
}

#[test]
fn queue_empty_dequeue_is_none() {
    let mut q: SchedQueue<4> = SchedQueue::new();
    assert!(q.dequeue().is_none());
}

#[test]
fn queue_wraps_around() {
    let mut q: SchedQueue<2> = SchedQueue::new();
    q.enqueue(task_handle(0)).unwrap();
    q.dequeue();
    q.enqueue(task_handle(1)).unwrap();
    assert_eq!(q.dequeue(), Some(task_handle(1)));
}

#[test]
fn queue_len_and_is_empty() {
    let mut q: SchedQueue<4> = SchedQueue::new();
    assert!(q.is_empty());
    assert_eq!(q.len(), 0);
    q.enqueue(task_handle(0)).unwrap();
    assert!(!q.is_empty());
    assert_eq!(q.len(), 1);
}

// ── Scheduler state-transition tests ─────────────────────────────────────

#[test]
fn add_task_sets_ready_state_and_stores_handle() {
    let mut sched = Scheduler::new();
    let h = task_handle(0);
    sched.add_task(h).unwrap();
    assert_eq!(sched.task_state(0), TaskState::Ready);
    assert_eq!(sched.task_handle(0), Some(h));
    assert_eq!(sched.ready_len(), 1);
}

#[test]
fn yield_now_switches_context_and_updates_current() {
    let mut sched = Scheduler::new();
    let h0 = task_handle(0);
    let h1 = task_handle(1);
    sched.add_task(h0).unwrap();
    sched.add_task(h1).unwrap();
    // h0 starts running: it leaves the head of the queue.
    assert_eq!(start(&mut sched), h0);
    assert_eq!(sched.current(), Some(h0));
    // h1 is still in the queue.
    assert_eq!(sched.ready_len(), 1);

    let switch = yield_now(&mut sched).unwrap();

    assert_eq!(sched.current(), Some(h1));
    assert_eq!(sched.task_state(0), TaskState::Ready);
    assert_eq!(sched.task_state(1), TaskState::Ready);
    // The saved context is h0's, the restored one h1's.
    assert_eq!(switch, Some(Switch { current_idx: 0, next_idx: 1 }));
}

#[test]
fn yield_now_with_no_current_returns_error() {
    let mut sched = Scheduler::new();
    let result = yield_now(&mut sched);
    assert_eq!(result, Err(SchedError::NoCurrentTask));
}

/// Two tasks, the first running and blocked receiving on a fresh
/// endpoint; returns the endpoint.
fn block_first_of_two_on_endpoint(
    sched: &mut Scheduler,
    ep_arena: &mut EndpointArena,
    queues: &mut IpcQueues,
    table: &mut CapabilityTable,
) -> EndpointHandle {
    sched.add_task(task_handle(0)).unwrap();
    sched.add_task(task_handle(1)).unwrap();
    start(sched);
    let ep = create_endpoint(ep_arena, Endpoint::new(0)).unwrap();
    let cap = table
        .insert_root(Capability::new(CapRights::recv(), CapObject::Endpoint(ep)))
        .unwrap();
    let step = ipc_recv_and_yield(sched, ep_arena, queues, table, cap).unwrap();
    assert!(matches!(step, RecvStep::Blocked(Switch { current_idx: 0, next_idx: 1 })));
    ep
}

#[test]
fn unblock_receiver_on_moves_task_to_ready() {
    let mut sched = Scheduler::new();
    let mut ep_arena = EndpointArena::default();
    let mut queues = IpcQueues::new();
    let mut table = CapabilityTable::new();
    let ep = block_first_of_two_on_endpoint(&mut sched, &mut ep_arena, &mut queues, &mut table);
    assert_eq!(sched.task_state(0), TaskState::Blocked { on: ep });
    assert_eq!(sched.ready_len(), 0);

    sched.unblock_receiver_on(ep);

    assert_eq!(sched.task_state(0), TaskState::Ready);
    assert_eq!(sched.ready_len(), 1);
}

#[test]
fn unblock_receiver_on_wrong_ep_is_noop() {
    let mut sched = Scheduler::new();
    let mut ep_arena = EndpointArena::default();
    let mut queues = IpcQueues::new();
    let mut table = CapabilityTable::new();
    let ep0 = block_first_of_two_on_endpoint(&mut sched, &mut ep_arena, &mut queues, &mut table);
    let ep1 = ep_handle(1);

    sched.unblock_receiver_on(ep1);

    assert_eq!(sched.task_state(0), TaskState::Blocked { on: ep0 });
    assert_eq!(sched.ready_len(), 0);
}

#[test]
fn task_state_variants_are_distinct() {
    let ep = ep_handle(0);
    assert_ne!(TaskState::Idle, TaskState::Ready);
    assert_ne!(TaskState::Ready, TaskState::Blocked { on: ep });
    assert_ne!(TaskState::Idle, TaskState::Blocked { on: ep });
    assert_eq!(TaskState::Blocked { on: ep }, TaskState::Blocked { on: ep });
}

/// One task, dispatched, holding a `RECV` capability to a fresh endpoint.
fn setup_single_task_with_recv_cap(
    sched: &mut Scheduler,
    ep_arena: &mut EndpointArena,
    table: &mut CapabilityTable,
    task: TaskHandle,
) -> CapHandle {
    sched.add_task(task).unwrap();
    start(sched);
    let ep = create_endpoint(ep_arena, Endpoint::new(0)).unwrap();
    let cap = Capability::new(CapRights::recv(), CapObject::Endpoint(ep));
    table.insert_root(cap).unwrap()
}

#[test]
fn ipc_recv_and_yield_returns_deadlock_when_ready_queue_empty() {
    let mut sched = Scheduler::new();
    let mut ep_arena = EndpointArena::default();
    let mut queues = IpcQueues::new();
    let mut table = CapabilityTable::new();
    let task = task_handle(0);

    let ep_cap = setup_single_task_with_recv_cap(&mut sched, &mut ep_arena, &mut table, task);

    let prior_current = sched.current();
    let prior_state = sched.task_state(0);
    assert_eq!(prior_current, Some(task));
    assert_eq!(prior_state, TaskState::Ready);

    let result = ipc_recv_and_yield(&mut sched, &mut ep_arena, &mut queues, &mut table, ep_cap);

    assert!(
        matches!(result, Err(SchedError::Deadlock)),
        "expected Err(Deadlock), got {result:?}"
    );
    assert_eq!(sched.current(), prior_current);
    assert_eq!(sched.task_state(0), prior_state);
    assert_eq!(sched.ready_len(), 0);
}

#[test]
fn ipc_recv_and_yield_resume_pending_returns_typed_err() {
    let mut sched = Scheduler::new();
    let mut ep_arena = EndpointArena::default();
    let mut queues = IpcQueues::new();
    let mut table = CapabilityTable::new();
    let h0 = task_handle(0);
    let h1 = task_handle(1);

    sched.add_task(h0).unwrap();
    sched.add_task(h1).unwrap();
    start(&mut sched);
    let ep = create_endpoint(&mut ep_arena, Endpoint::new(0)).unwrap();
    assert_eq!(ep.slot().generation(), 0);
    let cap = Capability::new(CapRights::recv(), CapObject::Endpoint(ep));
    let ep_cap = table.insert_root(cap).unwrap();

    let step = ipc_recv_and_yield(&mut sched, &mut ep_arena, &mut queues, &mut table, ep_cap);
    assert!(matches!(step, Ok(RecvStep::Blocked(_))));
    // While the task is switched out, every endpoint returns to Idle, so
    // the resumed receive finds no delivery.
    queues = IpcQueues::new();
    let result = ipc_recv_after_resume(&mut ep_arena, &mut queues, &mut table, ep_cap);

    assert!(
        matches!(result, Err(SchedError::Ipc(IpcError::PendingAfterResume))),
        "expected Err(Ipc(PendingAfterResume)), got {result:?}"
    );
}

// Own tests.

#[test]
fn delivered_send_wakes_receiver_and_switches_to_it() {
    let mut sched = Scheduler::new();
    let mut ep_arena = EndpointArena::default();
    let mut queues = IpcQueues::new();
    let mut recv_table = CapabilityTable::new();
    let mut send_table = CapabilityTable::new();
    let receiver = task_handle(0);
    let sender = task_handle(1);
    sched.add_task(receiver).unwrap();
    sched.add_task(sender).unwrap();
    assert_eq!(start(&mut sched), receiver);

    let ep = create_endpoint(&mut ep_arena, Endpoint::new(0)).unwrap();
    let recv_cap = recv_table
        .insert_root(Capability::new(CapRights::recv(), CapObject::Endpoint(ep)))
        .unwrap();
    let send_cap = send_table
        .insert_root(Capability::new(CapRights::send(), CapObject::Endpoint(ep)))
        .unwrap();

    let step = ipc_recv_and_yield(&mut sched, &mut ep_arena, &mut queues, &mut recv_table, recv_cap)
        .unwrap();
    assert!(matches!(step, RecvStep::Blocked(Switch { current_idx: 0, next_idx: 1 })));
    assert_eq!(sched.current(), Some(sender));

    let msg = Message { label: 5, params: [1, 2, 3] };
    let sent = ipc_send_and_yield(
        &mut sched,
        &mut ep_arena,
        &mut queues,
        &mut send_table,
        send_cap,
        msg,
        None,
    );
    assert_eq!(
        sent,
        Ok((SendOutcome::Delivered, Some(Switch { current_idx: 1, next_idx: 0 })))
    );
    assert_eq!(sched.current(), Some(receiver));
    assert_eq!(sched.task_state(0), TaskState::Ready);
    assert_eq!(sched.ready_len(), 1);

    let got = ipc_recv_after_resume(&mut ep_arena, &mut queues, &mut recv_table, recv_cap).unwrap();
    assert!(matches!(got, RecvOutcome::Received { msg: m, cap: None } if m == msg));
}

#[test]
fn enqueued_send_does_not_yield() {
    let mut sched = Scheduler::new();
    let mut ep_arena = EndpointArena::default();
    let mut queues = IpcQueues::new();
    let mut table = CapabilityTable::new();
    sched.add_task(task_handle(0)).unwrap();
    start(&mut sched);
    let ep = create_endpoint(&mut ep_arena, Endpoint::new(0)).unwrap();
    let cap = table
        .insert_root(Capability::new(CapRights::send() | CapRights::recv(), CapObject::Endpoint(ep)))
        .unwrap();
    let msg = Message { label: 9, params: [0, 0, 0] };
    let sent = ipc_send_and_yield(&mut sched, &mut ep_arena, &mut queues, &mut table, cap, msg, None);
    assert_eq!(sent, Ok((SendOutcome::Enqueued, None)));
    // A waiting message is received at once.
    let step = ipc_recv_and_yield(&mut sched, &mut ep_arena, &mut queues, &mut table, cap).unwrap();
    assert!(matches!(step, RecvStep::Received(RecvOutcome::Received { msg: m, cap: None }) if m == msg));
    assert_eq!(sched.current(), Some(task_handle(0)));
}

#[test]
fn stale_capability_fails_before_touching_anything() {
    let mut sched = Scheduler::new();
    let mut ep_arena = EndpointArena::default();
    let mut queues = IpcQueues::new();
    let mut table = CapabilityTable::new();
    sched.add_task(task_handle(0)).unwrap();
    start(&mut sched);
    let ep = create_endpoint(&mut ep_arena, Endpoint::new(0)).unwrap();
    let cap = table
        .insert_root(Capability::new(CapRights::recv(), CapObject::Endpoint(ep)))
        .unwrap();
    table.cap_drop(cap).unwrap();
    let msg = Message { label: 1, params: [0, 0, 0] };
    let sent = ipc_send_and_yield(&mut sched, &mut ep_arena, &mut queues, &mut table, cap, msg, None);
    assert_eq!(sent, Err(SchedError::Ipc(IpcError::InvalidCapability)));
    let got = ipc_recv_and_yield(&mut sched, &mut ep_arena, &mut queues, &mut table, cap);
    assert!(matches!(got, Err(SchedError::Ipc(IpcError::InvalidCapability))));
    assert_eq!(sched.current(), Some(task_handle(0)));
}

#[test]
fn send_without_send_right_is_wrapped_ipc_error() {
    let mut sched = Scheduler::new();
    let mut ep_arena = EndpointArena::default();
    let mut queues = IpcQueues::new();
    let mut table = CapabilityTable::new();
    let ep = create_endpoint(&mut ep_arena, Endpoint::new(0)).unwrap();
    let cap = table
        .insert_root(Capability::new(CapRights::recv(), CapObject::Endpoint(ep)))
        .unwrap();
    let msg = Message { label: 1, params: [0, 0, 0] };
    let sent = ipc_send_and_yield(&mut sched, &mut ep_arena, &mut queues, &mut table, cap, msg, None);
    assert_eq!(sent, Err(SchedError::Ipc(IpcError::InvalidCapability)));
}

#[test]
fn recv_with_no_running_task_reports_no_current_task() {
    let mut sched = Scheduler::new();
    let mut ep_arena = EndpointArena::default();
    let mut queues = IpcQueues::new();
    let mut table = CapabilityTable::new();
    let ep = create_endpoint(&mut ep_arena, Endpoint::new(0)).unwrap();
    let cap = table
        .insert_root(Capability::new(CapRights::recv(), CapObject::Endpoint(ep)))
        .unwrap();
    let got = ipc_recv_and_yield(&mut sched, &mut ep_arena, &mut queues, &mut table, cap);
    assert!(matches!(got, Err(SchedError::NoCurrentTask)));
}

#[test]
fn yield_with_single_task_keeps_it_running() {
    let mut sched = Scheduler::new();
    sched.add_task(task_handle(3)).unwrap();
    start(&mut sched);
    assert_eq!(yield_now(&mut sched), Ok(None));
    assert_eq!(sched.current(), Some(task_handle(3)));
    assert_eq!(sched.ready_len(), 0);
}

#[test]
fn yield_round_robins_three_tasks() {
    let mut sched = Scheduler::new();
    for i in 0..3 {
        sched.add_task(task_handle(i)).unwrap();
    }
    start(&mut sched);
    assert_eq!(yield_now(&mut sched), Ok(Some(Switch { current_idx: 0, next_idx: 1 })));
    assert_eq!(yield_now(&mut sched), Ok(Some(Switch { current_idx: 1, next_idx: 2 })));
    assert_eq!(yield_now(&mut sched), Ok(Some(Switch { current_idx: 2, next_idx: 0 })));
}

#[test]
fn add_task_on_full_queue_registers_nothing() {
    let mut sched = Scheduler::new();
    for i in 0..16 {
        sched.add_task(task_handle(i)).unwrap();
    }
    assert_eq!(sched.add_task(task_handle(0)), Err(SchedError::QueueFull));
    assert_eq!(sched.ready_len(), 16);
}

#[test]
fn ipc_error_converts_into_sched_error() {
    let e: SchedError = IpcError::QueueFull.into();
    assert_eq!(e, SchedError::Ipc(IpcError::QueueFull));
}

/// A receiver (slot 0) blocked on a fresh endpoint, a sender (slot 1)
/// running, and `extra` further entries for slot 2 in the ready queue.
/// Returns the endpoint and the sender's `SEND` capability.
fn receiver_blocked_with_queue(
    sched: &mut Scheduler,
    ep_arena: &mut EndpointArena,
    queues: &mut IpcQueues,
    recv_table: &mut CapabilityTable,
    send_table: &mut CapabilityTable,
    extra: usize,
) -> (EndpointHandle, CapHandle) {
    let ep = block_first_of_two_on_endpoint(sched, ep_arena, queues, recv_table);
    for _ in 0..extra {
        sched.add_task(task_handle(2)).unwrap();
    }
    let send_cap = send_table
        .insert_root(Capability::new(CapRights::send(), CapObject::Endpoint(ep)))
        .unwrap();
    (ep, send_cap)
}

#[test]
fn send_room_check_counts_the_woken_receiver_and_the_sender() {
    let mut sched = Scheduler::new();
    let mut ep_arena = EndpointArena::default();
    let mut queues = IpcQueues::new();
    let mut recv_table = CapabilityTable::new();
    let mut send_table = CapabilityTable::new();
    let (ep, cap) = receiver_blocked_with_queue(
        &mut sched, &mut ep_arena, &mut queues, &mut recv_table, &mut send_table, 14,
    );
    assert!(queues.receiver_waiting(ep));
    assert!(sched.has_waiter_on(ep));
    assert!(!sched.has_waiter_on(ep_handle(7)));
    assert_eq!(send_delivers_to(&ep_arena, &queues, cap, &send_table, None), Some(ep));
    assert!(send_has_room_for(&sched, &ep_arena, &queues, &send_table, cap, None));
    sched.add_task(task_handle(2)).unwrap();
    assert_eq!(sched.ready_len(), 15);
    assert!(!send_has_room_for(&sched, &ep_arena, &queues, &send_table, cap, None));
}

#[test]
fn send_room_check_ignores_a_send_that_only_enqueues() {
    let mut sched = Scheduler::new();
    let mut ep_arena = EndpointArena::default();
    let mut queues = IpcQueues::new();
    let mut table = CapabilityTable::new();
    sched.add_task(task_handle(0)).unwrap();
    start(&mut sched);
    for _ in 0..15 {
        sched.add_task(task_handle(1)).unwrap();
    }
    let ep = create_endpoint(&mut ep_arena, Endpoint::new(0)).unwrap();
    let cap = table
        .insert_root(Capability::new(CapRights::send(), CapObject::Endpoint(ep)))
        .unwrap();
    assert!(!queues.receiver_waiting(ep));
    assert_eq!(send_delivers_to(&ep_arena, &queues, cap, &table, None), None);
    assert!(send_has_room_for(&sched, &ep_arena, &queues, &table, cap, None));
    let msg = Message { label: 1, params: [0, 0, 0] };
    let sent = ipc_send_and_yield(&mut sched, &mut ep_arena, &mut queues, &mut table, cap, msg, None);
    assert_eq!(sent, Ok((SendOutcome::Enqueued, None)));
}
