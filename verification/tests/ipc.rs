use tyrne::cap::{CapHandle, CapObject, CapRights, Capability, CapabilityTable};
use tyrne::ipc::{ipc_notify, ipc_recv, ipc_send, IpcError, IpcQueues, Message, RecvOutcome, SendOutcome};
use tyrne::obj::endpoint::{create_endpoint, destroy_endpoint, Endpoint, EndpointArena, EndpointHandle};
use tyrne::obj::notification::{create_notification, Notification, NotificationArena};
use tyrne::obj::TaskHandle;

// ── Setup helpers ────────────────────────────────────────────────────────

fn all_ep_rights() -> CapRights {
    CapRights::send()
        | CapRights::recv()
        | CapRights::duplicate()
        | CapRights::derive()
        | CapRights::revoke()
        | CapRights::transfer()
}

fn all_task_rights() -> CapRights {
    CapRights::duplicate() | CapRights::derive() | CapRights::revoke() | CapRights::transfer()
}

/// Create an endpoint in the arena and install a capability in `table`.
fn setup_ep(
    table: &mut CapabilityTable,
    ep_arena: &mut EndpointArena,
    rights: CapRights,
) -> (EndpointHandle, CapHandle) {
    let ep_handle = create_endpoint(ep_arena, Endpoint::new(0)).unwrap();
    let cap = Capability::new(rights, CapObject::Endpoint(ep_handle));
    let cap_handle = table.insert_root(cap).unwrap();
    (ep_handle, cap_handle)
}

/// Install a notification capability in `table`.
fn setup_notif(table: &mut CapabilityTable, notif_arena: &mut NotificationArena) -> CapHandle {
    let notif_handle = create_notification(notif_arena, Notification::new(0)).unwrap();
    let cap = Capability::new(
        CapRights::notify() | CapRights::duplicate(),
        CapObject::Notification(notif_handle),
    );
    table.insert_root(cap).unwrap()
}

fn all_rights() -> CapRights {
    CapRights::duplicate() | CapRights::derive() | CapRights::revoke() | CapRights::transfer()
}

fn task_object(tag: u16) -> CapObject {
    CapObject::Task(TaskHandle::test_handle(tag, 0))
}

fn root_cap() -> Capability {
    Capability::new(all_rights(), task_object(0xAA))
}

fn test_msg(label: u64) -> Message {
    Message {
        label,
        params: [label, label, label],
    }
}

// ── send + recv (sender first) ────────────────────────────────────────────

#[test]
fn sender_first_delivers_on_recv() {
    let mut sender_table = CapabilityTable::new();
    let mut ep_arena = EndpointArena::default();
    let mut queues = IpcQueues::new();
    let (_, ep_cap) = setup_ep(&mut sender_table, &mut ep_arena, all_ep_rights());

    let outcome = ipc_send(
        &mut ep_arena,
        &mut queues,
        ep_cap,
        &mut sender_table,
        test_msg(42),
        None,
    )
    .unwrap();
    assert_eq!(outcome, SendOutcome::Enqueued);

    // Receiver with its own table picks up the message.
    let mut recv_table = CapabilityTable::new();
    let recv_ep_cap = {
        let cap = Capability::new(
            all_ep_rights(),
            CapObject::Endpoint(
                // extract the handle by looking through the sender's cap
                match sender_table.lookup(ep_cap).unwrap().object() {
                    CapObject::Endpoint(h) => h,
                    _ => panic!("wrong kind"),
                },
            ),
        );
        recv_table.insert_root(cap).unwrap()
    };

    let recv_outcome =
        ipc_recv(&mut ep_arena, &mut queues, recv_ep_cap, &mut recv_table).unwrap();
    let RecvOutcome::Received { msg, cap: None } = recv_outcome else {
        panic!("expected Received, got {recv_outcome:?}");
    };
    assert_eq!(msg, test_msg(42));
}

// ── recv + send (receiver first) ─────────────────────────────────────────

#[test]
fn receiver_first_delivers_on_send() {
    let mut recv_table = CapabilityTable::new();
    let mut ep_arena = EndpointArena::default();
    let mut queues = IpcQueues::new();
    let (ep_handle, recv_ep_cap) = setup_ep(&mut recv_table, &mut ep_arena, all_ep_rights());

    // Receiver registers first — no sender yet.
    let outcome1 = ipc_recv(&mut ep_arena, &mut queues, recv_ep_cap, &mut recv_table).unwrap();
    assert!(matches!(outcome1, RecvOutcome::Pending));

    // Sender delivers.
    let mut sender_table = CapabilityTable::new();
    let sender_ep_cap = {
        let cap = Capability::new(all_ep_rights(), CapObject::Endpoint(ep_handle));
        sender_table.insert_root(cap).unwrap()
    };
    let send_outcome = ipc_send(
        &mut ep_arena,
        &mut queues,
        sender_ep_cap,
        &mut sender_table,
        test_msg(99),
        None,
    )
    .unwrap();
    assert_eq!(send_outcome, SendOutcome::Delivered);

    // Receiver picks up the delivery with a second recv call.
    let outcome2 = ipc_recv(&mut ep_arena, &mut queues, recv_ep_cap, &mut recv_table).unwrap();
    let RecvOutcome::Received { msg, cap: None } = outcome2 else {
        panic!("expected Received, got {outcome2:?}");
    };
    assert_eq!(msg, test_msg(99));
}

// ── capability transfer (sender first) ────────────────────────────────────

#[test]
fn send_transfers_cap_atomically() {
    let mut sender_table = CapabilityTable::new();
    let mut ep_arena = EndpointArena::default();
    let mut queues = IpcQueues::new();
    let (ep_handle, ep_cap) = setup_ep(&mut sender_table, &mut ep_arena, all_ep_rights());

    // Give sender a second endpoint cap to transfer.
    let xfer_ep_handle = create_endpoint(&mut ep_arena, Endpoint::new(1)).unwrap();
    let xfer_cap_h = {
        let c = Capability::new(all_task_rights(), CapObject::Endpoint(xfer_ep_handle));
        sender_table.insert_root(c).unwrap()
    };

    ipc_send(
        &mut ep_arena,
        &mut queues,
        ep_cap,
        &mut sender_table,
        test_msg(1),
        Some(xfer_cap_h),
    )
    .unwrap();

    // The cap must no longer be in the sender's table.
    assert!(sender_table.lookup(xfer_cap_h).is_err());

    // Receiver collects the message and the cap.
    let mut recv_table = CapabilityTable::new();
    let recv_ep_cap = {
        let c = Capability::new(all_ep_rights(), CapObject::Endpoint(ep_handle));
        recv_table.insert_root(c).unwrap()
    };
    let outcome = ipc_recv(&mut ep_arena, &mut queues, recv_ep_cap, &mut recv_table).unwrap();
    let RecvOutcome::Received {
        msg,
        cap: Some(recv_cap_h),
    } = outcome
    else {
        panic!("expected Received with cap, got {outcome:?}");
    };
    assert_eq!(msg, test_msg(1));
    // The transferred cap should now exist in the receiver's table.
    assert!(recv_table.lookup(recv_cap_h).is_ok());
}

// ── capability transfer (receiver first) ──────────────────────────────────

#[test]
fn receiver_first_then_send_with_cap() {
    let mut recv_table = CapabilityTable::new();
    let mut ep_arena = EndpointArena::default();
    let mut queues = IpcQueues::new();
    let (ep_handle, recv_ep_cap) = setup_ep(&mut recv_table, &mut ep_arena, all_ep_rights());

    ipc_recv(&mut ep_arena, &mut queues, recv_ep_cap, &mut recv_table).unwrap();

    // Sender with a cap to transfer.
    let mut sender_table = CapabilityTable::new();
    let task_ep_handle = create_endpoint(&mut ep_arena, Endpoint::new(2)).unwrap();
    let xfer_cap_h = {
        let c = Capability::new(all_task_rights(), CapObject::Endpoint(task_ep_handle));
        sender_table.insert_root(c).unwrap()
    };
    let sender_ep_cap = {
        let c = Capability::new(all_ep_rights(), CapObject::Endpoint(ep_handle));
        sender_table.insert_root(c).unwrap()
    };

    let send_out = ipc_send(
        &mut ep_arena,
        &mut queues,
        sender_ep_cap,
        &mut sender_table,
        test_msg(77),
        Some(xfer_cap_h),
    )
    .unwrap();
    assert_eq!(send_out, SendOutcome::Delivered);

    // Sender's table no longer has the xfer cap.
    assert!(sender_table.lookup(xfer_cap_h).is_err());

    // Receiver picks up.
    let outcome = ipc_recv(&mut ep_arena, &mut queues, recv_ep_cap, &mut recv_table).unwrap();
    let RecvOutcome::Received {
        msg,
        cap: Some(recv_cap_h),
    } = outcome
    else {
        panic!("expected Received with cap, got {outcome:?}");
    };
    assert_eq!(msg, test_msg(77));
    assert!(recv_table.lookup(recv_cap_h).is_ok());
}

// ── rights enforcement ───────────────────────────────────────────────────

#[test]
fn send_without_send_right_fails() {
    let mut table = CapabilityTable::new();
    let mut ep_arena = EndpointArena::default();
    let mut queues = IpcQueues::new();
    // Cap with RECV but not SEND.
    let (_, ep_cap) = setup_ep(&mut table, &mut ep_arena, CapRights::recv());
    assert_eq!(
        ipc_send(
            &mut ep_arena,
            &mut queues,
            ep_cap,
            &mut table,
            test_msg(0),
            None
        )
        .unwrap_err(),
        IpcError::InvalidCapability
    );
}

#[test]
fn recv_without_recv_right_fails() {
    let mut table = CapabilityTable::new();
    let mut ep_arena = EndpointArena::default();
    let mut queues = IpcQueues::new();
    let (_, ep_cap) = setup_ep(&mut table, &mut ep_arena, CapRights::send());
    assert_eq!(
        ipc_recv(&mut ep_arena, &mut queues, ep_cap, &mut table).unwrap_err(),
        IpcError::InvalidCapability
    );
}

// ── queue-full paths ─────────────────────────────────────────────────────

#[test]
fn second_send_when_pending_fails() {
    let mut table = CapabilityTable::new();
    let mut ep_arena = EndpointArena::default();
    let mut queues = IpcQueues::new();
    let (_, ep_cap) = setup_ep(&mut table, &mut ep_arena, all_ep_rights());

    ipc_send(
        &mut ep_arena,
        &mut queues,
        ep_cap,
        &mut table,
        test_msg(1),
        None,
    )
    .unwrap();
    assert_eq!(
        ipc_send(
            &mut ep_arena,
            &mut queues,
            ep_cap,
            &mut table,
            test_msg(2),
            None
        )
        .unwrap_err(),
        IpcError::QueueFull
    );
}

#[test]
fn second_recv_when_waiting_fails() {
    let mut table = CapabilityTable::new();
    let mut ep_arena = EndpointArena::default();
    let mut queues = IpcQueues::new();
    let (_, ep_cap) = setup_ep(&mut table, &mut ep_arena, all_ep_rights());

    ipc_recv(&mut ep_arena, &mut queues, ep_cap, &mut table).unwrap();
    assert_eq!(
        ipc_recv(&mut ep_arena, &mut queues, ep_cap, &mut table).unwrap_err(),
        IpcError::QueueFull
    );
}

// ── state-preservation on failed send ────────────────────────────────────

#[test]
fn send_with_bad_transfer_cap_preserves_recv_waiting() {
    // Regression: if cap_take fails (e.g. HasChildren), ipc_send must
    // leave a RecvWaiting endpoint in RecvWaiting — not silently reset it
    // to Idle, which would lose the registered receiver.
    let mut recv_table = CapabilityTable::new();
    let mut ep_arena = EndpointArena::default();
    let mut queues = IpcQueues::new();
    let (ep_handle, recv_ep_cap) = setup_ep(&mut recv_table, &mut ep_arena, all_ep_rights());

    // Receiver registers — endpoint transitions to RecvWaiting.
    ipc_recv(&mut ep_arena, &mut queues, recv_ep_cap, &mut recv_table).unwrap();

    // Build a transfer cap that has a child (cap_take must fail HasChildren).
    let mut sender_table = CapabilityTable::new();
    let sender_ep_cap = {
        let c = Capability::new(all_ep_rights(), CapObject::Endpoint(ep_handle));
        sender_table.insert_root(c).unwrap()
    };
    let parent_h = sender_table.insert_root(root_cap()).unwrap();
    let _child_h = sender_table
        .cap_derive(parent_h, all_rights(), task_object(1))
        .unwrap();
    // parent_h has a child → cap_take will return HasChildren.
    let err = ipc_send(
        &mut ep_arena,
        &mut queues,
        sender_ep_cap,
        &mut sender_table,
        test_msg(0),
        Some(parent_h),
    )
    .unwrap_err();
    assert_eq!(err, IpcError::InvalidTransferCap);

    // RecvWaiting must still be intact: a second recv attempt returns
    // QueueFull (one receiver already registered), not Pending.
    let err2 = ipc_recv(&mut ep_arena, &mut queues, recv_ep_cap, &mut recv_table).unwrap_err();
    assert_eq!(err2, IpcError::QueueFull);
}

// ── TRANSFER right enforcement ────────────────────────────────────────────

#[test]
fn send_without_transfer_right_on_xfer_cap_fails() {
    let mut table = CapabilityTable::new();
    let mut ep_arena = EndpointArena::default();
    let mut queues = IpcQueues::new();
    let (_, ep_cap) = setup_ep(&mut table, &mut ep_arena, all_ep_rights());

    // A cap without TRANSFER right.
    let no_transfer_h = {
        let c = Capability::new(CapRights::duplicate() | CapRights::derive(), task_object(1));
        table.insert_root(c).unwrap()
    };
    assert_eq!(
        ipc_send(
            &mut ep_arena,
            &mut queues,
            ep_cap,
            &mut table,
            test_msg(0),
            Some(no_transfer_h),
        )
        .unwrap_err(),
        IpcError::InvalidTransferCap
    );
}

// ── stale IpcQueues state reset on endpoint slot reuse ────────────────────

#[test]
fn stale_queue_state_reset_on_slot_reuse() {
    let mut table = CapabilityTable::new();
    let mut ep_arena = EndpointArena::default();
    let mut queues = IpcQueues::new();
    let (ep_handle, ep_cap) = setup_ep(&mut table, &mut ep_arena, all_ep_rights());

    // Put the endpoint into RecvWaiting.
    ipc_recv(&mut ep_arena, &mut queues, ep_cap, &mut table).unwrap();

    // Destroy the endpoint (bumps slot generation).
    table.cap_drop(ep_cap).unwrap();
    destroy_endpoint(&mut ep_arena, ep_handle).unwrap();

    // Allocate a fresh endpoint in what may be the same slot.
    let (new_ep_handle, new_ep_cap) = setup_ep(&mut table, &mut ep_arena, all_ep_rights());
    let _ = new_ep_handle; // may or may not reuse the slot

    // The new endpoint must start in Idle, not inherit RecvWaiting.
    // Verify by sending — if state were RecvWaiting it would return
    // Delivered; if Idle it returns Enqueued.
    let outcome = ipc_send(
        &mut ep_arena,
        &mut queues,
        new_ep_cap,
        &mut table,
        test_msg(7),
        None,
    )
    .unwrap();
    assert_eq!(outcome, SendOutcome::Enqueued);
}

// ── notify ───────────────────────────────────────────────────────────────

#[test]
fn notify_sets_bits() {
    let mut table = CapabilityTable::new();
    let mut notif_arena = NotificationArena::default();
    let notif_cap = setup_notif(&mut table, &mut notif_arena);

    ipc_notify(&mut notif_arena, notif_cap, &table, 0b0101).unwrap();
    ipc_notify(&mut notif_arena, notif_cap, &table, 0b1010).unwrap();

    // The notification word should have all four bits set (OR semantics).
    let notif_handle = match table.lookup(notif_cap).unwrap().object() {
        CapObject::Notification(h) => h,
        _ => panic!("wrong kind"),
    };
    let word = notif_arena.get(notif_handle.slot()).unwrap().word();
    assert_eq!(word, 0b1111);
}

#[test]
fn notify_without_notify_right_fails() {
    let mut table = CapabilityTable::new();
    let mut notif_arena = NotificationArena::default();
    let notif_handle = create_notification(&mut notif_arena, Notification::new(0)).unwrap();
    // Cap with DUPLICATE but not NOTIFY.
    let cap = Capability::new(CapRights::duplicate(), CapObject::Notification(notif_handle));
    let cap_h = table.insert_root(cap).unwrap();
    assert_eq!(
        ipc_notify(&mut notif_arena, cap_h, &table, 0xFF).unwrap_err(),
        IpcError::InvalidCapability
    );
}

// ── blocked-sender wake (sender-first round-trip) ─────────────────────────

#[test]
fn blocked_sender_delivered_on_subsequent_recv() {
    let mut sender_table = CapabilityTable::new();
    let mut ep_arena = EndpointArena::default();
    let mut queues = IpcQueues::new();
    let (ep_handle, ep_cap) = setup_ep(&mut sender_table, &mut ep_arena, all_ep_rights());

    // Sender blocks (no receiver).
    assert_eq!(
        ipc_send(
            &mut ep_arena,
            &mut queues,
            ep_cap,
            &mut sender_table,
            test_msg(55),
            None
        )
        .unwrap(),
        SendOutcome::Enqueued
    );

    // Receiver arrives and drains the queue.
    let mut recv_table = CapabilityTable::new();
    let recv_ep_cap = {
        let c = Capability::new(all_ep_rights(), CapObject::Endpoint(ep_handle));
        recv_table.insert_root(c).unwrap()
    };
    let outcome = ipc_recv(&mut ep_arena, &mut queues, recv_ep_cap, &mut recv_table).unwrap();
    let RecvOutcome::Received { msg, cap: None } = outcome else {
        panic!("expected Received");
    };
    assert_eq!(msg, test_msg(55));
}

// Own tests.

#[test]
fn receiver_table_full_refuses_delivery_and_keeps_message() {
    let mut sender_table = CapabilityTable::new();
    let mut ep_arena = EndpointArena::default();
    let mut queues = IpcQueues::new();
    let (ep_handle, ep_cap) = setup_ep(&mut sender_table, &mut ep_arena, all_ep_rights());
    let xfer = sender_table.insert_root(root_cap()).unwrap();
    ipc_send(&mut ep_arena, &mut queues, ep_cap, &mut sender_table, test_msg(3), Some(xfer)).unwrap();

    let mut recv_table = CapabilityTable::new();
    let recv_ep_cap = recv_table
        .insert_root(Capability::new(all_ep_rights(), CapObject::Endpoint(ep_handle)))
        .unwrap();
    while !recv_table.is_full() {
        recv_table.insert_root(root_cap()).unwrap();
    }
    assert_eq!(
        ipc_recv(&mut ep_arena, &mut queues, recv_ep_cap, &mut recv_table).unwrap_err(),
        IpcError::ReceiverTableFull
    );
    // The refusal kept the message: a receiver with room gets it and the
    // carried capability.
    let mut fresh_table = CapabilityTable::new();
    let fresh_cap = fresh_table
        .insert_root(Capability::new(all_ep_rights(), CapObject::Endpoint(ep_handle)))
        .unwrap();
    let outcome = ipc_recv(&mut ep_arena, &mut queues, fresh_cap, &mut fresh_table).unwrap();
    let RecvOutcome::Received { msg, cap: Some(h) } = outcome else {
        panic!("expected Received with cap, got {outcome:?}");
    };
    assert_eq!(msg, test_msg(3));
    assert_eq!(fresh_table.lookup(h).unwrap().object(), task_object(0xAA));
}

#[test]
fn send_to_destroyed_endpoint_fails() {
    let mut table = CapabilityTable::new();
    let mut ep_arena = EndpointArena::default();
    let mut queues = IpcQueues::new();
    let (ep_handle, ep_cap) = setup_ep(&mut table, &mut ep_arena, all_ep_rights());
    destroy_endpoint(&mut ep_arena, ep_handle).unwrap();
    assert_eq!(
        ipc_send(&mut ep_arena, &mut queues, ep_cap, &mut table, test_msg(0), None).unwrap_err(),
        IpcError::InvalidCapability
    );
    assert_eq!(
        ipc_recv(&mut ep_arena, &mut queues, ep_cap, &mut table).unwrap_err(),
        IpcError::InvalidCapability
    );
}

#[test]
fn endpoint_cap_naming_a_task_is_refused() {
    let mut table = CapabilityTable::new();
    let mut ep_arena = EndpointArena::default();
    let mut queues = IpcQueues::new();
    let cap = table
        .insert_root(Capability::new(all_ep_rights(), task_object(1)))
        .unwrap();
    assert_eq!(
        ipc_send(&mut ep_arena, &mut queues, cap, &mut table, test_msg(0), None).unwrap_err(),
        IpcError::InvalidCapability
    );
}

#[test]
fn stale_transfer_cap_is_refused_and_sender_table_kept() {
    let mut table = CapabilityTable::new();
    let mut ep_arena = EndpointArena::default();
    let mut queues = IpcQueues::new();
    let (_, ep_cap) = setup_ep(&mut table, &mut ep_arena, all_ep_rights());
    let xfer = table.insert_root(root_cap()).unwrap();
    table.cap_drop(xfer).unwrap();
    assert_eq!(
        ipc_send(&mut ep_arena, &mut queues, ep_cap, &mut table, test_msg(0), Some(xfer)).unwrap_err(),
        IpcError::InvalidTransferCap
    );
    assert!(table.lookup(ep_cap).is_ok());
    // Nothing was queued: a receive registers a waiter.
    assert!(matches!(
        ipc_recv(&mut ep_arena, &mut queues, ep_cap, &mut table).unwrap(),
        RecvOutcome::Pending
    ));
}

#[test]
fn notify_on_destroyed_notification_fails() {
    let mut table = CapabilityTable::new();
    let mut notif_arena = NotificationArena::default();
    let notif_handle = create_notification(&mut notif_arena, Notification::new(0)).unwrap();
    let cap = table
        .insert_root(Capability::new(CapRights::notify(), CapObject::Notification(notif_handle)))
        .unwrap();
    tyrne::obj::notification::destroy_notification(&mut notif_arena, notif_handle).unwrap();
    assert_eq!(
        ipc_notify(&mut notif_arena, cap, &table, 1).unwrap_err(),
        IpcError::InvalidCapability
    );
}
