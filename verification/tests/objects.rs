use tyrne::obj::endpoint::{create_endpoint, destroy_endpoint, get_endpoint, Endpoint, EndpointArena, EndpointHandle};
use tyrne::obj::notification::{
    create_notification, destroy_notification, get_notification, Notification, NotificationArena,
    NotificationHandle,
};
use tyrne::obj::task::{create_task, destroy_task, get_task, Task, TaskArena, TaskHandle};
use tyrne::obj::{ObjError, ENDPOINT_ARENA_CAPACITY, TASK_ARENA_CAPACITY};

#[test]
fn set_and_consume_round_trip() {
    let mut arena = NotificationArena::default();
    let handle = create_notification(&mut arena, Notification::new(0)).unwrap();

    let note = arena.get_mut(handle.slot()).unwrap();
    note.set(0b0001);
    note.set(0b0100);
    assert_eq!(
        get_notification(&arena, handle).map(Notification::word),
        Some(0b0101)
    );

    let note = arena.get_mut(handle.slot()).unwrap();
    assert_eq!(note.consume(), 0b0101);
    assert_eq!(note.consume(), 0);
}

#[test]
fn notification_destroy_invalidates_handle() {
    let mut arena = NotificationArena::default();
    let handle = create_notification(&mut arena, Notification::new(0)).unwrap();
    destroy_notification(&mut arena, handle).unwrap();
    assert!(get_notification(&arena, handle).is_none());
    // Reallocating reuses the same slot with a bumped generation; the
    // first handle must still fail lookup (generation mismatch).
    let _new_handle = create_notification(&mut arena, Notification::new(1)).unwrap();
    assert!(
        get_notification(&arena, handle).is_none(),
        "stale handle must fail after slot reuse"
    );
}

#[test]
fn create_then_get_round_trip() {
    let mut arena = TaskArena::default();
    let handle = create_task(&mut arena, Task::new(7)).unwrap();
    assert_eq!(get_task(&arena, handle).map(Task::id), Some(7));
}

#[test]
fn task_destroy_invalidates_handle() {
    let mut arena = TaskArena::default();
    let handle = create_task(&mut arena, Task::new(1)).unwrap();
    let removed = destroy_task(&mut arena, handle).unwrap();
    assert_eq!(removed.id(), 1);
    assert!(get_task(&arena, handle).is_none());
    assert_eq!(
        destroy_task(&mut arena, handle).unwrap_err(),
        ObjError::InvalidHandle
    );
}

#[test]
fn arena_exhaustion_returns_arena_full() {
    let mut arena = TaskArena::default();
    for i in 0..TASK_ARENA_CAPACITY {
        create_task(&mut arena, Task::new(i as u32)).unwrap();
    }
    assert_eq!(
        create_task(&mut arena, Task::new(99)).unwrap_err(),
        ObjError::ArenaFull
    );
}

// Own tests.

#[test]
fn endpoint_create_get_destroy() {
    let mut arena = EndpointArena::default();
    let h = create_endpoint(&mut arena, Endpoint::new(11)).unwrap();
    assert_eq!(get_endpoint(&arena, h).map(Endpoint::id), Some(11));
    assert_eq!(destroy_endpoint(&mut arena, h).unwrap().id(), 11);
    assert!(get_endpoint(&arena, h).is_none());
    assert_eq!(destroy_endpoint(&mut arena, h).unwrap_err(), ObjError::InvalidHandle);
}

#[test]
fn endpoint_arena_exhaustion_returns_arena_full() {
    let mut arena = EndpointArena::default();
    for i in 0..ENDPOINT_ARENA_CAPACITY {
        create_endpoint(&mut arena, Endpoint::new(i as u32)).unwrap();
    }
    assert_eq!(
        create_endpoint(&mut arena, Endpoint::new(99)).unwrap_err(),
        ObjError::ArenaFull
    );
}

#[test]
fn typed_handles_wrap_their_slot() {
    let t = TaskHandle::test_handle(2, 5);
    assert_eq!((t.slot().index(), t.slot().generation()), (2, 5));
    let e = EndpointHandle::test_handle(3, 6);
    assert_eq!((e.slot().index(), e.slot().generation()), (3, 6));
    let n = NotificationHandle::test_handle(4, 7);
    assert_eq!((n.slot().index(), n.slot().generation()), (4, 7));
    assert_eq!(TaskHandle::from_slot(t.slot()), t);
}

#[test]
fn notification_word_accumulates_by_or() {
    let mut n = Notification::new(0b1000);
    n.set(0b0011);
    n.set(0b0001);
    assert_eq!(n.word(), 0b1011);
    assert_eq!(n.consume(), 0b1011);
    assert_eq!(n.word(), 0);
}
