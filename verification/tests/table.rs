use tyrne::cap::{CapError, CapHandle, CapKind, CapObject, CapRights, Capability, CapabilityTable};
use tyrne::cap::{CAP_TABLE_CAPACITY, MAX_DERIVATION_DEPTH};
use tyrne::obj::TaskHandle;

/// Every right the table operations check.
fn all_rights() -> CapRights {
    CapRights::duplicate() | CapRights::derive() | CapRights::revoke() | CapRights::transfer()
}

/// Build a task-kind `CapObject` with a synthesized handle — for
/// tests that need distinct capability values without allocating
/// through a real arena.
fn task_object(tag: u16) -> CapObject {
    CapObject::Task(TaskHandle::test_handle(tag, 0))
}

fn root_cap() -> Capability {
    Capability::new(all_rights(), task_object(0xAA))
}

#[test]
fn new_table_can_accept_one_root() {
    let mut t = CapabilityTable::new();
    let h = t.insert_root(root_cap()).unwrap();
    let cap = t.lookup(h).unwrap();
    assert_eq!(cap.kind(), CapKind::Task);
    assert_eq!(cap.rights(), all_rights());
    assert_eq!(cap.object(), task_object(0xAA));
}

#[test]
fn drop_invalidates_handle() {
    let mut t = CapabilityTable::new();
    let h = t.insert_root(root_cap()).unwrap();
    t.cap_drop(h).unwrap();
    assert_eq!(t.lookup(h).unwrap_err(), CapError::InvalidHandle);
}

#[test]
fn drop_twice_returns_invalid_handle() {
    let mut t = CapabilityTable::new();
    let h = t.insert_root(root_cap()).unwrap();
    t.cap_drop(h).unwrap();
    assert_eq!(t.cap_drop(h).unwrap_err(), CapError::InvalidHandle);
}

#[test]
fn freed_slot_is_reused_with_bumped_generation() {
    let mut t = CapabilityTable::new();
    let h1 = t.insert_root(root_cap()).unwrap();
    t.cap_drop(h1).unwrap();
    let h2 = t.insert_root(root_cap()).unwrap();
    assert_eq!(h1.index(), h2.index(), "slot should be reused");
    assert_ne!(
        h1.generation(),
        h2.generation(),
        "generation must differ after reuse"
    );
    assert_eq!(t.lookup(h1).unwrap_err(), CapError::InvalidHandle);
    assert!(t.lookup(h2).is_ok());
}

#[test]
fn cap_copy_with_same_rights_succeeds() {
    let mut t = CapabilityTable::new();
    let src = t.insert_root(root_cap()).unwrap();
    let dup = t.cap_copy(src, all_rights()).unwrap();
    assert_eq!(t.lookup(dup).unwrap().rights(), all_rights());
    assert!(t.lookup(src).is_ok(), "original is unaffected");
}

#[test]
fn cap_copy_narrows_rights() {
    let mut t = CapabilityTable::new();
    let src = t.insert_root(root_cap()).unwrap();
    let narrower = CapRights::duplicate();
    let dup = t.cap_copy(src, narrower).unwrap();
    assert_eq!(t.lookup(dup).unwrap().rights(), narrower);
}

#[test]
fn cap_copy_rejects_widened_rights() {
    let mut t = CapabilityTable::new();
    let narrow = Capability::new(CapRights::duplicate(), task_object(0));
    let src = t.insert_root(narrow).unwrap();
    let wider = CapRights::duplicate() | CapRights::revoke();
    assert_eq!(t.cap_copy(src, wider).unwrap_err(), CapError::WidenedRights);
}

#[test]
fn cap_copy_without_duplicate_right_fails() {
    let mut t = CapabilityTable::new();
    let no_dup = Capability::new(CapRights::derive(), task_object(0));
    let src = t.insert_root(no_dup).unwrap();
    assert_eq!(
        t.cap_copy(src, CapRights::empty()).unwrap_err(),
        CapError::InsufficientRights
    );
}

#[test]
fn cap_derive_creates_child_with_narrower_rights() {
    let mut t = CapabilityTable::new();
    let src = t.insert_root(root_cap()).unwrap();
    let child_rights = CapRights::duplicate();
    let child = t.cap_derive(src, child_rights, task_object(0xBB)).unwrap();
    let child_cap = t.lookup(child).unwrap();
    assert_eq!(child_cap.rights(), child_rights);
    assert_eq!(child_cap.object(), task_object(0xBB));
}

#[test]
fn cap_derive_without_derive_right_fails() {
    let mut t = CapabilityTable::new();
    let no_derive = Capability::new(CapRights::duplicate(), task_object(0));
    let src = t.insert_root(no_derive).unwrap();
    assert_eq!(
        t.cap_derive(src, CapRights::empty(), task_object(0))
            .unwrap_err(),
        CapError::InsufficientRights
    );
}

#[test]
fn cap_derive_rejects_widened_rights() {
    let mut t = CapabilityTable::new();
    let narrow = Capability::new(CapRights::derive(), task_object(0));
    let src = t.insert_root(narrow).unwrap();
    let wider = CapRights::derive() | CapRights::revoke();
    assert_eq!(
        t.cap_derive(src, wider, task_object(0)).unwrap_err(),
        CapError::WidenedRights
    );
}

#[test]
fn cap_derive_enforces_depth_cap() {
    let mut t = CapabilityTable::new();
    let mut current = t.insert_root(root_cap()).unwrap();
    // Build MAX_DERIVATION_DEPTH-deep chain (each child gets DERIVE so we
    // can go again); the next derive should fail.
    for _ in 0..MAX_DERIVATION_DEPTH {
        current = t.cap_derive(current, all_rights(), task_object(0)).unwrap();
    }
    assert_eq!(
        t.cap_derive(current, all_rights(), task_object(0))
            .unwrap_err(),
        CapError::DerivationTooDeep
    );
}

#[test]
fn cap_revoke_removes_only_descendants() {
    let mut t = CapabilityTable::new();
    let src = t.insert_root(root_cap()).unwrap();
    let child = t.cap_derive(src, all_rights(), task_object(1)).unwrap();

    t.cap_revoke(src).unwrap();

    assert!(t.lookup(src).is_ok(), "src is preserved");
    assert_eq!(
        t.lookup(child).unwrap_err(),
        CapError::InvalidHandle,
        "child is revoked"
    );
}

#[test]
fn cap_revoke_cascades_depth_three() {
    let mut t = CapabilityTable::new();
    let root = t.insert_root(root_cap()).unwrap();
    let child = t.cap_derive(root, all_rights(), task_object(1)).unwrap();
    let grand = t.cap_derive(child, all_rights(), task_object(2)).unwrap();
    let great = t.cap_derive(grand, all_rights(), task_object(3)).unwrap();

    t.cap_revoke(root).unwrap();

    assert!(t.lookup(root).is_ok());
    for h in [child, grand, great] {
        assert_eq!(t.lookup(h).unwrap_err(), CapError::InvalidHandle);
    }
}

#[test]
fn references_object_sees_live_caps_only() {
    // `references_object` is true iff some live capability names the target.
    let mut t = CapabilityTable::new();
    let target = task_object(0xCC);
    let other = task_object(0xDD);
    assert!(
        !t.references_object(target),
        "empty table references nothing"
    );

    let h = t
        .insert_root(Capability::new(all_rights(), target))
        .unwrap();
    assert!(t.references_object(target));
    assert!(!t.references_object(other));

    // Cap-drop removes the reference.
    t.cap_drop(h).unwrap();
    assert!(!t.references_object(target));
}

#[test]
fn cap_revoke_clears_references_object() {
    // After cap_revoke, references_object must return false for the
    // objects named only by the revoked descendants.
    let mut t = CapabilityTable::new();
    let target = task_object(0xEE);
    let root = t
        .insert_root(Capability::new(all_rights(), task_object(0xAA)))
        .unwrap();
    let child = t.cap_derive(root, all_rights(), target).unwrap();

    assert!(t.references_object(target), "child names the target");
    t.cap_revoke(root).unwrap();
    assert!(
        !t.references_object(target),
        "revoke must clear the child's reference"
    );
    assert_eq!(t.lookup(child).unwrap_err(), CapError::InvalidHandle);
}

#[test]
fn cap_revoke_without_revoke_right_fails() {
    let mut t = CapabilityTable::new();
    let no_revoke = Capability::new(CapRights::duplicate() | CapRights::derive(), task_object(0));
    let src = t.insert_root(no_revoke).unwrap();
    assert_eq!(t.cap_revoke(src).unwrap_err(), CapError::InsufficientRights);
}

#[test]
fn cap_revoke_on_leaf_is_a_noop() {
    let mut t = CapabilityTable::new();
    let leaf = t.insert_root(root_cap()).unwrap();
    assert!(t.cap_revoke(leaf).is_ok());
    assert!(t.lookup(leaf).is_ok());
}

#[test]
fn cap_revoke_on_stale_handle_fails() {
    let mut t = CapabilityTable::new();
    let h = t.insert_root(root_cap()).unwrap();
    t.cap_drop(h).unwrap();
    assert_eq!(t.cap_revoke(h).unwrap_err(), CapError::InvalidHandle);
}

#[test]
fn copy_of_a_child_shares_parent() {
    let mut t = CapabilityTable::new();
    let root = t.insert_root(root_cap()).unwrap();
    let child = t.cap_derive(root, all_rights(), task_object(1)).unwrap();
    let peer = t.cap_copy(child, all_rights()).unwrap();

    // Revoking `root` must invalidate both `child` and `peer` — they
    // share the same parent.
    t.cap_revoke(root).unwrap();
    assert_eq!(t.lookup(child).unwrap_err(), CapError::InvalidHandle);
    assert_eq!(t.lookup(peer).unwrap_err(), CapError::InvalidHandle);
}

#[test]
fn drop_peer_does_not_affect_other_peer() {
    let mut t = CapabilityTable::new();
    let root = t.insert_root(root_cap()).unwrap();
    let peer_a = t.cap_copy(root, all_rights()).unwrap();
    let peer_b = t.cap_copy(root, all_rights()).unwrap();
    t.cap_drop(peer_a).unwrap();
    assert_eq!(t.lookup(peer_a).unwrap_err(), CapError::InvalidHandle);
    assert!(t.lookup(peer_b).is_ok(), "peer B survives peer A drop");
    assert!(t.lookup(root).is_ok(), "root survives peer drop");
}

#[test]
fn table_exhaustion_returns_caps_exhausted() {
    let mut t = CapabilityTable::new();
    let mut handles: [Option<CapHandle>; CAP_TABLE_CAPACITY] = [None; CAP_TABLE_CAPACITY];
    for h in &mut handles {
        *h = Some(t.insert_root(root_cap()).unwrap());
    }
    assert_eq!(
        t.insert_root(root_cap()).unwrap_err(),
        CapError::CapsExhausted
    );
    // Free one, then reinserting should succeed.
    t.cap_drop(handles[0].unwrap()).unwrap();
    assert!(t.insert_root(root_cap()).is_ok());
}

#[test]
fn cap_drop_on_interior_node_returns_has_children() {
    // Root has at least one derived child — dropping the root must
    // refuse rather than orphan the child.
    let mut t = CapabilityTable::new();
    let parent = t.insert_root(root_cap()).unwrap();
    let _child = t.cap_derive(parent, all_rights(), task_object(1)).unwrap();

    assert_eq!(
        t.cap_drop(parent).unwrap_err(),
        CapError::HasChildren,
        "dropping an interior node must refuse to orphan descendants"
    );

    // Revoking first, then dropping, works.
    t.cap_revoke(parent).unwrap();
    assert!(t.cap_drop(parent).is_ok());
}

#[test]
fn cap_take_returns_capability_and_invalidates_handle() {
    let mut t = CapabilityTable::new();
    let h = t.insert_root(root_cap()).unwrap();
    let taken = t.cap_take(h).unwrap();
    assert_eq!(taken.rights(), all_rights());
    assert_eq!(taken.object(), task_object(0xAA));
    assert_eq!(t.lookup(h).unwrap_err(), CapError::InvalidHandle);
}

#[test]
fn cap_take_on_node_with_children_fails() {
    let mut t = CapabilityTable::new();
    let parent = t.insert_root(root_cap()).unwrap();
    let _child = t.cap_derive(parent, all_rights(), task_object(1)).unwrap();
    assert_eq!(t.cap_take(parent).unwrap_err(), CapError::HasChildren);
    // Parent must still be live.
    assert!(t.lookup(parent).is_ok());
}

#[test]
fn cap_take_stale_handle_fails() {
    let mut t = CapabilityTable::new();
    let h = t.insert_root(root_cap()).unwrap();
    t.cap_take(h).unwrap();
    assert_eq!(t.cap_take(h).unwrap_err(), CapError::InvalidHandle);
}

#[test]
fn cap_take_middle_sibling_preserves_list_integrity() {
    let mut t = CapabilityTable::new();
    let root = t.insert_root(root_cap()).unwrap();
    let a = t.cap_derive(root, all_rights(), task_object(1)).unwrap();
    let b = t.cap_derive(root, all_rights(), task_object(2)).unwrap();
    let c = t.cap_derive(root, all_rights(), task_object(3)).unwrap();
    let taken = t.cap_take(b).unwrap();
    assert_eq!(taken.object(), task_object(2));
    assert!(t.lookup(a).is_ok());
    assert!(t.lookup(c).is_ok());
    assert_eq!(t.lookup(b).unwrap_err(), CapError::InvalidHandle);
    // Revoking root must still reach both remaining children.
    t.cap_revoke(root).unwrap();
    assert_eq!(t.lookup(a).unwrap_err(), CapError::InvalidHandle);
    assert_eq!(t.lookup(c).unwrap_err(), CapError::InvalidHandle);
}

#[test]
fn cap_take_slot_reusable_with_bumped_generation() {
    let mut t = CapabilityTable::new();
    let h1 = t.insert_root(root_cap()).unwrap();
    t.cap_take(h1).unwrap();
    let h2 = t.insert_root(root_cap()).unwrap();
    assert_eq!(h1.index(), h2.index(), "slot should be reused");
    assert_ne!(h1.generation(), h2.generation(), "generation must differ");
    assert_eq!(t.lookup(h1).unwrap_err(), CapError::InvalidHandle);
    assert!(t.lookup(h2).is_ok());
}

#[test]
fn is_full_transitions() {
    let mut t = CapabilityTable::new();
    assert!(!t.is_full());

    let mut handles: [Option<CapHandle>; CAP_TABLE_CAPACITY] = [None; CAP_TABLE_CAPACITY];
    for h in &mut handles {
        *h = Some(t.insert_root(root_cap()).unwrap());
    }
    assert!(t.is_full());

    // cap_take frees a slot.
    t.cap_take(handles[0].unwrap()).unwrap();
    assert!(!t.is_full());

    // Fill it again.
    let refill = t.insert_root(root_cap()).unwrap();
    assert!(t.is_full());

    // cap_drop also frees a slot.
    t.cap_drop(refill).unwrap();
    assert!(!t.is_full());
}

#[test]
fn drop_middle_sibling_preserves_list_integrity() {
    // Build three peers under a root and drop the middle one; the
    // outer two must remain reachable.
    let mut t = CapabilityTable::new();
    let root = t.insert_root(root_cap()).unwrap();
    let a = t.cap_derive(root, all_rights(), task_object(1)).unwrap();
    let b = t.cap_derive(root, all_rights(), task_object(2)).unwrap();
    let c = t.cap_derive(root, all_rights(), task_object(3)).unwrap();
    t.cap_drop(b).unwrap();
    assert!(t.lookup(a).is_ok());
    assert!(t.lookup(c).is_ok());
    assert_eq!(t.lookup(b).unwrap_err(), CapError::InvalidHandle);
    // Revoking root must still reach both remaining children.
    t.cap_revoke(root).unwrap();
    assert_eq!(t.lookup(a).unwrap_err(), CapError::InvalidHandle);
    assert_eq!(t.lookup(c).unwrap_err(), CapError::InvalidHandle);
}

// Own tests.

#[test]
fn derive_then_copy_keep_rights_narrowing() {
    let mut t = CapabilityTable::new();
    let root = t.insert_root(root_cap()).unwrap();
    let child = t
        .cap_derive(root, CapRights::duplicate() | CapRights::revoke(), task_object(5))
        .unwrap();
    let copy = t.cap_copy(child, CapRights::revoke()).unwrap();
    assert_eq!(t.lookup(copy).unwrap().rights(), CapRights::revoke());
    assert_eq!(
        t.cap_copy(copy, CapRights::revoke()).unwrap_err(),
        CapError::InsufficientRights
    );
    assert_eq!(t.lookup(copy).unwrap().object(), task_object(5));
}

#[test]
fn stale_handle_errors_on_every_operation() {
    let mut t = CapabilityTable::new();
    let h = t.insert_root(root_cap()).unwrap();
    t.cap_drop(h).unwrap();
    assert_eq!(t.cap_copy(h, all_rights()).unwrap_err(), CapError::InvalidHandle);
    assert_eq!(
        t.cap_derive(h, all_rights(), task_object(1)).unwrap_err(),
        CapError::InvalidHandle
    );
    assert_eq!(t.cap_take(h).unwrap_err(), CapError::InvalidHandle);
}

#[test]
fn revoke_keeps_unrelated_roots() {
    let mut t = CapabilityTable::new();
    let a = t.insert_root(root_cap()).unwrap();
    let b = t.insert_root(root_cap()).unwrap();
    let a_child = t.cap_derive(a, all_rights(), task_object(1)).unwrap();
    let b_child = t.cap_derive(b, all_rights(), task_object(2)).unwrap();
    t.cap_revoke(a).unwrap();
    assert!(t.lookup(a_child).is_err());
    assert!(t.lookup(b).is_ok());
    assert!(t.lookup(b_child).is_ok());
    assert!(t.references_object(task_object(2)));
    assert!(!t.references_object(task_object(1)));
}

#[test]
fn revoke_frees_descendants_in_reverse_breadth_first_order() {
    let mut t = CapabilityTable::new();
    let root = t.insert_root(root_cap()).unwrap();
    let a = t.cap_derive(root, all_rights(), task_object(1)).unwrap();
    let b = t.cap_derive(root, all_rights(), task_object(2)).unwrap();
    let g = t.cap_derive(a, all_rights(), task_object(3)).unwrap();
    assert_eq!((root.index(), a.index(), b.index(), g.index()), (0, 1, 2, 3));
    // Breadth-first, newest sibling first: b, a, then a's child g. The
    // slots return to the free list in reverse, so they are reused as
    // g, a, b, followed by the never-used slot 4.
    t.cap_revoke(root).unwrap();
    let reused: Vec<u16> = (0..4).map(|_| t.insert_root(root_cap()).unwrap().index()).collect();
    assert_eq!(reused, vec![3, 1, 2, 4]);
}

#[test]
fn lookup_follows_the_history_of_installs_and_removals() {
    let mut t = CapabilityTable::new();
    let root = t.insert_root(root_cap()).unwrap();
    let child = t.cap_derive(root, CapRights::duplicate(), task_object(0xBB)).unwrap();
    let peer = t.cap_copy(root, all_rights()).unwrap();
    assert_eq!(t.lookup(child).unwrap().object(), task_object(0xBB));
    assert_eq!(t.lookup(child).unwrap().rights(), CapRights::duplicate());
    t.cap_revoke(root).unwrap();
    assert_eq!(t.lookup(child).unwrap_err(), CapError::InvalidHandle);
    assert_eq!(t.lookup(root).unwrap().object(), task_object(0xAA));
    assert_eq!(t.lookup(peer).unwrap().rights(), all_rights());
    t.cap_drop(peer).unwrap();
    assert_eq!(t.lookup(peer).unwrap_err(), CapError::InvalidHandle);
    assert_eq!(t.lookup(root).unwrap().rights(), all_rights());
}

#[test]
fn has_derived_reports_live_handles_with_children() {
    let mut t = CapabilityTable::new();
    let root = t.insert_root(root_cap()).unwrap();
    assert!(!t.has_derived(root));
    let child = t.cap_derive(root, all_rights(), task_object(0xCC)).unwrap();
    assert!(t.has_derived(root));
    assert!(!t.has_derived(child));
    t.cap_revoke(root).unwrap();
    assert!(!t.has_derived(root));
    t.cap_drop(root).unwrap();
    assert!(!t.has_derived(root));
}
