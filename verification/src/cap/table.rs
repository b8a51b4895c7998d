//! Capability table with generation-tagged handles and an index-based
//! derivation tree.
//!
//! Each populated slot holds a capability, the index of its parent (if it
//! was derived), the head of its child list and the next sibling in its
//! parent's child list. Free slots form a last-in-first-out free list.
use vstd::prelude::*;

use super::rights::{bits_include, CapRights, DERIVE_BIT, DUPLICATE_BIT, REVOKE_BIT};
use super::{CapError, CapObject, Capability};
use crate::obj::arena::next_generation;

verus! {

/// Number of slots in a capability table.
pub const CAP_TABLE_CAPACITY: usize = 64;

/// Largest depth a derived capability may have; roots have depth 0.
pub const MAX_DERIVATION_DEPTH: usize = 16;

/// Opaque handle into a [`CapabilityTable`]: a slot index and the
/// generation the slot had when the capability was installed.
#[derive(Copy, Clone, Debug, PartialEq, Eq, Structural)]
pub struct CapHandle {
    index: u16,
    generation: u32,
}

impl CapHandle {
    /// The slot index this handle names.
    pub closed spec fn idx(self) -> u16 {
        self.index
    }

    /// The generation this handle carries.
    pub closed spec fn gen(self) -> u32 {
        self.generation
    }

    /// Return the raw index component.
    pub fn index(self) -> (r: u16)
        ensures
            r == self.idx(),
    {
        self.index
    }

    /// Return the raw generation component.
    pub fn generation(self) -> (r: u32)
        ensures
            r == self.gen(),
    {
        self.generation
    }

    /// Two handles are equal exactly when both parts are.
    pub broadcast proof fn lemma_eq(a: CapHandle, b: CapHandle)
        ensures
            #![trigger a.idx(), b.idx()]
            (a == b) <==> (a.idx() == b.idx() && a.gen() == b.gen()),
    {
    }
}

/// What a populated slot holds, as seen by the contracts: the
/// capability's rights and object, the slot of its parent in the
/// derivation tree, and its depth (a root has depth 0, a child one more
/// than its parent).
pub struct CapNode {
    pub rights: CapRights,
    pub object: CapObject,
    pub parent: Option<u16>,
    pub depth: u8,
}

/// What one call did to a table, as its contract states it; used to state
/// laws over runs of calls. `insert_root`, `cap_copy` and `cap_derive`
/// make an `Insert`, `cap_drop` and `cap_take` a `Remove`, `cap_revoke`
/// a `Revoke` of the source's slot, and every failed or read-only call a
/// `Keep`.
pub enum TableStep {
    /// The node was installed and the handle names it.
    Insert(CapNode, CapHandle),
    /// The live handle's slot was emptied.
    Remove(CapHandle),
    /// Every descendant of the slot was emptied.
    Revoke(u16),
    /// Nothing changed.
    Keep,
}

/// The step installs the capability that `h` names.
pub open spec fn inserts(s: TableStep, h: CapHandle) -> bool {
    s matches TableStep::Insert(_, x) && x == h
}

/// Per-task capability table of [`CAP_TABLE_CAPACITY`] slots.
pub struct CapabilityTable {
    caps: Vec<Option<Capability>>,
    generations: Vec<u32>,
    next_free: Vec<Option<u16>>,
    parent: Vec<Option<u16>>,
    first_child: Vec<Option<u16>>,
    next_sibling: Vec<Option<u16>>,
    depth: Vec<u8>,
    free_head: Option<u16>,
    free_list: Ghost<Seq<u16>>,
    children: Ghost<Seq<Seq<u16>>>,
}

impl CapabilityTable {
    // ----- abstract view -----

    /// The node held in slot `i`, or `None` when the slot is free.
    pub closed spec fn entry(&self, i: int) -> Option<CapNode> {
        match self.caps@[i] {
            Some(c) => Some(
                CapNode {
                    rights: c.granted(),
                    object: c.target(),
                    parent: self.parent@[i],
                    depth: self.depth@[i],
                },
            ),
            None => None,
        }
    }

    /// The current generation of slot `i`.
    pub closed spec fn generation(&self, i: int) -> u32 {
        self.generations@[i]
    }

    /// The free slots, in the order new capabilities will occupy them.
    pub closed spec fn free_order(&self) -> Seq<u16> {
        self.free_list@
    }

    /// `h` names a slot that still holds the capability installed with it.
    pub open spec fn live(&self, h: CapHandle) -> bool {
        &&& h.idx() < CAP_TABLE_CAPACITY
        &&& self.generation(h.idx() as int) == h.gen()
        &&& self.entry(h.idx() as int) is Some
    }

    /// The node a live handle names.
    pub open spec fn node(&self, h: CapHandle) -> CapNode {
        self.entry(h.idx() as int)->0
    }

    /// Every slot is occupied.
    pub open spec fn is_exhausted(&self) -> bool {
        forall|i: int| 0 <= i < CAP_TABLE_CAPACITY ==> #[trigger] self.entry(i) is Some
    }

    /// Some populated slot was derived from slot `i`.
    pub open spec fn has_children(&self, i: int) -> bool {
        exists|j: int|
            0 <= j < CAP_TABLE_CAPACITY && #[trigger] self.entry(j) is Some && self.entry(j)->0.parent
                == Some(i as u16)
    }

    /// Some populated slot names `target`.
    pub open spec fn references(&self, target: CapObject) -> bool {
        exists|i: int|
            0 <= i < CAP_TABLE_CAPACITY && #[trigger] self.entry(i) is Some && self.entry(i)->0.object
                == target
    }

    /// The slot reached from `j` by following `k` parent links.
    pub closed spec fn ancestor(&self, j: int, k: nat) -> Option<u16>
        decreases k,
    {
        if k == 0 {
            Some(j as u16)
        } else {
            match self.entry(j) {
                Some(n) => match n.parent {
                    Some(p) => self.ancestor(p as int, (k - 1) as nat),
                    None => None,
                },
                None => None,
            }
        }
    }

    /// Slot `j` was derived, directly or through intermediate children,
    /// from slot `a`.
    pub open spec fn is_descendant(&self, j: int, a: int) -> bool {
        &&& 0 <= j < CAP_TABLE_CAPACITY
        &&& 0 <= a < CAP_TABLE_CAPACITY
        &&& self.entry(j) is Some
        &&& self.entry(a) is Some
        &&& self.entry(j)->0.depth > self.entry(a)->0.depth
        &&& self.ancestor(j, (self.entry(j)->0.depth - self.entry(a)->0.depth) as nat) == Some(
            a as u16,
        )
    }

    /// The slots derived, directly or transitively, from slot `a`.
    pub open spec fn descendants(&self, a: int) -> Set<u16> {
        Set::new(|j: u16| self.is_descendant(j as int, a))
    }

    /// The slots derived directly from slot `p`, most recently derived
    /// first.
    pub closed spec fn child_list(&self, p: int) -> Seq<u16> {
        self.children@[p]
    }

    /// The breadth-first list of the descendants of slot `a` after `s`
    /// expansion steps: the children of `a`, followed, for each of the
    /// first `s` listed slots in turn, by that slot's children.
    pub open spec fn bfs_prefix(&self, a: int, s: nat) -> Seq<u16>
        decreases s,
    {
        if s == 0 {
            self.child_list(a)
        } else {
            let q = self.bfs_prefix(a, (s - 1) as nat);
            if s - 1 < q.len() {
                q + self.child_list(q[s - 1] as int)
            } else {
                q
            }
        }
    }

    /// The descendants of slot `a` in breadth-first order, each slot's
    /// children in the order of its child list.
    pub open spec fn revoke_order(&self, a: int) -> Seq<u16> {
        self.bfs_prefix(a, CAP_TABLE_CAPACITY as nat)
    }

    /// `post` holds the same slots, generations and free order as `self`.
    pub open spec fn unchanged(&self, post: &Self) -> bool {
        &&& post.free_order() == self.free_order()
        &&& forall|i: int|
            0 <= i < CAP_TABLE_CAPACITY ==> #[trigger] post.entry(i) == self.entry(i)
                && post.generation(i) == self.generation(i)
    }

    /// `post` is `self` with `node` installed in the head of the free list,
    /// a slot that was empty and which `h` now names.
    pub open spec fn installs(&self, post: &Self, node: CapNode, h: CapHandle) -> bool {
        &&& self.free_order().len() > 0
        &&& h.idx() == self.free_order()[0]
        &&& self.entry(h.idx() as int) is None
        &&& h.gen() == self.generation(h.idx() as int)
        &&& post.free_order() == self.free_order().drop_first()
        &&& post.entry(h.idx() as int) == Some(node)
        &&& forall|i: int|
            0 <= i < CAP_TABLE_CAPACITY ==> #[trigger] post.generation(i) == self.generation(i) && (i
                != h.idx() ==> post.entry(i) == self.entry(i))
        &&& post.child_list(h.idx() as int) == Seq::<u16>::empty()
        &&& forall|i: int|
            0 <= i < CAP_TABLE_CAPACITY && i != h.idx() ==> #[trigger] post.child_list(i) == (if node.parent
                == Some(i as u16) {
                seq![h.idx()] + self.child_list(i)
            } else {
                self.child_list(i)
            })
    }

    /// `post` is `self` with the live slot `h` emptied: its generation
    /// advanced and it went to the front of the free list.
    pub open spec fn removes(&self, post: &Self, h: CapHandle) -> bool {
        &&& self.live(h)
        &&& post.entry(h.idx() as int) is None
        &&& post.generation(h.idx() as int) == next_generation(h.gen())
        &&& post.free_order() == seq![h.idx()] + self.free_order()
        &&& forall|i: int|
            0 <= i < CAP_TABLE_CAPACITY && i != h.idx() ==> #[trigger] post.entry(i) == self.entry(i)
                && post.generation(i) == self.generation(i)
        &&& match self.node(h).parent {
            Some(p) => exists|w: int|
                0 <= w < self.child_list(p as int).len() && self.child_list(p as int)[w] == h.idx()
                    && #[trigger] post.child_list(p as int) == self.child_list(p as int).remove(w),
            None => true,
        }
        &&& forall|i: int|
            0 <= i < CAP_TABLE_CAPACITY && self.node(h).parent != Some(i as u16) ==> #[trigger] post.child_list(i)
                == self.child_list(i)
    }

    /// The error `cap_copy(src, new_rights)` reports, or `None` when it
    /// succeeds.
    pub open spec fn copy_error(&self, src: CapHandle, new_rights: CapRights) -> Option<CapError> {
        if !self.live(src) {
            Some(CapError::InvalidHandle)
        } else if !bits_include(self.node(src).rights.bits(), DUPLICATE_BIT) {
            Some(CapError::InsufficientRights)
        } else if !self.node(src).rights.includes(new_rights) {
            Some(CapError::WidenedRights)
        } else if self.is_exhausted() {
            Some(CapError::CapsExhausted)
        } else {
            None
        }
    }

    /// The error `cap_derive(src, new_rights, _)` reports, or `None` when
    /// it succeeds.
    pub open spec fn derive_error(&self, src: CapHandle, new_rights: CapRights) -> Option<CapError> {
        if !self.live(src) {
            Some(CapError::InvalidHandle)
        } else if !bits_include(self.node(src).rights.bits(), DERIVE_BIT) {
            Some(CapError::InsufficientRights)
        } else if !self.node(src).rights.includes(new_rights) {
            Some(CapError::WidenedRights)
        } else if self.node(src).depth + 1 > MAX_DERIVATION_DEPTH {
            Some(CapError::DerivationTooDeep)
        } else if self.is_exhausted() {
            Some(CapError::CapsExhausted)
        } else {
            None
        }
    }

    /// The error `cap_revoke(src)` reports, or `None` when it succeeds.
    pub open spec fn revoke_error(&self, src: CapHandle) -> Option<CapError> {
        if !self.live(src) {
            Some(CapError::InvalidHandle)
        } else if !bits_include(self.node(src).rights.bits(), REVOKE_BIT) {
            Some(CapError::InsufficientRights)
        } else {
            None
        }
    }

    /// `post` is `self` with every descendant of slot `a` emptied: each had
    /// its generation advanced and went to the front of the free list
    /// (`fresh` is the order in which they went); every other slot,
    /// `a` included, is unchanged.
    pub open spec fn revokes_with(&self, post: &Self, a: int, fresh: Seq<u16>) -> bool {
        let d = self.descendants(a);
        &&& fresh.no_duplicates()
        &&& fresh.to_set() == d
        &&& post.free_order() == fresh + self.free_order()
        &&& forall|i: int|
            #![trigger post.entry(i)]
            0 <= i < CAP_TABLE_CAPACITY ==> if d.contains(i as u16) {
                post.entry(i) is None && post.generation(i) == next_generation(self.generation(i))
            } else {
                post.entry(i) == self.entry(i) && post.generation(i) == self.generation(i)
            }
        &&& post.child_list(a) == Seq::<u16>::empty()
        &&& forall|i: int|
            0 <= i < CAP_TABLE_CAPACITY && i != a ==> #[trigger] post.child_list(i) == self.child_list(i)
    }

    // ----- invariant -----

    spec fn shape_ok(&self) -> bool {
        &&& self.caps@.len() == CAP_TABLE_CAPACITY
        &&& self.generations@.len() == CAP_TABLE_CAPACITY
        &&& self.next_free@.len() == CAP_TABLE_CAPACITY
        &&& self.parent@.len() == CAP_TABLE_CAPACITY
        &&& self.first_child@.len() == CAP_TABLE_CAPACITY
        &&& self.next_sibling@.len() == CAP_TABLE_CAPACITY
        &&& self.depth@.len() == CAP_TABLE_CAPACITY
        &&& self.children@.len() == CAP_TABLE_CAPACITY
    }

    /// The free list is well linked and holds every empty slot except
    /// possibly `hole`, which it does not hold.
    spec fn free_ok(&self, hole: int) -> bool {
        let fl = self.free_list@;
        &&& fl.no_duplicates()
        &&& forall|k: int| 0 <= k < fl.len() ==> #[trigger] fl[k] < CAP_TABLE_CAPACITY
        &&& self.free_head == (if fl.len() == 0 {
            None::<u16>
        } else {
            Some(fl[0])
        })
        &&& forall|k: int|
            0 <= k < fl.len() ==> #[trigger] self.next_free@[fl[k] as int] == (if k + 1 < fl.len() {
                Some(fl[k + 1])
            } else {
                None::<u16>
            })
        &&& forall|i: int|
            0 <= i < CAP_TABLE_CAPACITY && i != hole ==> (#[trigger] self.caps@[i] is None
                <==> fl.contains(i as u16))
        &&& (0 <= hole < CAP_TABLE_CAPACITY ==> !fl.contains(hole as u16))
    }

    /// The child list recorded for slot `p` is linked through
    /// `first_child` / `next_sibling` and holds populated slots whose
    /// parent is `p`.
    spec fn list_ok(&self, p: int) -> bool {
        let l = self.children@[p];
        &&& l.no_duplicates()
        &&& forall|k: int|
            0 <= k < l.len() ==> #[trigger] l[k] < CAP_TABLE_CAPACITY && self.caps@[l[k] as int] is Some
                && self.parent@[l[k] as int] == Some(p as u16)
        &&& self.first_child@[p] == (if l.len() == 0 {
            None::<u16>
        } else {
            Some(l[0])
        })
        &&& forall|k: int|
            0 <= k < l.len() ==> #[trigger] self.next_sibling@[l[k] as int] == (if k + 1 < l.len() {
                Some(l[k + 1])
            } else {
                None::<u16>
            })
    }

    /// A populated slot's tree links are consistent.
    spec fn node_ok(&self, i: int) -> bool {
        &&& self.depth@[i] <= MAX_DERIVATION_DEPTH
        &&& match self.parent@[i] {
            Some(p) => {
                &&& p < CAP_TABLE_CAPACITY
                &&& self.caps@[p as int] is Some
                &&& self.depth@[i] == self.depth@[p as int] + 1
                &&& self.children@[p as int].contains(i as u16)
            },
            None => self.depth@[i] == 0 && self.next_sibling@[i] is None,
        }
        &&& self.list_ok(i)
    }

    spec fn tree_ok(&self) -> bool {
        forall|i: int| 0 <= i < CAP_TABLE_CAPACITY && #[trigger] self.caps@[i] is Some ==> self.node_ok(i)
    }

    /// Internal consistency: slot arrays, free list and derivation tree.
    pub closed spec fn wf(&self) -> bool {
        &&& self.shape_ok()
        &&& self.free_ok(-1)
        &&& self.tree_ok()
    }

    /// The free list holds exactly the free slots, so it is empty exactly
    /// when the table is full.
    proof fn lemma_free_list_empty_iff_exhausted(&self)
        requires
            self.shape_ok(),
            self.free_ok(-1),
        ensures
            self.free_order().len() == 0 <==> self.is_exhausted(),
    {
        if self.free_list@.len() > 0 {
            let i = self.free_list@[0] as int;
            assert(self.free_list@.contains(i as u16));
            assert(self.entry(i) is None);
        }
        if !self.is_exhausted() {
            let i = choose|i: int| 0 <= i < CAP_TABLE_CAPACITY && !(self.entry(i) is Some);
            assert(self.caps@[i] is None);
            assert(self.free_list@.contains(i as u16));
        }
    }

    // ----- construction -----

    /// Construct an empty table with every slot in the free list, in index
    /// order.
    pub fn new() -> (r: CapabilityTable)
        ensures
            r.wf(),
            forall|i: int|
                0 <= i < CAP_TABLE_CAPACITY ==> #[trigger] r.entry(i) is None && r.generation(i) == 0,
            r.free_order() == Seq::new(CAP_TABLE_CAPACITY as nat, |i: int| i as u16),
            forall|i: int| 0 <= i < CAP_TABLE_CAPACITY ==> #[trigger] r.child_list(i) == Seq::<u16>::empty(),
    {
        let mut caps: Vec<Option<Capability>> = Vec::new();
        let mut generations: Vec<u32> = Vec::new();
        let mut next_free: Vec<Option<u16>> = Vec::new();
        let mut parent: Vec<Option<u16>> = Vec::new();
        let mut first_child: Vec<Option<u16>> = Vec::new();
        let mut next_sibling: Vec<Option<u16>> = Vec::new();
        let mut depth: Vec<u8> = Vec::new();
        let mut i: usize = 0;
        while i < CAP_TABLE_CAPACITY
            invariant
                i <= CAP_TABLE_CAPACITY,
                caps@.len() == i,
                generations@.len() == i,
                next_free@.len() == i,
                parent@.len() == i,
                first_child@.len() == i,
                next_sibling@.len() == i,
                depth@.len() == i,
                forall|j: int| 0 <= j < i ==> #[trigger] caps@[j] is None,
                forall|j: int| 0 <= j < i ==> #[trigger] generations@[j] == 0,
                forall|j: int|
                    0 <= j < i ==> #[trigger] next_free@[j] == (if j + 1 < CAP_TABLE_CAPACITY {
                        Some((j + 1) as u16)
                    } else {
                        None::<u16>
                    }),
            decreases CAP_TABLE_CAPACITY - i,
        {
            caps.push(None);
            generations.push(0);
            let next_idx = i + 1;
            if next_idx < CAP_TABLE_CAPACITY {
                next_free.push(Some(next_idx as u16));
            } else {
                next_free.push(None);
            }
            parent.push(None);
            first_child.push(None);
            next_sibling.push(None);
            depth.push(0);
            i = next_idx;
        }
        let ghost order = Seq::new(CAP_TABLE_CAPACITY as nat, |j: int| j as u16);
        let ghost kids = Seq::new(CAP_TABLE_CAPACITY as nat, |j: int| Seq::<u16>::empty());
        let r = CapabilityTable {
            caps,
            generations,
            next_free,
            parent,
            first_child,
            next_sibling,
            depth,
            free_head: Some(0),
            free_list: Ghost(order),
            children: Ghost(kids),
        };
        proof {
            assert forall|a: int, b: int|
                0 <= a < order.len() && 0 <= b < order.len() && a != b implies order[a]
                != order[b] by {}
            assert forall|j: int| 0 <= j < CAP_TABLE_CAPACITY && j != -1 implies (#[trigger] r.caps@[j]
                is None <==> order.contains(j as u16)) by {
                assert(order[j] == j as u16);
            }
        }
        r
    }

    // ----- slot management -----

    /// Take the head of the free list, leaving its slot empty but outside
    /// the free list.
    fn pop_free(&mut self) -> (r: Option<u16>)
        requires
            old(self).wf(),
        ensures
            r is None <==> old(self).free_order().len() == 0,
            r is None ==> *final(self) == *old(self),
            r matches Some(i) ==> {
                &&& i == old(self).free_order()[0]
                &&& final(self).free_list@ == old(self).free_list@.drop_first()
                &&& final(self).shape_ok()
                &&& final(self).free_ok(i as int)
                &&& final(self).caps@ == old(self).caps@
                &&& final(self).generations@ == old(self).generations@
                &&& final(self).parent@ == old(self).parent@
                &&& final(self).first_child@ == old(self).first_child@
                &&& final(self).next_sibling@ == old(self).next_sibling@
                &&& final(self).depth@ == old(self).depth@
                &&& final(self).children@ == old(self).children@
                &&& final(self).caps@[i as int] is None
            },
    {
        let head = match self.free_head {
            Some(h) => h,
            None => return None,
        };
        let ghost old_list = self.free_list@;
        assert(old_list.contains(head));
        let next = self.next_free[head as usize];
        self.free_head = next;
        self.next_free.set(head as usize, None);
        self.free_list = Ghost(old_list.drop_first());
        proof {
            let nl = self.free_list@;
            assert forall|k: int| 0 <= k < nl.len() implies #[trigger] self.next_free@[nl[k] as int]
                == (if k + 1 < nl.len() {
                Some(nl[k + 1])
            } else {
                None::<u16>
            }) by {
                assert(nl[k] == old_list[k + 1]);
                assert(old_list[k + 1] != old_list[0]);
            }
            assert forall|i: int|
                0 <= i < CAP_TABLE_CAPACITY && i != head as int implies (#[trigger] self.caps@[i] is None
                <==> nl.contains(i as u16)) by {
                if old_list.contains(i as u16) {
                    let k = choose|k: int| 0 <= k < old_list.len() && old_list[k] == i as u16;
                    assert(k != 0);
                    assert(nl[k - 1] == i as u16);
                }
                if nl.contains(i as u16) {
                    let k = choose|k: int| 0 <= k < nl.len() && nl[k] == i as u16;
                    assert(old_list[k + 1] == i as u16);
                }
            }
            if nl.contains(head) {
                let k = choose|k: int| 0 <= k < nl.len() && nl[k] == head;
                assert(old_list[k + 1] == old_list[0]);
            }
            assert(self.caps@[head as int] is None);
        }
        Some(head)
    }

    /// Install a capability in the head of the free list, as a root
    /// (`parent` is `None`) or as the newest child of `parent`.
    #[verifier::rlimit(40)]
    #[verifier::spinoff_prover]
    fn install(&mut self, cap: Capability, parent: Option<u16>, depth: u8) -> (r: Result<
        CapHandle,
        CapError,
    >)
        requires
            old(self).wf(),
            depth <= MAX_DERIVATION_DEPTH,
            match parent {
                None => depth == 0,
                Some(p) => p < CAP_TABLE_CAPACITY && old(self).entry(p as int) is Some && depth
                    == old(self).entry(p as int)->0.depth + 1,
            },
        ensures
            final(self).wf(),
            r is Err <==> old(self).is_exhausted(),
            r matches Err(e) ==> e == CapError::CapsExhausted && old(self).unchanged(&*final(self)),
            r matches Ok(h) ==> old(self).installs(
                &*final(self),
                CapNode { rights: cap.granted(), object: cap.target(), parent, depth },
                h,
            ),
    {
        proof {
            old(self).lemma_free_list_empty_iff_exhausted();
            if old(self).free_list@.len() > 0 {
                assert(old(self).free_list@.contains(old(self).free_list@[0]));
            }
        }
        let idx = match self.pop_free() {
            Some(i) => i,
            None => return Err(CapError::CapsExhausted),
        };
        let ghost pre = *self;
        let generation = self.generations[idx as usize];
        let former_first_child = match parent {
            Some(p) => {
                if self.caps[p as usize].is_none() {
                    return Err(CapError::InvalidHandle);
                }
                self.first_child[p as usize]
            },
            None => None,
        };
        self.caps.set(idx as usize, Some(cap));
        self.parent.set(idx as usize, parent);
        self.first_child.set(idx as usize, None);
        self.next_sibling.set(idx as usize, former_first_child);
        self.depth.set(idx as usize, depth);
        let ghost mut kids = self.children@.update(idx as int, Seq::<u16>::empty());
        if let Some(p) = parent {
            self.first_child.set(p as usize, Some(idx));
            proof {
                kids = kids.update(p as int, seq![idx] + pre.children@[p as int]);
            }
        }
        self.children = Ghost(kids);
        proof {
            assert(!pre.free_list@.contains(idx));
            assert forall|j: int|
                0 <= j < CAP_TABLE_CAPACITY && #[trigger] self.caps@[j] is Some implies self.node_ok(
                j,
            ) by {
                if j == idx as int {
                    if let Some(p) = parent {
                        assert(self.children@[p as int][0] == idx);
                    }
                } else {
                    assert(pre.caps@[j] is Some);
                    assert(pre.node_ok(j));
                    let l = pre.children@[j];
                    assert forall|k: int| 0 <= k < l.len() implies l[k] != idx by {
                        assert(pre.caps@[l[k] as int] is Some);
                    }
                    if parent == Some(j as u16) {
                        let nl = self.children@[j];
                        assert(nl == seq![idx] + l);
                        assert forall|a: int, b: int|
                            0 <= a < nl.len() && 0 <= b < nl.len() && a != b implies nl[a]
                            != nl[b] by {
                            if a > 0 && b > 0 {
                                assert(nl[a] == l[a - 1]);
                                assert(nl[b] == l[b - 1]);
                            } else if a == 0 {
                                assert(nl[b] == l[b - 1]);
                            } else {
                                assert(nl[a] == l[a - 1]);
                            }
                        }
                        assert forall|k: int| 0 <= k < nl.len() implies #[trigger] self.next_sibling@[nl[k] as int]
                            == (if k + 1 < nl.len() {
                            Some(nl[k + 1])
                        } else {
                            None::<u16>
                        }) by {
                            if k > 0 {
                                assert(nl[k] == l[k - 1]);
                            }
                        }
                        assert(self.list_ok(j));
                    }
                    match self.parent@[j] {
                        Some(q) => {
                            if parent == Some(q) {
                                assert(pre.children@[q as int].contains(j as u16));
                                let w = choose|w: int| 0 <= w < pre.children@[q as int].len()
                                    && pre.children@[q as int][w] == j as u16;
                                assert(self.children@[q as int][w + 1] == j as u16);
                            }
                        },
                        None => {},
                    }
                }
            }
        }
        Ok(CapHandle { index: idx, generation })
    }

    /// Empty slot `index`, advance its generation and put it at the front
    /// of the free list.
    fn free_slot(&mut self, index: u16)
        requires
            index < CAP_TABLE_CAPACITY,
            old(self).shape_ok(),
            old(self).free_ok(index as int),
        ensures
            final(self).shape_ok(),
            final(self).free_ok(-1),
            final(self).free_list@ == seq![index] + old(self).free_list@,
            final(self).caps@ == old(self).caps@.update(index as int, None),
            final(self).generations@ == old(self).generations@.update(
                index as int,
                next_generation(old(self).generations@[index as int]),
            ),
            final(self).parent@ == old(self).parent@,
            final(self).first_child@ == old(self).first_child@,
            final(self).next_sibling@ == old(self).next_sibling@,
            final(self).depth@ == old(self).depth@,
            final(self).children@ == old(self).children@,
    {
        let old_free_head = self.free_head;
        self.free_head = Some(index);
        let i = index as usize;
        self.caps.set(i, None);
        let g = self.generations[i];
        self.generations.set(i, g.wrapping_add(1));
        self.next_free.set(i, old_free_head);
        let ghost old_list = self.free_list@;
        self.free_list = Ghost(seq![index] + old_list);
        proof {
            let nl = self.free_list@;
            assert forall|a: int, b: int| 0 <= a < nl.len() && 0 <= b < nl.len() && a != b implies nl[a]
                != nl[b] by {
                if a == 0 {
                    assert(nl[b] == old_list[b - 1]);
                } else if b == 0 {
                    assert(nl[a] == old_list[a - 1]);
                } else {
                    assert(nl[a] == old_list[a - 1]);
                    assert(nl[b] == old_list[b - 1]);
                }
            }
            assert forall|k: int| 0 <= k < nl.len() implies #[trigger] nl[k] < CAP_TABLE_CAPACITY by {
                if k > 0 {
                    assert(nl[k] == old_list[k - 1]);
                }
            }
            assert forall|k: int| 0 <= k < nl.len() implies #[trigger] self.next_free@[nl[k] as int]
                == (if k + 1 < nl.len() {
                Some(nl[k + 1])
            } else {
                None::<u16>
            }) by {
                if k > 0 {
                    assert(nl[k] == old_list[k - 1]);
                    assert(nl[k] != index);
                }
            }
            assert forall|j: int| 0 <= j < CAP_TABLE_CAPACITY && j != -1 implies (#[trigger] self.caps@[j]
                is None <==> nl.contains(j as u16)) by {
                if j == i as int {
                    assert(nl[0] == j as u16);
                } else {
                    if old_list.contains(j as u16) {
                        let k = choose|k: int| 0 <= k < old_list.len() && old_list[k] == j as u16;
                        assert(nl[k + 1] == j as u16);
                    }
                    if nl.contains(j as u16) {
                        let k = choose|k: int| 0 <= k < nl.len() && nl[k] == j as u16;
                        assert(k != 0);
                        assert(old_list[k - 1] == j as u16);
                    }
                }
            }
        }
    }

    /// Removing position `w` (slot `index`) from the child list of `p`,
    /// relinking its predecessor (or `first_child`) past it, leaves a
    /// consistent list holding the other children.
    proof fn lemma_unlinked(pre: CapabilityTable, post: CapabilityTable, p: u16, index: u16, w: int)
        requires
            pre.shape_ok(),
            pre.list_ok(p as int),
            p < CAP_TABLE_CAPACITY,
            0 <= w < pre.children@[p as int].len(),
            pre.children@[p as int][w] == index,
            post.shape_ok(),
            post.caps@ == pre.caps@,
            post.parent@ == pre.parent@,
            post.children@ == pre.children@.update(p as int, pre.children@[p as int].remove(w)),
            w == 0 ==> post.first_child@ == pre.first_child@.update(
                p as int,
                pre.next_sibling@[index as int],
            ) && post.next_sibling@ == pre.next_sibling@,
            w > 0 ==> post.first_child@ == pre.first_child@ && post.next_sibling@
                == pre.next_sibling@.update(
                pre.children@[p as int][w - 1] as int,
                pre.next_sibling@[index as int],
            ),
        ensures
            forall|c: u16|
                #![trigger post.children@[p as int].contains(c)]
                post.children@[p as int].contains(c) <==> (pre.children@[p as int].contains(c) && c
                    != index),
            post.list_ok(p as int),
            forall|q: int|
                0 <= q < CAP_TABLE_CAPACITY && q != p ==> #[trigger] post.first_child@[q]
                    == pre.first_child@[q],
            forall|j: int|
                0 <= j < CAP_TABLE_CAPACITY && !pre.children@[p as int].contains(j as u16)
                    ==> #[trigger] post.next_sibling@[j] == pre.next_sibling@[j],
    {
        let l = pre.children@[p as int];
        let nl = l.remove(w);
        assert(nl == post.children@[p as int]);
        assert forall|c2: u16| #[trigger] nl.contains(c2) <==> (l.contains(c2) && c2 != index) by {
            if nl.contains(c2) {
                let m = choose|m: int| 0 <= m < nl.len() && nl[m] == c2;
                if m < w {
                    assert(l[m] == c2);
                } else {
                    assert(l[m + 1] == c2);
                }
            }
            if l.contains(c2) && c2 != index {
                let m = choose|m: int| 0 <= m < l.len() && l[m] == c2;
                if m < w {
                    assert(nl[m] == c2);
                } else {
                    assert(nl[m - 1] == c2);
                }
            }
        }
        assert forall|m: int| 0 <= m < nl.len() implies #[trigger] nl[m] < CAP_TABLE_CAPACITY
            && post.caps@[nl[m] as int] is Some && post.parent@[nl[m] as int] == Some(p) by {
            if m >= w {
                assert(nl[m] == l[m + 1]);
            } else {
                assert(nl[m] == l[m]);
            }
        }
        assert forall|m: int| 0 <= m < nl.len() implies #[trigger] post.next_sibling@[nl[m] as int]
            == (if m + 1 < nl.len() {
            Some(nl[m + 1])
        } else {
            None::<u16>
        }) by {
            if m < w - 1 {
                assert(nl[m] == l[m]);
                assert(l[m] != l[w - 1]);
            } else if m == w - 1 {
                assert(nl[m] == l[w - 1]);
            } else {
                assert(nl[m] == l[m + 1]);
                if w > 0 {
                    assert(l[m + 1] != l[w - 1]);
                }
            }
        }
        assert forall|a: int, b: int| 0 <= a < nl.len() && 0 <= b < nl.len() && a != b implies nl[a]
            != nl[b] by {
            let a2 = if a < w {
                a
            } else {
                a + 1
            };
            let b2 = if b < w {
                b
            } else {
                b + 1
            };
            assert(nl[a] == l[a2]);
            assert(nl[b] == l[b2]);
        }
        if w > 0 {
            assert(nl[0] == l[0]);
        } else if nl.len() > 0 {
            assert(nl[0] == l[1]);
        }
        assert forall|j: int|
            0 <= j < CAP_TABLE_CAPACITY && !l.contains(j as u16) implies #[trigger] post.next_sibling@[j]
            == pre.next_sibling@[j] by {
            if w > 0 && j == l[w - 1] as int {
                assert(l.contains(l[w - 1]));
            }
        }
    }

    /// Remove the live slot `index` from its parent's child list.
    fn unlink_from_siblings(&mut self, index: u16) -> (r: Result<(), CapError>)
        requires
            old(self).wf(),
            index < CAP_TABLE_CAPACITY,
            old(self).caps@[index as int] is Some,
        ensures
            r is Ok,
            final(self).shape_ok(),
            final(self).caps@ == old(self).caps@,
            final(self).generations@ == old(self).generations@,
            final(self).next_free@ == old(self).next_free@,
            final(self).free_head == old(self).free_head,
            final(self).free_list@ == old(self).free_list@,
            final(self).parent@ == old(self).parent@,
            final(self).depth@ == old(self).depth@,
            match old(self).parent@[index as int] {
                None => *final(self) == *old(self),
                Some(p) => {
                    &&& final(self).children@ == old(self).children@.update(
                        p as int,
                        final(self).children@[p as int],
                    )
                    &&& exists|w: int|
                        0 <= w < old(self).children@[p as int].len() && old(self).children@[p as int][w]
                            == index && #[trigger] final(self).children@[p as int] == old(
                            self,
                        ).children@[p as int].remove(w)
                    &&& forall|c: u16|
                        #![trigger final(self).children@[p as int].contains(c)]
                        final(self).children@[p as int].contains(c) <==> (old(
                            self,
                        ).children@[p as int].contains(c) && c != index)
                    &&& final(self).list_ok(p as int)
                    &&& forall|q: int|
                        0 <= q < CAP_TABLE_CAPACITY && q != p ==> #[trigger] final(self).first_child@[q]
                            == old(self).first_child@[q]
                    &&& forall|j: int|
                        0 <= j < CAP_TABLE_CAPACITY && !old(self).children@[p as int].contains(
                            j as u16,
                        ) ==> #[trigger] final(self).next_sibling@[j] == old(self).next_sibling@[j]
                },
            },
    {
        let ghost pre = *self;
        proof {
            assert(pre.node_ok(index as int));
        }
        let (parent, next_sibling) = match &self.caps[index as usize] {
            Some(_) => (self.parent[index as usize], self.next_sibling[index as usize]),
            None => return Err(CapError::InvalidHandle),
        };
        let parent_idx = match parent {
            Some(p) => p,
            None => return Ok(()),
        };
        let ghost l = pre.children@[parent_idx as int];
        let ghost w = choose|w: int| 0 <= w < l.len() && l[w] == index;
        proof {
            assert(pre.caps@[parent_idx as int] is Some);
            assert(pre.node_ok(parent_idx as int));
            assert(l.contains(index));
        }
        let mut cursor = match &self.caps[parent_idx as usize] {
            Some(_) => self.first_child[parent_idx as usize],
            None => return Err(CapError::InvalidHandle),
        };
        if cursor == Some(index) {
            self.first_child.set(parent_idx as usize, next_sibling);
            self.children = Ghost(pre.children@.update(parent_idx as int, l.remove(0)));
            proof {
                assert(w == 0);
                Self::lemma_unlinked(pre, *self, parent_idx, index, w);
                assert(self.children@[parent_idx as int] == l.remove(w));
            }
            return Ok(());
        }
        let ghost mut k: int = 0;
        while cursor.is_some()
            invariant
                *self == pre,
                pre == *old(self),
                pre.shape_ok(),
                pre.list_ok(parent_idx as int),
                next_sibling == pre.next_sibling@[index as int],
                l == pre.children@[parent_idx as int],
                0 <= w < l.len(),
                l[w] == index,
                0 <= k < w,
                cursor == Some(l[k]),
                parent_idx < CAP_TABLE_CAPACITY,
                index < CAP_TABLE_CAPACITY,
                self.caps@.len() == CAP_TABLE_CAPACITY,
                self.next_sibling@.len() == CAP_TABLE_CAPACITY,
            decreases w - k,
        {
            let c = cursor.unwrap();
            assert(l[k] < CAP_TABLE_CAPACITY);
            let c_next = match &self.caps[c as usize] {
                Some(_) => self.next_sibling[c as usize],
                None => None,
            };
            assert(c_next == Some(l[k + 1]));
            if c_next == Some(index) {
                proof {
                    assert(k + 1 == w);
                }
                self.next_sibling.set(c as usize, next_sibling);
                self.children = Ghost(pre.children@.update(parent_idx as int, l.remove(w)));
                proof {
                    Self::lemma_unlinked(pre, *self, parent_idx, index, w);
                    assert(self.children@[parent_idx as int] == l.remove(w));
                }
                return Ok(());
            }
            cursor = c_next;
            proof {
                k = k + 1;
            }
        }
        Err(CapError::InvalidHandle)
    }

    /// A populated slot's `first_child` link is set exactly when some
    /// populated slot names it as parent.
    proof fn lemma_first_child_iff_has_children(&self, i: int)
        requires
            self.wf(),
            0 <= i < CAP_TABLE_CAPACITY,
            self.caps@[i] is Some,
        ensures
            self.first_child@[i] is Some <==> self.has_children(i),
            self.first_child@[i] is None ==> self.children@[i].len() == 0,
    {
        assert(self.node_ok(i));
        let l = self.children@[i];
        if l.len() > 0 {
            assert(l[0] < CAP_TABLE_CAPACITY && self.caps@[l[0] as int] is Some);
            assert(self.entry(l[0] as int) is Some);
        }
        if self.has_children(i) {
            let j = choose|j: int|
                0 <= j < CAP_TABLE_CAPACITY && #[trigger] self.entry(j) is Some && self.entry(j)->0.parent
                    == Some(i as u16);
            assert(self.node_ok(j));
            assert(l.contains(j as u16));
        }
    }

    /// Emptying a childless populated slot, after it was unlinked from its
    /// parent's child list, leaves a consistent derivation tree.
    proof fn lemma_leaf_removed(pre: CapabilityTable, mid: CapabilityTable, post: CapabilityTable, index: u16)
        requires
            pre.wf(),
            index < CAP_TABLE_CAPACITY,
            pre.caps@[index as int] is Some,
            pre.children@[index as int].len() == 0,
            mid.shape_ok(),
            mid.caps@ == pre.caps@,
            mid.parent@ == pre.parent@,
            mid.depth@ == pre.depth@,
            match pre.parent@[index as int] {
                None => mid.first_child@ == pre.first_child@ && mid.next_sibling@ == pre.next_sibling@
                    && mid.children@ == pre.children@,
                Some(p) => {
                    &&& mid.children@ == pre.children@.update(p as int, mid.children@[p as int])
                    &&& forall|c: u16|
                        #![trigger mid.children@[p as int].contains(c)]
                        mid.children@[p as int].contains(c) <==> (pre.children@[p as int].contains(
                            c,
                        ) && c != index)
                    &&& mid.list_ok(p as int)
                    &&& forall|q: int|
                        0 <= q < CAP_TABLE_CAPACITY && q != p ==> #[trigger] mid.first_child@[q]
                            == pre.first_child@[q]
                    &&& forall|j: int|
                        0 <= j < CAP_TABLE_CAPACITY && !pre.children@[p as int].contains(j as u16)
                            ==> #[trigger] mid.next_sibling@[j] == pre.next_sibling@[j]
                },
            },
            post.shape_ok(),
            post.caps@ == pre.caps@.update(index as int, None),
            post.parent@ == mid.parent@,
            post.depth@ == mid.depth@,
            post.first_child@ == mid.first_child@,
            post.next_sibling@ == mid.next_sibling@,
            post.children@ == mid.children@,
        ensures
            post.tree_ok(),
    {
        assert forall|j: int|
            0 <= j < CAP_TABLE_CAPACITY && #[trigger] post.caps@[j] is Some implies post.node_ok(j) by {
            assert(j != index as int);
            assert(pre.caps@[j] is Some);
            assert(pre.node_ok(j));
            match pre.parent@[j] {
                Some(q) => {
                    if q == index {
                        assert(pre.children@[index as int].contains(j as u16));
                    }
                    assert(pre.caps@[q as int] is Some);
                },
                None => {
                    match pre.parent@[index as int] {
                        Some(p) => {
                            if pre.children@[p as int].contains(j as u16) {
                                assert(pre.node_ok(p as int));
                                let k = choose|k: int|
                                    0 <= k < pre.children@[p as int].len()
                                        && pre.children@[p as int][k] == j as u16;
                                assert(pre.parent@[j] == Some(p));
                            }
                        },
                        None => {},
                    }
                },
            }
            let l = post.children@[j];
            match pre.parent@[index as int] {
                Some(p) => {
                    if j == p as int {
                        assert(mid.list_ok(j));
                        assert forall|k: int| 0 <= k < l.len() implies #[trigger] l[k] < CAP_TABLE_CAPACITY
                            && post.caps@[l[k] as int] is Some && post.parent@[l[k] as int] == Some(
                            j as u16,
                        ) by {
                            assert(mid.children@[p as int].contains(l[k]));
                        }
                    } else {
                        assert(l == pre.children@[j]);
                        assert(pre.list_ok(j));
                        assert forall|k: int| 0 <= k < l.len() implies #[trigger] l[k] < CAP_TABLE_CAPACITY
                            && post.caps@[l[k] as int] is Some && post.parent@[l[k] as int] == Some(
                            j as u16,
                        ) by {
                            assert(pre.parent@[l[k] as int] == Some(j as u16));
                        }
                        assert forall|k: int| 0 <= k < l.len() implies #[trigger] post.next_sibling@[l[k] as int]
                            == (if k + 1 < l.len() {
                            Some(l[k + 1])
                        } else {
                            None::<u16>
                        }) by {
                            assert(pre.parent@[l[k] as int] == Some(j as u16));
                            if pre.children@[p as int].contains(l[k]) {
                                assert(pre.node_ok(p as int));
                                let m = choose|m: int|
                                    0 <= m < pre.children@[p as int].len()
                                        && pre.children@[p as int][m] == l[k];
                            }
                        }
                    }
                },
                None => {
                    assert(pre.list_ok(j));
                    assert forall|k: int| 0 <= k < l.len() implies #[trigger] l[k] < CAP_TABLE_CAPACITY
                        && post.caps@[l[k] as int] is Some && post.parent@[l[k] as int] == Some(
                        j as u16,
                    ) by {
                        assert(pre.parent@[l[k] as int] == Some(j as u16));
                    }
                },
            }
            match pre.parent@[j] {
                Some(q) => {
                    match pre.parent@[index as int] {
                        Some(p) => {
                            if q == p {
                                assert(mid.children@[p as int].contains(j as u16));
                            }
                        },
                        None => {},
                    }
                },
                None => {},
            }
        }
    }

    // ----- derivation-tree lemmas -----

    /// A populated slot derived from `p` descends from `a` exactly when `p`
    /// is `a` or itself descends from `a`.
    proof fn lemma_child_step(&self, c: int, a: int)
        requires
            self.wf(),
            0 <= c < CAP_TABLE_CAPACITY,
            0 <= a < CAP_TABLE_CAPACITY,
            self.caps@[c] is Some,
            self.caps@[a] is Some,
        ensures
            match self.parent@[c] {
                Some(p) => self.is_descendant(c, a) <==> (p as int == a || self.is_descendant(
                    p as int,
                    a,
                )),
                None => !self.is_descendant(c, a),
            },
    {
        assert(self.node_ok(c));
        match self.parent@[c] {
            Some(p) => {
                let dc = self.depth@[c] as int;
                let da = self.depth@[a] as int;
                let dp = self.depth@[p as int] as int;
                assert(dc == dp + 1);
                if dc > da {
                    assert(self.ancestor(c, (dc - da) as nat) == self.ancestor(
                        p as int,
                        (dc - da - 1) as nat,
                    ));
                    if dp == da {
                        assert(self.ancestor(p as int, 0) == Some(p));
                    }
                }
            },
            None => {},
        }
    }

    /// Slot `a` does not descend from itself.
    proof fn lemma_not_own_descendant(&self, a: int)
        ensures
            !self.is_descendant(a, a),
    {
    }

    /// A list of distinct slot indices avoiding `src` has at most
    /// `CAP_TABLE_CAPACITY - 1` entries.
    proof fn lemma_distinct_slots_bound(q: Seq<u16>, src: u16)
        requires
            q.no_duplicates(),
            src < CAP_TABLE_CAPACITY,
            forall|k: int| 0 <= k < q.len() ==> #[trigger] q[k] < CAP_TABLE_CAPACITY && q[k] != src,
        ensures
            q.len() < CAP_TABLE_CAPACITY,
    {
        let all = Set::<u16>::range(0, CAP_TABLE_CAPACITY as u16);
        vstd::set_lib::range_set_properties::<u16>(0, CAP_TABLE_CAPACITY as u16);
        let others = all.remove(src);
        assert(all.contains(src));
        q.unique_seq_to_set();
        assert forall|x: u16| q.to_set().contains(x) implies others.contains(x) by {
            let k = choose|k: int| 0 <= k < q.len() && q[k] == x;
        }
        vstd::set_lib::lemma_len_subset(q.to_set(), others);
    }

    /// A list holding every child of `a`, and every child of each of its
    /// members, holds every descendant of `a`.
    proof fn lemma_closed_holds_descendants(&self, a: int, q: Seq<u16>, j: int)
        requires
            self.wf(),
            0 <= a < CAP_TABLE_CAPACITY,
            self.caps@[a] is Some,
            forall|c: int|
                0 <= c < CAP_TABLE_CAPACITY && #[trigger] self.caps@[c] is Some && self.parent@[c]
                    == Some(a as u16) ==> q.contains(c as u16),
            forall|c: int, x: u16|
                0 <= c < CAP_TABLE_CAPACITY && #[trigger] self.caps@[c] is Some && #[trigger] q.contains(x)
                    && self.parent@[c] == Some(x) ==> q.contains(c as u16),
            self.is_descendant(j, a),
        ensures
            q.contains(j as u16),
        decreases self.depth@[j] - self.depth@[a],
    {
        self.lemma_child_step(j, a);
        match self.parent@[j] {
            Some(p) => {
                assert(self.node_ok(j));
                if p as int != a {
                    self.lemma_closed_holds_descendants(a, q, p as int);
                }
            },
            None => {},
        }
    }

    /// Every slot in `q` descends from `si`, `q` has no repeats, and each
    /// entry's parent is `si` (`pp[j] == -1`) or an earlier-scanned entry
    /// `q[pp[j]]` with `pp[j] < scan`.
    spec fn bfs_ok(&self, si: int, q: Seq<u16>, pp: Seq<int>, scan: int) -> bool {
        &&& q.no_duplicates()
        &&& pp.len() == q.len()
        &&& forall|k: int|
            0 <= k < q.len() ==> #[trigger] q[k] < CAP_TABLE_CAPACITY && self.is_descendant(
                q[k] as int,
                si,
            )
        &&& forall|j: int|
            0 <= j < q.len() ==> (#[trigger] pp[j] == -1 && self.parent@[q[j] as int] == Some(
                si as u16,
            )) || (0 <= pp[j] < scan && pp[j] < q.len() && self.parent@[q[j] as int] == Some(
                q[pp[j]],
            ))
    }

    /// Every child recorded for slot `x` is in `q`.
    spec fn covers(&self, q: Seq<u16>, x: int) -> bool {
        forall|t: int| 0 <= t < self.children@[x].len() ==> q.contains(#[trigger] self.children@[x][t])
    }

    /// Appending `g`, the `m`-th child of `q[scan]` whose earlier siblings
    /// were appended after `q0`, keeps the breadth-first list consistent
    /// and within the table's capacity.
    proof fn lemma_bfs_push(
        &self,
        si: int,
        q0: Seq<u16>,
        q: Seq<u16>,
        pp: Seq<int>,
        scan: int,
        m: int,
    )
        requires
            self.wf(),
            0 <= si < CAP_TABLE_CAPACITY,
            self.caps@[si] is Some,
            0 <= scan < q0.len(),
            self.bfs_ok(si, q, pp, scan + 1),
            forall|j: int| 0 <= j < q0.len() ==> #[trigger] pp[j] < scan,
            q == q0 + self.children@[q0[scan] as int].subrange(0, m),
            0 <= m < self.children@[q0[scan] as int].len(),
        ensures
            self.bfs_ok(
                si,
                q.push(self.children@[q0[scan] as int][m]),
                pp.push(scan),
                scan + 1,
            ),
            q.len() + 1 < CAP_TABLE_CAPACITY,
    {
        let idx = q0[scan] as int;
        let l = self.children@[idx];
        let g = l[m];
        assert(q[scan] == q0[scan]);
        assert(self.is_descendant(idx, si));
        assert(self.caps@[idx] is Some);
        assert(self.node_ok(idx));
        assert(g < CAP_TABLE_CAPACITY && self.caps@[g as int] is Some && self.parent@[g as int] == Some(
            idx as u16,
        ));
        self.lemma_child_step(g as int, si);
        assert(self.is_descendant(g as int, si));
        if q.contains(g) {
            let j = choose|j: int| 0 <= j < q.len() && q[j] == g;
            if pp[j] == -1 {
                self.lemma_not_own_descendant(si);
            } else if j < q0.len() {
                assert(pp[j] < scan);
                assert(q[pp[j]] == q[scan]);
            } else {
                assert(q[j] == l[j - q0.len()]);
            }
        }
        let nq = q.push(g);
        let npp = pp.push(scan);
        assert forall|a: int, b: int| 0 <= a < nq.len() && 0 <= b < nq.len() && a != b implies nq[a]
            != nq[b] by {
            if a < q.len() && b < q.len() {
                assert(nq[a] == q[a] && nq[b] == q[b]);
            } else if a < q.len() {
                assert(nq[a] == q[a]);
            } else {
                assert(nq[b] == q[b]);
            }
        }
        assert forall|k: int| 0 <= k < nq.len() implies #[trigger] nq[k] < CAP_TABLE_CAPACITY
            && self.is_descendant(nq[k] as int, si) by {
            if k < q.len() {
                assert(nq[k] == q[k]);
            }
        }
        assert forall|j: int|
            0 <= j < nq.len() implies (#[trigger] npp[j] == -1 && self.parent@[nq[j] as int] == Some(
            si as u16,
        )) || (0 <= npp[j] < scan + 1 && npp[j] < nq.len() && self.parent@[nq[j] as int] == Some(
            nq[npp[j]],
        )) by {
            if j < q.len() {
                assert(nq[j] == q[j] && npp[j] == pp[j]);
                if npp[j] != -1 {
                    assert(nq[npp[j]] == q[pp[j]]);
                }
            } else {
                assert(nq[scan] == q[scan]);
            }
        }
        assert forall|k: int| 0 <= k < nq.len() implies #[trigger] nq[k] < CAP_TABLE_CAPACITY
            && nq[k] != si as u16 by {
            self.lemma_not_own_descendant(si);
        }
        Self::lemma_distinct_slots_bound(nq, si as u16);
    }

    /// When the breadth-first scan is complete, its list holds exactly the
    /// descendants of `si`.
    proof fn lemma_bfs_complete(&self, si: int, q: Seq<u16>, pp: Seq<int>)
        requires
            self.wf(),
            0 <= si < CAP_TABLE_CAPACITY,
            self.caps@[si] is Some,
            self.bfs_ok(si, q, pp, q.len() as int),
            self.covers(q, si),
            forall|k: int| 0 <= k < q.len() ==> #[trigger] self.covers(q, q[k] as int),
        ensures
            q.to_set() == self.descendants(si),
    {
        assert forall|c: int|
            0 <= c < CAP_TABLE_CAPACITY && #[trigger] self.caps@[c] is Some && self.parent@[c] == Some(
                si as u16,
            ) implies q.contains(c as u16) by {
            assert(self.node_ok(c));
            let t = choose|t: int|
                0 <= t < self.children@[si].len() && self.children@[si][t] == c as u16;
        }
        assert forall|c: int, x: u16|
            0 <= c < CAP_TABLE_CAPACITY && #[trigger] self.caps@[c] is Some && #[trigger] q.contains(x)
                && self.parent@[c] == Some(x) implies q.contains(c as u16) by {
            let k = choose|k: int| 0 <= k < q.len() && q[k] == x;
            assert(self.covers(q, q[k] as int));
            assert(self.node_ok(c));
            let t = choose|t: int|
                0 <= t < self.children@[x as int].len() && self.children@[x as int][t] == c as u16;
        }
        assert forall|j: u16| #[trigger] q.to_set().contains(j) <==> self.descendants(si).contains(j) by {
            if self.is_descendant(j as int, si) {
                self.lemma_closed_holds_descendants(si, q, j as int);
            }
            if q.contains(j) {
                let k = choose|k: int| 0 <= k < q.len() && q[k] == j;
            }
        }
        assert(q.to_set() =~= self.descendants(si));
    }

    /// Emptying exactly the descendants of `si` and clearing its child
    /// list leaves a consistent derivation tree.
    proof fn lemma_subtree_removed(pre: CapabilityTable, post: CapabilityTable, si: int, q: Seq<u16>)
        requires
            pre.wf(),
            0 <= si < CAP_TABLE_CAPACITY,
            pre.caps@[si] is Some,
            q.to_set() == pre.descendants(si),
            post.shape_ok(),
            forall|i: int|
                0 <= i < CAP_TABLE_CAPACITY ==> #[trigger] post.caps@[i] == (if q.contains(i as u16) {
                    None
                } else {
                    pre.caps@[i]
                }),
            post.parent@ == pre.parent@,
            post.depth@ == pre.depth@,
            post.next_sibling@ == pre.next_sibling@,
            post.first_child@ == pre.first_child@.update(si, None),
            post.children@ == pre.children@.update(si, Seq::<u16>::empty()),
        ensures
            post.tree_ok(),
    {
        assert(!q.contains(si as u16)) by {
            pre.lemma_not_own_descendant(si);
            assert(!q.to_set().contains(si as u16));
        }
        assert forall|j: int|
            0 <= j < CAP_TABLE_CAPACITY && #[trigger] post.caps@[j] is Some implies post.node_ok(j) by {
            assert(!q.contains(j as u16));
            assert(pre.caps@[j] is Some);
            assert(pre.node_ok(j));
            assert(!pre.is_descendant(j, si)) by {
                assert(!q.to_set().contains(j as u16));
            }
            pre.lemma_child_step(j, si);
            match pre.parent@[j] {
                Some(p) => {
                    assert(p as int != si);
                    assert(!pre.is_descendant(p as int, si));
                    assert(!q.contains(p)) by {
                        if q.contains(p) {
                            assert(q.to_set().contains(p));
                        }
                    }
                },
                None => {},
            }
            if j != si {
                let l = pre.children@[j];
                assert(pre.list_ok(j));
                assert forall|k: int| 0 <= k < l.len() implies #[trigger] l[k] < CAP_TABLE_CAPACITY
                    && post.caps@[l[k] as int] is Some && post.parent@[l[k] as int] == Some(j as u16) by {
                    assert(pre.caps@[l[k] as int] is Some);
                    pre.lemma_child_step(l[k] as int, si);
                    if q.contains(l[k]) {
                        assert(q.to_set().contains(l[k]));
                        assert(pre.descendants(si).contains(l[k]));
                    }
                }
            }
        }
    }

    /// The table left by emptying the breadth-first list `q` of
    /// descendants (freed in order, so the free list gained `q` reversed)
    /// and clearing `si`'s child list is consistent and is `pre` with the
    /// subtree of `si` revoked.
    proof fn lemma_revoke_finish(
        pre: CapabilityTable,
        post: CapabilityTable,
        si: int,
        q: Seq<u16>,
        fresh: Seq<u16>,
    )
        requires
            pre.wf(),
            0 <= si < CAP_TABLE_CAPACITY,
            pre.caps@[si] is Some,
            q.no_duplicates(),
            q.to_set() == pre.descendants(si),
            post.shape_ok(),
            post.free_ok(-1),
            fresh.len() == q.len(),
            forall|t: int| 0 <= t < q.len() ==> #[trigger] fresh[t] == q[q.len() - 1 - t],
            post.free_list@ == fresh + pre.free_list@,
            forall|i: int|
                0 <= i < CAP_TABLE_CAPACITY ==> #[trigger] post.caps@[i] == (if q.contains(i as u16) {
                    None
                } else {
                    pre.caps@[i]
                }) && post.generations@[i] == (if q.contains(i as u16) {
                    next_generation(pre.generations@[i])
                } else {
                    pre.generations@[i]
                }),
            post.parent@ == pre.parent@,
            post.depth@ == pre.depth@,
            post.next_sibling@ == pre.next_sibling@,
            post.first_child@ == pre.first_child@.update(si, None),
            post.children@ == pre.children@.update(si, Seq::<u16>::empty()),
        ensures
            post.wf(),
            pre.revokes_with(&post, si, fresh),
    {
        Self::lemma_subtree_removed(pre, post, si, q);
        let d = pre.descendants(si);
        assert forall|a: int, b: int| 0 <= a < fresh.len() && 0 <= b < fresh.len() && a != b implies fresh[a]
            != fresh[b] by {
            assert(fresh[a] == q[q.len() - 1 - a]);
            assert(fresh[b] == q[q.len() - 1 - b]);
        }
        assert forall|x: u16| #[trigger] fresh.to_set().contains(x) <==> q.to_set().contains(x) by {
            if fresh.contains(x) {
                let t = choose|t: int| 0 <= t < fresh.len() && fresh[t] == x;
                assert(q[q.len() - 1 - t] == x);
            }
            if q.contains(x) {
                let t = choose|t: int| 0 <= t < q.len() && q[t] == x;
                assert(fresh[q.len() - 1 - t] == x);
            }
        }
        assert(fresh.to_set() =~= d);
        assert forall|i: int| #![trigger post.entry(i)] 0 <= i < CAP_TABLE_CAPACITY implies if d.contains(i as u16) {
            post.entry(i) is None && post.generation(i) == next_generation(pre.generation(i))
        } else {
            post.entry(i) == pre.entry(i) && post.generation(i) == pre.generation(i)
        } by {
            assert(q.contains(i as u16) == q.to_set().contains(i as u16));
        }
    }

    /// The child list of `si`, each entry tagged as a child of `si`, starts
    /// a consistent breadth-first scan that covers `si`.
    proof fn lemma_bfs_seeded(&self, si: int, pp: Seq<int>)
        requires
            self.wf(),
            0 <= si < CAP_TABLE_CAPACITY,
            self.caps@[si] is Some,
            pp == Seq::new(self.children@[si].len(), |j: int| -1int),
        ensures
            self.bfs_ok(si, self.children@[si], pp, 0),
            self.covers(self.children@[si], si),
    {
        let q = self.children@[si];
        assert(self.node_ok(si));
        assert forall|k: int| 0 <= k < q.len() implies #[trigger] q[k] < CAP_TABLE_CAPACITY
            && self.is_descendant(q[k] as int, si) by {
            assert(self.caps@[q[k] as int] is Some);
            self.lemma_child_step(q[k] as int, si);
        }
        assert forall|t: int| 0 <= t < q.len() implies q.contains(#[trigger] self.children@[si][t]) by {
            assert(q[t] == q[t]);
        }
    }

    // ----- queries -----

    /// Validate a handle and return its slot index.
    fn resolve_handle(&self, handle: CapHandle) -> (r: Result<u16, CapError>)
        requires
            self.wf(),
        ensures
            r is Ok <==> self.live(handle),
            r matches Ok(i) ==> i == handle.idx(),
            r matches Err(e) ==> e == CapError::InvalidHandle,
    {
        let i = handle.index as usize;
        if i >= self.caps.len() {
            return Err(CapError::InvalidHandle);
        }
        if self.generations[i] != handle.generation {
            return Err(CapError::InvalidHandle);
        }
        if self.caps[i].is_none() {
            return Err(CapError::InvalidHandle);
        }
        Ok(handle.index)
    }

    /// Validate a handle and return its capability, parent slot and depth.
    fn entry_of(&self, handle: CapHandle) -> (r: Result<(&Capability, Option<u16>, u8), CapError>)
        requires
            self.wf(),
        ensures
            r is Ok <==> self.live(handle),
            r matches Ok((c, parent, depth)) ==> c.granted() == self.node(handle).rights
                && c.target() == self.node(handle).object && parent == self.node(handle).parent
                && depth == self.node(handle).depth,
            r matches Err(e) ==> e == CapError::InvalidHandle,
    {
        let i = self.resolve_handle(handle)?;
        match &self.caps[i as usize] {
            Some(c) => Ok((c, self.parent[i as usize], self.depth[i as usize])),
            None => Err(CapError::InvalidHandle),
        }
    }

    /// Return `true` when `handle` is live and some capability was derived
    /// from it.
    pub fn has_derived(&self, handle: CapHandle) -> (r: bool)
        requires
            self.wf(),
        ensures
            r == (self.live(handle) && self.has_children(handle.idx() as int)),
    {
        let i = match self.resolve_handle(handle) {
            Ok(i) => i,
            Err(_) => return false,
        };
        proof {
            self.lemma_first_child_iff_has_children(i as int);
        }
        self.first_child[i as usize].is_some()
    }

    /// Return the capability at `handle`, or
    /// [`CapError::InvalidHandle`] exactly when the handle is not live.
    pub fn lookup(&self, handle: CapHandle) -> (r: Result<&Capability, CapError>)
        requires
            self.wf(),
        ensures
            r is Ok <==> self.live(handle),
            r matches Ok(c) ==> c.granted() == self.node(handle).rights && c.target() == self.node(
                handle,
            ).object,
            r matches Err(e) ==> e == CapError::InvalidHandle,
    {
        let (c, _, _) = self.entry_of(handle)?;
        Ok(c)
    }

    /// Return `true` exactly when every slot is occupied.
    pub fn is_full(&self) -> (r: bool)
        requires
            self.wf(),
        ensures
            r == self.is_exhausted(),
    {
        proof {
            self.lemma_free_list_empty_iff_exhausted();
        }
        self.free_head.is_none()
    }

    /// Return `true` exactly when some live capability names `target`.
    pub fn references_object(&self, target: CapObject) -> (r: bool)
        requires
            self.wf(),
        ensures
            r == self.references(target),
    {
        let mut i: usize = 0;
        while i < self.caps.len()
            invariant
                self.wf(),
                i <= CAP_TABLE_CAPACITY,
                forall|j: int|
                    0 <= j < i ==> !(#[trigger] self.entry(j) is Some && self.entry(j)->0.object
                        == target),
            decreases CAP_TABLE_CAPACITY - i,
        {
            match &self.caps[i] {
                Some(c) => {
                    if c.object() == target {
                        assert(self.entry(i as int) is Some);
                        return true;
                    }
                },
                None => {},
            }
            i = i + 1;
        }
        false
    }
    /// Insert a root capability, one with no parent, into the head of the
    /// free list.
    ///
    /// Fails with [`CapError::CapsExhausted`], leaving the table unchanged,
    /// exactly when every slot is occupied.
    pub fn insert_root(&mut self, cap: Capability) -> (r: Result<CapHandle, CapError>)
        requires
            old(self).wf(),
        ensures
            final(self).wf(),
            r is Err <==> old(self).is_exhausted(),
            r matches Err(e) ==> e == CapError::CapsExhausted && old(self).unchanged(&*final(self)),
            r matches Ok(h) ==> old(self).installs(
                &*final(self),
                CapNode { rights: cap.granted(), object: cap.target(), parent: None, depth: 0 },
                h,
            ),
    {
        self.install(cap, None, 0)
    }

    /// Install a peer of `src`: same object, rights narrowed to
    /// `new_rights`, same parent and depth in the derivation tree.
    ///
    /// Errors, checked in this order, each leaving the table unchanged:
    /// [`CapError::InvalidHandle`] if `src` is not live,
    /// [`CapError::InsufficientRights`] if `src` lacks `DUPLICATE`,
    /// [`CapError::WidenedRights`] if `new_rights` is not a subset of
    /// `src`'s rights, [`CapError::CapsExhausted`] if the table is full.
    pub fn cap_copy(&mut self, src: CapHandle, new_rights: CapRights) -> (r: Result<
        CapHandle,
        CapError,
    >)
        requires
            old(self).wf(),
        ensures
            final(self).wf(),
            r is Err <==> old(self).copy_error(src, new_rights) is Some,
            old(self).live(src) && !bits_include(old(self).node(src).rights.bits(), DUPLICATE_BIT)
                ==> r == Err::<CapHandle, CapError>(CapError::InsufficientRights) && old(
                self,
            ).unchanged(&*final(self)),
            r matches Err(e) ==> old(self).copy_error(src, new_rights) == Some(e) && old(
                self,
            ).unchanged(&*final(self)),
            r is Ok ==> old(self).node(src).rights.includes(new_rights),
            r matches Ok(h) ==> old(self).installs(
                &*final(self),
                CapNode {
                    rights: new_rights,
                    object: old(self).node(src).object,
                    parent: old(self).node(src).parent,
                    depth: old(self).node(src).depth,
                },
                h,
            ),
    {
        let (rights, object, parent, depth) = {
            let (cap, parent, depth) = self.entry_of(src)?;
            (cap.rights(), cap.object(), parent, depth)
        };
        if !rights.contains(CapRights::duplicate()) {
            return Err(CapError::InsufficientRights);
        }
        if !rights.contains(new_rights) {
            return Err(CapError::WidenedRights);
        }
        proof {
            assert(self.caps@[src.idx() as int] is Some);
            assert(self.node_ok(src.idx() as int));
        }
        self.install(Capability::new(new_rights, object), parent, depth)
    }

    /// Install a child of `src` naming `new_object` with rights narrowed
    /// to `new_rights`, one level deeper in the derivation tree.
    ///
    /// Errors, checked in this order, each leaving the table unchanged:
    /// [`CapError::InvalidHandle`] if `src` is not live,
    /// [`CapError::InsufficientRights`] if `src` lacks `DERIVE`,
    /// [`CapError::WidenedRights`] if `new_rights` is not a subset of
    /// `src`'s rights, [`CapError::DerivationTooDeep`] if the child would
    /// be deeper than [`MAX_DERIVATION_DEPTH`], [`CapError::CapsExhausted`]
    /// if the table is full.
    pub fn cap_derive(&mut self, src: CapHandle, new_rights: CapRights, new_object: CapObject) -> (r:
        Result<CapHandle, CapError>)
        requires
            old(self).wf(),
        ensures
            final(self).wf(),
            r is Err <==> old(self).derive_error(src, new_rights) is Some,
            old(self).live(src) && !bits_include(old(self).node(src).rights.bits(), DERIVE_BIT)
                ==> r == Err::<CapHandle, CapError>(CapError::InsufficientRights) && old(
                self,
            ).unchanged(&*final(self)),
            r matches Err(e) ==> old(self).derive_error(src, new_rights) == Some(e) && old(
                self,
            ).unchanged(&*final(self)),
            r is Ok ==> old(self).node(src).rights.includes(new_rights),
            r matches Ok(h) ==> old(self).installs(
                &*final(self),
                CapNode {
                    rights: new_rights,
                    object: new_object,
                    parent: Some(src.idx()),
                    depth: (old(self).node(src).depth + 1) as u8,
                },
                h,
            ),
    {
        let (rights, parent_index, parent_depth) = {
            let (cap, _, depth) = self.entry_of(src)?;
            (cap.rights(), src.index, depth)
        };
        if !rights.contains(CapRights::derive()) {
            return Err(CapError::InsufficientRights);
        }
        if !rights.contains(new_rights) {
            return Err(CapError::WidenedRights);
        }
        let new_depth_usize = (parent_depth as usize).saturating_add(1);
        if new_depth_usize > MAX_DERIVATION_DEPTH {
            return Err(CapError::DerivationTooDeep);
        }
        let new_depth = new_depth_usize as u8;
        self.install(Capability::new(new_rights, new_object), Some(parent_index), new_depth)
    }

    /// The error `cap_drop(handle)` / `cap_take(handle)` reports, or `None`
    /// when it succeeds.
    pub open spec fn remove_error(&self, handle: CapHandle) -> Option<CapError> {
        if !self.live(handle) {
            Some(CapError::InvalidHandle)
        } else if self.has_children(handle.idx() as int) {
            Some(CapError::HasChildren)
        } else {
            None
        }
    }

    /// Unlinking slot `index` and then freeing it removes it from its
    /// parent's child list, at the place it held, and leaves every other
    /// child list as it was.
    proof fn lemma_unlink_child_lists(pre: CapabilityTable, mid: CapabilityTable, post: CapabilityTable, index: u16)
        requires
            pre.wf(),
            index < CAP_TABLE_CAPACITY,
            pre.caps@[index as int] is Some,
            post.children@ == mid.children@,
            post.parent@ == pre.parent@,
            match pre.parent@[index as int] {
                None => mid.children@ == pre.children@,
                Some(p) => {
                    &&& mid.children@ == pre.children@.update(p as int, mid.children@[p as int])
                    &&& exists|w: int|
                        0 <= w < pre.children@[p as int].len() && pre.children@[p as int][w] == index
                            && #[trigger] mid.children@[p as int] == pre.children@[p as int].remove(w)
                },
            },
        ensures
            match pre.entry(index as int)->0.parent {
                Some(p) => exists|w: int|
                    0 <= w < pre.child_list(p as int).len() && pre.child_list(p as int)[w] == index
                        && #[trigger] post.child_list(p as int) == pre.child_list(p as int).remove(w),
                None => true,
            },
            forall|i: int|
                0 <= i < CAP_TABLE_CAPACITY && pre.entry(index as int)->0.parent != Some(i as u16)
                    ==> #[trigger] post.child_list(i) == pre.child_list(i),
    {
        assert(pre.node_ok(index as int));
        match pre.parent@[index as int] {
            Some(p) => {
                let w = choose|w: int|
                    0 <= w < pre.children@[p as int].len() && pre.children@[p as int][w] == index
                        && #[trigger] mid.children@[p as int] == pre.children@[p as int].remove(w);
                assert(post.child_list(p as int) == pre.child_list(p as int).remove(w));
                assert forall|i: int|
                    0 <= i < CAP_TABLE_CAPACITY && pre.entry(index as int)->0.parent != Some(i as u16)
                        implies #[trigger] post.child_list(i) == pre.child_list(i) by {
                    assert(i != p as int);
                }
            },
            None => {},
        }
    }

    /// Release the capability at `handle`; peers and siblings are
    /// unaffected.
    ///
    /// Fails, leaving the table unchanged, with [`CapError::InvalidHandle`]
    /// if `handle` is not live and with [`CapError::HasChildren`] if some
    /// capability was derived from it (revoke those first).
    pub fn cap_drop(&mut self, handle: CapHandle) -> (r: Result<(), CapError>)
        requires
            old(self).wf(),
        ensures
            final(self).wf(),
            r is Err <==> old(self).remove_error(handle) is Some,
            r matches Err(e) ==> old(self).remove_error(handle) == Some(e) && old(self).unchanged(
                &*final(self),
            ),
            r is Ok ==> old(self).removes(&*final(self), handle),
    {
        let index = self.resolve_handle(handle)?;
        let has_children = match &self.caps[index as usize] {
            Some(_) => self.first_child[index as usize].is_some(),
            None => return Err(CapError::InvalidHandle),
        };
        proof {
            self.lemma_first_child_iff_has_children(index as int);
        }
        if has_children {
            return Err(CapError::HasChildren);
        }
        let ghost pre = *self;
        self.unlink_from_siblings(index)?;
        let ghost mid = *self;
        self.free_slot(index);
        proof {
            Self::lemma_leaf_removed(pre, mid, *self, index);
            assert forall|i: int|
                0 <= i < CAP_TABLE_CAPACITY && i != handle.idx() implies #[trigger] self.entry(i)
                == pre.entry(i) && self.generation(i) == pre.generation(i) by {}
            Self::lemma_unlink_child_lists(pre, mid, *self, index);
        }
        Ok(())
    }

    /// Remove the capability at `handle` and hand it to the caller; behaves
    /// like [`CapabilityTable::cap_drop`] otherwise.
    ///
    /// Fails, leaving the table unchanged, with [`CapError::InvalidHandle`]
    /// if `handle` is not live and with [`CapError::HasChildren`] if some
    /// capability was derived from it.
    pub fn cap_take(&mut self, handle: CapHandle) -> (r: Result<Capability, CapError>)
        requires
            old(self).wf(),
        ensures
            final(self).wf(),
            r is Err <==> old(self).remove_error(handle) is Some,
            r matches Err(e) ==> old(self).remove_error(handle) == Some(e) && old(self).unchanged(
                &*final(self),
            ),
            r matches Ok(c) ==> c.granted() == old(self).node(handle).rights && c.target() == old(
                self,
            ).node(handle).object && old(self).removes(&*final(self), handle),
    {
        let index = self.resolve_handle(handle)?;
        let has_children = match &self.caps[index as usize] {
            Some(_) => self.first_child[index as usize].is_some(),
            None => return Err(CapError::InvalidHandle),
        };
        proof {
            self.lemma_first_child_iff_has_children(index as int);
        }
        if has_children {
            return Err(CapError::HasChildren);
        }
        let ghost pre = *self;
        self.unlink_from_siblings(index)?;
        let ghost mid = *self;
        let mut taken: Option<Capability> = None;
        self.caps.set_and_swap(index as usize, &mut taken);
        let cap = match taken {
            Some(c) => c,
            None => return Err(CapError::InvalidHandle),
        };
        self.free_slot(index);
        proof {
            assert(self.caps@ == pre.caps@.update(index as int, None));
            Self::lemma_leaf_removed(pre, mid, *self, index);
            assert forall|i: int|
                0 <= i < CAP_TABLE_CAPACITY && i != handle.idx() implies #[trigger] self.entry(i)
                == pre.entry(i) && self.generation(i) == pre.generation(i) by {}
            Self::lemma_unlink_child_lists(pre, mid, *self, index);
        }
        Ok(cap)
    }

    /// Once the breadth-first list has been expanded past its end, further
    /// steps leave it unchanged.
    proof fn lemma_bfs_prefix_stable(&self, a: int, s: nat, t: nat)
        requires
            s <= t,
            s >= self.bfs_prefix(a, s).len(),
        ensures
            self.bfs_prefix(a, t) == self.bfs_prefix(a, s),
        decreases t - s,
    {
        if s < t {
            assert(self.bfs_prefix(a, (s + 1) as nat) == self.bfs_prefix(a, s));
            self.lemma_bfs_prefix_stable(a, (s + 1) as nat, t);
        }
    }

    /// Collect the descendants of the live slot `src_index` breadth-first
    /// into a scratch list of [`CAP_TABLE_CAPACITY`] entries, returning the
    /// list and how many entries it holds.
    #[verifier::rlimit(60)]
    #[verifier::spinoff_prover]
    fn collect_descendants(&self, src_index: u16) -> (r: (Vec<u16>, usize))
        requires
            self.wf(),
            src_index < CAP_TABLE_CAPACITY,
            self.caps@[src_index as int] is Some,
        ensures
            r.0@.len() == CAP_TABLE_CAPACITY,
            r.1 < CAP_TABLE_CAPACITY,
            r.0@.take(r.1 as int).no_duplicates(),
            r.0@.take(r.1 as int).to_set() == self.descendants(src_index as int),
            r.0@.take(r.1 as int) == self.revoke_order(src_index as int),
    {
        let ghost pre = *self;
        let ghost si = src_index as int;
        // Collect the descendants breadth-first into a fixed-size scratch list.
        let mut descendants: Vec<u16> = vec![0u16; CAP_TABLE_CAPACITY];
        let mut desc_len: usize = 0;
        let ghost mut q: Seq<u16> = Seq::empty();
        let ghost mut pp: Seq<int> = Seq::empty();
        let ghost l0 = pre.children@[si];
        let ghost mut m: int = 0;
        proof {
            assert(pre.node_ok(si));
            assert forall|k: int| 0 <= k < l0.len() implies #[trigger] l0[k] < CAP_TABLE_CAPACITY
                && l0[k] != si as u16 by {
                assert(pre.caps@[l0[k] as int] is Some);
                assert(pre.node_ok(l0[k] as int));
            }
            Self::lemma_distinct_slots_bound(l0, si as u16);
        }
        // Seed with the direct children of `src`.
        let mut child = match &self.caps[src_index as usize] {
            Some(_) => self.first_child[src_index as usize],
            None => None,
        };
        while child.is_some()
            invariant
                *self == pre,
                pre.wf(),
                0 <= si < CAP_TABLE_CAPACITY,
                pre.caps@[si] is Some,
                l0 == pre.children@[si],
                l0.len() < CAP_TABLE_CAPACITY,
                pre.list_ok(si),
                0 <= m <= l0.len(),
                desc_len == m,
                q == l0.subrange(0, m),
                pp == Seq::new(m as nat, |j: int| -1int),
                descendants@.len() == CAP_TABLE_CAPACITY,
                forall|t: int| 0 <= t < m ==> #[trigger] descendants@[t] == q[t],
                child == (if m < l0.len() {
                    Some(l0[m])
                } else {
                    None::<u16>
                }),
            ensures
                m == l0.len(),
            decreases l0.len() - m,
        {
            let c = child.unwrap();
            if desc_len >= CAP_TABLE_CAPACITY {
                break;
            }
            descendants.set(desc_len, c);
            desc_len = desc_len + 1;
            proof {
                assert(l0.subrange(0, m + 1) == q.push(c));
                q = q.push(c);
                pp = pp.push(-1);
                assert(pp == Seq::new((m + 1) as nat, |j: int| -1int));
                m = m + 1;
            }
            child = match &self.caps[c as usize] {
                Some(_) => self.next_sibling[c as usize],
                None => None,
            };
        }
        proof {
            assert(q == l0);
            assert(q == pre.bfs_prefix(si, 0));
            pre.lemma_bfs_seeded(si, pp);
        }
        // Expand: append the children of each collected descendant.
        let mut scan: usize = 0;
        while scan < desc_len
            invariant
                *self == pre,
                pre.wf(),
                0 <= si < CAP_TABLE_CAPACITY,
                pre.caps@[si] is Some,
                desc_len == q.len(),
                desc_len < CAP_TABLE_CAPACITY,
                scan <= desc_len,
                descendants@.len() == CAP_TABLE_CAPACITY,
                forall|t: int| 0 <= t < desc_len ==> #[trigger] descendants@[t] == q[t],
                pre.bfs_ok(si, q, pp, scan as int),
                q == pre.bfs_prefix(si, scan as nat),
                pre.covers(q, si),
                forall|k: int| 0 <= k < scan ==> #[trigger] pre.covers(q, q[k] as int),
            decreases CAP_TABLE_CAPACITY - scan, CAP_TABLE_CAPACITY - desc_len,
        {
            let idx = descendants[scan];
            let ghost q0 = q;
            let ghost l = pre.children@[idx as int];
            let ghost mut mm: int = 0;
            proof {
                assert(pre.is_descendant(idx as int, si));
                assert(pre.node_ok(idx as int));
                broadcast use vstd::seq_lib::lemma_seq_contains_after_push;
            }
            let mut gc = match &self.caps[idx as usize] {
                Some(_) => self.first_child[idx as usize],
                None => None,
            };
            while gc.is_some()
                invariant
                    *self == pre,
                    pre.wf(),
                    0 <= si < CAP_TABLE_CAPACITY,
                    pre.caps@[si] is Some,
                    0 <= scan < q0.len(),
                    idx == q0[scan as int],
                    l == pre.children@[idx as int],
                    q0 == pre.bfs_prefix(si, scan as nat),
                    pre.list_ok(idx as int),
                    0 <= mm <= l.len(),
                    q == q0 + l.subrange(0, mm),
                    desc_len == q.len(),
                    desc_len < CAP_TABLE_CAPACITY,
                    descendants@.len() == CAP_TABLE_CAPACITY,
                    forall|t: int| 0 <= t < desc_len ==> #[trigger] descendants@[t] == q[t],
                    pre.bfs_ok(si, q, pp, scan + 1),
                    forall|j: int| 0 <= j < q0.len() ==> #[trigger] pp[j] < scan,
                    pre.covers(q, si),
                    forall|k: int| 0 <= k < scan ==> #[trigger] pre.covers(q, q[k] as int),
                    gc == (if mm < l.len() {
                        Some(l[mm])
                    } else {
                        None::<u16>
                    }),
                ensures
                    mm == l.len(),
                decreases l.len() - mm,
            {
                let g = gc.unwrap();
                proof {
                    pre.lemma_bfs_push(si, q0, q, pp, scan as int, mm);
                }
                if desc_len >= CAP_TABLE_CAPACITY {
                    break;
                }
                descendants.set(desc_len, g);
                desc_len = desc_len + 1;
                proof {
                    broadcast use vstd::seq_lib::lemma_seq_contains_after_push;

                    let nq = q.push(g);
                    assert(q0 + l.subrange(0, mm + 1) == nq);
                    assert forall|k: int| 0 <= k < scan implies #[trigger] pre.covers(nq, nq[k] as int) by {
                        assert(nq[k] == q[k]);
                        assert(pre.covers(q, q[k] as int));
                    }
                    assert forall|j: int| 0 <= j < q0.len() implies #[trigger] pp.push(scan as int)[j]
                        < scan by {
                        assert(pp.push(scan as int)[j] == pp[j]);
                    }
                    q = nq;
                    pp = pp.push(scan as int);
                    mm = mm + 1;
                }
                gc = match &self.caps[g as usize] {
                    Some(_) => self.next_sibling[g as usize],
                    None => None,
                };
            }
            proof {
                assert(q == q0 + l);
                assert(q == pre.bfs_prefix(si, (scan + 1) as nat));
                assert(q[scan as int] == idx);
                assert forall|t: int| 0 <= t < l.len() implies q.contains(#[trigger] pre.children@[idx as int][t]) by {
                    assert(q[q0.len() + t] == l[t]);
                }
                assert forall|j: int|
                    0 <= j < q.len() implies (#[trigger] pp[j] == -1 && pre.parent@[q[j] as int] == Some(
                    si as u16,
                )) || (0 <= pp[j] < scan + 1 && pp[j] < q.len() && pre.parent@[q[j] as int] == Some(
                    q[pp[j]],
                )) by {}
            }
            scan = scan + 1;
        }
        proof {
            pre.lemma_bfs_complete(si, q, pp);
            assert(descendants@.take(desc_len as int) == q);
            pre.lemma_bfs_prefix_stable(si, scan as nat, CAP_TABLE_CAPACITY as nat);
        }
        (descendants, desc_len)
    }

    /// Invalidate every capability derived, directly or transitively, from
    /// `src`; `src` itself stays valid and loses its children.
    ///
    /// Fails, leaving the table unchanged, with [`CapError::InvalidHandle`]
    /// if `src` is not live and with [`CapError::InsufficientRights`] if it
    /// lacks `REVOKE`.
    #[verifier::rlimit(60)]
    #[verifier::spinoff_prover]
    pub fn cap_revoke(&mut self, src: CapHandle) -> (r: Result<(), CapError>)
        requires
            old(self).wf(),
        ensures
            final(self).wf(),
            r is Err <==> old(self).revoke_error(src) is Some,
            old(self).live(src) && !bits_include(old(self).node(src).rights.bits(), REVOKE_BIT)
                ==> r == Err::<(), CapError>(CapError::InsufficientRights) && old(self).unchanged(
                &*final(self),
            ),
            r matches Err(e) ==> old(self).revoke_error(src) == Some(e) && old(self).unchanged(
                &*final(self),
            ),
            r is Ok ==> old(self).revokes_with(
                &*final(self),
                src.idx() as int,
                old(self).revoke_order(src.idx() as int).reverse(),
            ),
    {
        let src_index = self.resolve_handle(src)?;
        let rights = match &self.caps[src_index as usize] {
            Some(c) => c.rights(),
            None => return Err(CapError::InvalidHandle),
        };
        if !rights.contains(CapRights::revoke()) {
            return Err(CapError::InsufficientRights);
        }
        let ghost pre = *self;
        let ghost si = src_index as int;
        let (descendants, desc_len) = self.collect_descendants(src_index);
        let ghost q = descendants@.take(desc_len as int);
        proof {
            assert forall|t: int| 0 <= t < q.len() implies #[trigger] q[t] < CAP_TABLE_CAPACITY
                && pre.caps@[q[t] as int] is Some by {
                assert(q.to_set().contains(q[t]));
            }
        }
        // Free every collected descendant.
        let mut k: usize = 0;
        let ghost mut fresh: Seq<u16> = Seq::empty();
        while k < desc_len
            invariant
                pre.wf(),
                0 <= si < CAP_TABLE_CAPACITY,
                pre.caps@[si] is Some,
                k <= desc_len,
                desc_len == q.len(),
                desc_len < CAP_TABLE_CAPACITY,
                descendants@.len() == CAP_TABLE_CAPACITY,
                forall|t: int| 0 <= t < desc_len ==> #[trigger] descendants@[t] == q[t],
                q.no_duplicates(),
                q.to_set() == pre.descendants(si),
                forall|t: int| 0 <= t < q.len() ==> #[trigger] q[t] < CAP_TABLE_CAPACITY && pre.caps@[q[t] as int] is Some,
                self.shape_ok(),
                self.free_ok(-1),
                fresh.len() == k,
                forall|t: int| 0 <= t < k ==> #[trigger] fresh[t] == q[k - 1 - t],
                self.free_list@ == fresh + pre.free_list@,
                forall|i: int|
                    0 <= i < CAP_TABLE_CAPACITY ==> #[trigger] self.caps@[i] == (if q.take(k as int).contains(
                        i as u16,
                    ) {
                        None
                    } else {
                        pre.caps@[i]
                    }) && self.generations@[i] == (if q.take(k as int).contains(i as u16) {
                        next_generation(pre.generations@[i])
                    } else {
                        pre.generations@[i]
                    }),
                self.parent@ == pre.parent@,
                self.depth@ == pre.depth@,
                self.first_child@ == pre.first_child@,
                self.next_sibling@ == pre.next_sibling@,
                self.children@ == pre.children@,
            decreases desc_len - k,
        {
            let idx = descendants[k];
            proof {
                assert(idx == q[k as int]);
                assert(!q.take(k as int).contains(idx)) by {
                    if q.take(k as int).contains(idx) {
                        let k0 = k as int;
                        let t0 = q.take(k0);
                        let t = choose|t: int| 0 <= t < k0 && t0[t] == idx;
                        assert(q[t] == q[k0]);
                    }
                }
                assert(self.caps@[idx as int] is Some);
            }
            self.free_slot(idx);
            proof {
                let k0 = k as int;
                let k1 = k0 + 1;
                let t0 = q.take(k0);
                let t1 = q.take(k1);
                assert forall|i: int| 0 <= i < CAP_TABLE_CAPACITY implies #[trigger] t1.contains(
                    i as u16,
                ) == (t0.contains(i as u16) || i == idx as int) by {
                    if t1.contains(i as u16) {
                        let t = choose|t: int| 0 <= t < k1 && t1[t] == i as u16;
                        if t < k0 {
                            assert(t0[t] == i as u16);
                        }
                    }
                    if t0.contains(i as u16) {
                        let t = choose|t: int| 0 <= t < k0 && t0[t] == i as u16;
                        assert(t1[t] == i as u16);
                    }
                    if i == idx as int {
                        assert(t1[k0] == idx);
                    }
                }
                let nf = seq![idx] + fresh;
                assert forall|t: int| 0 <= t < k + 1 implies #[trigger] nf[t] == q[k - t] by {
                    if t > 0 {
                        assert(nf[t] == fresh[t - 1]);
                    }
                }
                assert(seq![idx] + (fresh + pre.free_list@) == nf + pre.free_list@);
                fresh = nf;
            }
            k = k + 1;
        }
        proof {
            assert(q.take(q.len() as int) == q);
            pre.lemma_not_own_descendant(si);
            assert(!q.contains(si as u16)) by {
                assert(!q.to_set().contains(si as u16));
            }
            assert(self.caps@[si] is Some);
        }
        // Clear `src`'s child list now that every descendant is gone.
        if self.caps[src_index as usize].is_some() {
            self.first_child.set(src_index as usize, None);
        }
        self.children = Ghost(self.children@.update(si, Seq::<u16>::empty()));
        proof {
            assert(q.take(q.len() as int) == q);
            Self::lemma_revoke_finish(pre, *self, si, q, fresh);
            assert(fresh =~= q.reverse());
            assert(self.child_list(si) == Seq::<u16>::empty());
        }
        Ok(())
    }

    // ----- laws -----

    /// Every slot on the free list of a consistent table is a slot of the
    /// table.
    pub proof fn lemma_free_slots_in_range(&self)
        requires
            self.wf(),
        ensures
            forall|k: int| 0 <= k < self.free_order().len() ==> #[trigger] self.free_order()[k] < CAP_TABLE_CAPACITY,
    {
    }

    /// A handle whose capability was dropped or taken no longer resolves.
    pub proof fn lemma_removed_handle_is_stale(pre: CapabilityTable, post: CapabilityTable, h: CapHandle)
        requires
            pre.removes(&post, h),
        ensures
            !post.live(h),
    {
    }

    /// When a freed slot is reused, the new handle differs from the old
    /// one (its generation advanced), and the old handle stays stale.
    pub proof fn lemma_reused_slot_gets_fresh_handle(
        t1: CapabilityTable,
        t2: CapabilityTable,
        t3: CapabilityTable,
        old_h: CapHandle,
        node: CapNode,
        new_h: CapHandle,
    )
        requires
            t1.removes(&t2, old_h),
            t2.installs(&t3, node, new_h),
            new_h.idx() == old_h.idx(),
        ensures
            new_h != old_h,
            new_h.gen() == next_generation(old_h.gen()),
            !t3.live(old_h),
            t3.live(new_h),
    {
    }

    /// After a successful revoke, the source keeps its capability but no
    /// capability derived from it remains, so it can be dropped; every
    /// handle into the revoked subtree is stale.
    pub proof fn lemma_revoke_leaves_leaf(
        pre: CapabilityTable,
        post: CapabilityTable,
        a: int,
        fresh: Seq<u16>,
        h: CapHandle,
    )
        requires
            pre.wf(),
            0 <= a < CAP_TABLE_CAPACITY,
            pre.entry(a) is Some,
            pre.revokes_with(&post, a, fresh),
        ensures
            post.entry(a) == pre.entry(a),
            !post.has_children(a),
            pre.live(h) && pre.descendants(a).contains(h.idx()) ==> !post.live(h),
    {
        pre.lemma_not_own_descendant(a);
        assert(!pre.descendants(a).contains(a as u16));
        if post.has_children(a) {
            let j = choose|j: int|
                0 <= j < CAP_TABLE_CAPACITY && #[trigger] post.entry(j) is Some && post.entry(j)->0.parent
                    == Some(a as u16);
            assert(!pre.descendants(a).contains(j as u16));
            assert(pre.entry(j) == post.entry(j));
            pre.lemma_child_step(j, a);
        }
    }

    /// `post` is what the step `s` makes of `self`.
    pub open spec fn takes_step(&self, post: &Self, s: TableStep) -> bool {
        match s {
            TableStep::Insert(node, h) => self.installs(post, node, h),
            TableStep::Remove(h) => self.removes(post, h),
            TableStep::Revoke(a) => self.revokes_with(
                post,
                a as int,
                self.revoke_order(a as int).reverse(),
            ),
            TableStep::Keep => self.unchanged(post),
        }
    }

    /// The step `s`, taken from `self`, ends the capability `h` names:
    /// it removes `h`, or revokes a subtree holding `h`'s slot.
    pub open spec fn ends(&self, s: TableStep, h: CapHandle) -> bool {
        match s {
            TableStep::Remove(x) => x == h,
            TableStep::Revoke(a) => self.descendants(a as int).contains(h.idx()),
            _ => false,
        }
    }

    /// Along a run of calls from a table with every slot empty (as
    /// [`CapabilityTable::new`] makes it), a handle is live at the end
    /// exactly when some call installed it and no later call removed it
    /// or revoked a subtree holding it; so `lookup` succeeds exactly on
    /// such handles.
    pub proof fn lemma_lookup_history(ts: Seq<CapabilityTable>, steps: Seq<TableStep>, h: CapHandle)
        requires
            ts.len() == steps.len() + 1,
            forall|i: int| 0 <= i < CAP_TABLE_CAPACITY ==> #[trigger] ts[0].entry(i) is None,
            forall|k: int| 0 <= k < ts.len() ==> #[trigger] ts[k].wf(),
            forall|k: int| 0 <= k < steps.len() ==> #[trigger] ts[k].takes_step(&ts[k + 1], steps[k]),
        ensures
            ts[steps.len() as int].live(h) <==> exists|k: int|
                0 <= k < steps.len() && #[trigger] inserts(steps[k], h) && forall|j: int|
                    k < j < steps.len() ==> !#[trigger] ts[j].ends(steps[j], h),
        decreases steps.len(),
    {
        let n = steps.len() as int;
        if n == 0 {
            Self::lemma_empty_table_has_no_live_handle(ts[0], h);
        } else {
            let pts = ts.take(n);
            let psteps = steps.take(n - 1);
            assert forall|k: int| 0 <= k < pts.len() implies #[trigger] pts[k].wf() by {
                assert(pts[k] == ts[k]);
            }
            assert forall|k: int| 0 <= k < psteps.len() implies #[trigger] pts[k].takes_step(
                &pts[k + 1],
                psteps[k],
            ) by {
                assert(pts[k] == ts[k] && pts[k + 1] == ts[k + 1] && psteps[k] == steps[k]);
            }
            assert(pts[0] == ts[0]);
            Self::lemma_lookup_history(pts, psteps, h);
            let m = n - 1;
            assert(ts[m].takes_step(&ts[m + 1], steps[m]));
            let pre = ts[m];
            let post = ts[m + 1];
            assert(pts[m] == pre);
            assert(pre.wf());
            // What holds before the last step, in terms of the full run.
            let before = exists|k: int|
                0 <= k < m && #[trigger] inserts(steps[k], h) && forall|j: int|
                    k < j < m ==> !#[trigger] ts[j].ends(steps[j], h);
            assert(pre.live(h) <==> before) by {
                if pre.live(h) {
                    let k = choose|k: int|
                        0 <= k < psteps.len() && #[trigger] inserts(psteps[k], h) && forall|j: int|
                            k < j < psteps.len() ==> !#[trigger] pts[j].ends(psteps[j], h);
                    assert(inserts(steps[k], h));
                    assert forall|j: int| k < j < m implies !#[trigger] ts[j].ends(steps[j], h) by {
                        assert(!pts[j].ends(psteps[j], h));
                    }
                }
                if before {
                    let k = choose|k: int|
                        0 <= k < m && #[trigger] inserts(steps[k], h) && forall|j: int|
                            k < j < m ==> !#[trigger] ts[j].ends(steps[j], h);
                    assert(inserts(psteps[k], h));
                    assert forall|j: int| k < j < psteps.len() implies !#[trigger] pts[j].ends(
                        psteps[j],
                        h,
                    ) by {
                        assert(!ts[j].ends(steps[j], h));
                    }
                }
            }
            let goal = exists|k: int|
                0 <= k < n && #[trigger] inserts(steps[k], h) && forall|j: int|
                    k < j < n ==> !#[trigger] ts[j].ends(steps[j], h);
            // Extending a witness of `before` past a step that does not end `h`.
            if before && !pre.ends(steps[m], h) {
                let k = choose|k: int|
                    0 <= k < m && #[trigger] inserts(steps[k], h) && forall|j: int|
                        k < j < m ==> !#[trigger] ts[j].ends(steps[j], h);
                assert forall|j: int| k < j < n implies !#[trigger] ts[j].ends(steps[j], h) by {
                    if j < m {
                    } else {
                        assert(j == m);
                    }
                }
                assert(goal);
            }
            // A witness of `goal` other than the last step is one of `before`.
            if goal {
                let k = choose|k: int|
                    0 <= k < n && #[trigger] inserts(steps[k], h) && forall|j: int|
                        k < j < n ==> !#[trigger] ts[j].ends(steps[j], h);
                if k < m {
                    assert(!ts[m].ends(steps[m], h));
                    assert forall|j: int| k < j < m implies !#[trigger] ts[j].ends(steps[j], h) by {}
                    assert(before);
                }
            }
            match steps[m] {
                TableStep::Insert(node, x) => {
                    Self::lemma_install_liveness(pre, post, node, x, h);
                    if x == h {
                        assert(inserts(steps[m], h));
                        assert forall|j: int| m < j < n implies !#[trigger] ts[j].ends(steps[j], h) by {}
                        assert(goal);
                    }
                },
                TableStep::Remove(x) => {
                    Self::lemma_remove_liveness(pre, post, x, h);
                },
                TableStep::Revoke(a) => {
                    Self::lemma_revoke_liveness(pre, post, a as int, pre.revoke_order(a as int).reverse(), h);
                },
                TableStep::Keep => {
                    if h.idx() < CAP_TABLE_CAPACITY {
                        assert(post.entry(h.idx() as int) == pre.entry(h.idx() as int));
                    }
                },
            }
        }
    }

    /// Along a run of calls, a handle installed by one call and not ended
    /// by any later call is still live at the end and names the node that
    /// call installed; so `lookup` then gives back the capability that was
    /// installed with it.
    pub proof fn lemma_lookup_gives_installed(
        ts: Seq<CapabilityTable>,
        steps: Seq<TableStep>,
        h: CapHandle,
        k: int,
    )
        requires
            ts.len() == steps.len() + 1,
            forall|j: int| 0 <= j < ts.len() ==> #[trigger] ts[j].wf(),
            forall|j: int| 0 <= j < steps.len() ==> #[trigger] ts[j].takes_step(&ts[j + 1], steps[j]),
            0 <= k < steps.len(),
            inserts(steps[k], h),
            forall|j: int| k < j < steps.len() ==> !#[trigger] ts[j].ends(steps[j], h),
        ensures
            ts[steps.len() as int].live(h),
            steps[k] matches TableStep::Insert(node, _) && ts[steps.len() as int].node(h) == node,
        decreases steps.len() - k,
    {
        let n = steps.len() as int;
        assert(ts[k].takes_step(&ts[k + 1], steps[k]));
        assert(ts[k].wf());
        ts[k].lemma_free_slots_in_range();
        assert(ts[k + 1].generation(h.idx() as int) == ts[k].generation(h.idx() as int));
        if k + 1 < n {
            // Drop the last call and use the run up to it.
            let pts = ts.take(n);
            let psteps = steps.take(n - 1);
            assert forall|j: int| 0 <= j < pts.len() implies #[trigger] pts[j].wf() by {
                assert(pts[j] == ts[j]);
            }
            assert forall|j: int| 0 <= j < psteps.len() implies #[trigger] pts[j].takes_step(
                &pts[j + 1],
                psteps[j],
            ) by {
                assert(pts[j] == ts[j] && pts[j + 1] == ts[j + 1] && psteps[j] == steps[j]);
            }
            assert forall|j: int| k < j < psteps.len() implies !#[trigger] pts[j].ends(psteps[j], h) by {
                assert(pts[j] == ts[j] && psteps[j] == steps[j]);
                assert(!ts[j].ends(steps[j], h));
            }
            assert(psteps[k] == steps[k]);
            Self::lemma_lookup_gives_installed(pts, psteps, h, k);
            let m = n - 1;
            assert(pts[m] == ts[m]);
            Self::lemma_step_keeps_live(ts[m], ts[m + 1], steps[m], h);
        }
    }

    /// A call that does not end a live handle leaves it live, naming the
    /// same node.
    proof fn lemma_step_keeps_live(pre: CapabilityTable, post: CapabilityTable, s: TableStep, h: CapHandle)
        requires
            pre.wf(),
            pre.live(h),
            pre.takes_step(&post, s),
            !pre.ends(s, h),
        ensures
            post.live(h),
            post.node(h) == pre.node(h),
    {
        let i = h.idx() as int;
        match s {
            TableStep::Insert(_, x) => {
                assert(x.idx() != h.idx());
                assert(post.generation(i) == pre.generation(i));
                assert(post.entry(i) == pre.entry(i));
            },
            TableStep::Remove(x) => {
                if x.idx() == h.idx() {
                    assert(x.gen() == h.gen());
                    assert(x == h);
                }
                assert(post.entry(i) == pre.entry(i));
            },
            TableStep::Revoke(a) => {
                assert(post.entry(i) == pre.entry(i));
            },
            TableStep::Keep => {
                assert(post.entry(i) == pre.entry(i));
            },
        }
    }

    /// Copying from a live capability fails for want of rights exactly when
    /// it lacks `DUPLICATE`, whatever other rights it holds and whatever
    /// rights are asked for.
    pub proof fn lemma_copy_needs_duplicate(t: CapabilityTable, src: CapHandle, new_rights: CapRights)
        requires
            t.live(src),
        ensures
            t.copy_error(src, new_rights) == Some(CapError::InsufficientRights) <==> !bits_include(
                t.node(src).rights.bits(),
                DUPLICATE_BIT,
            ),
            t.copy_error(src, new_rights) is None ==> bits_include(t.node(src).rights.bits(), DUPLICATE_BIT),
    {
    }

    /// Deriving from a live capability fails for want of rights exactly
    /// when it lacks `DERIVE`, whatever other rights it holds and whatever
    /// rights are asked for.
    pub proof fn lemma_derive_needs_derive(t: CapabilityTable, src: CapHandle, new_rights: CapRights)
        requires
            t.live(src),
        ensures
            t.derive_error(src, new_rights) == Some(CapError::InsufficientRights) <==> !bits_include(
                t.node(src).rights.bits(),
                DERIVE_BIT,
            ),
            t.derive_error(src, new_rights) is None ==> bits_include(t.node(src).rights.bits(), DERIVE_BIT),
    {
    }

    /// Revoking through a live capability fails for want of rights exactly
    /// when it lacks `REVOKE`, whatever other rights it holds; only a
    /// capability holding `REVOKE` can empty any slot.
    pub proof fn lemma_revoke_needs_revoke(t: CapabilityTable, src: CapHandle)
        requires
            t.live(src),
        ensures
            t.revoke_error(src) == Some(CapError::InsufficientRights) <==> !bits_include(
                t.node(src).rights.bits(),
                REVOKE_BIT,
            ),
            t.revoke_error(src) is None ==> bits_include(t.node(src).rights.bits(), REVOKE_BIT),
    {
    }

    /// A populated slot's parent, if any, is a populated slot of the table,
    /// one level shallower.
    pub proof fn lemma_parent_in_range(&self, i: int)
        requires
            self.wf(),
            0 <= i < CAP_TABLE_CAPACITY,
            self.entry(i) is Some,
        ensures
            self.entry(i)->0.parent matches Some(p) ==> p < CAP_TABLE_CAPACITY && self.entry(p as int) is Some
                && self.entry(i)->0.depth == self.entry(p as int)->0.depth + 1,
    {
        assert(self.caps@[i] is Some);
        assert(self.node_ok(i));
    }

    /// A table with every slot empty holds no live handle.
    pub proof fn lemma_empty_table_has_no_live_handle(t: CapabilityTable, h: CapHandle)
        requires
            forall|i: int| 0 <= i < CAP_TABLE_CAPACITY ==> #[trigger] t.entry(i) is None,
        ensures
            !t.live(h),
    {
        if h.idx() < CAP_TABLE_CAPACITY {
            assert(t.entry(h.idx() as int) is None);
        }
    }

    /// After an installation, the new handle is live and names the
    /// installed node; every other handle is live exactly when it was
    /// before, and names the same node.
    pub proof fn lemma_install_liveness(
        pre: CapabilityTable,
        post: CapabilityTable,
        node: CapNode,
        h: CapHandle,
        other: CapHandle,
    )
        requires
            pre.wf(),
            pre.installs(&post, node, h),
        ensures
            post.live(h),
            post.node(h) == node,
            post.live(other) <==> (other == h || pre.live(other)),
            other != h && pre.live(other) ==> post.node(other) == pre.node(other),
    {
        pre.lemma_free_slots_in_range();
        assert(h.idx() < CAP_TABLE_CAPACITY);
        if other.idx() < CAP_TABLE_CAPACITY {
            assert(post.generation(other.idx() as int) == pre.generation(other.idx() as int));
        }
    }

    /// After a removal, the removed handle is stale; every other handle is
    /// live exactly when it was before, and names the same node.
    pub proof fn lemma_remove_liveness(pre: CapabilityTable, post: CapabilityTable, h: CapHandle, other: CapHandle)
        requires
            pre.removes(&post, h),
        ensures
            !post.live(h),
            post.live(other) <==> (other != h && pre.live(other)),
            post.live(other) ==> post.node(other) == pre.node(other),
    {
        if other.idx() < CAP_TABLE_CAPACITY && other.idx() != h.idx() {
            assert(post.entry(other.idx() as int) == pre.entry(other.idx() as int));
        }
    }

    /// After revoking slot `a`, a handle is live exactly when it was live
    /// before and does not name a descendant of `a`; survivors name the
    /// same node.
    pub proof fn lemma_revoke_liveness(
        pre: CapabilityTable,
        post: CapabilityTable,
        a: int,
        fresh: Seq<u16>,
        other: CapHandle,
    )
        requires
            pre.revokes_with(&post, a, fresh),
        ensures
            post.live(other) <==> (pre.live(other) && !pre.descendants(a).contains(other.idx())),
            post.live(other) ==> post.node(other) == pre.node(other),
    {
        if other.idx() < CAP_TABLE_CAPACITY {
            if pre.descendants(a).contains(other.idx()) {
                assert(post.entry(other.idx() as int) is None);
            } else {
                assert(post.entry(other.idx() as int) == pre.entry(other.idx() as int));
            }
        }
    }

    /// Some populated slot names `target` exactly when some live handle
    /// names it.
    pub proof fn lemma_references_iff_live_handle(&self, target: CapObject)
        ensures
            self.references(target) <==> exists|h: CapHandle| #[trigger] self.live(h) && self.node(h).object
                == target,
    {
        if self.references(target) {
            let i = choose|i: int|
                0 <= i < CAP_TABLE_CAPACITY && #[trigger] self.entry(i) is Some && self.entry(i)->0.object
                    == target;
            let h = CapHandle { index: i as u16, generation: self.generation(i) };
            assert(self.live(h));
        }
        if exists|h: CapHandle| #[trigger] self.live(h) && self.node(h).object == target {
            let h = choose|h: CapHandle| #[trigger] self.live(h) && self.node(h).object == target;
            assert(self.entry(h.idx() as int) is Some);
        }
    }

    /// Following parent links composes: `k1` links and then `k2` more are
    /// `k1 + k2` links.
    proof fn lemma_ancestor_compose(&self, j: int, k1: nat, k2: nat)
        requires
            0 <= j < 0x10000,
            self.ancestor(j, k1) is Some,
        ensures
            self.ancestor(j, k1 + k2) == self.ancestor(self.ancestor(j, k1)->0 as int, k2),
        decreases k1,
    {
        if k1 > 0 {
            let p = self.entry(j)->0.parent->0;
            assert(self.ancestor(j, k1) == self.ancestor(p as int, (k1 - 1) as nat));
            assert(self.ancestor(j, k1 + k2) == self.ancestor(p as int, (k1 + k2 - 1) as nat));
            self.lemma_ancestor_compose(p as int, (k1 - 1) as nat, k2);
            assert((k1 - 1) as nat + k2 == (k1 + k2 - 1) as nat);
        }
    }

    /// The child list of a populated slot holds, without repeats, exactly
    /// the populated slots whose parent it is.
    pub proof fn lemma_child_list_members(&self, p: int, j: int)
        requires
            self.wf(),
            0 <= p < CAP_TABLE_CAPACITY,
            self.entry(p) is Some,
        ensures
            self.child_list(p).no_duplicates(),
            (0 <= j < CAP_TABLE_CAPACITY && self.child_list(p).contains(j as u16)) <==> (0 <= j
                < CAP_TABLE_CAPACITY && self.entry(j) is Some && self.entry(j)->0.parent == Some(p as u16)),
    {
        assert(self.node_ok(p));
        if 0 <= j < CAP_TABLE_CAPACITY && self.child_list(p).contains(j as u16) {
            let k = choose|k: int| 0 <= k < self.children@[p].len() && self.children@[p][k] == j as u16;
            assert(self.children@[p][k] < CAP_TABLE_CAPACITY);
        }
        if 0 <= j < CAP_TABLE_CAPACITY && self.entry(j) is Some && self.entry(j)->0.parent == Some(p as u16) {
            assert(self.node_ok(j));
        }
    }

    /// A populated slot whose parent is `p` descends from `p`.
    pub proof fn lemma_child_is_descendant(&self, c: int, p: int)
        requires
            self.wf(),
            0 <= c < CAP_TABLE_CAPACITY,
            self.entry(c) is Some,
            self.entry(c)->0.parent == Some(p as u16),
            0 <= p < CAP_TABLE_CAPACITY,
        ensures
            self.is_descendant(c, p),
    {
        assert(self.caps@[c] is Some);
        assert(self.node_ok(c));
        self.lemma_child_step(c, p);
    }

    /// Descent is transitive: a descendant of a descendant of `b`
    /// descends from `b`.
    pub proof fn lemma_descendant_transitive(&self, j: int, a: int, b: int)
        requires
            self.is_descendant(j, a),
            self.is_descendant(a, b),
        ensures
            self.is_descendant(j, b),
    {
        let dj = self.entry(j)->0.depth as int;
        let da = self.entry(a)->0.depth as int;
        let db = self.entry(b)->0.depth as int;
        self.lemma_ancestor_compose(j, (dj - da) as nat, (da - db) as nat);
        assert((dj - da) as nat + (da - db) as nat == (dj - db) as nat);
    }

    /// Each successful installation takes one free slot: along a run of
    /// installations starting from a table with `k` free slots, the table
    /// is full exactly when all `k` are used. A new table has
    /// [`CAP_TABLE_CAPACITY`] free slots, so exactly that many insertions
    /// succeed before one reports `CapsExhausted`.
    pub proof fn lemma_insertions_until_full(ts: Seq<CapabilityTable>, nodes: Seq<CapNode>, hs: Seq<CapHandle>)
        requires
            ts.len() == nodes.len() + 1,
            hs.len() == nodes.len(),
            forall|k: int| 0 <= k < nodes.len() ==> #[trigger] ts[k].installs(&ts[k + 1], nodes[k], hs[k]),
            forall|k: int| 0 <= k < ts.len() ==> #[trigger] ts[k].wf(),
        ensures
            nodes.len() <= ts[0].free_order().len(),
            forall|k: int|
                0 <= k < ts.len() ==> #[trigger] ts[k].free_order().len() == ts[0].free_order().len() - k,
            forall|k: int|
                0 <= k < ts.len() ==> (#[trigger] ts[k].is_exhausted() <==> k == ts[0].free_order().len()),
    {
        assert forall|k: int| 0 <= k < ts.len() implies #[trigger] ts[k].free_order().len()
            == ts[0].free_order().len() - k by {
            Self::lemma_free_count_along(ts, nodes, hs, k);
        }
        assert forall|k: int| 0 <= k < ts.len() implies (#[trigger] ts[k].is_exhausted() <==> k
            == ts[0].free_order().len()) by {
            Self::lemma_free_count_along(ts, nodes, hs, k);
            assert(ts[k].wf());
            ts[k].lemma_free_list_empty_iff_exhausted();
        }
        Self::lemma_free_count_along(ts, nodes, hs, nodes.len() as int);
    }

    /// A new table fills its slots in index order: along a run of
    /// insertions from it, the `k`-th insertion gets slot `k`, and the
    /// table is full exactly after [`CAP_TABLE_CAPACITY`] insertions, so
    /// exactly that many succeed before one reports `CapsExhausted`.
    pub proof fn lemma_new_table_insertions(ts: Seq<CapabilityTable>, nodes: Seq<CapNode>, hs: Seq<CapHandle>)
        requires
            ts.len() == nodes.len() + 1,
            hs.len() == nodes.len(),
            ts[0].free_order() == Seq::new(CAP_TABLE_CAPACITY as nat, |i: int| i as u16),
            forall|k: int| 0 <= k < nodes.len() ==> #[trigger] ts[k].installs(&ts[k + 1], nodes[k], hs[k]),
            forall|k: int| 0 <= k < ts.len() ==> #[trigger] ts[k].wf(),
        ensures
            nodes.len() <= CAP_TABLE_CAPACITY,
            forall|k: int| 0 <= k < hs.len() ==> #[trigger] hs[k].idx() == k,
            forall|k: int| 0 <= k < ts.len() ==> (#[trigger] ts[k].is_exhausted() <==> k == CAP_TABLE_CAPACITY),
    {
        Self::lemma_insertions_until_full(ts, nodes, hs);
        assert forall|k: int| 0 <= k < hs.len() implies #[trigger] hs[k].idx() == k by {
            Self::lemma_free_count_along(ts, nodes, hs, k);
            assert(ts[k].installs(&ts[k + 1], nodes[k], hs[k]));
        }
    }

    proof fn lemma_free_count_along(ts: Seq<CapabilityTable>, nodes: Seq<CapNode>, hs: Seq<CapHandle>, k: int)
        requires
            ts.len() == nodes.len() + 1,
            hs.len() == nodes.len(),
            forall|k: int| 0 <= k < nodes.len() ==> #[trigger] ts[k].installs(&ts[k + 1], nodes[k], hs[k]),
            0 <= k < ts.len(),
        ensures
            ts[k].free_order().len() == ts[0].free_order().len() - k,
            ts[k].free_order() == ts[0].free_order().subrange(k, ts[0].free_order().len() as int),
        decreases k,
    {
        if k > 0 {
            Self::lemma_free_count_along(ts, nodes, hs, k - 1);
            let j = k - 1;
            assert(ts[j].installs(&ts[j + 1], nodes[j], hs[j]));
        }
    }
}

impl Default for CapabilityTable {
    fn default() -> (r: CapabilityTable)
        ensures
            r.wf(),
            forall|i: int|
                0 <= i < CAP_TABLE_CAPACITY ==> #[trigger] r.entry(i) is None && r.generation(i) == 0,
            r.free_order() == Seq::new(CAP_TABLE_CAPACITY as nat, |i: int| i as u16),
            forall|i: int| 0 <= i < CAP_TABLE_CAPACITY ==> #[trigger] r.child_list(i) == Seq::<u16>::empty(),
    {
        CapabilityTable::new()
    }
}

} // verus!
