//! Generic bounded arena for kernel-object storage.
//!
//! `Arena<T, N>` is a fixed-size table of slots, each either empty or
//! holding a `T`. A [`SlotId`] names a slot by `(index, generation)`; the
//! generation advances every time the slot is freed, so an id that
//! outlived its allocation fails lookup even after the slot is refilled.
//! Free slots are kept in a last-in-first-out free list.
use vstd::prelude::*;

verus! {

/// Largest capacity an arena may have: every index fits in a `u16`.
pub const MAX_ARENA_CAPACITY: usize = 65535;

/// The generation a slot takes after being freed with generation `g`
/// (wrapping at `u32::MAX`).
pub open spec fn next_generation(g: u32) -> u32 {
    if g == u32::MAX {
        0
    } else {
        (g + 1) as u32
    }
}

/// Identifier of a slot within an arena: a slot index and the generation
/// the slot had when the value was allocated.
#[derive(Copy, Clone, Debug, PartialEq, Eq, Structural)]
pub struct SlotId {
    index: u16,
    generation: u32,
}

impl SlotId {
    /// The slot index this id names.
    pub closed spec fn idx(self) -> u16 {
        self.index
    }

    /// The generation this id carries.
    pub closed spec fn gen(self) -> u32 {
        self.generation
    }

    /// Raw index component.
    pub fn index(self) -> (r: u16)
        ensures
            r == self.idx(),
    {
        self.index
    }

    /// Raw generation component.
    pub fn generation(self) -> (r: u32)
        ensures
            r == self.gen(),
    {
        self.generation
    }

    /// Construct a `SlotId` from its parts.
    pub fn from_parts(index: u16, generation: u32) -> (r: SlotId)
        ensures
            r.idx() == index,
            r.gen() == generation,
    {
        SlotId { index, generation }
    }

    /// Two ids are equal exactly when both parts are.
    pub broadcast proof fn lemma_eq(a: SlotId, b: SlotId)
        ensures
            #![trigger a.idx(), b.idx()]
            (a == b) <==> (a.idx() == b.idx() && a.gen() == b.gen()),
    {
    }
}

/// Fixed-capacity, generation-tagged arena of `N` slots.
pub struct Arena<T, const N: usize> {
    entries: Vec<Option<T>>,
    generations: Vec<u32>,
    next_free: Vec<Option<u16>>,
    free_head: Option<u16>,
    free_list: Ghost<Seq<u16>>,
}

impl<T, const N: usize> Arena<T, N> {
    /// What slot `i` holds (`None` when free).
    pub closed spec fn slot(&self, i: int) -> Option<T> {
        self.entries@[i]
    }

    /// The current generation of slot `i`.
    pub closed spec fn slot_generation(&self, i: int) -> u32 {
        self.generations@[i]
    }

    /// The free slots, in the order `allocate` will hand them out.
    pub closed spec fn free_order(&self) -> Seq<u16> {
        self.free_list@
    }

    /// `id` names a slot that still holds the value allocated with it.
    pub open spec fn live(&self, id: SlotId) -> bool {
        &&& id.idx() < N
        &&& self.slot_generation(id.idx() as int) == id.gen()
        &&& self.slot(id.idx() as int) is Some
    }

    /// The value held by the slot `id` names.
    pub open spec fn value(&self, id: SlotId) -> T {
        self.slot(id.idx() as int)->0
    }

    /// Every slot is in use.
    pub open spec fn is_exhausted(&self) -> bool {
        forall|i: int| 0 <= i < N ==> #[trigger] self.slot(i) is Some
    }

    /// `post` holds exactly the slots, generations and free order of `self`.
    pub open spec fn same_slots(&self, post: &Self) -> bool {
        &&& post.free_order() == self.free_order()
        &&& forall|i: int|
            #![trigger post.slot(i)]
            0 <= i < N ==> post.slot(i) == self.slot(i) && post.slot_generation(i)
                == self.slot_generation(i)
    }

    /// `post` is `self` after `value` was stored in the head of the free
    /// list, a slot that was empty and which `id` now names.
    pub open spec fn allocation(&self, post: &Self, value: T, id: SlotId) -> bool {
        &&& self.free_order().len() > 0
        &&& id.idx() == self.free_order()[0]
        &&& self.slot(id.idx() as int) is None
        &&& id.gen() == self.slot_generation(id.idx() as int)
        &&& post.free_order() == self.free_order().drop_first()
        &&& post.live(id)
        &&& post.value(id) == value
        &&& forall|i: int|
            #![trigger post.slot(i)]
            0 <= i < N ==> post.slot_generation(i) == self.slot_generation(i) && (i != id.idx()
                ==> post.slot(i) == self.slot(i))
    }

    /// `post` is `self` after the live slot `id` was emptied: its
    /// generation advanced and it went to the front of the free list.
    pub open spec fn release(&self, post: &Self, id: SlotId) -> bool {
        &&& self.live(id)
        &&& post.slot(id.idx() as int) is None
        &&& post.slot_generation(id.idx() as int) == next_generation(id.gen())
        &&& post.free_order() == seq![id.idx()] + self.free_order()
        &&& forall|i: int|
            #![trigger post.slot(i)]
            0 <= i < N && i != id.idx() ==> post.slot(i) == self.slot(i) && post.slot_generation(i)
                == self.slot_generation(i)
    }

    /// Internal consistency of the slot table and its embedded free list.
    pub closed spec fn wf(&self) -> bool {
        &&& N <= MAX_ARENA_CAPACITY
        &&& self.entries@.len() == N
        &&& self.generations@.len() == N
        &&& self.next_free@.len() == N
        &&& self.free_list@.no_duplicates()
        &&& forall|k: int| 0 <= k < self.free_list@.len() ==> #[trigger] self.free_list@[k] < N
        &&& self.free_head == (if self.free_list@.len() == 0 {
            None::<u16>
        } else {
            Some(self.free_list@[0])
        })
        &&& forall|k: int|
            0 <= k < self.free_list@.len() ==> #[trigger] self.next_free@[self.free_list@[k] as int]
                == (if k + 1 < self.free_list@.len() {
                Some(self.free_list@[k + 1])
            } else {
                None::<u16>
            })
        &&& forall|i: int|
            0 <= i < N ==> (#[trigger] self.entries@[i] is None <==> self.free_list@.contains(
                i as u16,
            ))
    }

    /// The free list holds exactly the empty slots, with no repeats, so it
    /// is empty exactly when every slot is in use.
    pub proof fn lemma_free_list_empty_iff_exhausted(&self)
        requires
            self.wf(),
        ensures
            self.free_order().len() == 0 <==> self.is_exhausted(),
            forall|k: int|
                0 <= k < self.free_order().len() ==> #[trigger] self.free_order()[k] < N
                    && self.slot(self.free_order()[k] as int) is None,
            forall|i: int|
                0 <= i < N ==> (#[trigger] self.slot(i) is None <==> self.free_order().contains(
                    i as u16,
                )),
    {
        if self.free_list@.len() > 0 {
            let i = self.free_list@[0] as int;
            assert(self.free_list@.contains(i as u16));
            assert(self.slot(i) is None);
        }
        if !self.is_exhausted() {
            let i = choose|i: int| 0 <= i < N && !(self.slot(i) is Some);
            assert(self.entries@[i] is None);
        }
        assert forall|k: int| 0 <= k < self.free_order().len() implies #[trigger] self.free_order()[k]
            < N && self.slot(self.free_order()[k] as int) is None by {
            let i = self.free_list@[k] as int;
            assert(self.free_list@.contains(i as u16));
        }
    }

    /// Construct an empty arena with every slot threaded into the free
    /// list in index order, so the first allocation returns index `0`.
    pub fn new() -> (r: Self)
        requires
            N <= MAX_ARENA_CAPACITY,
        ensures
            r.wf(),
            forall|i: int| 0 <= i < N ==> #[trigger] r.slot(i) is None && r.slot_generation(i) == 0,
            r.free_order() == Seq::new(N as nat, |i: int| i as u16),
    {
        let mut entries: Vec<Option<T>> = Vec::new();
        let mut generations: Vec<u32> = Vec::new();
        let mut next_free: Vec<Option<u16>> = Vec::new();
        let mut i: usize = 0;
        while i < N
            invariant
                N <= MAX_ARENA_CAPACITY,
                i <= N,
                entries@.len() == i,
                generations@.len() == i,
                next_free@.len() == i,
                forall|j: int| 0 <= j < i ==> #[trigger] entries@[j] is None,
                forall|j: int| 0 <= j < i ==> #[trigger] generations@[j] == 0,
                forall|j: int|
                    0 <= j < i ==> #[trigger] next_free@[j] == (if j + 1 < N {
                        Some((j + 1) as u16)
                    } else {
                        None::<u16>
                    }),
            decreases N - i,
        {
            entries.push(None);
            generations.push(0);
            let next = i + 1;
            if next < N {
                next_free.push(Some(next as u16));
            } else {
                next_free.push(None);
            }
            i = next;
        }
        let ghost order = Seq::new(N as nat, |j: int| j as u16);
        let free_head = if N > 0 {
            Some(0u16)
        } else {
            None
        };
        let r = Arena { entries, generations, next_free, free_head, free_list: Ghost(order) };
        proof {
            assert forall|a: int, b: int|
                0 <= a < order.len() && 0 <= b < order.len() && a != b implies order[a]
                != order[b] by {}
            assert forall|j: int| 0 <= j < N implies (#[trigger] r.entries@[j] is None
                <==> order.contains(j as u16)) by {
                assert(order[j] == j as u16);
            }
        }
        r
    }

    /// Allocate a slot for `value`, returning the id that names it until it
    /// is freed. Returns `None` (dropping nothing from the arena) when
    /// every slot is in use.
    pub fn allocate(&mut self, value: T) -> (r: Option<SlotId>)
        requires
            old(self).wf(),
        ensures
            final(self).wf(),
            r is None <==> old(self).is_exhausted(),
            r is None ==> old(self).same_slots(&*final(self)),
            r matches Some(id) ==> old(self).allocation(&*final(self), value, id),
    {
        proof {
            self.lemma_free_list_empty_iff_exhausted();
        }
        let head = match self.free_head {
            Some(h) => h,
            None => return None,
        };
        let ghost old_list = self.free_list@;
        assert(old_list[0] == head);
        let next = self.next_free[head as usize];
        self.entries.set(head as usize, Some(value));
        self.next_free.set(head as usize, None);
        self.free_head = next;
        self.free_list = Ghost(old_list.drop_first());
        proof {
            let nl = self.free_list@;
            assert forall|k: int| 0 <= k < nl.len() implies #[trigger] self.next_free@[nl[k] as int]
                == (if k + 1 < nl.len() {
                Some(nl[k + 1])
            } else {
                None::<u16>
            }) by {
                assert(nl[k] == old_list[k + 1]);
                assert(old_list[k + 1] != old_list[0]);
            }
            assert forall|i: int| 0 <= i < N implies (#[trigger] self.entries@[i] is None
                <==> nl.contains(i as u16)) by {
                if i == head as int {
                    if nl.contains(i as u16) {
                        let k = choose|k: int| 0 <= k < nl.len() && nl[k] == i as u16;
                        assert(old_list[k + 1] == old_list[0]);
                    }
                } else {
                    if old_list.contains(i as u16) {
                        let k = choose|k: int| 0 <= k < old_list.len() && old_list[k] == i as u16;
                        assert(k != 0);
                        assert(nl[k - 1] == i as u16);
                    }
                    if nl.contains(i as u16) {
                        let k = choose|k: int| 0 <= k < nl.len() && nl[k] == i as u16;
                        assert(old_list[k + 1] == i as u16);
                    }
                }
            }
        }
        Some(SlotId { index: head, generation: self.generations[head as usize] })
    }

    /// Free the slot `id` names and return the value it held. Returns
    /// `None`, leaving the arena unchanged, when `id` is stale or its slot
    /// is already free. A freed slot goes to the front of the free list and
    /// its generation advances.
    pub fn free(&mut self, id: SlotId) -> (r: Option<T>)
        requires
            old(self).wf(),
        ensures
            final(self).wf(),
            r is Some <==> old(self).live(id),
            r is None ==> old(self).same_slots(&*final(self)),
            r matches Some(v) ==> v == old(self).value(id) && old(self).release(&*final(self), id),
    {
        let idx = id.index as usize;
        if idx >= self.entries.len() {
            return None;
        }
        if self.generations[idx] != id.generation {
            return None;
        }
        if self.entries[idx].is_none() {
            return None;
        }
        let mut taken: Option<T> = None;
        self.entries.set_and_swap(idx, &mut taken);
        let g = self.generations[idx];
        self.generations.set(idx, g.wrapping_add(1));
        let old_head = self.free_head;
        self.next_free.set(idx, old_head);
        self.free_head = Some(id.index);
        let ghost old_list = self.free_list@;
        self.free_list = Ghost(seq![id.index] + old_list);
        proof {
            let nl = self.free_list@;
            assert(!old_list.contains(id.index));
            assert forall|a: int, b: int| 0 <= a < nl.len() && 0 <= b < nl.len() && a != b implies nl[a]
                != nl[b] by {
                if a == 0 {
                    assert(nl[b] == old_list[b - 1]);
                } else if b == 0 {
                    assert(nl[a] == old_list[a - 1]);
                } else {
                    assert(nl[a] == old_list[a - 1]);
                    assert(nl[b] == old_list[b - 1]);
                }
            }
            assert forall|k: int| 0 <= k < nl.len() implies #[trigger] nl[k] < N by {
                if k > 0 {
                    assert(nl[k] == old_list[k - 1]);
                }
            }
            assert forall|k: int| 0 <= k < nl.len() implies #[trigger] self.next_free@[nl[k] as int]
                == (if k + 1 < nl.len() {
                Some(nl[k + 1])
            } else {
                None::<u16>
            }) by {
                if k > 0 {
                    assert(nl[k] == old_list[k - 1]);
                    assert(nl[k] != id.index);
                }
            }
            assert forall|i: int| 0 <= i < N implies (#[trigger] self.entries@[i] is None
                <==> nl.contains(i as u16)) by {
                if i == idx as int {
                    assert(nl[0] == i as u16);
                } else {
                    if old_list.contains(i as u16) {
                        let k = choose|k: int| 0 <= k < old_list.len() && old_list[k] == i as u16;
                        assert(nl[k + 1] == i as u16);
                    }
                    if nl.contains(i as u16) {
                        let k = choose|k: int| 0 <= k < nl.len() && nl[k] == i as u16;
                        assert(k != 0);
                        assert(old_list[k - 1] == i as u16);
                    }
                }
            }
        }
        taken
    }

    /// Return a reference to the value `id` names, or `None` if `id` is
    /// stale or its slot is free.
    pub fn get(&self, id: SlotId) -> (r: Option<&T>)
        requires
            self.wf(),
        ensures
            r is Some <==> self.live(id),
            r matches Some(v) ==> *v == self.value(id),
    {
        let idx = id.index as usize;
        if idx >= self.entries.len() {
            return None;
        }
        if self.generations[idx] != id.generation {
            return None;
        }
        self.entries[idx].as_ref()
    }

    /// Return a mutable reference to the value `id` names, or `None` if
    /// `id` is stale or its slot is free. Whatever is written through the
    /// reference becomes the slot's value; nothing else changes.
    pub fn get_mut(&mut self, id: SlotId) -> (r: Option<&mut T>)
        requires
            old(self).wf(),
        ensures
            final(self).wf(),
            r is Some <==> old(self).live(id),
            final(self).free_order() == old(self).free_order(),
            forall|i: int|
                #![trigger final(self).slot(i)]
                0 <= i < N ==> final(self).slot_generation(i) == old(self).slot_generation(i)
                    && (i != id.idx() || r is None ==> final(self).slot(i) == old(self).slot(i)),
            r matches Some(v) ==> *v == old(self).value(id) && final(self).slot(id.idx() as int)
                == Some(*final(v)),
    {
        let idx = id.index as usize;
        if idx >= self.entries.len() {
            return None;
        }
        if self.generations[idx] != id.generation {
            return None;
        }
        let cell = &mut self.entries[idx];
        cell.as_mut()
    }

    /// Return `true` when `id` still names a live slot.
    pub fn contains(&self, id: SlotId) -> (r: bool)
        requires
            self.wf(),
        ensures
            r == self.live(id),
    {
        self.get(id).is_some()
    }
    /// An arena with every slot empty holds no live id.
    pub proof fn lemma_empty_arena_has_no_live_id(a: Self, id: SlotId)
        requires
            forall|i: int| 0 <= i < N ==> #[trigger] a.slot(i) is None,
        ensures
            !a.live(id),
    {
        if id.idx() < N {
            assert(a.slot(id.idx() as int) is None);
        }
    }

    /// After an allocation, the new id is live and holds the value; every
    /// other id is live exactly when it was before, and holds the same
    /// value.
    pub proof fn lemma_allocation_liveness(a1: Self, a2: Self, value: T, id: SlotId, other: SlotId)
        requires
            a1.allocation(&a2, value, id),
        ensures
            a2.live(id),
            a2.value(id) == value,
            a2.live(other) <==> (other == id || a1.live(other)),
            other != id && a1.live(other) ==> a2.value(other) == a1.value(other),
    {
        if other.idx() < N {
            let i = other.idx() as int;
            assert(a2.slot(i) is Some || a2.slot(i) is None);
            assert(a2.slot_generation(i) == a1.slot_generation(i));
        }
    }

    /// After a release, the released id is stale; every other id is live
    /// exactly when it was before, and holds the same value.
    pub proof fn lemma_release_liveness(a1: Self, a2: Self, id: SlotId, other: SlotId)
        requires
            a1.release(&a2, id),
        ensures
            !a2.live(id),
            a2.live(other) <==> (other != id && a1.live(other)),
            a2.live(other) ==> a2.value(other) == a1.value(other),
    {
        if other.idx() < N && other.idx() != id.idx() {
            assert(a2.slot(other.idx() as int) == a1.slot(other.idx() as int));
        }
    }

    /// Each successful allocation takes one free slot: along a run of
    /// allocations starting from an arena with `k` free slots, the arena is
    /// exhausted exactly when all `k` are used. A new arena has `N` free
    /// slots, so exactly `N` allocations succeed before one returns `None`.
    pub proof fn lemma_allocations_until_full(arenas: Seq<Self>, values: Seq<T>, ids: Seq<SlotId>)
        requires
            arenas.len() == values.len() + 1,
            ids.len() == values.len(),
            forall|k: int|
                0 <= k < values.len() ==> #[trigger] arenas[k].allocation(&arenas[k + 1], values[k], ids[k]),
            forall|k: int| 0 <= k < arenas.len() ==> #[trigger] arenas[k].wf(),
        ensures
            values.len() <= arenas[0].free_order().len(),
            forall|k: int|
                0 <= k < arenas.len() ==> #[trigger] arenas[k].free_order().len() == arenas[0].free_order().len()
                    - k,
            forall|k: int|
                0 <= k < arenas.len() ==> (#[trigger] arenas[k].is_exhausted() <==> k
                    == arenas[0].free_order().len()),
    {
        assert forall|k: int| 0 <= k < arenas.len() implies #[trigger] arenas[k].free_order().len()
            == arenas[0].free_order().len() - k by {
            Self::lemma_free_count_along(arenas, values, ids, k);
        }
        assert forall|k: int| 0 <= k < arenas.len() implies (#[trigger] arenas[k].is_exhausted() <==> k
            == arenas[0].free_order().len()) by {
            Self::lemma_free_count_along(arenas, values, ids, k);
            assert(arenas[k].wf());
            arenas[k].lemma_free_list_empty_iff_exhausted();
        }
        Self::lemma_free_count_along(arenas, values, ids, values.len() as int);
    }

    /// A new arena hands out its slots in index order: along a run of
    /// allocations from it, the `k`-th allocation gets slot `k`, and the
    /// arena is exhausted exactly after `N` allocations, so exactly `N`
    /// allocations succeed before one returns `None`.
    pub proof fn lemma_new_arena_allocations(arenas: Seq<Self>, values: Seq<T>, ids: Seq<SlotId>)
        requires
            arenas.len() == values.len() + 1,
            ids.len() == values.len(),
            arenas[0].free_order() == Seq::new(N as nat, |i: int| i as u16),
            forall|k: int|
                0 <= k < values.len() ==> #[trigger] arenas[k].allocation(&arenas[k + 1], values[k], ids[k]),
            forall|k: int| 0 <= k < arenas.len() ==> #[trigger] arenas[k].wf(),
        ensures
            values.len() <= N,
            forall|k: int| 0 <= k < ids.len() ==> #[trigger] ids[k].idx() == k,
            forall|k: int| 0 <= k < arenas.len() ==> (#[trigger] arenas[k].is_exhausted() <==> k == N),
    {
        Self::lemma_allocations_until_full(arenas, values, ids);
        assert forall|k: int| 0 <= k < ids.len() implies #[trigger] ids[k].idx() == k by {
            Self::lemma_free_count_along(arenas, values, ids, k);
            assert(arenas[k].allocation(&arenas[k + 1], values[k], ids[k]));
            assert(arenas[0].wf());
            assert(arenas[k].free_order()[0] == arenas[0].free_order()[k]);
            assert(arenas[0].free_order()[k] == k as u16);
        }
    }

    proof fn lemma_free_count_along(arenas: Seq<Self>, values: Seq<T>, ids: Seq<SlotId>, k: int)
        requires
            arenas.len() == values.len() + 1,
            ids.len() == values.len(),
            forall|k: int|
                0 <= k < values.len() ==> #[trigger] arenas[k].allocation(&arenas[k + 1], values[k], ids[k]),
            0 <= k < arenas.len(),
        ensures
            arenas[k].free_order().len() == arenas[0].free_order().len() - k,
            arenas[k].free_order() == arenas[0].free_order().subrange(k, arenas[0].free_order().len() as int),
        decreases k,
    {
        if k > 0 {
            Self::lemma_free_count_along(arenas, values, ids, k - 1);
            let j = k - 1;
            assert(arenas[j].allocation(&arenas[j + 1], values[j], ids[j]));
        }
    }

    /// An id whose slot was freed no longer names a live slot.
    pub proof fn lemma_released_id_is_stale(a1: Self, a2: Self, id: SlotId)
        requires
            a1.release(&a2, id),
        ensures
            !a2.live(id),
    {
    }

    /// The allocation right after a free reuses the freed slot under a new
    /// generation, so the old id stays stale while the new one is live.
    pub proof fn lemma_reused_slot_gets_fresh_id(
        a1: Self,
        a2: Self,
        a3: Self,
        old_id: SlotId,
        value: T,
        new_id: SlotId,
    )
        requires
            a1.release(&a2, old_id),
            a2.allocation(&a3, value, new_id),
        ensures
            new_id.idx() == old_id.idx(),
            new_id.gen() == next_generation(old_id.gen()),
            new_id != old_id,
            !a3.live(old_id),
            a3.live(new_id),
    {
    }

}

} // verus!
