//! Bounded FIFO of task handles backing the scheduler's ready queue.
use vstd::prelude::*;

use crate::obj::TaskHandle;

verus! {

/// Bounded FIFO queue of [`TaskHandle`]s with capacity `N`, kept in a ring
/// buffer.
pub struct SchedQueue<const N: usize> {
    buf: Vec<Option<TaskHandle>>,
    head: usize,
    len: usize,
}

/// Ring position of the `k`-th element after `head`.
pub open spec fn ring_pos(head: int, k: int, n: int) -> int {
    if head + k < n {
        head + k
    } else {
        head + k - n
    }
}

impl<const N: usize> SchedQueue<N> {
    /// The queued handles, front first.
    pub closed spec fn view(&self) -> Seq<TaskHandle> {
        Seq::new(
            self.len as nat,
            |k: int| self.buf@[ring_pos(self.head as int, k, N as int)]->0,
        )
    }

    /// The ring buffer is consistent.
    pub closed spec fn wf(&self) -> bool {
        &&& self.buf@.len() == N
        &&& self.len <= N
        &&& (N > 0 ==> self.head < N)
        &&& forall|k: int|
            0 <= k < self.len ==> #[trigger] self.buf@[ring_pos(self.head as int, k, N as int)] is Some
    }

    /// Construct an empty queue.
    pub fn new() -> (r: Self)
        ensures
            r.wf(),
            r.view() == Seq::<TaskHandle>::empty(),
    {
        let mut buf: Vec<Option<TaskHandle>> = Vec::new();
        let mut i: usize = 0;
        while i < N
            invariant
                i <= N,
                buf@.len() == i,
            decreases N - i,
        {
            buf.push(None);
            i = i + 1;
        }
        let r = SchedQueue { buf, head: 0, len: 0 };
        assert(r.view() =~= Seq::<TaskHandle>::empty());
        r
    }

    /// Push `handle` to the back of the queue; when the queue is full it is
    /// handed back in `Err` and the queue is unchanged.
    pub fn enqueue(&mut self, handle: TaskHandle) -> (r: Result<(), TaskHandle>)
        requires
            old(self).wf(),
        ensures
            final(self).wf(),
            r is Err <==> old(self).view().len() == N,
            r matches Err(h) ==> h == handle && final(self).view() == old(self).view(),
            r is Ok ==> final(self).view() == old(self).view().push(handle),
    {
        if self.len == N {
            return Err(handle);
        }
        // Position `len` places after `head`, wrapping at `N`.
        let room = N - self.head;
        let tail = if self.len < room {
            self.head + self.len
        } else {
            self.len - room
        };
        let ghost old_view = self.view();
        self.buf.set(tail, Some(handle));
        self.len = self.len + 1;
        proof {
            assert forall|k: int| 0 <= k < self.len implies #[trigger] self.buf@[ring_pos(
                self.head as int,
                k,
                N as int,
            )] is Some by {
                if k < self.len - 1 {
                    assert(ring_pos(self.head as int, k, N as int) != tail as int);
                }
            }
            assert(self.view() =~= old_view.push(handle)) by {
                assert forall|k: int| 0 <= k < self.len - 1 implies #[trigger] ring_pos(
                    self.head as int,
                    k,
                    N as int,
                ) != tail as int by {}
            }
        }
        Ok(())
    }

    /// A consistent queue holds at most `N` handles.
    pub proof fn lemma_len_bounded(&self)
        requires
            self.wf(),
        ensures
            self.view().len() <= N,
    {
    }

    /// Pop the front handle, or return `None` when the queue is empty.
    pub fn dequeue(&mut self) -> (r: Option<TaskHandle>)
        requires
            old(self).wf(),
        ensures
            final(self).wf(),
            r is None <==> old(self).view().len() == 0,
            r is None ==> final(self).view() == old(self).view(),
            r matches Some(h) ==> h == old(self).view()[0] && final(self).view() == old(
                self,
            ).view().drop_first(),
    {
        if self.len == 0 {
            return None;
        }
        let ghost old_view = self.view();
        let ghost old_head = self.head as int;
        let mut taken: Option<TaskHandle> = None;
        self.buf.set_and_swap(self.head, &mut taken);
        proof {
            assert(ring_pos(old_head, 0, N as int) == old_head);
        }
        self.head = if self.head + 1 == N {
            0
        } else {
            self.head + 1
        };
        self.len = self.len - 1;
        proof {
            assert forall|k: int| 0 <= k < self.len implies #[trigger] self.buf@[ring_pos(
                self.head as int,
                k,
                N as int,
            )] is Some by {
                assert(ring_pos(self.head as int, k, N as int) == ring_pos(old_head, k + 1, N as int));
                assert(ring_pos(old_head, k + 1, N as int) != old_head);
            }
            assert(self.view() =~= old_view.drop_first()) by {
                assert forall|k: int| 0 <= k < self.len implies #[trigger] ring_pos(
                    self.head as int,
                    k,
                    N as int,
                ) == ring_pos(old_head, k + 1, N as int) && ring_pos(old_head, k + 1, N as int)
                    != old_head by {}
            }
        }
        taken
    }

    /// Number of handles currently queued.
    pub fn len(&self) -> (r: usize)
        requires
            self.wf(),
        ensures
            r == self.view().len(),
            r <= N,
    {
        self.len
    }

    /// True when no handle is queued.
    pub fn is_empty(&self) -> (r: bool)
        requires
            self.wf(),
        ensures
            r == (self.view().len() == 0),
    {
        self.len == 0
    }
}

impl<const N: usize> Default for SchedQueue<N> {
    fn default() -> (r: Self)
        ensures
            r.wf(),
            r.view() == Seq::<TaskHandle>::empty(),
    {
        SchedQueue::new()
    }
}

} // verus!
