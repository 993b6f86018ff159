//! Interleaved allocations and deallocations on one slab.
//!
//! A world is the shared state of a slab together with the step that each thread is about to
//! take. Threads take the steps of [`AllocOp`] and [`FreeOp`] one at a time, in any order, and
//! an exchange of the head may fail for no reason. As long as no generation wraps around, no
//! interleaving hands out a slot that is in use.

use vstd::prelude::*;

use super::atomic_slab;
use super::atomic_slab::{AllocOp, FreeOp, Index, SlabView};
use super::AllocError;

verus! {

/// What a thread is about to do.
pub enum Local {
    Idle,
    Alloc(AllocOp),
    Free(FreeOp),
}

/// What a thread does next.
pub enum Event {
    /// Begin an allocation.
    StartAlloc,
    /// Begin to free a slot that the thread holds.
    StartFree { tagged: Index },
    /// Give a slot that the thread holds to another thread.
    Handover { slot: int, to: int },
    /// Take the pending step. `garbage` is what a load finds in a slot that another thread is
    /// writing to; `spurious` makes an exchange fail.
    Access { garbage: Index, spurious: bool },
}

/// The shared state of a slab and the threads that work on it.
pub struct World {
    /// The head of the free list.
    pub head: Index,
    /// The index that was last stored in each slot.
    pub links: Seq<Index>,
    /// The counter of used slots. It may exceed the capacity until it is reset.
    pub len: int,
    /// How often each slot has been freed.
    pub gens: Seq<nat>,
    /// The free list, its head last.
    pub free: Seq<Index>,
    /// The thread that holds each slot in use.
    pub owner: Map<int, int>,
    /// The pending step of each thread.
    pub threads: Map<int, Local>,
}

impl World {
    pub open spec fn capacity(self) -> int {
        self.links.len() as int
    }

    /// The tagged index of a slot in its current generation.
    pub open spec fn tag(self, slot: int) -> int {
        self.gens[slot] * 0x1_0000_0000 + slot
    }

    /// Whether a slot was ever handed out.
    pub open spec fn used(self, slot: int) -> bool {
        0 <= slot < self.capacity() && slot < self.len
    }

    /// The index that the `k`-th slot of the free list holds.
    pub open spec fn link(self, k: int) -> Index {
        if k <= 0 {
            atomic_slab::NULL_INDEX
        } else {
            self.free[k - 1]
        }
    }

    /// The `k`-th slot of the free list is used, free, and holds the index below it.
    pub open spec fn free_ok(self, k: int) -> bool {
        let i = atomic_slab::index_of(self.free[k]);
        &&& self.used(i)
        &&& self.free[k] == self.tag(i)
        &&& !self.owner.dom().contains(i)
        &&& self.links[i] == self.link(k)
    }

    /// A remembered head names a used slot and is not from the future.
    pub open spec fn head_ok(self, head: Index) -> bool {
        let i = atomic_slab::index_of(head);
        self.used(i) && atomic_slab::gen_of(head) <= self.gens[i]
    }

    /// What holds of the pending step of a thread.
    pub open spec fn local_ok(self, tid: int, local: Local) -> bool {
        match local {
            Local::Idle => true,
            Local::Alloc(AllocOp::LoadHead) => true,
            Local::Alloc(AllocOp::Reserve) => true,
            Local::Alloc(AllocOp::LoadNext { head }) => self.head_ok(head),
            Local::Alloc(AllocOp::Exchange { head, next }) => self.head_ok(head)
                && (self.free.contains(head) ==> next == self.links[atomic_slab::index_of(head)]),
            Local::Alloc(AllocOp::ResetLen) => self.len >= self.capacity(),
            Local::Alloc(AllocOp::Done(_)) => false,
            Local::Free(FreeOp::LoadHead { tagged }) => self.holds(tid, tagged),
            Local::Free(FreeOp::StoreLink { tagged, head }) => self.holds(tid, tagged),
            Local::Free(FreeOp::Exchange { tagged, head }) => self.holds(tid, tagged)
                && self.links[atomic_slab::index_of(tagged)] == head,
            Local::Free(FreeOp::Done) => false,
        }
    }

    /// Whether a thread holds the slot of a tagged index, in its current generation.
    pub open spec fn holds(self, tid: int, tagged: Index) -> bool {
        let i = atomic_slab::index_of(tagged);
        self.owner.dom().contains(i) && self.owner[i] == tid && tagged == self.tag(i)
    }

    /// Every used slot is either held by one thread or on the free list once, the links of
    /// the free slots make up the free list, and no pending step can break that.
    pub open spec fn inv(self) -> bool {
        &&& self.capacity() <= atomic_slab::MAX_CAPACITY
        &&& self.gens.len() == self.links.len()
        &&& 0 <= self.len
        &&& forall|i: int| 0 <= i < self.gens.len() ==> #[trigger] self.gens[i] < 0x1_0000_0000
        &&& forall|i: int| self.len <= i < self.gens.len() ==> #[trigger] self.gens[i] == 0
        &&& forall|i: int| #[trigger] self.owner.dom().contains(i) ==> self.used(i)
        &&& self.head == self.link(self.free.len() as int)
        &&& forall|k: int| 0 <= k < self.free.len() ==> #[trigger] self.free_ok(k)
        &&& self.free.no_duplicates()
        &&& forall|i: int| #[trigger] self.used(i) ==> self.owner.dom().contains(i)
            || self.free.contains(self.tag(i) as u64)
        &&& forall|tid: int| #[trigger]
            self.threads.dom().contains(tid) ==> self.local_ok(tid, self.threads[tid])
    }

    /// The world after a thread has gone on to `local`.
    pub open spec fn goto(self, tid: int, local: Local) -> World {
        World { threads: self.threads.insert(tid, local), ..self }
    }

    /// The world after an allocation step: a finished allocation leaves the thread idle.
    pub open spec fn alloc_next(self, tid: int, op: AllocOp) -> World {
        match op {
            AllocOp::Done(Ok(tagged)) => World {
                owner: self.owner.insert(atomic_slab::index_of(tagged), tid),
                ..self.goto(tid, Local::Idle)
            },
            AllocOp::Done(Err(_)) => self.goto(tid, Local::Idle),
            _ => self.goto(tid, Local::Alloc(op)),
        }
    }

    /// The world after the pending allocation step of a thread.
    pub open spec fn alloc_access(
        self,
        tid: int,
        op: AllocOp,
        garbage: Index,
        spurious: bool,
    ) -> World {
        match op {
            AllocOp::LoadHead => self.alloc_next(tid, AllocOp::spec_head_loaded(self.head)),
            AllocOp::Reserve => (World { len: self.len + 1, ..self }).alloc_next(
                tid,
                AllocOp::spec_slot_reserved(self.len, self.capacity()),
            ),
            AllocOp::LoadNext { head } => {
                let i = atomic_slab::index_of(head);
                let next = if self.owner.dom().contains(i) {
                    garbage
                } else {
                    self.links[i]
                };
                self.alloc_next(tid, AllocOp::Exchange { head, next })
            },
            AllocOp::Exchange { head, next } => if self.head == head && !spurious {
                (World { head: next, free: self.free.drop_last(), ..self }).alloc_next(
                    tid,
                    AllocOp::spec_exchanged(head, Ok(head)),
                )
            } else {
                self.alloc_next(tid, AllocOp::spec_exchanged(head, Err(self.head)))
            },
            AllocOp::ResetLen => (World { len: self.capacity(), ..self }).alloc_next(
                tid,
                AllocOp::Done(Err(AllocError::OutOfMemory)),
            ),
            AllocOp::Done(_) => self,
        }
    }

    /// The world after the pending deallocation step of a thread.
    pub open spec fn free_access(self, tid: int, op: FreeOp, spurious: bool) -> World {
        match op {
            FreeOp::LoadHead { tagged } => self.goto(
                tid,
                Local::Free(FreeOp::StoreLink { tagged, head: self.head }),
            ),
            FreeOp::StoreLink { tagged, head } => (World {
                links: self.links.update(atomic_slab::index_of(tagged), head),
                ..self
            }).goto(tid, Local::Free(FreeOp::Exchange { tagged, head })),
            FreeOp::Exchange { tagged, head } => if self.head == head && !spurious {
                let i = atomic_slab::index_of(tagged);
                (World {
                    head: atomic_slab::next_gen(tagged),
                    gens: self.gens.update(i, self.gens[i] + 1),
                    free: self.free.push(atomic_slab::next_gen(tagged)),
                    owner: self.owner.remove(i),
                    ..self
                }).goto(tid, Local::Idle)
            } else {
                self.goto(tid, Local::Free(FreeOp::StoreLink { tagged, head: self.head }))
            },
            FreeOp::Done => self,
        }
    }

    /// Whether a thread can do something.
    pub open spec fn enabled(self, tid: int, event: Event) -> bool {
        &&& self.threads.dom().contains(tid)
        &&& match event {
            Event::StartAlloc => self.threads[tid] is Idle,
            Event::StartFree { tagged } => self.threads[tid] is Idle && self.holds(tid, tagged),
            Event::Handover { slot, to } => self.threads[tid] is Idle
                && self.owner.dom().contains(slot) && self.owner[slot] == tid,
            Event::Access { .. } => !(self.threads[tid] is Idle),
        }
    }

    /// The world after a thread has done something.
    pub open spec fn step(self, tid: int, event: Event) -> World {
        match event {
            Event::StartAlloc => self.goto(tid, Local::Alloc(AllocOp::LoadHead)),
            Event::StartFree { tagged } => self.goto(tid, Local::Free(FreeOp::LoadHead { tagged })),
            Event::Handover { slot, to } => World { owner: self.owner.insert(slot, to), ..self },
            Event::Access { garbage, spurious } => match self.threads[tid] {
                Local::Idle => self,
                Local::Alloc(op) => self.alloc_access(tid, op, garbage, spurious),
                Local::Free(op) => self.free_access(tid, op, spurious),
            },
        }
    }

    /// The slot that a thread is handed when it does something, if any.
    pub open spec fn handed_out(self, tid: int, event: Event) -> Option<int> {
        match (event, self.threads[tid]) {
            (Event::Access { .. }, Local::Alloc(AllocOp::Reserve)) => if self.len
                < self.capacity() {
                Some(self.len)
            } else {
                None
            },
            (
                Event::Access { spurious, .. },
                Local::Alloc(AllocOp::Exchange { head, .. }),
            ) => if self.head == head && !spurious {
                Some(atomic_slab::index_of(head))
            } else {
                None
            },
            _ => None,
        }
    }

    /// A slab that nobody has used yet.
    pub open spec fn fresh(self) -> bool {
        &&& self.capacity() <= atomic_slab::MAX_CAPACITY
        &&& self.head == atomic_slab::NULL_INDEX
        &&& self.len == 0
        &&& self.gens == Seq::new(self.links.len(), |i: int| 0nat)
        &&& self.free == Seq::<Index>::empty()
        &&& self.owner == Map::<int, int>::empty()
        &&& forall|tid: int| #[trigger]
            self.threads.dom().contains(tid) ==> self.threads[tid] is Idle
    }

    /// The world after what several threads have done, in that order.
    pub open spec fn run(self, history: Seq<(int, Event)>) -> World
        decreases history.len(),
    {
        if history.len() == 0 {
            self
        } else {
            self.run(history.drop_last()).step(history.last().0, history.last().1)
        }
    }

    /// Whether several threads can do these things in this order, without a generation that
    /// wraps around.
    pub open spec fn possible(self, history: Seq<(int, Event)>) -> bool
        decreases history.len(),
    {
        history.len() == 0 || {
            let w = self.run(history.drop_last());
            &&& self.possible(history.drop_last())
            &&& w.enabled(history.last().0, history.last().1)
            &&& w.no_wrap(history.last().0, history.last().1)
        }
    }

    /// Whether a slab has the same contents as this world.
    pub open spec fn shows<T>(self, slab: SlabView<T>) -> bool {
        &&& slab.capacity == self.capacity()
        &&& slab.tags.len() == self.len
        &&& slab.free == self.free
        &&& forall|i: int| 0 <= i < slab.tags.len() ==> #[trigger] slab.tags[i] == self.tag(i)
    }

    /// Whether something that a thread does makes no generation wrap around.
    pub open spec fn no_wrap(self, tid: int, event: Event) -> bool {
        match (event, self.threads[tid]) {
            (Event::Access { .. }, Local::Free(FreeOp::Exchange { tagged, .. })) => self.gens[
                atomic_slab::index_of(tagged)
            ] + 1 < 0x1_0000_0000,
            _ => true,
        }
    }
}

proof fn lemma_tag(w: World, i: int)
    requires
        w.inv(),
        0 <= i < w.capacity(),
    ensures
        0 <= w.tag(i) <= u64::MAX,
        atomic_slab::index_of(w.tag(i) as u64) == i,
        atomic_slab::gen_of(w.tag(i) as u64) == w.gens[i],
{
    assert(w.gens[i] < 0x1_0000_0000);
}

/// The head of the free list is null or names a free slot.
proof fn lemma_head(w: World)
    requires
        w.inv(),
    ensures
        atomic_slab::index_of(w.head) != atomic_slab::MAX_CAPACITY ==> w.free.len() > 0
            && w.free.last() == w.head && w.head_ok(w.head),
        w.free.len() > 0 ==> atomic_slab::index_of(w.head) != atomic_slab::MAX_CAPACITY,
{
    if w.free.len() > 0 {
        let k = w.free.len() - 1;
        assert(w.free_ok(k));
        lemma_tag(w, atomic_slab::index_of(w.free[k]));
    }
}

/// A step that changes nothing but the pending step of one thread keeps the invariant.
proof fn lemma_goto(w: World, tid: int, local: Local)
    requires
        w.inv(),
        w.local_ok(tid, local),
    ensures
        w.goto(tid, local).inv(),
{
    let w2 = w.goto(tid, local);
    assert forall|k: int| 0 <= k < w2.free.len() implies #[trigger] w2.free_ok(k) by {
        assert(w.free_ok(k));
    }
    assert forall|i: int| #[trigger] w2.used(i) implies w2.owner.dom().contains(i)
        || w2.free.contains(w2.tag(i) as u64) by {
        assert(w.used(i));
    }
    assert forall|t: int| #[trigger] w2.threads.dom().contains(t) implies w2.local_ok(
        t,
        w2.threads[t],
    ) by {
        if t != tid {
            assert(w.threads.dom().contains(t));
            assert(w.local_ok(t, w.threads[t]));
        }
    }
}

/// Taking a slot that was never used, or failing to, keeps the invariant.
proof fn lemma_reserve(w: World, tid: int)
    requires
        w.inv(),
        w.threads.dom().contains(tid),
        w.threads[tid] == Local::Alloc(AllocOp::Reserve),
    ensures
        w.alloc_access(tid, AllocOp::Reserve, 0, false).inv(),
{
    let w2 = w.alloc_access(tid, AllocOp::Reserve, 0, false);
    let slot = w.len;
    assert forall|k: int| 0 <= k < w2.free.len() implies #[trigger] w2.free_ok(k) by {
        assert(w.free_ok(k));
    }
    assert forall|i: int| #[trigger] w2.owner.dom().contains(i) implies w2.used(i) by {
        if i != slot {
            assert(w.owner.dom().contains(i));
            assert(w.used(i));
        }
    }
    assert forall|i: int| #[trigger] w2.used(i) implies w2.owner.dom().contains(i)
        || w2.free.contains(w2.tag(i) as u64) by {
        if i != slot {
            assert(w.used(i));
        }
    }
    assert forall|t: int| #[trigger] w2.threads.dom().contains(t) implies w2.local_ok(
        t,
        w2.threads[t],
    ) by {
        if t != tid {
            assert(w.threads.dom().contains(t));
            assert(w.local_ok(t, w.threads[t]));
        }
    }
}

/// The reset of the counter of used slots keeps the invariant.
proof fn lemma_reset(w: World, tid: int)
    requires
        w.inv(),
        w.threads.dom().contains(tid),
        w.threads[tid] == Local::Alloc(AllocOp::ResetLen),
    ensures
        w.alloc_access(tid, AllocOp::ResetLen, 0, false).inv(),
{
    let w2 = w.alloc_access(tid, AllocOp::ResetLen, 0, false);
    assert(w.local_ok(tid, w.threads[tid]));
    assert forall|i: int| w.used(i) == #[trigger] w2.used(i) by {}
    assert forall|k: int| 0 <= k < w2.free.len() implies #[trigger] w2.free_ok(k) by {
        assert(w.free_ok(k));
    }
    assert forall|i: int| #[trigger] w2.owner.dom().contains(i) implies w2.used(i) by {
        assert(w.owner.dom().contains(i));
        assert(w.used(i));
    }
    assert forall|t: int| #[trigger] w2.threads.dom().contains(t) implies w2.local_ok(
        t,
        w2.threads[t],
    ) by {
        if t != tid {
            assert(w.threads.dom().contains(t));
            assert(w.local_ok(t, w.threads[t]));
        }
    }
}

/// A successful exchange of the head by an allocation keeps the invariant, and the slot that
/// it takes was free.
proof fn lemma_alloc_exchange(w: World, tid: int, head: Index, next: Index)
    requires
        w.inv(),
        w.threads.dom().contains(tid),
        w.threads[tid] == Local::Alloc(AllocOp::Exchange { head, next }),
        w.head == head,
    ensures
        w.alloc_access(tid, AllocOp::Exchange { head, next }, 0, false).inv(),
        !w.owner.dom().contains(atomic_slab::index_of(head)),
{
    let w2 = w.alloc_access(tid, AllocOp::Exchange { head, next }, 0, false);
    let slot = atomic_slab::index_of(head);
    let top = w.free.len() - 1;
    assert(w.local_ok(tid, w.threads[tid]));
    lemma_head(w);
    assert(w.free[top] == head);
    assert(w.free_ok(top));
    assert(w.free.contains(head));
    assert(next == w.link(top));
    assert(w2.free.no_duplicates());
    assert(w2.head == w2.link(w2.free.len() as int));
    assert forall|k: int| 0 <= k < w2.free.len() implies #[trigger] w2.free_ok(k) by {
        assert(w.free_ok(k));
        assert(w.free[k] != w.free[top]);
        assert(w2.free[k] == w.free[k]);
    }
    assert forall|i: int| #[trigger] w2.owner.dom().contains(i) implies w2.used(i) by {
        if i != slot {
            assert(w.owner.dom().contains(i));
            assert(w.used(i));
        }
    }
    assert forall|i: int| #[trigger] w2.used(i) implies w2.owner.dom().contains(i)
        || w2.free.contains(w2.tag(i) as u64) by {
        assert(w.used(i));
        if i != slot && !w.owner.dom().contains(i) {
            let t = w.tag(i) as u64;
            lemma_tag(w, i);
            let k = choose|k: int| 0 <= k < w.free.len() && w.free[k] == t;
            assert(k != top);
            assert(w2.free[k] == t);
        }
    }
    assert forall|t: int| #[trigger] w2.threads.dom().contains(t) implies w2.local_ok(
        t,
        w2.threads[t],
    ) by {
        if t != tid {
            assert(w.threads.dom().contains(t));
            assert(w.local_ok(t, w.threads[t]));
            match w.threads[t] {
                Local::Alloc(AllocOp::Exchange { head: h, next: n }) => {
                    if w2.free.contains(h) {
                        let k = choose|k: int| 0 <= k < w2.free.len() && w2.free[k] == h;
                        assert(w.free[k] == h);
                        assert(w.free.contains(h));
                    }
                },
                _ => {},
            }
        }
    }
}

/// Storing the link of a slot that is about to be freed keeps the invariant.
proof fn lemma_store_link(w: World, tid: int, tagged: Index, head: Index)
    requires
        w.inv(),
        w.threads.dom().contains(tid),
        w.threads[tid] == Local::Free(FreeOp::StoreLink { tagged, head }),
    ensures
        w.free_access(tid, FreeOp::StoreLink { tagged, head }, false).inv(),
{
    let w2 = w.free_access(tid, FreeOp::StoreLink { tagged, head }, false);
    let slot = atomic_slab::index_of(tagged);
    assert(w.local_ok(tid, w.threads[tid]));
    assert(w.owner.dom().contains(slot));
    assert(w.used(slot));
    assert forall|k: int| 0 <= k < w2.free.len() implies #[trigger] w2.free_ok(k) by {
        assert(w.free_ok(k));
    }
    assert forall|i: int| #[trigger] w2.owner.dom().contains(i) implies w2.used(i) by {
        assert(w.owner.dom().contains(i));
        assert(w.used(i));
    }
    assert forall|i: int| #[trigger] w2.used(i) implies w2.owner.dom().contains(i)
        || w2.free.contains(w2.tag(i) as u64) by {
        assert(w.used(i));
    }
    assert forall|t: int| #[trigger] w2.threads.dom().contains(t) implies w2.local_ok(
        t,
        w2.threads[t],
    ) by {
        if t != tid {
            assert(w.threads.dom().contains(t));
            assert(w.local_ok(t, w.threads[t]));
            match w.threads[t] {
                Local::Alloc(AllocOp::Exchange { head: h, next: n }) => {
                    if w2.free.contains(h) {
                        let k = choose|k: int| 0 <= k < w2.free.len() && w2.free[k] == h;
                        assert(w.free_ok(k));
                        assert(atomic_slab::index_of(h) != slot);
                    }
                },
                _ => {},
            }
        }
    }
}

/// A successful exchange of the head by a deallocation keeps the invariant, unless the
/// generation of the slot wraps around.
proof fn lemma_free_exchange(w: World, tid: int, tagged: Index, head: Index)
    requires
        w.inv(),
        w.threads.dom().contains(tid),
        w.threads[tid] == Local::Free(FreeOp::Exchange { tagged, head }),
        w.head == head,
        w.gens[atomic_slab::index_of(tagged)] + 1 < 0x1_0000_0000,
    ensures
        w.free_access(tid, FreeOp::Exchange { tagged, head }, false).inv(),
{
    let w2 = w.free_access(tid, FreeOp::Exchange { tagged, head }, false);
    let slot = atomic_slab::index_of(tagged);
    let new_tag = atomic_slab::next_gen(tagged);
    let n = w.free.len() as int;
    assert(w.local_ok(tid, w.threads[tid]));
    assert(w.owner.dom().contains(slot));
    assert(w.used(slot));
    lemma_tag(w, slot);
    atomic_slab::lemma_next_gen(tagged);
    assert(new_tag == w2.tag(slot));
    assert forall|k: int| 0 <= k < n implies atomic_slab::index_of(#[trigger] w.free[k])
        != slot by {
        assert(w.free_ok(k));
    }
    assert(w2.free[n] == new_tag);
    assert forall|j: int, k: int|
        0 <= j < w2.free.len() && 0 <= k < w2.free.len() && j != k implies w2.free[j]
        != w2.free[k] by {
        if j < n {
            assert(w2.free[j] == w.free[j]);
        }
        if k < n {
            assert(w2.free[k] == w.free[k]);
        }
    }
    assert forall|k: int| 0 <= k < w2.free.len() implies #[trigger] w2.free_ok(k) by {
        if k < n {
            assert(w.free_ok(k));
            assert(w2.free[k] == w.free[k]);
            assert(w2.link(k) == w.link(k));
        } else {
            assert(w2.link(n) == w.link(n));
        }
    }
    assert forall|i: int| #[trigger] w2.owner.dom().contains(i) implies w2.used(i) by {
        assert(w.owner.dom().contains(i));
        assert(w.used(i));
    }
    assert forall|i: int| #[trigger] w2.used(i) implies w2.owner.dom().contains(i)
        || w2.free.contains(w2.tag(i) as u64) by {
        assert(w.used(i));
        if i == slot {
            assert(w2.free[n] == w2.tag(i) as u64);
        } else if !w.owner.dom().contains(i) {
            let t = w.tag(i) as u64;
            let k = choose|k: int| 0 <= k < w.free.len() && w.free[k] == t;
            assert(w2.free[k] == t);
        }
    }
    assert forall|t: int| #[trigger] w2.threads.dom().contains(t) implies w2.local_ok(
        t,
        w2.threads[t],
    ) by {
        if t != tid {
            assert(w.threads.dom().contains(t));
            assert(w.local_ok(t, w.threads[t]));
            match w.threads[t] {
                Local::Alloc(AllocOp::Exchange { head: h, next: nx }) => {
                    if w2.free.contains(h) {
                        let k = choose|k: int| 0 <= k < w2.free.len() && w2.free[k] == h;
                        if k < n {
                            assert(w.free[k] == h);
                            assert(w.free.contains(h));
                        } else {
                            assert(h == new_tag);
                            assert(atomic_slab::gen_of(h) <= w.gens[slot]);
                        }
                    }
                },
                _ => {},
            }
        }
    }
}

/// A load of the index below a remembered head keeps the invariant.
proof fn lemma_load_next(w: World, tid: int, head: Index, garbage: Index)
    requires
        w.inv(),
        w.threads.dom().contains(tid),
        w.threads[tid] == Local::Alloc(AllocOp::LoadNext { head }),
    ensures
        w.alloc_access(tid, AllocOp::LoadNext { head }, garbage, false).inv(),
{
    let slot = atomic_slab::index_of(head);
    let next = if w.owner.dom().contains(slot) {
        garbage
    } else {
        w.links[slot]
    };
    assert(w.local_ok(tid, w.threads[tid]));
    if w.free.contains(head) {
        let k = choose|k: int| 0 <= k < w.free.len() && w.free[k] == head;
        assert(w.free_ok(k));
    }
    lemma_goto(w, tid, Local::Alloc(AllocOp::Exchange { head, next }));
}

/// Giving a slot to another thread keeps the invariant.
proof fn lemma_handover(w: World, tid: int, slot: int, to: int)
    requires
        w.inv(),
        w.enabled(tid, Event::Handover { slot, to }),
    ensures
        w.step(tid, Event::Handover { slot, to }).inv(),
{
    let w2 = w.step(tid, Event::Handover { slot, to });
    assert(w2.owner.dom() =~= w.owner.dom());
    assert forall|k: int| 0 <= k < w2.free.len() implies #[trigger] w2.free_ok(k) by {
        assert(w.free_ok(k));
    }
    assert forall|i: int| #[trigger] w2.owner.dom().contains(i) implies w2.used(i) by {
        assert(w.owner.dom().contains(i));
        assert(w.used(i));
    }
    assert forall|i: int| #[trigger] w2.used(i) implies w2.owner.dom().contains(i)
        || w2.free.contains(w2.tag(i) as u64) by {
        assert(w.used(i));
    }
    assert forall|t: int| #[trigger] w2.threads.dom().contains(t) implies w2.local_ok(
        t,
        w2.threads[t],
    ) by {
        assert(w.threads.dom().contains(t));
        assert(w.local_ok(t, w.threads[t]));
    }
}

/// Whatever a thread does, every used slot stays held by one thread or free, and a slot that
/// becomes held was free or never used. Excluded is the one deallocation that makes the
/// generation of a slot wrap around.
pub proof fn law_step_is_safe(w: World, tid: int, event: Event)
    requires
        w.inv(),
        w.enabled(tid, event),
        w.no_wrap(tid, event),
    ensures
        w.step(tid, event).inv(),
        w.handed_out(tid, event) matches Some(slot) ==> !w.owner.dom().contains(slot)
            && w.step(tid, event).owner == w.owner.insert(slot, tid),
        forall|slot: int| #[trigger]
            w.owner.dom().contains(slot) && !(event is Handover) ==> {
                let w2 = w.step(tid, event);
                ||| w2.owner.dom().contains(slot) && w2.owner[slot] == w.owner[slot]
                ||| !w2.owner.dom().contains(slot) && w.owner[slot] == tid
            },
{
    lemma_head(w);
    assert(w.local_ok(tid, w.threads[tid]));
    match event {
        Event::StartAlloc => {
            lemma_goto(w, tid, Local::Alloc(AllocOp::LoadHead));
        },
        Event::StartFree { tagged } => {
            lemma_goto(w, tid, Local::Free(FreeOp::LoadHead { tagged }));
        },
        Event::Handover { slot, to } => {
            lemma_handover(w, tid, slot, to);
        },
        Event::Access { garbage, spurious } => match w.threads[tid] {
            Local::Idle => {},
            Local::Alloc(AllocOp::LoadHead) => {
                lemma_goto(w, tid, Local::Alloc(AllocOp::spec_head_loaded(w.head)));
            },
            Local::Alloc(AllocOp::Reserve) => {
                lemma_reserve(w, tid);
            },
            Local::Alloc(AllocOp::LoadNext { head }) => {
                lemma_load_next(w, tid, head, garbage);
            },
            Local::Alloc(AllocOp::Exchange { head, next }) => {
                if w.head == head && !spurious {
                    lemma_alloc_exchange(w, tid, head, next);
                } else {
                    lemma_goto(w, tid, Local::Alloc(AllocOp::spec_head_loaded(w.head)));
                }
            },
            Local::Alloc(AllocOp::ResetLen) => {
                lemma_reset(w, tid);
            },
            Local::Alloc(AllocOp::Done(_)) => {},
            Local::Free(FreeOp::LoadHead { tagged }) => {
                lemma_goto(w, tid, Local::Free(FreeOp::StoreLink { tagged, head: w.head }));
            },
            Local::Free(FreeOp::StoreLink { tagged, head }) => {
                lemma_store_link(w, tid, tagged, head);
            },
            Local::Free(FreeOp::Exchange { tagged, head }) => {
                if w.head == head && !spurious {
                    lemma_free_exchange(w, tid, tagged, head);
                } else {
                    lemma_goto(w, tid, Local::Free(FreeOp::StoreLink { tagged, head: w.head }));
                }
            },
            Local::Free(FreeOp::Done) => {},
        },
    }
}

/// In every interleaving on a fresh slab in which no generation wraps around, a slot that is
/// handed out is held by nobody at that time.
pub proof fn law_no_slot_is_handed_out_twice(w: World, history: Seq<(int, Event)>)
    requires
        w.fresh(),
        w.possible(history),
    ensures
        w.run(history).inv(),
        forall|n: int, slot: int|
            0 <= n < history.len() && w.run(history.take(n)).handed_out(
                history[n].0,
                history[n].1,
            ) == Some(slot) ==> !(#[trigger] w.run(history.take(n)).owner.dom().contains(slot)),
    decreases history.len(),
{
    if history.len() == 0 {
        assert(w.run(history) == w);
    } else {
        let init = history.drop_last();
        law_no_slot_is_handed_out_twice(w, init);
        law_step_is_safe(w.run(init), history.last().0, history.last().1);
        assert forall|n: int, slot: int|
            0 <= n < history.len() && w.run(history.take(n)).handed_out(
                history[n].0,
                history[n].1,
            ) == Some(slot) implies !(#[trigger] w.run(history.take(n)).owner.dom().contains(
            slot,
        )) by {
            if n < init.len() {
                assert(init.take(n) =~= history.take(n));
                assert(init[n] == history[n]);
            } else {
                assert(history.take(n) =~= init);
            }
        }
    }
}

/// A thread that allocates while no other thread takes a step ends up as a slab that
/// allocates at once: it is handed the same slot, and leaves the same free list.
pub proof fn law_solo_allocation<T>(w: World, slab: SlabView<T>, tid: int)
    requires
        w.inv(),
        slab.valid(),
        w.shows(slab),
        w.enabled(tid, Event::StartAlloc),
    ensures
        ({
            let go = Event::Access { garbage: 0, spurious: false };
            let w2 = w.step(tid, Event::StartAlloc).step(tid, go);
            match slab.next_alloc() {
                Some(tagged) => {
                    let end = if slab.free.len() > 0 {
                        w2.step(tid, go).step(tid, go)
                    } else {
                        w2.step(tid, go)
                    };
                    &&& end.shows(slab.after_alloc())
                    &&& end.threads[tid] is Idle
                    &&& end.owner == w.owner.insert(atomic_slab::index_of(tagged), tid)
                },
                None => {
                    let end = w2.step(tid, go).step(tid, go);
                    &&& end.shows(slab.after_alloc())
                    &&& end.threads[tid] is Idle
                    &&& end.owner == w.owner
                },
            }
        }),
{
    let go = Event::Access { garbage: 0, spurious: false };
    lemma_head(w);
    let w2 = w.step(tid, Event::StartAlloc).step(tid, go);
    if slab.free.len() > 0 {
        let top = slab.free.len() - 1;
        assert(w.free_ok(top));
        let w3 = w2.step(tid, go);
        let w4 = w3.step(tid, go);
        assert(w4.free =~= slab.after_alloc().free);
    } else if slab.tags.len() < slab.capacity {
        let w3 = w2.step(tid, go);
        let after = slab.after_alloc();
        assert(w3.free =~= after.free);
        assert(atomic_slab::index_of(slab.tags.len() as u64) == w.len);
        assert(w.gens[w.len] == 0);
        assert forall|i: int| 0 <= i < after.tags.len() implies #[trigger] after.tags[i]
            == w3.tag(i) by {
            if i < slab.tags.len() {
                assert(after.tags[i] == slab.tags[i]);
            }
        }
    } else {
        let w3 = w2.step(tid, go);
        let w4 = w3.step(tid, go);
        assert(w4.free =~= slab.after_alloc().free);
    }
}

/// A thread that frees a slot while no other thread takes a step ends up as a slab that frees
/// it at once.
pub proof fn law_solo_deallocation<T>(w: World, slab: SlabView<T>, tid: int, tagged: Index)
    requires
        w.inv(),
        slab.valid(),
        w.shows(slab),
        w.enabled(tid, Event::StartFree { tagged }),
        w.gens[atomic_slab::index_of(tagged)] + 1 < 0x1_0000_0000,
    ensures
        ({
            let go = Event::Access { garbage: 0, spurious: false };
            let start = w.step(tid, Event::StartFree { tagged });
            let end = start.step(tid, go).step(tid, go).step(tid, go);
            &&& end.shows(slab.after_free(tagged))
            &&& end.threads[tid] is Idle
            &&& end.owner == w.owner.remove(atomic_slab::index_of(tagged))
        }),
{
    let go = Event::Access { garbage: 0, spurious: false };
    let slot = atomic_slab::index_of(tagged);
    let w1 = w.step(tid, Event::StartFree { tagged }).step(tid, go);
    let w2 = w1.step(tid, go);
    let w3 = w2.step(tid, go);
    let after = slab.after_free(tagged);
    assert(w.used(slot));
    lemma_tag(w, slot);
    atomic_slab::lemma_next_gen(tagged);
    assert forall|i: int| 0 <= i < after.tags.len() implies #[trigger] after.tags[i]
        == w3.tag(i) by {
        if i != slot {
            assert(after.tags[i] == slab.tags[i]);
        }
    }
}

/// What a thread does to a slab whose slots hold values.
pub enum ValueEvent<V> {
    /// Take part in an allocation or a deallocation.
    Do { tid: int, event: Event },
    /// Write a value to a slot that the thread holds.
    Write { tid: int, slot: int, value: V },
}

/// A slab that threads work on, and the value that each slot holds.
pub struct ValueWorld<V> {
    pub world: World,
    pub values: Map<int, V>,
}

impl<V> ValueWorld<V> {
    /// Whether a thread can do something, without a generation that wraps around. Only a
    /// thread that is not allocating or freeing can use the slots it holds.
    pub open spec fn enabled(self, event: ValueEvent<V>) -> bool {
        match event {
            ValueEvent::Do { tid, event } => self.world.enabled(tid, event) && self.world.no_wrap(
                tid,
                event,
            ),
            ValueEvent::Write { tid, slot, .. } => self.world.threads.dom().contains(tid)
                && self.world.threads[tid] is Idle && self.world.owner.dom().contains(slot)
                && self.world.owner[slot] == tid,
        }
    }

    /// The slot whose contents a thread overwrites with a link when it does something, if any.
    pub open spec fn overwritten(self, tid: int, event: Event) -> Option<int> {
        match (event, self.world.threads[tid]) {
            (Event::Access { .. }, Local::Free(FreeOp::StoreLink { tagged, .. })) => Some(
                atomic_slab::index_of(tagged),
            ),
            _ => None,
        }
    }

    /// The slab after a thread has done something.
    pub open spec fn step(self, event: ValueEvent<V>) -> ValueWorld<V> {
        match event {
            ValueEvent::Do { tid, event } => ValueWorld {
                world: self.world.step(tid, event),
                values: match self.overwritten(tid, event) {
                    Some(slot) => self.values.remove(slot),
                    None => self.values,
                },
            },
            ValueEvent::Write { tid, slot, value } => ValueWorld {
                values: self.values.insert(slot, value),
                ..self
            },
        }
    }

    /// The slab after what several threads have done, in that order.
    pub open spec fn run(self, history: Seq<ValueEvent<V>>) -> ValueWorld<V>
        decreases history.len(),
    {
        if history.len() == 0 {
            self
        } else {
            self.run(history.drop_last()).step(history.last())
        }
    }

    /// Whether several threads can do these things in this order.
    pub open spec fn possible(self, history: Seq<ValueEvent<V>>) -> bool
        decreases history.len(),
    {
        history.len() == 0 || (self.possible(history.drop_last()) && self.run(
            history.drop_last(),
        ).enabled(history.last()))
    }

    /// Whether a thread is freeing a slot.
    pub open spec fn freeing(self, tid: int, slot: int) -> bool {
        match self.world.threads[tid] {
            Local::Free(FreeOp::LoadHead { tagged }) => atomic_slab::index_of(tagged) == slot,
            Local::Free(FreeOp::StoreLink { tagged, .. }) => atomic_slab::index_of(tagged)
                == slot,
            Local::Free(FreeOp::Exchange { tagged, .. }) => atomic_slab::index_of(tagged) == slot,
            _ => false,
        }
    }

    /// Whether a slot is held and nobody is freeing it.
    pub open spec fn live(self, slot: int) -> bool {
        &&& self.world.owner.dom().contains(slot)
        &&& forall|tid: int|
            self.world.threads.dom().contains(tid) ==> !#[trigger] self.freeing(tid, slot)
    }
}

/// Whether something that a thread does is neither a write to a slot nor the start of its
/// deallocation.
pub open spec fn spares<V>(event: ValueEvent<V>, slot: int) -> bool {
    match event {
        ValueEvent::Do { event: Event::StartFree { tagged }, .. } => atomic_slab::index_of(tagged)
            != slot,
        ValueEvent::Do { .. } => true,
        ValueEvent::Write { slot: written, .. } => written != slot,
    }
}

proof fn lemma_live_is_kept<V>(v: ValueWorld<V>, event: ValueEvent<V>, slot: int)
    requires
        v.live(slot),
        v.enabled(event),
        spares(event, slot),
    ensures
        v.step(event).live(slot),
        v.step(event).values.contains_key(slot) == v.values.contains_key(slot),
        v.step(event).values[slot] == v.values[slot],
{
    let after = v.step(event);
    match event {
        ValueEvent::Do { tid, event } => {
            assert(!v.freeing(tid, slot));
            assert forall|t: int| after.world.threads.dom().contains(t) implies !#[trigger]
                after.freeing(t, slot) by {
                if t != tid {
                    assert(v.world.threads.dom().contains(t));
                    assert(!v.freeing(t, slot));
                    assert(after.world.threads[t] == v.world.threads[t]);
                }
            }
        },
        ValueEvent::Write { .. } => {
            assert forall|t: int| after.world.threads.dom().contains(t) implies !#[trigger]
                after.freeing(t, slot) by {
                assert(!v.freeing(t, slot));
            }
        },
    }
}

proof fn lemma_value_is_kept<V>(v: ValueWorld<V>, slot: int, history: Seq<ValueEvent<V>>)
    requires
        v.live(slot),
        v.possible(history),
        forall|i: int| 0 <= i < history.len() ==> spares(#[trigger] history[i], slot),
    ensures
        v.run(history).live(slot),
        v.run(history).values.contains_key(slot) == v.values.contains_key(slot),
        v.run(history).values[slot] == v.values[slot],
    decreases history.len(),
{
    if history.len() > 0 {
        assert forall|i: int| 0 <= i < history.drop_last().len() implies spares(
            #[trigger] history.drop_last()[i],
            slot,
        ) by {
            assert(spares(history[i], slot));
        }
        lemma_value_is_kept(v, slot, history.drop_last());
        assert(spares(history[history.len() - 1], slot));
        lemma_live_is_kept(v.run(history.drop_last()), history.last(), slot);
    }
}

/// A value that a thread writes to a slot it holds stays there, and the slot stays held,
/// whatever this and other threads do, in any interleaving, until the slot is written again or
/// begins to be freed.
pub proof fn law_live_slot_keeps_its_value<V>(
    v: ValueWorld<V>,
    tid: int,
    slot: int,
    value: V,
    history: Seq<ValueEvent<V>>,
)
    requires
        v.world.inv(),
        v.enabled(ValueEvent::Write { tid, slot, value }),
        v.step(ValueEvent::Write { tid, slot, value }).possible(history),
        forall|i: int| 0 <= i < history.len() ==> spares(#[trigger] history[i], slot),
    ensures
        ({
            let end = v.step(ValueEvent::Write { tid, slot, value }).run(history);
            &&& end.values.contains_key(slot)
            &&& end.values[slot] == value
            &&& end.live(slot)
        }),
{
    let written = v.step(ValueEvent::Write { tid, slot, value });
    assert forall|t: int| written.world.threads.dom().contains(t) implies !#[trigger]
        written.freeing(t, slot) by {
        assert(v.world.threads.dom().contains(t));
        assert(v.world.local_ok(t, v.world.threads[t]));
    }
    lemma_value_is_kept(written, slot, history);
}

} // verus!
