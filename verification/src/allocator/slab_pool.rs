//! Pool of slab allocators over near-allocated memory.

use vstd::prelude::*;

use super::atomic_slab;
use super::atomic_slab::{AtomicSlab, AtomicSlabPtr, SlabView};
use super::layout::Layout;
use super::{AllocError, AsMutPtr, NearAllocator};

verus! {

/// A slab and the memory that it uses.
struct PinnedAtomicSlab<T, P> {
    slab: AtomicSlab<T>,
    base: P,
}

/// A pool of slab allocators over fixed memory blocks.
///
/// The blocks are allocated using the provided [`NearAllocator`].
pub struct SlabPool<T, A: NearAllocator> {
    near_alloc: A,
    slab_size: usize,
    /// Ordered by the address of the first slot.
    slabs: Vec<PinnedAtomicSlab<T, A::Ptr>>,
}

/// Opaque pointer to a [`SlabPool`] allocation.
pub struct SlabPoolPtr<T> {
    slab: usize,
    ptr: AtomicSlabPtr<T>,
}

impl<T> SlabPoolPtr<T> {
    /// The address of the first slot of the slab that the allocation is in.
    pub closed spec fn slab_base(self) -> usize {
        self.slab
    }

    /// The slot within the slab.
    pub closed spec fn slot(self) -> AtomicSlabPtr<T> {
        self.ptr
    }
}

impl<T> AsMutPtr<T> for SlabPoolPtr<T> {
    open spec fn addr(&self) -> usize {
        self.slot().addr()
    }

    fn as_mut_ptr(&self) -> (r: usize) {
        self.ptr.ptr()
    }
}

/// Whether an allocation between `min` and `max` can be made in a slab: every slot of it
/// starts within those bounds, and it has one left.
pub open spec fn eligible<T>(slab: SlabView<T>, min: int, max: int) -> bool {
    &&& min <= slab.base < max
    &&& slab.max_addr() < max
    &&& slab.next_alloc() is Some
}

/// Whether slabs are ordered by address.
pub open spec fn ordered<T>(slabs: Seq<SlabView<T>>) -> bool {
    forall|i: int, j: int|
        0 <= i < j < slabs.len() ==> (#[trigger] slabs[i]).base < (#[trigger] slabs[j]).base
}

/// The number of slabs that start below an address.
pub open spec fn rank<T>(slabs: Seq<SlabView<T>>, base: int) -> int
    decreases slabs.len(),
{
    if slabs.len() == 0 || slabs.last().base < base {
        slabs.len() as int
    } else {
        rank(slabs.drop_last(), base)
    }
}

/// The slabs with one more, at its place in the order. It replaces one at the same address.
pub open spec fn with_slab<T>(slabs: Seq<SlabView<T>>, slab: SlabView<T>) -> Seq<SlabView<T>> {
    let k = rank(slabs, slab.base);
    if k < slabs.len() && slabs[k].base == slab.base {
        slabs.update(k, slab)
    } else {
        slabs.insert(k, slab)
    }
}

/// The memory of the slabs when a slab is added over the memory at `base`.
pub open spec fn with_base<T, P: AsMutPtr<u8>>(
    slabs: Seq<SlabView<T>>,
    bases: Seq<P>,
    base: P,
) -> Seq<P> {
    let k = rank(slabs, base.addr() as int);
    if k < slabs.len() && slabs[k].base == base.addr() {
        bases.update(k, base)
    } else {
        bases.insert(k, base)
    }
}

proof fn lemma_rank<T>(slabs: Seq<SlabView<T>>, base: int)
    requires
        ordered(slabs),
    ensures
        0 <= rank(slabs, base) <= slabs.len(),
        forall|i: int| 0 <= i < rank(slabs, base) ==> (#[trigger] slabs[i]).base < base,
        forall|i: int| rank(slabs, base) <= i < slabs.len() ==> (#[trigger] slabs[i]).base >= base,
    decreases slabs.len(),
{
    if slabs.len() > 0 && slabs.last().base >= base {
        let init = slabs.drop_last();
        assert(ordered(init));
        lemma_rank(init, base);
        assert forall|i: int| 0 <= i < rank(slabs, base) implies (#[trigger] slabs[i]).base
            < base by {
            assert(init[i] == slabs[i]);
        }
        assert forall|i: int| rank(slabs, base) <= i < slabs.len() implies (#[trigger] slabs[
            i
        ]).base >= base by {
            if i < init.len() {
                assert(init[i] == slabs[i]);
            }
        }
    }
}

impl<T, A: NearAllocator> View for SlabPool<T, A> {
    type V = Seq<SlabView<T>>;

    closed spec fn view(&self) -> Seq<SlabView<T>> {
        self.slabs@.map_values(|s: PinnedAtomicSlab<T, A::Ptr>| s.slab@)
    }
}

impl<T, A: NearAllocator> SlabPool<T, A> {
    /// The slabs are consistent and ordered by address.
    pub closed spec fn wf(self) -> bool {
        &&& forall|i: int| 0 <= i < self.slabs@.len() ==> (#[trigger] self.slabs@[i]).slab.wf()
        &&& ordered(self@)
        &&& self.slabs@.len() > 0 ==> self.slab_layout().valid() && self.slab_layout().size != 0
    }

    /// The allocator of the memory of the slabs.
    pub closed spec fn allocator(self) -> A {
        self.near_alloc
    }

    /// The size of the memory of one slab.
    pub closed spec fn slab_size(self) -> usize {
        self.slab_size
    }

    /// The layout of the memory of one slab.
    pub open spec fn slab_layout(self) -> Layout {
        Layout { size: self.slab_size(), align: atomic_slab::slot_align::<T>() as usize }
    }

    /// The memory of the slabs.
    pub closed spec fn bases(self) -> Seq<A::Ptr> {
        self.slabs@.map_values(|s: PinnedAtomicSlab<T, A::Ptr>| s.base)
    }

    /// Create an empty pool whose slabs use `slab_size` bytes each, or what a slab of the
    /// maximum capacity uses if that is less.
    pub fn new(near_alloc: A, slab_size: usize) -> (r: Self)
        ensures
            r.wf(),
            r@ == Seq::<SlabView<T>>::empty(),
            r.bases() == Seq::<A::Ptr>::empty(),
            r.allocator() == near_alloc,
            r.slab_size() == {
                let max = atomic_slab::MAX_CAPACITY * atomic_slab::slot_size::<T>();
                if slab_size < max { slab_size as int } else { max }
            },
    {
        let (size, _align) = atomic_slab::slot_layout::<T>();
        let slab_size: usize = match atomic_slab::MAX_CAPACITY.checked_mul(size) {
            Some(max) if max <= slab_size => max,
            _ => slab_size,
        };
        let r = SlabPool { near_alloc, slab_size, slabs: Vec::new() };
        proof {
            assert(r@ =~= Seq::empty());
            assert(r.bases() =~= Seq::empty());
        }
        r
    }

    /// Try to allocate in the slabs that lie between `min_addr` and `max_addr`, in order of
    /// address.
    fn alloc_with_existing(&mut self, min_addr: usize, max_addr: usize) -> (r: Option<
        SlabPoolPtr<T>,
    >)
        requires
            old(self).wf(),
        ensures
            final(self).wf(),
            final(self).allocator() == old(self).allocator(),
            final(self).slab_size() == old(self).slab_size(),
            final(self).bases() == old(self).bases(),
            match r {
                Some(ptr) => exists|k: int| #[trigger]
                    first_eligible(old(self)@, min_addr as int, max_addr as int, k)
                        && allocated_in(old(self)@, final(self)@, k, ptr),
                None => final(self)@ == old(self)@ && forall|k: int|
                    0 <= k < old(self)@.len() ==> !eligible(
                        #[trigger] old(self)@[k],
                        min_addr as int,
                        max_addr as int,
                    ),
            },
    {
        let mut i: usize = 0;
        while i < self.slabs.len()
            invariant
                self.wf(),
                self.allocator() == old(self).allocator(),
                self.slab_size() == old(self).slab_size(),
                self.bases() == old(self).bases(),
                self@ == old(self)@,
                i <= self.slabs@.len(),
                self.slabs@.len() == self@.len(),
                forall|k: int|
                    0 <= k < i ==> !eligible(
                        #[trigger] old(self)@[k],
                        min_addr as int,
                        max_addr as int,
                    ),
            decreases self.slabs@.len() - i,
        {
            assert(self.slabs@[i as int].slab@ == self@[i as int]);
            let base: usize = self.slabs[i].slab.min_address();
            if min_addr <= base && base < max_addr && self.slabs[i].slab.max_address() < max_addr {
                let ghost before = *self;
                let outcome = self.slabs[i].slab.allocate();
                proof {
                    assert(self@ =~= before@.update(i as int, before@[i as int].after_alloc()));
                    assert(self.bases() =~= before.bases());
                }
                match outcome {
                    Ok(ptr) => {
                        let r = SlabPoolPtr { slab: base, ptr };
                        assert(first_eligible(
                            old(self)@,
                            min_addr as int,
                            max_addr as int,
                            i as int,
                        ));
                        assert(allocated_in(old(self)@, self@, i as int, r));
                        return Some(r);
                    },
                    Err(_) => {
                        assert(self@ =~= before@);
                    },
                }
            }
            i = i + 1;
        }
        None
    }

    /// Make a slab out of memory with the slab layout, allocate in it, and add it to the pool.
    pub fn add_slab(&mut self, base: A::Ptr) -> (r: Result<SlabPoolPtr<T>, AllocError>)
        requires
            old(self).wf(),
            old(self).slab_layout().valid(),
            old(self).slab_layout().size != 0,
            base.addr() + old(self).slab_size() <= usize::MAX,
            base.addr() as int % atomic_slab::slot_align::<T>() == 0,
        ensures
            final(self).wf(),
            final(self).allocator() == old(self).allocator(),
            final(self).slab_size() == old(self).slab_size(),
            slab_added(old(self)@, final(self)@, base.addr(), old(self).slab_size(), r),
            final(self).bases() == with_base(old(self)@, old(self).bases(), base),
    {
        let addr: usize = base.as_mut_ptr();
        proof {
            lemma_aligned_stays::<T>(addr as int);
            lemma_rank(self@, addr as int);
        }
        let mut slab: AtomicSlab<T> = AtomicSlab::new(addr, self.slab_size);
        let ghost fresh = slab@;
        let outcome = slab.allocate();
        let mut i: usize = 0;
        while i < self.slabs.len() && self.slabs[i].slab.min_address() < addr
            invariant
                *self == *old(self),
                i <= self.slabs@.len(),
                self.slabs@.len() == self@.len(),
                forall|k: int| 0 <= k < i ==> (#[trigger] self@[k]).base < addr,
            ensures
                i < self.slabs@.len() ==> self@[i as int].base >= addr,
            decreases self.slabs@.len() - i,
        {
            assert(self.slabs@[i as int].slab@ == self@[i as int]);
            i = i + 1;
        }
        proof {
            let k = rank(self@, addr as int);
            if i < k {
                assert(self@[i as int].base < addr);
            } else if k < i {
                assert(self@[k].base >= addr);
            }
        }
        let pinned = PinnedAtomicSlab { slab, base };
        if i < self.slabs.len() && self.slabs[i].slab.min_address() == addr {
            self.slabs.set(i, pinned);
            assert(self@ =~= old(self)@.update(i as int, fresh.after_alloc()));
            assert(self.bases() =~= old(self).bases().update(i as int, base));
        } else {
            self.slabs.insert(i, pinned);
            assert(self@ =~= old(self)@.insert(i as int, fresh.after_alloc()));
            assert(self.bases() =~= old(self).bases().insert(i as int, base));
        }
        match outcome {
            Ok(ptr) => Ok(SlabPoolPtr { slab: addr, ptr }),
            Err(e) => Err(e),
        }
    }

    /// Allocate memory for a `T`, all bytes of which are at most `displacement` bytes away
    /// from `address`: in a slab of the pool if one is close enough, else in a new slab.
    pub fn alloc_near(&mut self, address: usize, displacement: usize) -> (r: Result<
        SlabPoolPtr<T>,
        AllocError,
    >)
        requires
            old(self).wf(),
            super::near(address, displacement).start <= last_start::<T>(address, displacement),
        ensures
            final(self).wf(),
            final(self).allocator() == old(self).allocator(),
            final(self).slab_size() == old(self).slab_size(),
            ({
                let min = super::near(address, displacement).start as int;
                let max = last_start::<T>(address, displacement);
                let layout = old(self).slab_layout();
                if exists|k: int| #[trigger] first_eligible(old(self)@, min, max, k) {
                    exists|k: int| #[trigger]
                        first_eligible(old(self)@, min, max, k) && (r matches Ok(ptr)
                            && allocated_in(old(self)@, final(self)@, k, ptr))
                        && final(self).bases() == old(self).bases()
                } else if layout.size == 0 || !layout.valid() {
                    r == Err::<SlabPoolPtr<T>, AllocError>(AllocError::UnsupportedLayout)
                        && final(self)@ == old(self)@ && final(self).bases() == old(self).bases()
                } else {
                    exists|outcome: Result<A::Ptr, AllocError>| #[trigger]
                        call_ensures(
                            A::alloc_near,
                            (&old(self).allocator(), address, displacement, layout),
                            outcome,
                        ) && match outcome {
                            Ok(base) => slab_added(
                                old(self)@,
                                final(self)@,
                                base.addr(),
                                old(self).slab_size(),
                                r,
                            ) && final(self).bases() == with_base(
                                old(self)@,
                                old(self).bases(),
                                base,
                            ),
                            Err(e) => r == Err::<SlabPoolPtr<T>, AllocError>(e) && final(self)@
                                == old(self)@ && final(self).bases() == old(self).bases(),
                        }
                }
            }),
            r matches Ok(ptr) ==> {
                let range = super::near(address, displacement);
                range.start <= ptr.addr() && ptr.addr() + vstd::layout::size_of::<T>() <= range.end
            },
    {
        let min_addr: usize = address.saturating_sub(displacement);
        let max_addr: usize = address.saturating_add(displacement).saturating_sub(
            core::mem::size_of::<T>(),
        );
        match self.alloc_with_existing(min_addr, max_addr) {
            Some(ptr) => {
                proof {
                    let k = choose|k: int| #[trigger]
                        first_eligible(old(self)@, min_addr as int, max_addr as int, k)
                            && allocated_in(old(self)@, self@, k, ptr);
                    old(self).lemma_slab_valid(k);
                    law_existing_slab_is_near(old(self)@[k], min_addr as int, max_addr as int);
                }
                return Ok(ptr);
            },
            None => {},
        }
        let (_size, align) = atomic_slab::slot_layout::<T>();
        let layout = match Layout::from_size_align(self.slab_size, align) {
            Ok(layout) => layout,
            Err(_) => return Err(AllocError::UnsupportedLayout),
        };
        if layout.size == 0 {
            return Err(AllocError::UnsupportedLayout);
        }
        match self.near_alloc.alloc_near(address, displacement, layout) {
            Ok(base) => {
                proof {
                    lemma_fresh_slot_in_storage::<T>(base.addr() as int, self.slab_size as int);
                }
                self.add_slab(base)
            },
            Err(e) => Err(e),
        }
    }

    /// Whether a pointer designates an allocated slot of the pool.
    pub open spec fn owns(self, ptr: SlabPoolPtr<T>) -> bool {
        owned(self@, ptr)
    }

    /// Free a slot of the pool, obtained from [`SlabPool::alloc_near`] and not freed since.
    pub fn free(&mut self, ptr: SlabPoolPtr<T>)
        requires
            old(self).wf(),
            old(self).owns(ptr),
        ensures
            final(self).wf(),
            final(self).allocator() == old(self).allocator(),
            final(self).slab_size() == old(self).slab_size(),
            final(self).bases() == old(self).bases(),
            final(self)@ == {
                let k = rank(old(self)@, ptr.slab_base() as int);
                old(self)@.update(k, old(self)@[k].after_free(ptr.slot().tagged()))
            },
    {
        let ghost k = rank(self@, ptr.slab as int);
        proof {
            lemma_rank(self@, ptr.slab as int);
        }
        let mut i: usize = 0;
        while i < self.slabs.len() && self.slabs[i].slab.min_address() != ptr.slab
            invariant
                *self == *old(self),
                self.wf(),
                self.owns(ptr),
                0 <= k < self@.len(),
                k == rank(self@, ptr.slab as int),
                self@[k].base == ptr.slab,
                i <= k,
                self.slabs@.len() == self@.len(),
                forall|j: int|
                    0 <= j < self@.len() ==> (#[trigger] self.slabs@[j]).slab@ == self@[j],
                forall|j: int| 0 <= j < k ==> (#[trigger] self@[j]).base < ptr.slab,
            ensures
                i == k,
            decreases self.slabs@.len() - i,
        {
            i = i + 1;
        }
        assert(self.slabs@[k].slab@ == self@[k]);
        self.slabs[i].slab.free(ptr.ptr);
        proof {
            assert(self@ =~= old(self)@.update(k, old(self)@[k].after_free(ptr.slot().tagged())));
            assert(self.bases() =~= old(self).bases());
        }
    }

    /// Give the memory of every slab back to the allocator.
    pub fn release(self)
        requires
            self.wf(),
        ensures
            self.bases().len() > 0 ==> self.slab_layout().valid() && self.slab_layout().size != 0,
            forall|i: int|
                0 <= i < self.bases().len() ==> call_ensures(
                    A::free,
                    (&self.allocator(), #[trigger] self.bases()[i], self.slab_layout()),
                    (),
                ),
    {
        let ghost bases = self.bases();
        let ghost layout = self.slab_layout();
        let mut slabs = self.slabs;
        let (_size, align) = atomic_slab::slot_layout::<T>();
        let ghost mut done: int = 0;
        while slabs.len() > 0
            invariant
                0 <= done <= bases.len(),
                slabs@.len() == bases.len() - done,
                forall|i: int|
                    0 <= i < slabs@.len() ==> (#[trigger] slabs@[i]).base == bases[done + i],
                layout == (Layout { size: self.slab_size, align }),
                bases.len() > 0 ==> layout.valid() && layout.size != 0,
                forall|i: int|
                    0 <= i < done ==> call_ensures(
                        A::free,
                        (&self.near_alloc, #[trigger] bases[i], layout),
                        (),
                    ),
            decreases slabs@.len(),
        {
            let slab = slabs.remove(0);
            self.near_alloc.free(slab.base, Layout { size: self.slab_size, align });
            proof {
                done = done + 1;
            }
        }
    }

    proof fn lemma_slab_valid(&self, k: int)
        requires
            self.wf(),
            0 <= k < self@.len(),
        ensures
            self@[k].valid(),
    {
        self.slabs@[k].slab.lemma_valid();
    }
}

/// Whether the `k`-th slab is the first one in which an allocation can be made.
pub open spec fn first_eligible<T>(slabs: Seq<SlabView<T>>, min: int, max: int, k: int) -> bool {
    &&& 0 <= k < slabs.len()
    &&& eligible(slabs[k], min, max)
    &&& forall|j: int| 0 <= j < k ==> !eligible(#[trigger] slabs[j], min, max)
}

/// Whether `ptr` was allocated in the `k`-th slab, and nothing else has changed.
pub open spec fn allocated_in<T>(
    before: Seq<SlabView<T>>,
    after: Seq<SlabView<T>>,
    k: int,
    ptr: SlabPoolPtr<T>,
) -> bool {
    &&& 0 <= k < before.len()
    &&& after == before.update(k, before[k].after_alloc())
    &&& ptr.slab_base() == before[k].base
    &&& before[k].next_alloc() == Some(ptr.slot().tagged())
    &&& ptr.slot().addr() == before[k].slot_addr(atomic_slab::index_of(ptr.slot().tagged()))
}

/// The end of the addresses at which a `T` may start to lie near an address.
pub open spec fn last_start<T>(address: usize, displacement: usize) -> int {
    let end = super::near(address, displacement).end;
    let size = vstd::layout::size_of::<T>() as int;
    if end > size {
        end - size
    } else {
        0
    }
}

/// Whether a new slab over `size` bytes at `base` was added, and `r` allocated in it.
pub open spec fn slab_added<T>(
    before: Seq<SlabView<T>>,
    after: Seq<SlabView<T>>,
    base: usize,
    size: usize,
    r: Result<SlabPoolPtr<T>, AllocError>,
) -> bool {
    let fresh = SlabView::<T>::fresh(base as int, size as int);
    &&& after == with_slab(before, fresh.after_alloc())
    &&& match fresh.next_alloc() {
        Some(tagged) => {
            &&& r matches Ok(ptr)
            &&& ptr.slab_base() == base
            &&& ptr.slot().tagged() == tagged
            &&& ptr.slot().addr() == fresh.slot_addr(atomic_slab::index_of(tagged))
        },
        None => r == Err::<SlabPoolPtr<T>, AllocError>(AllocError::OutOfMemory),
    }
}

/// Whether a pointer designates an allocated slot of one of the slabs.
pub open spec fn owned<T>(slabs: Seq<SlabView<T>>, ptr: SlabPoolPtr<T>) -> bool {
    let k = rank(slabs, ptr.slab_base() as int);
    &&& k < slabs.len()
    &&& slabs[k].base == ptr.slab_base()
    &&& slabs[k].owns(ptr.slot().addr(), ptr.slot().tagged())
}

proof fn lemma_rank_of<T>(slabs: Seq<SlabView<T>>, k: int)
    requires
        ordered(slabs),
        0 <= k < slabs.len(),
    ensures
        rank(slabs, slabs[k].base) == k,
{
    let n = rank(slabs, slabs[k].base);
    lemma_rank(slabs, slabs[k].base);
    if n < k {
        assert(slabs[n].base >= slabs[k].base);
    } else if k < n {
        assert(slabs[k].base < slabs[k].base);
    }
}

/// What was allocated in a slab of the pool can be freed, and was not allocated before.
pub proof fn law_allocated_is_owned<T>(
    before: Seq<SlabView<T>>,
    after: Seq<SlabView<T>>,
    k: int,
    ptr: SlabPoolPtr<T>,
)
    requires
        ordered(before),
        0 <= k < before.len(),
        before[k].valid(),
        allocated_in(before, after, k, ptr),
    ensures
        ordered(after),
        owned(after, ptr),
        !owned(before, ptr),
{
    let i = atomic_slab::index_of(ptr.slot().tagged());
    atomic_slab::law_alloc_is_exclusive(before[k], i);
    assert(ordered(after)) by {
        assert forall|a: int, b: int| 0 <= a < b < after.len() implies (#[trigger] after[a]).base
            < (#[trigger] after[b]).base by {
            assert(before[a].base < before[b].base);
        }
    }
    lemma_rank_of(before, k);
    assert(after[k].base == before[k].base);
    lemma_rank_of(after, k);
}

/// What was allocated in a new slab can be freed.
pub proof fn law_added_is_owned<T>(
    before: Seq<SlabView<T>>,
    after: Seq<SlabView<T>>,
    base: usize,
    size: usize,
    ptr: SlabPoolPtr<T>,
)
    requires
        ordered(before),
        base as int % atomic_slab::slot_align::<T>() == 0,
        base + size <= usize::MAX,
        slab_added(before, after, base, size, Ok(ptr)),
    ensures
        ordered(after),
        owned(after, ptr),
{
    let fresh = SlabView::<T>::fresh(base as int, size as int);
    let k = rank(before, base as int);
    lemma_aligned_stays::<T>(base as int);
    lemma_fresh_slot_in_storage::<T>(base as int, size as int);
    lemma_rank(before, base as int);
    assert forall|a: int, b: int| 0 <= a < b < after.len() implies (#[trigger] after[a]).base
        < (#[trigger] after[b]).base by {
        if k < before.len() && before[k].base == base {
            assert(before[a].base < before[b].base);
        } else {
            let a0 = if a < k {
                a
            } else {
                a - 1
            };
            let b0 = if b < k {
                b
            } else {
                b - 1
            };
            if a == k {
                assert(before[b0].base >= base);
            } else if b == k {
                assert(before[a0].base < base);
            } else {
                assert(before[a0].base < before[b0].base);
            }
        }
    }
    assert(after[k].base == base);
    lemma_rank_of(after, k);
    assert(after[k] == fresh.after_alloc());
    assert(atomic_slab::index_of(ptr.slot().tagged()) == 0);
}

/// A value in a slab that is eligible for an allocation lies within the bounds that it is
/// eligible for, but for its size.
pub proof fn law_existing_slab_is_near<T>(slab: SlabView<T>, min: int, max: int)
    requires
        slab.valid(),
        eligible(slab, min, max),
    ensures
        min <= slab.slot_addr(atomic_slab::index_of(slab.next_alloc()->0)) < max,
{
    let i = atomic_slab::index_of(slab.next_alloc()->0);
    atomic_slab::law_alloc_is_exclusive(slab, i);
    atomic_slab::law_slot_in_storage(slab, i);
    if i < slab.capacity - 1 {
        atomic_slab::law_slots_are_disjoint(slab, i, slab.capacity - 1);
        atomic_slab::lemma_slot_size_positive::<T>();
    }
}

proof fn lemma_fresh_slot_in_storage<T>(base: int, size: int)
    requires
        0 <= base,
        0 <= size,
        base % atomic_slab::slot_align::<T>() == 0,
    ensures
        SlabView::<T>::fresh(base, size).next_alloc() matches Some(tagged) ==> {
            let addr = SlabView::<T>::fresh(base, size).slot_addr(atomic_slab::index_of(tagged));
            base <= addr && addr + vstd::layout::size_of::<T>() <= base + size
        },
{
    let fresh = SlabView::<T>::fresh(base, size);
    let slot = atomic_slab::slot_size::<T>();
    lemma_aligned_stays::<T>(base);
    atomic_slab::lemma_slot_size_positive::<T>();
    if fresh.next_alloc() is Some {
        assert(slot <= size) by (nonlinear_arith)
            requires
                size / slot > 0,
                0 < slot,
                0 <= size,
        ;
        let tagged = fresh.next_alloc()->0;
        assert(tagged == 0 && atomic_slab::index_of(tagged) == 0);
        assert(fresh.slot_addr(0) == base) by {
            assert(0 * slot == 0);
        }
    }
}

proof fn lemma_aligned_stays<T>(base: int)
    requires
        0 <= base,
        base % atomic_slab::slot_align::<T>() == 0,
    ensures
        crate::arith::align_up(base, atomic_slab::slot_align::<T>()) == base,
{
    atomic_slab::lemma_slot_size_positive::<T>();
    crate::arith::lemma_align_up(base, atomic_slab::slot_align::<T>());
}

/// If an allocation can be made in some slab, there is a first one in which it can.
proof fn lemma_first_eligible<T>(slabs: Seq<SlabView<T>>, min: int, max: int, j: int) -> (k: int)
    requires
        0 <= j < slabs.len(),
        eligible(slabs[j], min, max),
    ensures
        k <= j,
        first_eligible(slabs, min, max, k),
    decreases j,
{
    if exists|i: int| 0 <= i < j && eligible(#[trigger] slabs[i], min, max) {
        let i = choose|i: int| 0 <= i < j && eligible(#[trigger] slabs[i], min, max);
        lemma_first_eligible(slabs, min, max, i)
    } else {
        j
    }
}

/// The slabs that there are serve an allocation before a new one is asked for. If some slab
/// starts no further below the address than the displacement, a value in its last slot ends less
/// than the displacement above the address and in the address space, and some slot of it is not
/// allocated, then the allocation succeeds, in that slab or one before it, and no slab is added.
/// No other slab changes.
pub proof fn law_existing_slab_serves<T, A: NearAllocator>(
    pool: &mut SlabPool<T, A>,
    address: usize,
    displacement: usize,
    r: Result<SlabPoolPtr<T>, AllocError>,
    j: int,
    slot: int,
)
    requires
        call_ensures(SlabPool::<T, A>::alloc_near, (pool, address, displacement), r),
        0 <= j < old(pool)@.len(),
        old(pool)@[j].valid(),
        0 <= slot < old(pool)@[j].capacity,
        !old(pool)@[j].live(slot),
        address - displacement <= old(pool)@[j].base,
        old(pool)@[j].base + (old(pool)@[j].capacity - 1) * atomic_slab::slot_size::<T>()
            + vstd::layout::size_of::<T>() < address + displacement,
        old(pool)@[j].base + (old(pool)@[j].capacity - 1) * atomic_slab::slot_size::<T>()
            + vstd::layout::size_of::<T>() < usize::MAX,
    ensures
        r is Ok,
        final(pool).bases() == old(pool).bases(),
        final(pool)@.len() == old(pool)@.len(),
        exists|k: int|
            {
                &&& 0 <= k <= j
                &&& (#[trigger] old(pool)@[k]).base == r->Ok_0.slab_base()
                &&& forall|i: int|
                    0 <= i < old(pool)@.len() && i != k ==> #[trigger] final(pool)@[i]
                        == old(pool)@[i]
            },
{
    let slabs = old(pool)@;
    let min = super::near(address, displacement).start as int;
    let max = last_start::<T>(address, displacement);
    atomic_slab::law_out_of_memory_iff_full(slabs[j]);
    atomic_slab::lemma_slot_size_positive::<T>();
    assert(0 <= (slabs[j].capacity - 1) * atomic_slab::slot_size::<T>()) by (nonlinear_arith)
        requires
            0 < slabs[j].capacity,
            0 < atomic_slab::slot_size::<T>(),
    ;
    assert(eligible(slabs[j], min, max));
    let first = lemma_first_eligible(slabs, min, max, j);
    assert(first_eligible(slabs, min, max, first));
    let k = choose|k: int| #[trigger]
        first_eligible(slabs, min, max, k) && (r matches Ok(ptr) && allocated_in(
            slabs,
            final(pool)@,
            k,
            ptr,
        )) && final(pool).bases() == old(pool).bases();
    assert(slabs[k].base == r->Ok_0.slab_base());
}

/// If every slab is full, or starts further below the address than the displacement, or has a
/// last slot in which a value would end that far above it, memory for a new slab is asked for
/// near that very address: as much as the slabs of the pool have, aligned for a slot. An error is
/// handed on, and nothing changes.
pub proof fn law_new_slab_is_asked_for_nearby<T, A: NearAllocator>(
    pool: &mut SlabPool<T, A>,
    address: usize,
    displacement: usize,
    r: Result<SlabPoolPtr<T>, AllocError>,
)
    requires
        call_ensures(SlabPool::<T, A>::alloc_near, (pool, address, displacement), r),
        forall|j: int|
            0 <= j < old(pool)@.len() ==> {
                &&& (#[trigger] old(pool)@[j]).valid()
                &&& ({
                    ||| forall|i: int| 0 <= i < old(pool)@[j].capacity ==> old(pool)@[j].live(i)
                    ||| old(pool)@[j].base < address - displacement
                    ||| old(pool)@[j].base + (old(pool)@[j].capacity - 1)
                        * atomic_slab::slot_size::<T>() + vstd::layout::size_of::<T>() >= address
                        + displacement
                })
            },
    ensures
        ({
            let layout = Layout {
                size: old(pool).slab_size(),
                align: atomic_slab::slot_align::<T>() as usize,
            };
            if layout.size == 0 || !layout.valid() {
                r == Err::<SlabPoolPtr<T>, AllocError>(AllocError::UnsupportedLayout)
                    && final(pool)@ == old(pool)@
            } else {
                exists|outcome: Result<A::Ptr, AllocError>|
                    {
                        &&& #[trigger] call_ensures(
                            A::alloc_near,
                            (&old(pool).allocator(), address, displacement, layout),
                            outcome,
                        )
                        &&& outcome matches Err(e) ==> r == Err::<SlabPoolPtr<T>, AllocError>(e)
                            && final(pool)@ == old(pool)@ && final(pool).bases()
                            == old(pool).bases()
                        &&& outcome matches Ok(base) ==> final(pool)@ == with_slab(
                            old(pool)@,
                            SlabView::<T>::fresh(
                                base.addr() as int,
                                old(pool).slab_size() as int,
                            ).after_alloc(),
                        ) && final(pool).bases() == with_base(
                            old(pool)@,
                            old(pool).bases(),
                            base,
                        ) && (r matches Ok(ptr) ==> ptr.slab_base() == base.addr() && (
                        base.addr() as int % atomic_slab::slot_align::<T>() == 0 ==> ptr.addr()
                            == base.addr())) && (r is Ok <==> SlabView::<T>::fresh(
                            base.addr() as int,
                            old(pool).slab_size() as int,
                        ).capacity > 0) && (r matches Err(e) ==> e == AllocError::OutOfMemory)
                    }
            }
        }),
{
    let slabs = old(pool)@;
    let min = super::near(address, displacement).start as int;
    let max = last_start::<T>(address, displacement);
    atomic_slab::lemma_slot_size_positive::<T>();
    assert forall|k: int| !#[trigger] first_eligible(slabs, min, max, k) by {
        if first_eligible(slabs, min, max, k) {
            assert(slabs[k].valid());
            atomic_slab::law_out_of_memory_iff_full(slabs[k]);
            if slabs[k].capacity == 0 {
                assert(forall|i: int| 0 <= i < slabs[k].capacity ==> slabs[k].live(i));
            }
        }
    }
    if old(pool).slab_layout().size != 0 && old(pool).slab_layout().valid() {
        let outcome = choose|outcome: Result<A::Ptr, AllocError>| #[trigger]
            call_ensures(
                A::alloc_near,
                (&old(pool).allocator(), address, displacement, old(pool).slab_layout()),
                outcome,
            ) && match outcome {
                Ok(base) => slab_added(
                    old(pool)@,
                    final(pool)@,
                    base.addr(),
                    old(pool).slab_size(),
                    r,
                ) && final(pool).bases() == with_base(old(pool)@, old(pool).bases(), base),
                Err(e) => r == Err::<SlabPoolPtr<T>, AllocError>(e) && final(pool)@
                    == old(pool)@ && final(pool).bases() == old(pool).bases(),
            };
        if let Ok(base) = outcome {
            assert(0 * atomic_slab::slot_size::<T>() == 0);
            if base.addr() as int % atomic_slab::slot_align::<T>() == 0 {
                lemma_aligned_stays::<T>(base.addr() as int);
            }
        }
    }
}

/// A value that was allocated near an address starts and ends at most the displacement away from
/// it.
pub proof fn law_value_is_near<T, A: NearAllocator>(
    pool: &mut SlabPool<T, A>,
    address: usize,
    displacement: usize,
    ptr: SlabPoolPtr<T>,
)
    requires
        call_ensures(SlabPool::<T, A>::alloc_near, (pool, address, displacement), Ok(ptr)),
    ensures
        address - displacement <= ptr.addr(),
        ptr.addr() + vstd::layout::size_of::<T>() <= address + displacement,
        ptr.addr() + vstd::layout::size_of::<T>() <= usize::MAX,
{
}

/// A slab that is added takes its place in the order of addresses. Every slab at another address
/// stays, and no other is added.
pub proof fn law_slab_takes_its_place<T>(
    slabs: Seq<SlabView<T>>,
    slab: SlabView<T>,
    other: SlabView<T>,
)
    requires
        ordered(slabs),
    ensures
        with_slab(slabs, slab).contains(slab),
        forall|i: int, j: int|
            0 <= i < j < with_slab(slabs, slab).len() ==> (#[trigger] with_slab(
                slabs,
                slab,
            )[i]).base < (#[trigger] with_slab(slabs, slab)[j]).base,
        slabs.contains(other) && other.base != slab.base ==> with_slab(slabs, slab).contains(
            other,
        ),
        with_slab(slabs, slab).contains(other) ==> slabs.contains(other) || other == slab,
{
    let base = slab.base;
    let k = rank(slabs, base);
    let after = with_slab(slabs, slab);
    lemma_rank(slabs, base);
    assert(after[k] == slab);
    let replaced = k < slabs.len() && slabs[k].base == base;
    assert forall|a: int, b: int| 0 <= a < b < after.len() implies (#[trigger] after[a]).base < (
    #[trigger] after[b]).base by {
        if replaced {
            assert(slabs[a].base < slabs[b].base);
        } else {
            let a0 = if a < k {
                a
            } else {
                a - 1
            };
            let b0 = if b < k {
                b
            } else {
                b - 1
            };
            if a == k {
                assert(slabs[b0].base >= base);
            } else if b == k {
                assert(slabs[a0].base < base);
            } else {
                assert(slabs[a0].base < slabs[b0].base);
            }
        }
    }
    if slabs.contains(other) && other.base != slab.base {
        let i = choose|i: int| 0 <= i < slabs.len() && slabs[i] == other;
        if replaced || i < k {
            assert(after[i] == other);
        } else {
            assert(after[i + 1] == other);
        }
    }
    if after.contains(other) && other != slab {
        let i = choose|i: int| 0 <= i < after.len() && after[i] == other;
        if replaced || i < k {
            assert(slabs[i] == other);
        } else {
            assert(slabs[i - 1] == other);
        }
    }
}

/// A slot is freed in the slab that it was allocated in, and nothing else changes.
pub proof fn law_slot_is_freed_in_its_slab<T, A: NearAllocator>(
    pool: &mut SlabPool<T, A>,
    ptr: SlabPoolPtr<T>,
    k: int,
    other: int,
)
    requires
        ordered(old(pool)@),
        call_ensures(SlabPool::<T, A>::free, (pool, ptr), ()),
        0 <= k < old(pool)@.len(),
        old(pool)@[k].base == ptr.slab_base(),
    ensures
        final(pool)@.len() == old(pool)@.len(),
        final(pool)@[k] == old(pool)@[k].after_free(ptr.slot().tagged()),
        0 <= other < old(pool)@.len() && other != k ==> final(pool)@[other] == old(pool)@[other],
        final(pool).bases() == old(pool).bases(),
{
    lemma_rank_of(old(pool)@, k);
}

/// A value may start wherever it ends below the displacement above the address and in the address
/// space, and no higher.
pub proof fn law_last_start_leaves_room<T>(address: usize, displacement: usize, start: int)
    requires
        0 <= start,
    ensures
        start < last_start::<T>(address, displacement) <==> {
            &&& start + vstd::layout::size_of::<T>() < address + displacement
            &&& start + vstd::layout::size_of::<T>() < usize::MAX
        },
        last_start::<T>(address, displacement) >= 0,
{
}

/// A new pool has no slab, and its slabs have the size that was asked for unless a slab cannot
/// use as much: it has 4294967295 slots at most.
pub proof fn law_new_pool_is_empty<T, A: NearAllocator>(
    near_alloc: A,
    slab_size: usize,
    pool: SlabPool<T, A>,
)
    requires
        call_ensures(SlabPool::<T, A>::new, (near_alloc, slab_size), pool),
    ensures
        pool@.len() == 0,
        pool.bases().len() == 0,
        pool.allocator() == near_alloc,
        pool.slab_size() <= slab_size,
        pool.slab_size() <= 4294967295 * atomic_slab::slot_size::<T>(),
        pool.slab_size() == slab_size || pool.slab_size() == 4294967295 * atomic_slab::slot_size::<
            T,
        >(),
{
}

/// The memory of a slab that is added is kept, in the place of the slab, and the memory of every
/// other slab stays in the place of its slab.
pub proof fn law_memory_of_a_slab_takes_its_place<T, P: AsMutPtr<u8>>(
    slabs: Seq<SlabView<T>>,
    bases: Seq<P>,
    slab: SlabView<T>,
    base: P,
    i: int,
)
    requires
        ordered(slabs),
        slabs.len() == bases.len(),
        slab.base == base.addr(),
        0 <= i < with_slab(slabs, slab).len(),
    ensures
        with_base(slabs, bases, base).len() == with_slab(slabs, slab).len(),
        with_slab(slabs, slab)[i].base == base.addr() ==> with_base(slabs, bases, base)[i] == base,
        with_slab(slabs, slab)[i].base != base.addr() ==> exists|j: int|
            0 <= j < slabs.len() && with_slab(slabs, slab)[i] == #[trigger] slabs[j]
                && with_base(slabs, bases, base)[i] == bases[j],
{
    let k = rank(slabs, slab.base);
    lemma_rank(slabs, slab.base);
    let replaced = k < slabs.len() && slabs[k].base == slab.base;
    let after = with_slab(slabs, slab);
    if i != k {
        let j = if replaced || i < k {
            i
        } else {
            i - 1
        };
        assert(after[i] == slabs[j]);
        if j < k {
            assert(slabs[j].base < slab.base);
        } else if replaced {
            assert(slabs[k].base < slabs[j].base);
        } else {
            assert(slabs[j].base >= slab.base);
            if slabs[j].base == slab.base {
                if k < j {
                    assert(slabs[k].base < slabs[j].base);
                    assert(slabs[k].base >= slab.base);
                }
            }
        }
        assert(with_base(slabs, bases, base)[i] == bases[j]);
    }
}

/// Letting go of a pool gives the memory of every slab back, with the size of the slabs of the
/// pool, aligned for a slot.
pub proof fn law_every_slab_is_given_back<T, A: NearAllocator>(pool: SlabPool<T, A>, i: int)
    requires
        call_ensures(SlabPool::<T, A>::release, (pool,), ()),
        0 <= i < pool.bases().len(),
    ensures
        call_ensures(A::free, (&pool.allocator(), pool.bases()[i], pool.slab_layout()), ()),
{
}

/// The memory of a slab has the size of the slabs of the pool and the alignment of a slot.
pub proof fn law_memory_of_a_slab<T, A: NearAllocator>(pool: SlabPool<T, A>)
    ensures
        pool.slab_layout().size == pool.slab_size(),
        pool.slab_layout().align == atomic_slab::slot_align::<T>() as usize,
{
}

/// A slab that is made of memory is added to the pool, and a value is allocated in its first slot
/// if it has one.
pub proof fn law_added_slab_is_used<T, A: NearAllocator>(
    pool: &mut SlabPool<T, A>,
    base: A::Ptr,
    r: Result<SlabPoolPtr<T>, AllocError>,
)
    requires
        call_ensures(SlabPool::<T, A>::add_slab, (pool, base), r),
        ordered(old(pool)@),
        base.addr() as int % atomic_slab::slot_align::<T>() == 0,
    ensures
        ({
            let fresh = SlabView::<T>::fresh(base.addr() as int, old(pool).slab_size() as int);
            &&& final(pool)@.contains(fresh.after_alloc())
            &&& r is Ok <==> fresh.capacity > 0
            &&& r matches Ok(ptr) ==> ptr.slab_base() == base.addr() && ptr.addr() == base.addr()
            &&& r matches Err(e) ==> e == AllocError::OutOfMemory
        }),
{
    let fresh = SlabView::<T>::fresh(base.addr() as int, old(pool).slab_size() as int);
    lemma_aligned_stays::<T>(base.addr() as int);
    assert(0 * atomic_slab::slot_size::<T>() == 0);
    law_slab_takes_its_place(old(pool)@, fresh.after_alloc(), fresh);
}

/// A pointer tells the address of its slot.
pub proof fn law_pool_pointer_tells_its_slot<T>(ptr: SlabPoolPtr<T>)
    ensures
        AsMutPtr::<T>::addr(&ptr) == ptr.slot().addr(),
{
}

} // verus!
