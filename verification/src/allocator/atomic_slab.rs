//! Slab allocator for a single type over pre-allocated storage.
//!
//! Slots are numbered from zero. A freed slot goes on a free list; the list is threaded
//! through the free slots themselves, each of which holds the tagged index of the one below
//! it. A tagged index is a slot number in the low bits and, above it, how often the slot has
//! been freed.

use core::marker::PhantomData;

use vstd::prelude::*;
use vstd::std_specs::cmp::{PartialEqSpec, PartialEqSpecImpl, PartialOrdSpec, PartialOrdSpecImpl};

use super::AllocError;
use crate::arith;

verus! {

/// Tagged index: a slot number and, in the high bits, the generation of the slot.
pub type Index = u64;

/// Mask of the bits of a tagged index that hold the slot number.
pub const INDEX_MASK: Index = 0xFFFF_FFFF;

/// What one deallocation adds to a tagged index.
pub const GEN_INCREMENT: Index = 0x1_0000_0000;

/// Maximum size of a slab, in elements. Also the slot number of the "null" index.
pub const MAX_CAPACITY: usize = 0xFFFF_FFFF;

/// The tagged index that ends the free list.
pub const NULL_INDEX: Index = 0xFFFF_FFFF;

/// The slot number of a tagged index.
pub open spec fn index_of(tagged: Index) -> int {
    tagged as int % 0x1_0000_0000
}

/// The generation of a tagged index.
pub open spec fn gen_of(tagged: Index) -> int {
    tagged as int / 0x1_0000_0000
}

/// The tagged index of the same slot one generation later. Generations wrap around.
pub open spec fn next_gen(tagged: Index) -> Index {
    if tagged + GEN_INCREMENT > u64::MAX {
        (tagged + GEN_INCREMENT - 0x1_0000_0000_0000_0000) as u64
    } else {
        (tagged + GEN_INCREMENT) as u64
    }
}

/// The next generation of a tagged index has the same slot number and another generation.
pub proof fn lemma_next_gen(tagged: Index)
    ensures
        index_of(next_gen(tagged)) == index_of(tagged),
        next_gen(tagged) != tagged,
        gen_of(tagged) < 0xFFFF_FFFF ==> gen_of(next_gen(tagged)) == gen_of(tagged) + 1,
        gen_of(tagged) == 0xFFFF_FFFF ==> gen_of(next_gen(tagged)) == 0,
{
}

/// The slot number of a tagged index.
pub fn untagged_index(tagged: Index) -> (r: usize)
    ensures
        r == index_of(tagged),
        r == tagged % 0x1_0000_0000,
{
    assert(tagged & 0xFFFF_FFFFu64 == tagged % 0x1_0000_0000u64) by (bit_vector);
    (tagged & INDEX_MASK) as usize
}

/// The tagged index of the same slot one generation later.
pub fn retag(tagged: Index) -> (r: Index)
    ensures
        r == next_gen(tagged),
        r as int == (tagged + 0x1_0000_0000) % 0x1_0000_0000_0000_0000,
{
    tagged.wrapping_add(GEN_INCREMENT)
}

/// One step of an allocation: the access to the shared state that comes next.
#[derive(Debug, Clone, Copy, PartialEq, Eq)]
pub enum AllocOp {
    /// Load the head of the free list.
    LoadHead,
    /// Add one to the number of used slots.
    Reserve,
    /// Load the index below `head` out of the slot of `head`.
    LoadNext { head: Index },
    /// Replace the head of the free list by `next` if it is still `head`.
    Exchange { head: Index, next: Index },
    /// Reset the number of used slots to the capacity.
    ResetLen,
    /// The allocation is over.
    Done(Result<Index, AllocError>),
}

impl AllocOp {
    pub open spec fn spec_head_loaded(head: Index) -> AllocOp {
        if index_of(head) == MAX_CAPACITY {
            AllocOp::Reserve
        } else {
            AllocOp::LoadNext { head }
        }
    }

    pub open spec fn spec_slot_reserved(slot: int, capacity: int) -> AllocOp {
        if slot >= capacity {
            AllocOp::ResetLen
        } else {
            AllocOp::Done(Ok(slot as u64))
        }
    }

    pub open spec fn spec_exchanged(head: Index, outcome: Result<Index, Index>) -> AllocOp {
        match outcome {
            Ok(_) => AllocOp::Done(Ok(head)),
            Err(new_head) => Self::spec_head_loaded(new_head),
        }
    }

    /// The step that follows a load of the head: with an empty free list, take a slot that
    /// was never used; otherwise take the head.
    pub fn head_loaded(head: Index) -> (r: AllocOp)
        ensures
            r == Self::spec_head_loaded(head),
            head % 0x1_0000_0000 == 0xFFFF_FFFF ==> r == AllocOp::Reserve,
            head % 0x1_0000_0000 != 0xFFFF_FFFF ==> r == (AllocOp::LoadNext { head }),
    {
        if untagged_index(head) == MAX_CAPACITY {
            AllocOp::Reserve
        } else {
            AllocOp::LoadNext { head }
        }
    }

    /// The step that follows a reservation of `slot`.
    pub fn slot_reserved(slot: usize, capacity: usize) -> (r: AllocOp)
        requires
            capacity <= MAX_CAPACITY,
        ensures
            r == Self::spec_slot_reserved(slot as int, capacity as int),
            slot < capacity ==> r == AllocOp::Done(Ok(slot as u64)),
            slot >= capacity ==> r == AllocOp::ResetLen,
    {
        if slot >= capacity {
            AllocOp::ResetLen
        } else {
            AllocOp::Done(Ok(slot as u64))
        }
    }

    /// The step that follows the reset of the number of used slots.
    pub fn len_reset() -> (r: AllocOp)
        ensures
            r == AllocOp::Done(Err(AllocError::OutOfMemory)),
    {
        AllocOp::Done(Err(AllocError::OutOfMemory))
    }

    /// The step that follows a load of the index below the head.
    pub fn next_loaded(head: Index, next: Index) -> (r: AllocOp)
        ensures
            r == (AllocOp::Exchange { head, next }),
    {
        AllocOp::Exchange { head, next }
    }

    /// The step that follows the exchange of the head: done if it took place, else start
    /// over from the head that was found.
    pub fn exchanged(head: Index, outcome: Result<Index, Index>) -> (r: AllocOp)
        ensures
            r == Self::spec_exchanged(head, outcome),
            outcome is Ok ==> r == AllocOp::Done(Ok(head)),
            outcome matches Err(new_head) ==> {
                &&& new_head % 0x1_0000_0000 == 0xFFFF_FFFF ==> r == AllocOp::Reserve
                &&& new_head % 0x1_0000_0000 != 0xFFFF_FFFF ==> r == (AllocOp::LoadNext {
                    head: new_head,
                })
            },
    {
        match outcome {
            Ok(_) => AllocOp::Done(Ok(head)),
            Err(new_head) => Self::head_loaded(new_head),
        }
    }
}

/// One step of a deallocation: the access to the shared state that comes next.
#[derive(Debug, Clone, Copy, PartialEq, Eq, Structural)]
pub enum FreeOp {
    /// Load the head of the free list.
    LoadHead { tagged: Index },
    /// Store `head` into the slot of `tagged`.
    StoreLink { tagged: Index, head: Index },
    /// Replace the head of the free list by the next generation of `tagged` if it is still
    /// `head`.
    Exchange { tagged: Index, head: Index },
    /// The deallocation is over.
    Done,
}

impl FreeOp {
    pub open spec fn spec_exchanged(tagged: Index, outcome: Result<Index, Index>) -> FreeOp {
        match outcome {
            Ok(_) => FreeOp::Done,
            Err(new_head) => FreeOp::StoreLink { tagged, head: new_head },
        }
    }

    /// The step that follows a load of the head.
    pub fn head_loaded(tagged: Index, head: Index) -> (r: FreeOp)
        ensures
            r == (FreeOp::StoreLink { tagged, head }),
    {
        FreeOp::StoreLink { tagged, head }
    }

    /// The step that follows the store of the link.
    pub fn link_stored(tagged: Index, head: Index) -> (r: FreeOp)
        ensures
            r == (FreeOp::Exchange { tagged, head }),
    {
        FreeOp::Exchange { tagged, head }
    }

    /// The step that follows the exchange of the head.
    pub fn exchanged(tagged: Index, outcome: Result<Index, Index>) -> (r: FreeOp)
        ensures
            r == Self::spec_exchanged(tagged, outcome),
            outcome is Ok ==> r == FreeOp::Done,
            outcome matches Err(new_head) ==> r == (FreeOp::StoreLink { tagged, head: new_head }),
    {
        match outcome {
            Ok(_) => FreeOp::Done,
            Err(new_head) => FreeOp::StoreLink { tagged, head: new_head },
        }
    }
}

/// Size and alignment of the index that a free slot holds.
pub const INDEX_SIZE: usize = 8;

/// Alignment of a slot for values of type `T`: enough for a value and for an index.
pub open spec fn slot_align<T>() -> int {
    let align = vstd::layout::align_of::<T>() as int;
    if align > INDEX_SIZE {
        align
    } else {
        INDEX_SIZE as int
    }
}

/// Size of a slot for values of type `T`: room for a value or an index, rounded up to the
/// slot's alignment.
pub open spec fn slot_size<T>() -> int {
    let size = vstd::layout::size_of::<T>() as int;
    arith::align_up(
        if size > INDEX_SIZE {
            size
        } else {
            INDEX_SIZE as int
        },
        slot_align::<T>(),
    )
}

/// The layout of a slot for values of type `T`.
pub fn slot_layout<T>() -> (r: (usize, usize))
    ensures
        r.0 == slot_size::<T>(),
        r.1 == slot_align::<T>(),
        r.0 >= vstd::layout::size_of::<T>(),
        r.0 >= INDEX_SIZE,
        r.1 > 0,
        r.0 as int % r.1 as int == 0,
        r.1 == if vstd::layout::align_of::<T>() > 8 {
            vstd::layout::align_of::<T>()
        } else {
            8
        },
        r.0 < r.1 + if vstd::layout::size_of::<T>() > 8 {
            vstd::layout::size_of::<T>()
        } else {
            8
        },
{
    vstd::layout::layout_for_type_is_valid::<T>();
    let size: usize = core::mem::size_of::<T>();
    let align: usize = core::mem::align_of::<T>();
    let align: usize = if align > INDEX_SIZE { align } else { INDEX_SIZE };
    let size: usize = if size > INDEX_SIZE { size } else { INDEX_SIZE };
    proof {
        let a0 = vstd::layout::align_of::<T>() as int;
        arith::lemma_pow2_positive(a0);
        assert(0 <= isize::MAX as int % a0) by (nonlinear_arith)
            requires
                0 < a0,
        ;
        arith::lemma_align_up(size as int, align as int);
        if size <= align {
            assert(align as int % align as int == 0) by (nonlinear_arith)
                requires
                    0 < align,
            ;
        }
    }
    match arith::checked_next_multiple_of(size, align) {
        Some(padded) => (padded, align),
        None => (size, align),
    }
}

/// Pointer to an allocated slot inside an [`AtomicSlab`].
#[derive(Debug)]
pub struct AtomicSlabPtr<T> {
    ptr: usize,
    tagged_index: Index,
    phantom: PhantomData<T>,
}

impl<T> Clone for AtomicSlabPtr<T> {
    fn clone(&self) -> (r: Self)
        ensures
            r == *self,
    {
        AtomicSlabPtr { ptr: self.ptr, tagged_index: self.tagged_index, phantom: PhantomData }
    }
}

impl<T> Copy for AtomicSlabPtr<T> {

}

impl<T> AtomicSlabPtr<T> {
    fn new(storage_ptr: usize, slot_size: usize, tagged_index: Index) -> (r: Self)
        requires
            storage_ptr + index_of(tagged_index) * slot_size <= usize::MAX,
        ensures
            r.addr() == storage_ptr + index_of(tagged_index) * slot_size,
            r.tagged() == tagged_index,
    {
        let index: usize = untagged_index(tagged_index);
        proof {
            assert(0 <= index * slot_size) by (nonlinear_arith)
                requires
                    0 <= index,
                    0 <= slot_size,
            ;
        }
        AtomicSlabPtr { ptr: storage_ptr + index * slot_size, tagged_index, phantom: PhantomData }
    }

    /// The address of the slot.
    pub closed spec fn addr(self) -> usize {
        self.ptr
    }

    /// The tagged index of the slot.
    pub closed spec fn tagged(self) -> Index {
        self.tagged_index
    }

    /// Get the address of the slot.
    pub fn ptr(&self) -> (r: usize)
        ensures
            r == self.addr(),
    {
        self.ptr
    }
}

impl<T> core::ops::Deref for AtomicSlabPtr<T> {
    type Target = usize;

    fn deref(&self) -> (r: &usize)
        ensures
            *r == self.addr(),
    {
        &self.ptr
    }
}

/// If two pointers share the same slot, we should consider them the same from a user
/// perspective, even if their generation count is different.
impl<T> PartialEq for AtomicSlabPtr<T> {
    fn eq(&self, other: &Self) -> (r: bool) {
        self.ptr == other.ptr
    }
}

impl<T> PartialEqSpecImpl for AtomicSlabPtr<T> {
    open spec fn obeys_eq_spec() -> bool {
        true
    }

    open spec fn eq_spec(&self, other: &Self) -> bool {
        self.addr() == other.addr()
    }
}

impl<T> Eq for AtomicSlabPtr<T> {

}

impl<T> PartialOrd for AtomicSlabPtr<T> {
    fn partial_cmp(&self, other: &Self) -> (r: Option<core::cmp::Ordering>) {
        self.ptr.partial_cmp(&other.ptr)
    }
}

impl<T> PartialOrdSpecImpl for AtomicSlabPtr<T> {
    open spec fn obeys_partial_cmp_spec() -> bool {
        true
    }

    open spec fn partial_cmp_spec(&self, other: &Self) -> Option<core::cmp::Ordering> {
        if self.addr() < other.addr() {
            Some(core::cmp::Ordering::Less)
        } else if self.addr() > other.addr() {
            Some(core::cmp::Ordering::Greater)
        } else {
            Some(core::cmp::Ordering::Equal)
        }
    }
}

/// What a slot holds.
enum AtomicSlabSlot<T> {
    /// The slot is free; the index is the one below it in the free list.
    FreeNext(Index),
    /// The slot is allocated; there is no value before the first write.
    Value(Option<T>),
}

/// The contents of a slab.
#[verifier::ext_equal]
pub struct SlabView<T> {
    /// Address of the first slot.
    pub base: int,
    /// Number of slots.
    pub capacity: int,
    /// The tagged index under which each slot that was ever used was last handed out or
    /// freed.
    pub tags: Seq<Index>,
    /// The values written to the slots since they were last handed out.
    pub values: Seq<Option<T>>,
    /// The free slots, the next one to be handed out last.
    pub free: Seq<Index>,
}

impl<T> SlabView<T> {
    /// The address of a slot.
    pub open spec fn slot_addr(self, index: int) -> int {
        self.base + index * slot_size::<T>()
    }

    /// The address of the last slot.
    pub open spec fn max_addr(self) -> int {
        self.slot_addr(
            if self.capacity > 0 {
                self.capacity - 1
            } else {
                0
            },
        )
    }

    /// A slab over storage that nothing has used yet.
    pub open spec fn fresh(raw_base: int, raw_len: int) -> SlabView<T> {
        let base = arith::align_up(raw_base, slot_align::<T>());
        let avail = raw_base + raw_len - base;
        let slots = (if avail > 0 {
            avail
        } else {
            0
        }) / slot_size::<T>();
        SlabView {
            base,
            capacity: if slots < MAX_CAPACITY {
                slots
            } else {
                MAX_CAPACITY as int
            },
            tags: Seq::empty(),
            values: Seq::empty(),
            free: Seq::empty(),
        }
    }

    /// Whether a slot is allocated.
    pub open spec fn live(self, index: int) -> bool {
        0 <= index < self.tags.len() && !self.free.contains(self.tags[index])
    }

    /// Whether a tagged index and an address designate an allocated slot.
    pub open spec fn owns(self, addr: usize, tagged: Index) -> bool {
        let i = index_of(tagged);
        self.live(i) && self.tags[i] == tagged && addr == self.slot_addr(i)
    }

    /// What holds of every slab: slots are within the capacity and in the address space,
    /// tags name their own slot, and the free list names each free slot once.
    pub open spec fn valid(self) -> bool {
        &&& 0 <= self.base
        &&& self.base % slot_align::<T>() == 0
        &&& 0 <= self.capacity <= MAX_CAPACITY
        &&& self.tags.len() <= self.capacity
        &&& self.values.len() == self.tags.len()
        &&& self.slot_addr(self.capacity) <= usize::MAX
        &&& forall|i: int|
            0 <= i < self.tags.len() ==> index_of(#[trigger] self.tags[i]) == i
        &&& forall|k: int|
            0 <= k < self.free.len() ==> 0 <= index_of(#[trigger] self.free[k])
                < self.tags.len() && self.tags[index_of(self.free[k])] == self.free[k]
                && self.values[index_of(self.free[k])] is None
        &&& self.free.no_duplicates()
    }

    /// The tagged index that the next allocation hands out, if it does.
    pub open spec fn next_alloc(self) -> Option<Index> {
        if self.free.len() > 0 {
            Some(self.free.last())
        } else if self.tags.len() < self.capacity {
            Some(self.tags.len() as u64)
        } else {
            None
        }
    }

    /// The slab after the next allocation.
    pub open spec fn after_alloc(self) -> SlabView<T> {
        if self.free.len() > 0 {
            SlabView { free: self.free.drop_last(), ..self }
        } else if self.tags.len() < self.capacity {
            SlabView {
                tags: self.tags.push(self.tags.len() as u64),
                values: self.values.push(None),
                ..self
            }
        } else {
            self
        }
    }

    /// The slab after a deallocation.
    pub open spec fn after_free(self, tagged: Index) -> SlabView<T> {
        let i = index_of(tagged);
        SlabView {
            tags: self.tags.update(i, next_gen(tagged)),
            values: self.values.update(i, None),
            free: self.free.push(next_gen(tagged)),
            ..self
        }
    }

    /// The slab after a write.
    pub open spec fn after_write(self, tagged: Index, value: T) -> SlabView<T> {
        SlabView { values: self.values.update(index_of(tagged), Some(value)), ..self }
    }
}

/// Slab allocator for a single type over pre-allocated storage.
///
/// Extremely cheap O(1) allocation and deallocation with constant memory
/// overhead when `T` is larger or equal to a pointer.
///
/// # Note
///
/// This data structure uses tagged indices in its free list to encode a
/// per-slot "generation" (deallocation count). This mitigates, *but not
/// entirely prevent*, the ABA problem when the steps of several allocations and
/// deallocations interleave.
pub struct AtomicSlab<T> {
    free_head: Index,
    storage: usize,
    slot_size: usize,
    capacity: usize,
    len: usize,
    slots: Vec<AtomicSlabSlot<T>>,
    tags: Ghost<Seq<Index>>,
    free: Ghost<Seq<Index>>,
}

/// The index that the `k`-th slot of a free list holds.
spec fn link_at(free: Seq<Index>, k: int) -> Index {
    if k <= 0 {
        NULL_INDEX
    } else {
        free[k - 1]
    }
}

spec fn slot_value<T>(slot: AtomicSlabSlot<T>) -> Option<T> {
    match slot {
        AtomicSlabSlot::FreeNext(_) => None,
        AtomicSlabSlot::Value(value) => value,
    }
}

impl<T> View for AtomicSlab<T> {
    type V = SlabView<T>;

    closed spec fn view(&self) -> SlabView<T> {
        SlabView {
            base: self.storage as int,
            capacity: self.capacity as int,
            tags: self.tags@,
            values: self.slots@.map_values(|slot: AtomicSlabSlot<T>| slot_value(slot)),
            free: self.free@,
        }
    }
}

impl<T> AtomicSlab<T> {
    /// The representation is consistent.
    pub closed spec fn wf(self) -> bool {
        &&& self@.valid()
        &&& self.slot_size == slot_size::<T>()
        &&& self.len == self.tags@.len()
        &&& self.slots@.len() == self.tags@.len()
        &&& self.free_head == link_at(self.free@, self.free@.len() as int)
        &&& forall|k: int|
            0 <= k < self.free@.len() ==> self.slots@[index_of(#[trigger] self.free@[k])]
                == AtomicSlabSlot::<T>::FreeNext(link_at(self.free@, k))
        &&& forall|i: int|
            0 <= i < self.slots@.len() && #[trigger] self.slots@[i] is FreeNext
                ==> self.free@.contains(self.tags@[i])
    }

    /// A consistent slab has valid contents.
    pub proof fn lemma_valid(&self)
        requires
            self.wf(),
        ensures
            self@.valid(),
    {
    }

    /// Create a new [`AtomicSlab`] given pre-allocated storage of `raw_len` bytes at the
    /// address `raw_base`.
    ///
    /// Slots start at the first suitably aligned address. If the storage holds more than
    /// [`MAX_CAPACITY`] slots, the extra bytes are left unused.
    pub fn new(raw_base: usize, raw_len: usize) -> (r: Self)
        requires
            raw_base + raw_len <= usize::MAX,
            arith::align_up(raw_base as int, slot_align::<T>()) <= usize::MAX,
        ensures
            r.wf(),
            r@ == SlabView::<T>::fresh(raw_base as int, raw_len as int),
    {
        let (size, align) = slot_layout::<T>();
        let storage: usize = match arith::checked_next_multiple_of(raw_base, align) {
            Some(storage) => storage,
            None => raw_base,
        };
        proof {
            arith::lemma_align_up(raw_base as int, align as int);
        }
        let align_offset: usize = storage - raw_base;
        let slots: usize = raw_len.saturating_sub(align_offset) / size;
        let capacity: usize = if slots < MAX_CAPACITY { slots } else { MAX_CAPACITY };
        let r = AtomicSlab {
            free_head: NULL_INDEX,
            storage,
            slot_size: size,
            capacity,
            len: 0,
            slots: Vec::new(),
            tags: Ghost(Seq::empty()),
            free: Ghost(Seq::empty()),
        };
        proof {
            let avail = if raw_len > align_offset { raw_len - align_offset } else { 0 };
            assert(slots * size <= avail && 0 <= capacity * size <= slots * size)
                by (nonlinear_arith)
                requires
                    slots == avail / size as int,
                    0 < size,
                    0 <= avail,
                    0 <= capacity <= slots,
            ;
            assert(r@ =~= SlabView::<T>::fresh(raw_base as int, raw_len as int));
        }
        r
    }

    /// Get the number of slots of this slab.
    pub fn capacity(&self) -> (r: usize)
        ensures
            r == self@.capacity,
    {
        self.capacity
    }

    /// Get the number of slots that were ever handed out.
    pub fn len(&self) -> (r: usize)
        requires
            self.wf(),
        ensures
            r == self@.tags.len(),
    {
        self.len
    }

    /// Get the minimum address at which a value of `T` may be located in this
    /// slab.
    pub fn min_address(&self) -> (r: usize)
        ensures
            r == self@.base,
    {
        self.storage
    }

    /// Get the maximum address at which a value of `T` may be located in this
    /// slab.
    pub fn max_address(&self) -> (r: usize)
        requires
            self.wf(),
        ensures
            r == self@.max_addr(),
    {
        let last: usize = self.capacity.saturating_sub(1);
        proof {
            assert(0 <= last * self.slot_size <= self.capacity * self.slot_size)
                by (nonlinear_arith)
                requires
                    0 <= last <= self.capacity,
                    0 <= self.slot_size,
            ;
        }
        self.storage + last * self.slot_size
    }

    /// Try to allocate memory for a value of type `T`.
    ///
    /// The provided memory is **uninitialized**.
    ///
    /// Fails with [`AllocError::OutOfMemory`] if the slab's storage buffer is full.
    pub fn allocate(&mut self) -> (r: Result<AtomicSlabPtr<T>, AllocError>)
        requires
            old(self).wf(),
        ensures
            final(self).wf(),
            final(self)@ == old(self)@.after_alloc(),
            match old(self)@.next_alloc() {
                Some(tagged) => r matches Ok(ptr) && ptr.tagged() == tagged && ptr.addr()
                    == old(self)@.slot_addr(index_of(tagged)),
                None => r == Err::<AtomicSlabPtr<T>, AllocError>(AllocError::OutOfMemory),
            },
    {
        let head: Index = self.free_head;
        match AllocOp::head_loaded(head) {
            AllocOp::LoadNext { head } => self.pop_free(head),
            _ => self.reserve(),
        }
    }

    /// Take the slot at the head of the free list.
    fn pop_free(&mut self, head: Index) -> (r: Result<AtomicSlabPtr<T>, AllocError>)
        requires
            old(self).wf(),
            head == old(self).free_head,
            index_of(head) != MAX_CAPACITY,
        ensures
            final(self).wf(),
            old(self)@.next_alloc() == Some(head),
            final(self)@ == old(self)@.after_alloc(),
            r matches Ok(ptr) && ptr.tagged() == head && ptr.addr() == old(self)@.slot_addr(
                index_of(head),
            ),
    {
        let index: usize = untagged_index(head);
        let ghost top = self.free@.len() - 1;
        assert(self.free@.len() > 0);
        assert(self.free@[top] == head);
        assert(self.slots@[index as int] == AtomicSlabSlot::<T>::FreeNext(
            link_at(self.free@, top),
        ));
        let next: Index = match &self.slots[index] {
            AtomicSlabSlot::FreeNext(next) => *next,
            AtomicSlabSlot::Value(_) => NULL_INDEX,
        };
        self.free_head = next;
        self.slots.set(index, AtomicSlabSlot::Value(None));
        self.free = Ghost(self.free@.drop_last());
        proof {
            let before = old(self)@;
            assert(self@.values =~= before.values);
            assert(self@ =~= before.after_alloc());
            assert(self.free@.no_duplicates());
            assert forall|k: int| 0 <= k < self.free@.len() implies self.slots@[index_of(
                #[trigger] self.free@[k],
            )] == AtomicSlabSlot::<T>::FreeNext(link_at(self.free@, k)) by {
                assert(self.free@[k] == before.free[k]);
                assert(before.free[k] != before.free[top]);
            }
            assert forall|i: int|
                0 <= i < self.slots@.len() && #[trigger] self.slots@[i]
                    is FreeNext implies self.free@.contains(self.tags@[i]) by {
                assert(i != index);
                assert(old(self).slots@[i] is FreeNext);
                let k = choose|k: int| 0 <= k < before.free.len() && before.free[k]
                    == before.tags[i];
                assert(k != top);
                assert(self.free@[k] == self.tags@[i]);
            }
            self.lemma_slot_in_bounds(index as int);
        }
        Ok(AtomicSlabPtr::new(self.storage, self.slot_size, head))
    }

    /// Take a slot that was never used.
    fn reserve(&mut self) -> (r: Result<AtomicSlabPtr<T>, AllocError>)
        requires
            old(self).wf(),
            index_of(old(self).free_head) == MAX_CAPACITY,
        ensures
            final(self).wf(),
            final(self)@ == old(self)@.after_alloc(),
            match old(self)@.next_alloc() {
                Some(tagged) => r matches Ok(ptr) && ptr.tagged() == tagged && ptr.addr()
                    == old(self)@.slot_addr(index_of(tagged)),
                None => r == Err::<AtomicSlabPtr<T>, AllocError>(AllocError::OutOfMemory),
            },
    {
        proof {
            if self.free@.len() > 0 {
                let head = self.free@[self.free@.len() - 1];
                assert(index_of(head) < self.tags@.len());
            }
        }
        let slot: usize = self.len;
        match AllocOp::slot_reserved(slot, self.capacity) {
            AllocOp::Done(Ok(tagged)) => {
                self.len = slot + 1;
                self.slots.push(AtomicSlabSlot::Value(None));
                self.tags = Ghost(self.tags@.push(tagged));
                proof {
                    assert(self@.values =~= old(self)@.values.push(None));
                    assert(self@ =~= old(self)@.after_alloc());
                    assert(self@.valid());
                    self.lemma_slot_in_bounds(slot as int);
                }
                Ok(AtomicSlabPtr::new(self.storage, self.slot_size, tagged))
            },
            _ => {
                self.len = self.capacity;
                Err(AllocError::OutOfMemory)
            },
        }
    }

    proof fn lemma_slot_in_bounds(&self, index: int)
        requires
            self@.valid(),
            0 <= index < self@.capacity,
        ensures
            self@.slot_addr(index) <= usize::MAX,
            self@.slot_addr(index) + slot_size::<T>() <= self@.slot_addr(self@.capacity),
    {
        law_slot_in_storage(self@, index);
    }

    /// Free an allocated pointer to a value of `T`.
    ///
    /// `ptr` must have been obtained from [`AtomicSlab::allocate`] and not have been freed
    /// since.
    pub fn free(&mut self, ptr: AtomicSlabPtr<T>)
        requires
            old(self).wf(),
            old(self)@.owns(ptr.addr(), ptr.tagged()),
        ensures
            final(self).wf(),
            final(self)@ == old(self)@.after_free(ptr.tagged()),
    {
        let tagged: Index = ptr.tagged_index;
        let index: usize = untagged_index(tagged);
        let next: Index = retag(tagged);
        proof {
            lemma_next_gen(tagged);
        }
        self.slots.set(index, AtomicSlabSlot::FreeNext(self.free_head));
        self.free_head = next;
        self.tags = Ghost(self.tags@.update(index as int, next));
        self.free = Ghost(self.free@.push(next));
        proof {
            let before = old(self)@;
            assert(self@.values =~= before.values.update(index as int, None));
            assert(self@ =~= before.after_free(tagged));
            law_free_keeps_valid(before, tagged);
            assert forall|k: int| 0 <= k < self.free@.len() implies self.slots@[index_of(
                #[trigger] self.free@[k],
            )] == AtomicSlabSlot::<T>::FreeNext(link_at(self.free@, k)) by {
                if k < before.free.len() {
                    assert(self.free@[k] == before.free[k]);
                    assert(index_of(before.free[k]) != index);
                }
            }
            assert forall|i: int|
                0 <= i < self.slots@.len() && #[trigger] self.slots@[i]
                    is FreeNext implies self.free@.contains(self.tags@[i]) by {
                if i == index {
                    assert(self.free@.last() == self.tags@[i]);
                } else {
                    assert(old(self).slots@[i] is FreeNext);
                    let k = choose|k: int| 0 <= k < before.free.len() && before.free[k]
                        == before.tags[i];
                    assert(self.free@[k] == self.tags@[i]);
                }
            }
        }
    }

    /// Store a value in an allocated slot.
    pub fn write(&mut self, ptr: AtomicSlabPtr<T>, value: T)
        requires
            old(self).wf(),
            old(self)@.owns(ptr.addr(), ptr.tagged()),
        ensures
            final(self).wf(),
            final(self)@ == old(self)@.after_write(ptr.tagged(), value),
    {
        let index: usize = untagged_index(ptr.tagged_index);
        self.slots.set(index, AtomicSlabSlot::Value(Some(value)));
        proof {
            let before = old(self)@;
            assert(self@.values =~= before.values.update(index as int, Some(value)));
            assert(self@ =~= before.after_write(ptr.tagged_index, value));
            assert forall|k: int| 0 <= k < self.free@.len() implies index_of(
                #[trigger] self.free@[k],
            ) != index by {
                assert(self.free@.contains(self.free@[k]));
            }
        }
    }

    /// The value in an allocated slot: the one that was last written to it since it was
    /// allocated, if any.
    pub fn read(&self, ptr: AtomicSlabPtr<T>) -> (r: Option<&T>)
        requires
            self.wf(),
            self@.owns(ptr.addr(), ptr.tagged()),
        ensures
            match self@.values[index_of(ptr.tagged())] {
                Some(value) => r == Some(&value),
                None => r is None,
            },
    {
        let index: usize = untagged_index(ptr.tagged_index);
        match &self.slots[index] {
            AtomicSlabSlot::Value(Some(value)) => Some(value),
            _ => None,
        }
    }
}

/// Every slot lies within the storage, whole.
pub proof fn law_slot_in_storage<T>(slab: SlabView<T>, index: int)
    requires
        slab.valid(),
        0 <= index < slab.capacity,
    ensures
        slab.base <= slab.slot_addr(index),
        slab.slot_addr(index) + slot_size::<T>() <= slab.slot_addr(slab.capacity) <= usize::MAX,
{
    lemma_slot_size_positive::<T>();
    assert(0 <= index * slot_size::<T>() && index * slot_size::<T>() + slot_size::<T>()
        <= slab.capacity * slot_size::<T>()) by (nonlinear_arith)
        requires
            0 <= index < slab.capacity,
            0 < slot_size::<T>(),
    ;
}

/// Every slot is aligned.
pub proof fn law_slot_is_aligned<T>(slab: SlabView<T>, index: int)
    requires
        slab.valid(),
    ensures
        slab.slot_addr(index) % slot_align::<T>() == 0,
{
    lemma_slot_size_positive::<T>();
    let (base, size, align) = (slab.base, slot_size::<T>(), slot_align::<T>());
    assert((base + index * size) % align == 0) by (nonlinear_arith)
        requires
            base % align == 0,
            size % align == 0,
            0 < align,
    {
        let p = base / align;
        let q = size / align;
        assert(base == align * p);
        assert(size == align * q);
        assert(base + index * size == align * (p + index * q));
        assert((align * (p + index * q)) % align == 0);
    }
}

/// A slot is not empty.
pub proof fn lemma_slot_size_positive<T>()
    ensures
        slot_size::<T>() >= INDEX_SIZE,
        slot_size::<T>() >= vstd::layout::size_of::<T>(),
        slot_align::<T>() >= INDEX_SIZE,
        slot_size::<T>() % slot_align::<T>() == 0,
{
    let size = vstd::layout::size_of::<T>() as int;
    let size = if size > INDEX_SIZE {
        size
    } else {
        INDEX_SIZE as int
    };
    arith::lemma_align_up(size, slot_align::<T>());
}

/// A deallocation of an allocated slot keeps the slab valid.
pub proof fn law_free_keeps_valid<T>(slab: SlabView<T>, tagged: Index)
    requires
        slab.valid(),
        slab.live(index_of(tagged)),
        slab.tags[index_of(tagged)] == tagged,
    ensures
        slab.after_free(tagged).valid(),
{
    lemma_next_gen(tagged);
    let after = slab.after_free(tagged);
    let i = index_of(tagged);
    assert forall|k: int| 0 <= k < after.free.len() implies 0 <= index_of(
        #[trigger] after.free[k],
    ) < after.tags.len() && after.tags[index_of(after.free[k])] == after.free[k]
        && after.values[index_of(after.free[k])] is None by {
        if k < slab.free.len() {
            assert(after.free[k] == slab.free[k]);
            assert(slab.free.contains(slab.free[k]));
        }
    }
    assert forall|j: int, k: int|
        0 <= j < after.free.len() && 0 <= k < after.free.len() && j != k implies after.free[j]
        != after.free[k] by {
        let n = slab.free.len() as int;
        if j < n {
            assert(slab.free.contains(slab.free[j]));
            assert(index_of(slab.free[j]) != i);
        }
        if k < n {
            assert(slab.free.contains(slab.free[k]));
            assert(index_of(slab.free[k]) != i);
        }
    }
}

/// An allocation keeps the slab valid.
pub proof fn law_alloc_keeps_valid<T>(slab: SlabView<T>)
    requires
        slab.valid(),
    ensures
        slab.after_alloc().valid(),
{
    let after = slab.after_alloc();
    if slab.free.len() > 0 {
        assert(after.free.no_duplicates());
        assert forall|k: int| 0 <= k < after.free.len() implies 0 <= index_of(
            #[trigger] after.free[k],
        ) < after.tags.len() && after.tags[index_of(after.free[k])] == after.free[k]
            && after.values[index_of(after.free[k])] is None by {
            assert(after.free[k] == slab.free[k]);
        }
    } else {
        assert(after.free =~= Seq::empty());
    }
}

/// An allocation hands out a slot that was not allocated, and leaves every allocated slot as
/// it was.
pub proof fn law_alloc_is_exclusive<T>(slab: SlabView<T>, other: int)
    requires
        slab.valid(),
    ensures
        slab.next_alloc() matches Some(tagged) ==> {
            let after = slab.after_alloc();
            &&& 0 <= index_of(tagged) < slab.capacity
            &&& !slab.live(index_of(tagged))
            &&& after.live(index_of(tagged))
            &&& after.tags[index_of(tagged)] == tagged
            &&& after.values[index_of(tagged)] is None
            &&& other != index_of(tagged) ==> after.live(other) == slab.live(other)
            &&& slab.live(other) ==> after.tags[other] == slab.tags[other]
                && after.values[other] == slab.values[other]
        },
{
    let after = slab.after_alloc();
    if slab.free.len() > 0 {
        let tagged = slab.free.last();
        let top = slab.free.len() - 1;
        assert(slab.free[top] == tagged);
        assert(slab.free.contains(tagged));
        if after.free.contains(tagged) {
            let k = choose|k: int| 0 <= k < after.free.len() && after.free[k] == tagged;
            assert(slab.free[k] == slab.free[top]);
        }
        if 0 <= other < slab.tags.len() && other != index_of(tagged) {
            let t = slab.tags[other];
            if slab.free.contains(t) {
                let k = choose|k: int| 0 <= k < slab.free.len() && slab.free[k] == t;
                assert(k != top);
                assert(after.free[k] == t);
            }
            if after.free.contains(t) {
                let k = choose|k: int| 0 <= k < after.free.len() && after.free[k] == t;
                assert(slab.free[k] == t);
            }
        }
    }
}

/// An allocation fails if and only if every slot of the slab is allocated.
pub proof fn law_out_of_memory_iff_full<T>(slab: SlabView<T>)
    requires
        slab.valid(),
    ensures
        slab.next_alloc() is None <==> (forall|i: int| 0 <= i < slab.capacity ==> slab.live(i)),
{
    if slab.next_alloc() is None {
        assert forall|i: int| 0 <= i < slab.capacity implies slab.live(i) by {
            assert(!slab.free.contains(slab.tags[i]));
        }
    } else {
        let i = index_of(slab.next_alloc()->0);
        law_alloc_is_exclusive(slab, i);
        assert(!slab.live(i));
    }
}

/// A deallocation makes the slot free: nothing owns it any more, not even the pointer that
/// was freed. Every other slot stays as it was.
pub proof fn law_free_releases<T>(slab: SlabView<T>, addr: usize, tagged: Index, other: int)
    requires
        slab.valid(),
        slab.owns(addr, tagged),
    ensures
        !slab.after_free(tagged).live(index_of(tagged)),
        !slab.after_free(tagged).owns(addr, tagged),
        other != index_of(tagged) ==> slab.after_free(tagged).live(other) == slab.live(other),
        other != index_of(tagged) && 0 <= other < slab.tags.len() ==> slab.after_free(
            tagged,
        ).tags[other] == slab.tags[other] && slab.after_free(tagged).values[other]
            == slab.values[other],
{
    lemma_next_gen(tagged);
    let after = slab.after_free(tagged);
    let i = index_of(tagged);
    assert(after.free.last() == after.tags[i]);
    if 0 <= other < slab.tags.len() && other != i {
        let t = slab.tags[other];
        if slab.free.contains(t) {
            let k = choose|k: int| 0 <= k < slab.free.len() && slab.free[k] == t;
            assert(after.free[k] == t);
        }
        if after.free.contains(t) {
            let k = choose|k: int| 0 <= k < after.free.len() && after.free[k] == t;
            assert(index_of(t) == other);
            assert(k < slab.free.len());
            assert(slab.free[k] == t);
        }
    }
}

/// The slot that was freed last is handed out next, one generation later, and the slab is
/// then as if the slot had never been freed but for that generation and its value.
pub proof fn law_free_then_alloc<T>(slab: SlabView<T>, addr: usize, tagged: Index)
    requires
        slab.valid(),
        slab.owns(addr, tagged),
    ensures
        slab.after_free(tagged).next_alloc() == Some(next_gen(tagged)),
        index_of(next_gen(tagged)) == index_of(tagged),
        slab.after_free(tagged).after_alloc().free == slab.free,
        slab.after_free(tagged).after_alloc().tags == slab.tags.update(
            index_of(tagged),
            next_gen(tagged),
        ),
        slab.after_free(tagged).after_alloc().owns(addr, next_gen(tagged)),
{
    lemma_next_gen(tagged);
    law_free_keeps_valid(slab, tagged);
    law_alloc_is_exclusive(slab.after_free(tagged), index_of(tagged));
    assert(slab.after_free(tagged).after_alloc().free =~= slab.free);
}

/// A read gives back what was last written through the pointer; writes to other slots,
/// allocations and deallocations of other slots do not change it.
pub proof fn law_read_after_write<T>(
    slab: SlabView<T>,
    addr: usize,
    tagged: Index,
    value: T,
    other: Index,
    other_value: T,
)
    requires
        slab.valid(),
        slab.owns(addr, tagged),
        slab.live(index_of(other)),
        slab.tags[index_of(other)] == other,
        index_of(other) != index_of(tagged),
    ensures
        ({
            let i = index_of(tagged);
            let written = slab.after_write(tagged, value);
            &&& written.valid()
            &&& written.owns(addr, tagged)
            &&& written.values[i] == Some(value)
            &&& written.after_write(other, other_value).values[i] == Some(value)
            &&& written.after_write(other, other_value).owns(addr, tagged)
            &&& written.after_alloc().values[i] == Some(value)
            &&& written.after_alloc().owns(addr, tagged)
            &&& written.after_free(other).values[i] == Some(value)
            &&& written.after_free(other).owns(addr, tagged)
        }),
{
    let i = index_of(tagged);
    let written = slab.after_write(tagged, value);
    assert forall|k: int| 0 <= k < written.free.len() implies 0 <= index_of(
        #[trigger] written.free[k],
    ) < written.tags.len() && written.tags[index_of(written.free[k])] == written.free[k]
        && written.values[index_of(written.free[k])] is None by {
        assert(slab.free.contains(slab.free[k]));
    }
    law_alloc_is_exclusive(written, i);
    law_slot_in_storage(written, index_of(other));
    law_free_releases(written, written.slot_addr(index_of(other)) as usize, other, i);
}

/// Two slots do not overlap.
pub proof fn law_slots_are_disjoint<T>(slab: SlabView<T>, i: int, j: int)
    requires
        i < j,
    ensures
        slab.slot_addr(i) + slot_size::<T>() <= slab.slot_addr(j),
        slab.slot_addr(i) + vstd::layout::size_of::<T>() <= slab.slot_addr(j),
{
    lemma_slot_size_positive::<T>();
    assert(i * slot_size::<T>() + slot_size::<T>() <= j * slot_size::<T>()) by (nonlinear_arith)
        requires
            i < j,
            0 < slot_size::<T>(),
    ;
}

/// The allocated slots.
pub open spec fn live_slots<T>(slab: SlabView<T>) -> Set<int> {
    Set::new(|i: int| slab.live(i))
}

/// Of the slots that were ever used, those that are not on the free list are allocated.
pub proof fn law_live_count<T>(slab: SlabView<T>)
    requires
        slab.valid(),
    ensures
        live_slots(slab).finite(),
        live_slots(slab).len() == slab.tags.len() - slab.free.len(),
{
    let n = slab.tags.len() as int;
    let indices = slab.free.map_values(|t: Index| index_of(t));
    let free = indices.to_set();
    let live = live_slots(slab);
    let used = vstd::set_lib::set_int_range(0, n);
    assert forall|j: int, k: int|
        0 <= j < indices.len() && 0 <= k < indices.len() && j != k implies indices[j]
        != indices[k] by {
        assert(slab.free[j] != slab.free[k]);
    }
    indices.unique_seq_to_set();
    vstd::seq_lib::seq_to_set_is_finite(indices);
    vstd::set_lib::lemma_int_range(0, n);
    assert forall|i: int| #[trigger] free.contains(i) <==> 0 <= i < n && !live.contains(i) by {
        if free.contains(i) {
            let k = choose|k: int| 0 <= k < indices.len() && indices[k] == i;
            assert(slab.free[k] == slab.tags[i]);
            assert(slab.free.contains(slab.tags[i]));
        }
        if 0 <= i < n && !live.contains(i) {
            let k = choose|k: int| 0 <= k < slab.free.len() && slab.free[k] == slab.tags[i];
            assert(index_of(slab.tags[i]) == i);
            assert(indices[k] == i);
        }
    }
    assert(live =~= used.difference(free));
    assert(live.union(free) =~= used);
    vstd::set_lib::lemma_set_disjoint_lens(live, free);
}

/// The slab only grows by the optimal amount: the number of slots that were ever used is the
/// greatest number of slots that were allocated at the same time.
pub proof fn law_growth_is_optimal<T>(slab: SlabView<T>, peak: nat, tagged: Index)
    requires
        slab.valid(),
        slab.tags.len() == peak,
    ensures
        slab.next_alloc() is Some ==> slab.after_alloc().tags.len() == if live_slots(
            slab.after_alloc(),
        ).len() > peak {
            live_slots(slab.after_alloc()).len()
        } else {
            peak
        },
        live_slots(slab).len() <= peak,
        slab.live(index_of(tagged)) ==> slab.after_free(tagged).tags.len() == peak,
{
    law_live_count(slab);
    law_alloc_keeps_valid(slab);
    law_live_count(slab.after_alloc());
}

/// A tagged index is its generation and its slot number: the low half is the slot number, and the
/// high half the generation. Freeing a slot adds one to its generation, which wraps around, and
/// leaves the slot number alone.
pub proof fn law_tagged_index_has_two_halves(tagged: Index, slot: usize, next: Index)
    requires
        call_ensures(untagged_index, (tagged,), slot),
        call_ensures(retag, (tagged,), next),
    ensures
        tagged == gen_of(tagged) * 0x1_0000_0000 + slot,
        0 <= slot < 0x1_0000_0000,
        0 <= gen_of(tagged) < 0x1_0000_0000,
        index_of(tagged) == slot,
        next % 0x1_0000_0000 == slot,
        next as int / 0x1_0000_0000 == (tagged as int / 0x1_0000_0000 + 1) % 0x1_0000_0000,
        index_of(NULL_INDEX) == 0xFFFF_FFFF,
        MAX_CAPACITY == 0xFFFF_FFFF,
        GEN_INCREMENT == 0x1_0000_0000,
        INDEX_MASK == 0xFFFF_FFFF,
{
}

/// An allocation that finds the free list empty goes on to a slot that was never used; one that
/// finds a head goes on with that head. It is done with the slot it has reserved, if there is
/// one, or with the head it has exchanged, and starts over with the head that it found instead.
pub proof fn law_allocation_takes_the_head_or_a_new_slot(
    head: Index,
    loaded: AllocOp,
    slot: usize,
    capacity: usize,
    reserved: AllocOp,
    new_head: Index,
    taken: AllocOp,
    lost: AllocOp,
    again: AllocOp,
)
    requires
        call_ensures(AllocOp::head_loaded, (head,), loaded),
        call_ensures(AllocOp::slot_reserved, (slot, capacity), reserved),
        call_ensures(AllocOp::exchanged, (head, Ok(head)), taken),
        call_ensures(AllocOp::exchanged, (head, Err(new_head)), lost),
        call_ensures(AllocOp::head_loaded, (new_head,), again),
    ensures
        loaded == if head % 0x1_0000_0000 == 0xFFFF_FFFF {
            AllocOp::Reserve
        } else {
            AllocOp::LoadNext { head }
        },
        reserved == if slot < capacity {
            AllocOp::Done(Ok(slot as u64))
        } else {
            AllocOp::ResetLen
        },
        taken == AllocOp::Done(Ok(head)),
        lost == again,
{
}

/// A slot is aligned for a value and for an index, and has room for either; it is the least such
/// multiple of its alignment.
pub proof fn law_slot_is_no_larger_than_needed<T>(r: (usize, usize))
    requires
        call_ensures(slot_layout::<T>, (), r),
    ensures
        r.1 == if vstd::layout::align_of::<T>() > 8 {
            vstd::layout::align_of::<T>()
        } else {
            8
        },
        r.0 >= vstd::layout::size_of::<T>(),
        r.0 >= 8,
        r.0 as int % r.1 as int == 0,
        r.0 < r.1 + if vstd::layout::size_of::<T>() > 8 {
            vstd::layout::size_of::<T>()
        } else {
            8
        },
        slot_size::<T>() == r.0,
        slot_align::<T>() == r.1,
{
}

/// A new slab starts at the first address of the storage that is aligned for a slot, and has as
/// many slots as fit behind it, or 4294967295 if that is less. None of them was used.
pub proof fn law_new_slab_uses_its_storage<T>(raw_base: usize, raw_len: usize, slab: AtomicSlab<T>)
    requires
        call_ensures(AtomicSlab::<T>::new, (raw_base, raw_len), slab),
    ensures
        raw_base <= slab@.base < raw_base + slot_align::<T>(),
        slab@.base % slot_align::<T>() == 0,
        0 <= slab@.capacity <= 4294967295,
        slab@.capacity > 0 ==> slab@.base + slab@.capacity * slot_size::<T>() <= raw_base
            + raw_len,
        slab@.capacity == 4294967295 || slab@.base + (slab@.capacity + 1) * slot_size::<T>()
            > raw_base + raw_len,
        slab@.tags.len() == 0,
        slab@.free.len() == 0,
{
    lemma_slot_size_positive::<T>();
    arith::lemma_align_up(raw_base as int, slot_align::<T>());
    let size = slot_size::<T>();
    let base = slab@.base;
    let avail = if raw_base + raw_len - base > 0 {
        raw_base + raw_len - base
    } else {
        0
    };
    let slots = avail / size;
    let capacity = slab@.capacity;
    assert(slots * size <= avail < (slots + 1) * size) by (nonlinear_arith)
        requires
            slots == avail / size,
            0 < size,
            0 <= avail,
    ;
    assert(capacity * size <= slots * size) by (nonlinear_arith)
        requires
            capacity <= slots,
            0 < size,
    ;
    if capacity > 0 {
        assert(capacity * size > 0) by (nonlinear_arith)
            requires
                0 < capacity,
                0 < size,
        ;
    }
}

/// Slots lie side by side: the first one at the start of the slab, and each one slot size above
/// the one before.
pub proof fn law_slots_lie_side_by_side<T>(slab: SlabView<T>, i: int)
    ensures
        slab.slot_addr(0) == slab.base,
        slab.slot_addr(i + 1) == slab.slot_addr(i) + slot_size::<T>(),
        slab.slot_addr(i) == slab.base + i * slot_size::<T>(),
{
    assert((i + 1) * slot_size::<T>() == i * slot_size::<T>() + slot_size::<T>())
        by (nonlinear_arith);
    assert(0 * slot_size::<T>() == 0);
}

/// The lowest address of a slab is that of its first slot, and the highest one that of its last
/// slot. A slab without slots has both at its start.
pub proof fn law_addresses_of_a_slab<T>(slab: AtomicSlab<T>, min: usize, max: usize, slots: usize)
    requires
        call_ensures(AtomicSlab::<T>::min_address, (&slab,), min),
        call_ensures(AtomicSlab::<T>::max_address, (&slab,), max),
        call_ensures(AtomicSlab::<T>::capacity, (&slab,), slots),
    ensures
        min == slab@.base,
        slots == slab@.capacity,
        slots > 0 ==> max == min + (slots - 1) * slot_size::<T>(),
        slots == 0 ==> max == min,
{
    assert(0 * slot_size::<T>() == 0);
}

/// An allocation from a slab without free slots hands out the slots one by one, each under its
/// own number, until all were handed out; after that there is no memory. With a free slot, the
/// one that was freed last is handed out, under the index that it was freed with.
pub proof fn law_allocation_hands_out<T>(
    slab: &mut AtomicSlab<T>,
    r: Result<AtomicSlabPtr<T>, AllocError>,
)
    requires
        old(slab)@.valid(),
        call_ensures(AtomicSlab::<T>::allocate, (slab,), r),
    ensures
        old(slab)@.free.len() > 0 ==> {
            &&& r matches Ok(ptr)
            &&& ptr.tagged() == old(slab)@.free.last()
            &&& ptr.addr() == old(slab)@.base + ptr.tagged() as int % 0x1_0000_0000 * slot_size::<
                T,
            >()
            &&& final(slab)@.free == old(slab)@.free.drop_last()
            &&& final(slab)@.tags == old(slab)@.tags
        },
        old(slab)@.free.len() == 0 && old(slab)@.tags.len() < old(slab)@.capacity ==> {
            &&& r matches Ok(ptr)
            &&& ptr.tagged() == old(slab)@.tags.len()
            &&& ptr.addr() == old(slab)@.base + old(slab)@.tags.len() * slot_size::<T>()
            &&& final(slab)@.tags == old(slab)@.tags.push(old(slab)@.tags.len() as u64)
            &&& final(slab)@.free == old(slab)@.free
        },
        old(slab)@.free.len() == 0 && old(slab)@.tags.len() >= old(slab)@.capacity ==> {
            &&& r == Err::<AtomicSlabPtr<T>, AllocError>(AllocError::OutOfMemory)
            &&& final(slab)@ == old(slab)@
        },
        final(slab)@.base == old(slab)@.base,
        final(slab)@.capacity == old(slab)@.capacity,
{
}

/// Freeing a slot puts it on top of the free list, one generation later, and forgets its value.
/// Nothing else changes.
pub proof fn law_freed_slot_is_on_top<T>(slab: &mut AtomicSlab<T>, ptr: AtomicSlabPtr<T>, i: int)
    requires
        old(slab)@.valid(),
        old(slab)@.owns(ptr.addr(), ptr.tagged()),
        call_ensures(AtomicSlab::<T>::free, (slab, ptr), ()),
    ensures
        final(slab)@.free.len() == old(slab)@.free.len() + 1,
        final(slab)@.free.drop_last() == old(slab)@.free,
        final(slab)@.free.last() as int == (ptr.tagged() + 0x1_0000_0000)
            % 0x1_0000_0000_0000_0000,
        final(slab)@.base == old(slab)@.base,
        final(slab)@.capacity == old(slab)@.capacity,
        final(slab)@.tags.len() == old(slab)@.tags.len(),
        0 <= i < old(slab)@.tags.len() && i != ptr.tagged() as int % 0x1_0000_0000 ==> {
            &&& final(slab)@.tags[i] == old(slab)@.tags[i]
            &&& final(slab)@.values[i] == old(slab)@.values[i]
        },
{
    assert(final(slab)@.free.drop_last() =~= old(slab)@.free);
}

/// A value that is written to a slot is read from it, as long as nothing else is written there;
/// writing to a slot leaves every other slot as it was.
pub proof fn law_written_value_is_read<T>(
    slab: &mut AtomicSlab<T>,
    ptr: AtomicSlabPtr<T>,
    value: T,
    r: Option<&T>,
    i: int,
)
    requires
        old(slab)@.valid(),
        old(slab)@.owns(ptr.addr(), ptr.tagged()),
        call_ensures(AtomicSlab::<T>::write, (slab, ptr, value), ()),
        call_ensures(AtomicSlab::<T>::read, (final(slab), ptr), r),
    ensures
        r == Some(&value),
        final(slab)@.tags == old(slab)@.tags,
        final(slab)@.free == old(slab)@.free,
        final(slab)@.base == old(slab)@.base,
        final(slab)@.capacity == old(slab)@.capacity,
        0 <= i < old(slab)@.values.len() && i != ptr.tagged() as int % 0x1_0000_0000
            ==> final(slab)@.values[i] == old(slab)@.values[i],
{
}

/// Pointers are equal if and only if they designate the same address, whatever the generations of
/// their slots, and are ordered by address.
pub proof fn law_pointers_are_compared_by_address<T>(a: AtomicSlabPtr<T>, b: AtomicSlabPtr<T>)
    ensures
        PartialEqSpec::eq_spec(&a, &b) <==> a.addr() == b.addr(),
        PartialOrdSpec::partial_cmp_spec(&a, &b) == Some(core::cmp::Ordering::Less)
            <==> a.addr() < b.addr(),
        PartialOrdSpec::partial_cmp_spec(&a, &b) == Some(core::cmp::Ordering::Equal)
            <==> a.addr() == b.addr(),
        PartialOrdSpec::partial_cmp_spec(&a, &b) == Some(core::cmp::Ordering::Greater)
            <==> a.addr() > b.addr(),
{
}

/// A slot is allocated if and only if it was handed out and is not on the free list. A pointer
/// owns a slot if and only if it names that slot, in its present generation, by its address.
pub proof fn law_what_a_pointer_owns<T>(slab: SlabView<T>, index: int, addr: usize, tagged: Index)
    ensures
        slab.live(index) <==> 0 <= index < slab.tags.len() && !slab.free.contains(
            slab.tags[index],
        ),
        slab.owns(addr, tagged) <==> {
            let i = tagged as int % 0x1_0000_0000;
            &&& 0 <= i < slab.tags.len()
            &&& slab.tags[i] == tagged
            &&& !slab.free.contains(tagged)
            &&& addr == slab.base + i * slot_size::<T>()
        },
{
}

/// The steps of an allocation that decide nothing: it exchanges the head that it loaded for the
/// index it loaded below it, and is out of memory once it has reset the number of used slots.
pub proof fn law_allocation_goes_on(head: Index, next: Index, loaded: AllocOp, reset: AllocOp)
    requires
        call_ensures(AllocOp::next_loaded, (head, next), loaded),
        call_ensures(AllocOp::len_reset, (), reset),
    ensures
        loaded == (AllocOp::Exchange { head, next }),
        reset == AllocOp::Done(Err(AllocError::OutOfMemory)),
{
}

/// The steps of a deallocation: it stores the head that it loaded in the slot, exchanges that very
/// head, is done if that took place, and otherwise stores the head that it found instead.
pub proof fn law_deallocation_links_the_head(
    tagged: Index,
    head: Index,
    new_head: Index,
    loaded: FreeOp,
    stored: FreeOp,
    done: FreeOp,
    lost: FreeOp,
)
    requires
        call_ensures(FreeOp::head_loaded, (tagged, head), loaded),
        call_ensures(FreeOp::link_stored, (tagged, head), stored),
        call_ensures(FreeOp::exchanged, (tagged, Ok(head)), done),
        call_ensures(FreeOp::exchanged, (tagged, Err(new_head)), lost),
    ensures
        loaded == (FreeOp::StoreLink { tagged, head }),
        stored == (FreeOp::Exchange { tagged, head }),
        done == FreeOp::Done,
        lost == (FreeOp::StoreLink { tagged, head: new_head }),
{
}

/// A pointer tells its address in every way that it can be asked, and so does its clone.
pub proof fn law_pointer_tells_its_address<T>(
    ptr: AtomicSlabPtr<T>,
    copy: AtomicSlabPtr<T>,
    addr: usize,
)
    requires
        call_ensures(AtomicSlabPtr::<T>::clone, (&ptr,), copy),
        call_ensures(AtomicSlabPtr::<T>::ptr, (&copy,), addr),
    ensures
        copy == ptr,
        addr == ptr.addr(),
{
}

/// A slab tells how many slots were ever handed out: one more after an allocation that found no
/// free slot, and as many as before otherwise.
pub proof fn law_length_counts_new_slots<T>(
    slab: &mut AtomicSlab<T>,
    before: usize,
    r: Result<AtomicSlabPtr<T>, AllocError>,
    after: usize,
)
    requires
        call_ensures(AtomicSlab::<T>::len, (old(slab),), before),
        call_ensures(AtomicSlab::<T>::allocate, (slab,), r),
        call_ensures(AtomicSlab::<T>::len, (final(slab),), after),
    ensures
        before == old(slab)@.tags.len(),
        after == before + if r is Ok && old(slab)@.free.len() == 0 {
            1int
        } else {
            0
        },
{
}

/// A slot to which nothing was written since it was handed out has no value.
pub proof fn law_new_slot_has_no_value<T>(
    slab: &mut AtomicSlab<T>,
    ptr: AtomicSlabPtr<T>,
    r: Option<&T>,
)
    requires
        old(slab)@.valid(),
        call_ensures(AtomicSlab::<T>::allocate, (slab,), Ok(ptr)),
        call_ensures(AtomicSlab::<T>::read, (final(slab), ptr), r),
    ensures
        r is None,
{
    law_alloc_is_exclusive(old(slab)@, index_of(ptr.tagged()));
}

} // verus!
