//! Allocation of small pieces out of big blocks of memory.

use core::ops::Range;

use vstd::prelude::*;

use super::layout::Layout;
use super::{AllocError, AsMutPtr, NearAllocator};
use crate::arith;

verus! {

/// Room that a heap needs for its own state in the block that it manages, in bytes. Just an
/// estimation.
pub open spec fn heap_state_size() -> int {
    if usize::BITS == 64 {
        1024
    } else {
        512
    }
}

/// Whether a span of addresses contains another. Empty spans are contained by any span.
pub open spec fn span_contains(outer: Range<usize>, inner: Range<usize>) -> bool {
    inner.end <= inner.start || (outer.start <= inner.start && inner.end <= outer.end)
}

/// Calls `talc::Span::contains_span`, which says whether the second span is empty or has both
/// its bounds within the bounds of the first.
#[verifier::external_body]
fn contains_span(outer: Range<usize>, inner: Range<usize>) -> (r: bool)
    ensures
        r == span_contains(outer, inner),
{
    let outer = talc::Span::new(
        core::ptr::without_provenance_mut(outer.start),
        core::ptr::without_provenance_mut(outer.end),
    );
    let inner = talc::Span::new(
        core::ptr::without_provenance_mut(inner.start),
        core::ptr::without_provenance_mut(inner.end),
    );
    outer.contains_span(inner)
}

/// A block of memory with the heap that manages it.
pub struct NearBlock<P, H> {
    /// The addresses that the heap hands out.
    pub heap_span: Range<usize>,
    /// The heap.
    pub heap: H,
    /// The number of active allocations in the heap.
    pub alloc_count: u64,
    /// The block.
    pub base: P,
    /// The layout of the block.
    pub layout: Layout,
}

/// An allocator that allocates big chunks from a [`NearAllocator`] that is possibly less
/// performant (e.g. requesting virtual memory from the OS), and re-uses the memory within
/// these chunks effectively through a heap in each of them.
///
/// The heaps are values of type `H`; the methods take the operations on them as arguments.
pub struct BlockNearAlloc<B: NearAllocator, H> {
    /// Sorted by the end of their heap span.
    blocks: Vec<NearBlock<B::Ptr, H>>,
    block_allocator: B,
    min_block: Layout,
}

/// Whether blocks are sorted by the end of their heap span.
pub open spec fn sorted<P, H>(blocks: Seq<NearBlock<P, H>>) -> bool {
    forall|i: int, j: int|
        0 <= i < j < blocks.len() ==> (#[trigger] blocks[i]).heap_span.end < (
        #[trigger] blocks[j]).heap_span.end
}

/// The number of blocks whose heap span ends below an address.
pub open spec fn rank<P, H>(blocks: Seq<NearBlock<P, H>>, end: int) -> int
    decreases blocks.len(),
{
    if blocks.len() == 0 || blocks.last().heap_span.end < end {
        blocks.len() as int
    } else {
        rank(blocks.drop_last(), end)
    }
}

/// The blocks with one more, at its place in the order. It replaces one whose heap span has
/// the same end.
pub open spec fn with_block<P, H>(
    blocks: Seq<NearBlock<P, H>>,
    block: NearBlock<P, H>,
) -> Seq<NearBlock<P, H>> {
    let k = rank(blocks, block.heap_span.end as int);
    if k < blocks.len() && blocks[k].heap_span.end == block.heap_span.end {
        blocks.update(k, block)
    } else {
        blocks.insert(k, block)
    }
}

proof fn lemma_rank<P, H>(blocks: Seq<NearBlock<P, H>>, end: int)
    requires
        sorted(blocks),
    ensures
        0 <= rank(blocks, end) <= blocks.len(),
        forall|i: int|
            0 <= i < rank(blocks, end) ==> (#[trigger] blocks[i]).heap_span.end < end,
        forall|i: int|
            rank(blocks, end) <= i < blocks.len() ==> (#[trigger] blocks[i]).heap_span.end
                >= end,
    decreases blocks.len(),
{
    if blocks.len() > 0 && blocks.last().heap_span.end >= end {
        let init = blocks.drop_last();
        assert(sorted(init));
        lemma_rank(init, end);
        assert forall|i: int| 0 <= i < rank(blocks, end) implies (#[trigger] blocks[
            i
        ]).heap_span.end < end by {
            assert(init[i] == blocks[i]);
        }
        assert forall|i: int| rank(blocks, end) <= i < blocks.len() implies (#[trigger] blocks[
            i
        ]).heap_span.end >= end by {
            if i < init.len() {
                assert(init[i] == blocks[i]);
            }
        }
    }
}

/// Whether a block may serve an allocation within a range: all that its heap hands out lies
/// in the range.
pub open spec fn candidate<P, H>(block: NearBlock<P, H>, range: Range<usize>) -> bool {
    &&& range.start <= block.heap_span.end <= range.end
    &&& span_contains(range, block.heap_span)
}

/// What an attempt to allocate in a block that did not succeed leaves behind.
pub open spec fn attempt_failed<P, H, M: Fn(H, Layout) -> (H, Option<usize>)>(
    malloc: M,
    range: Range<usize>,
    layout: Layout,
    before: NearBlock<P, H>,
    after: NearBlock<P, H>,
) -> bool {
    if candidate(before, range) {
        &&& after == (NearBlock { heap: after.heap, ..before })
        &&& call_ensures(malloc, (before.heap, layout), (after.heap, None))
    } else {
        after == before
    }
}

/// What an attempt to allocate in a block that yielded `ptr` leaves behind.
pub open spec fn attempt_succeeded<P, H, M: Fn(H, Layout) -> (H, Option<usize>)>(
    malloc: M,
    range: Range<usize>,
    layout: Layout,
    before: NearBlock<P, H>,
    after: NearBlock<P, H>,
    ptr: usize,
) -> bool {
    &&& candidate(before, range)
    &&& before.alloc_count < u64::MAX
    &&& after == (NearBlock {
        heap: after.heap,
        alloc_count: (before.alloc_count + 1) as u64,
        ..before
    })
    &&& call_ensures(malloc, (before.heap, layout), (after.heap, Some(ptr)))
}

/// Whether the blocks were tried in order and none could allocate.
pub open spec fn all_failed<P, H, M: Fn(H, Layout) -> (H, Option<usize>)>(
    malloc: M,
    range: Range<usize>,
    layout: Layout,
    before: Seq<NearBlock<P, H>>,
    after: Seq<NearBlock<P, H>>,
) -> bool {
    &&& after.len() == before.len()
    &&& forall|i: int|
        0 <= i < before.len() ==> attempt_failed(
            malloc,
            range,
            layout,
            #[trigger] before[i],
            after[i],
        )
}

/// Whether the blocks were tried in order and the `k`-th was the first that could allocate.
pub open spec fn allocated_in<P, H, M: Fn(H, Layout) -> (H, Option<usize>)>(
    malloc: M,
    range: Range<usize>,
    layout: Layout,
    before: Seq<NearBlock<P, H>>,
    after: Seq<NearBlock<P, H>>,
    k: int,
    ptr: usize,
) -> bool {
    &&& after.len() == before.len()
    &&& 0 <= k < before.len()
    &&& forall|i: int|
        0 <= i < k ==> attempt_failed(malloc, range, layout, #[trigger] before[i], after[i])
    &&& attempt_succeeded(malloc, range, layout, before[k], after[k], ptr)
    &&& forall|i: int| k < i < before.len() ==> after[i] == #[trigger] before[i]
}

impl<B: NearAllocator, H> View for BlockNearAlloc<B, H> {
    type V = Seq<NearBlock<B::Ptr, H>>;

    closed spec fn view(&self) -> Seq<NearBlock<B::Ptr, H>> {
        self.blocks@
    }
}

impl<B: NearAllocator, H> BlockNearAlloc<B, H> {
    /// The blocks are sorted and have layouts.
    pub closed spec fn wf(self) -> bool {
        &&& sorted(self@)
        &&& forall|i: int|
            0 <= i < self@.len() ==> (#[trigger] self@[i]).layout.valid() && self@[i].layout.size
                != 0
        &&& self.min_block.valid()
    }

    /// The allocator of the blocks.
    pub closed spec fn allocator(self) -> B {
        self.block_allocator
    }

    /// The least layout of a block.
    pub closed spec fn min_block(self) -> Layout {
        self.min_block
    }

    /// Create an allocator without any block, whose blocks have at least the layout
    /// `min_block`.
    pub fn new(block_allocator: B, min_block: Layout) -> (r: Self)
        requires
            min_block.valid(),
        ensures
            r.wf(),
            r@ == Seq::<NearBlock<B::Ptr, H>>::empty(),
            r.allocator() == block_allocator,
            r.min_block() == min_block,
    {
        BlockNearAlloc { blocks: Vec::new(), block_allocator, min_block }
    }

    /// Try to use an existing block to allocate.
    fn alloc_within_existing<M: Fn(H, Layout) -> (H, Option<usize>)>(
        &mut self,
        range: Range<usize>,
        layout: Layout,
        malloc: &M,
    ) -> (r: Option<usize>)
        requires
            old(self).wf(),
            forall|i: int|
                0 <= i < old(self)@.len() ==> (#[trigger] old(self)@[i]).alloc_count < u64::MAX,
            forall|heap: H| #[trigger] call_requires(malloc, (heap, layout)),
        ensures
            final(self).wf(),
            final(self).allocator() == old(self).allocator(),
            final(self).min_block() == old(self).min_block(),
            match r {
                Some(ptr) => exists|k: int| #[trigger]
                    allocated_in(*malloc, range, layout, old(self)@, final(self)@, k, ptr),
                None => all_failed(*malloc, range, layout, old(self)@, final(self)@),
            },
    {
        let mut i: usize = 0;
        while i < self.blocks.len()
            invariant
                self.wf(),
                self.allocator() == old(self).allocator(),
                self.min_block() == old(self).min_block(),
                i <= self.blocks@.len(),
                self@.len() == old(self)@.len(),
                forall|j: int|
                    0 <= j < old(self)@.len() ==> (#[trigger] old(self)@[j]).alloc_count
                        < u64::MAX,
                forall|heap: H| #[trigger] call_requires(malloc, (heap, layout)),
                forall|j: int|
                    0 <= j < i ==> attempt_failed(
                        *malloc,
                        range,
                        layout,
                        #[trigger] old(self)@[j],
                        self@[j],
                    ),
                forall|j: int| i <= j < self@.len() ==> self@[j] == #[trigger] old(self)@[j],
            decreases self.blocks@.len() - i,
        {
            let span = self.blocks[i].heap_span.start..self.blocks[i].heap_span.end;
            let ghost before = self@;
            assert(before[i as int] == old(self)@[i as int]);
            if range.start <= span.end && span.end <= range.end && contains_span(
                range.start..range.end,
                span,
            ) {
                let block = self.blocks.remove(i);
                let (heap, outcome) = malloc(block.heap, layout);
                let alloc_count: u64 = match outcome {
                    Some(_) => block.alloc_count + 1,
                    None => block.alloc_count,
                };
                let block = NearBlock {
                    heap_span: block.heap_span,
                    heap,
                    alloc_count,
                    base: block.base,
                    layout: block.layout,
                };
                let ghost after = block;
                self.blocks.insert(i, block);
                proof {
                    assert(self@ =~= before.update(i as int, after));
                    assert(sorted(self@)) by {
                        assert forall|a: int, b: int| 0 <= a < b < self@.len() implies (
                        #[trigger] self@[a]).heap_span.end < (#[trigger] self@[b]).heap_span.end
                        by {
                            assert(before[a].heap_span.end < before[b].heap_span.end);
                        }
                    }
                }
                if let Some(ptr) = outcome {
                    proof {
                        assert(allocated_in(
                            *malloc,
                            range,
                            layout,
                            old(self)@,
                            self@,
                            i as int,
                            ptr,
                        ));
                    }
                    return Some(ptr);
                }
            }
            i = i + 1;
        }
        None
    }

    /// The layout of a block that has room for a heap's state and at least the requested
    /// layout.
    pub fn new_block_layout(&self, layout: Layout) -> (r: Result<Layout, AllocError>)
        requires
            self.wf(),
            layout.valid(),
        ensures
            r == block_layout(self.min_block(), layout),
            r matches Ok(block) ==> block.valid() && block.size != 0 && block.size
                >= layout.size && block.align >= layout.align,
    {
        let state: usize = if usize::BITS == 64 {
            1024
        } else {
            512
        };
        let padded: usize = layout.pad_to_align().size;
        proof {
            arith::lemma_pow2_positive(layout.align as int);
            arith::lemma_align_up(layout.size as int, layout.align as int);
        }
        let needed: usize = padded + state;
        let size: usize = if self.min_block.size > needed {
            self.min_block.size
        } else {
            needed
        };
        let align: usize = if self.min_block.align > layout.align {
            self.min_block.align
        } else {
            layout.align
        };
        match Layout::from_size_align(size, align) {
            Ok(block) => {
                proof {
                    arith::lemma_pow2_positive(align as int);
                    arith::lemma_align_up(size as int, align as int);
                }
                Ok(block.pad_to_align())
            },
            Err(_) => Err(AllocError::UnsupportedLayout),
        }
    }

    /// Add a block at its place in the order.
    fn insert_block(&mut self, block: NearBlock<B::Ptr, H>)
        requires
            old(self).wf(),
            block.layout.valid(),
            block.layout.size != 0,
        ensures
            final(self).wf(),
            final(self).allocator() == old(self).allocator(),
            final(self).min_block() == old(self).min_block(),
            final(self)@ == with_block(old(self)@, block),
    {
        let end: usize = block.heap_span.end;
        let ghost k = rank(self@, end as int);
        proof {
            lemma_rank(self@, end as int);
        }
        let mut i: usize = 0;
        while i < self.blocks.len() && self.blocks[i].heap_span.end < end
            invariant
                *self == *old(self),
                0 <= k <= self@.len(),
                i <= k,
                forall|j: int| 0 <= j < k ==> (#[trigger] self@[j]).heap_span.end < end,
                forall|j: int| k <= j < self@.len() ==> (#[trigger] self@[j]).heap_span.end >= end,
            ensures
                i == k,
            decreases self.blocks@.len() - i,
        {
            assert(self@[i as int].heap_span.end < end);
            i = i + 1;
        }
        let ghost added = block;
        if i < self.blocks.len() && self.blocks[i].heap_span.end == end {
            self.blocks.set(i, block);
        } else {
            self.blocks.insert(i, block);
        }
        proof {
            assert(self@ =~= with_block(old(self)@, added));
            lemma_with_block_sorted(old(self)@, added);
        }
    }

    /// Allocate memory according to the provided [`Layout`] within `range`, in a block that
    /// there is or in a new one.
    ///
    /// `malloc` allocates in a heap and returns the heap with the address, if it could.
    /// `claim` makes a heap that manages the given memory, and says which addresses it hands
    /// out.
    pub fn alloc_within<M, C>(
        &mut self,
        range: Range<usize>,
        layout: Layout,
        malloc: M,
        claim: C,
    ) -> (r: Result<usize, AllocError>) where
        M: Fn(H, Layout) -> (H, Option<usize>),
        C: Fn(usize, usize) -> (H, Range<usize>),

        requires
            old(self).wf(),
            layout.valid(),
            layout.size != 0,
            forall|i: int|
                0 <= i < old(self)@.len() ==> (#[trigger] old(self)@[i]).alloc_count < u64::MAX,
            forall|heap: H| #[trigger] call_requires(malloc, (heap, layout)),
            forall|base: usize, size: usize| #[trigger] call_requires(claim, (base, size)),
        ensures
            final(self).wf(),
            final(self).allocator() == old(self).allocator(),
            final(self).min_block() == old(self).min_block(),
            !fits(range, layout) ==> r == Err::<usize, AllocError>(AllocError::NoSuitableRegion)
                && final(self)@ == old(self)@,
            fits(range, layout) ==> served(
                old(self).allocator(),
                block_layout(old(self).min_block(), layout),
                malloc,
                claim,
                range,
                layout,
                old(self)@,
                final(self)@,
                r,
            ),
    {
        let aligned_start: usize = match arith::checked_next_multiple_of(
            range.start,
            layout.align,
        ) {
            Some(aligned_start) => aligned_start,
            None => {
                proof {
                    arith::lemma_pow2_positive(layout.align as int);
                }
                return Err(AllocError::NoSuitableRegion);
            },
        };
        if aligned_start.saturating_add(layout.size) > range.end {
            return Err(AllocError::NoSuitableRegion);
        }
        let ghost aligned = aligned_range(range, layout);
        match self.alloc_within_existing(aligned_start..range.end, layout, &malloc) {
            Some(ptr) => {
                let r: Result<usize, AllocError> = Ok(ptr);
                proof {
                    let k = choose|k: int| #[trigger]
                        allocated_in(malloc, aligned, layout, old(self)@, self@, k, ptr);
                    assert(allocated_in(malloc, aligned, layout, old(self)@, self@, k, r->Ok_0));
                }
                return r;
            },
            None => {},
        }
        let ghost mid = self@;
        let block_layout = match self.new_block_layout(layout) {
            Ok(block_layout) => block_layout,
            Err(e) => {
                return Err(e);
            },
        };
        // Allocate from the underlying allocator
        let base = match self.block_allocator.alloc_within(
            range.start..range.end,
            block_layout,
        ) {
            Ok(base) => base,
            Err(e) => {
                return Err(e);
            },
        };
        // Initialize a heap for the block
        let (heap, heap_span) = claim(base.as_mut_ptr(), block_layout.size);
        // Allocate the requested layout before adding the block
        let ghost heap0 = heap;
        let (heap, ptr) = malloc(heap, layout);
        let alloc_count: u64 = match ptr {
            Some(_) => 1,
            None => 0,
        };
        let block = NearBlock { heap_span, heap, alloc_count, base, layout: block_layout };
        let ghost added = block;
        self.insert_block(block);
        let r: Result<usize, AllocError> = match ptr {
            Some(ptr) => Ok(ptr),
            None => Err(AllocError::UnsupportedLayout),
        };
        proof {
            assert(block_added(malloc, claim, layout, mid, self@, added, heap0, ptr));
        }
        r
    }

    /// The number of blocks whose heap span ends before `ptr`.
    fn position(&self, ptr: usize) -> (r: usize)
        requires
            self.wf(),
        ensures
            r == rank(self@, ptr as int),
            r <= self@.len(),
    {
        let ghost k = rank(self@, ptr as int);
        proof {
            lemma_rank(self@, ptr as int);
        }
        let mut i: usize = 0;
        while i < self.blocks.len() && self.blocks[i].heap_span.end < ptr
            invariant
                0 <= k <= self@.len(),
                i <= k,
                forall|j: int| 0 <= j < k ==> (#[trigger] self@[j]).heap_span.end < ptr,
                forall|j: int| k <= j < self@.len() ==> (#[trigger] self@[j]).heap_span.end >= ptr,
            ensures
                i == k,
            decreases self.blocks@.len() - i,
        {
            assert(self@[i as int].heap_span.end < ptr);
            i = i + 1;
        }
        i
    }

    /// Whether there is a block from which memory at `ptr` can be freed.
    pub fn can_free(&self, ptr: usize) -> (r: bool)
        requires
            self.wf(),
        ensures
            r == ({
                let k = rank(self@, ptr as int);
                &&& k < self@.len()
                &&& self@[k].heap_span.end < usize::MAX
                &&& self@[k].alloc_count > 0
            }),
    {
        let i: usize = self.position(ptr);
        i < self.blocks.len() && self.blocks[i].heap_span.end < usize::MAX
            && self.blocks[i].alloc_count > 0
    }

    /// Free memory previously allocated through this allocator with the same `layout`.
    ///
    /// `free` gives the memory back to a heap and returns the heap.
    pub fn free<F: Fn(H, usize, Layout) -> H>(&mut self, ptr: usize, layout: Layout, free: F)
        requires
            old(self).wf(),
            ({
                let k = rank(old(self)@, ptr as int);
                &&& k < old(self)@.len()
                &&& old(self)@[k].heap_span.end < usize::MAX
                &&& old(self)@[k].alloc_count > 0
                &&& call_requires(free, (old(self)@[k].heap, ptr, layout))
            }),
        ensures
            final(self).wf(),
            final(self).allocator() == old(self).allocator(),
            final(self).min_block() == old(self).min_block(),
            freed_in(
                free,
                ptr,
                layout,
                old(self)@,
                final(self)@,
                rank(old(self)@, ptr as int),
            ),
    {
        let ghost k = rank(self@, ptr as int);
        let i: usize = self.position(ptr);
        let block = self.blocks.remove(i);
        let block = NearBlock {
            heap_span: block.heap_span,
            heap: free(block.heap, ptr, layout),
            alloc_count: block.alloc_count - 1,
            base: block.base,
            layout: block.layout,
        };
        let ghost after = block;
        self.blocks.insert(i, block);
        proof {
            assert(self@ =~= old(self)@.update(k, after));
            assert forall|a: int, b: int| 0 <= a < b < self@.len() implies (
            #[trigger] self@[a]).heap_span.end < (#[trigger] self@[b]).heap_span.end by {
                assert(old(self)@[a].heap_span.end < old(self)@[b].heap_span.end);
            }
        }
    }

    /// Free all blocks that have zero active allocations.
    pub fn free_unused_blocks(&mut self)
        requires
            old(self).wf(),
        ensures
            final(self).wf(),
            final(self).allocator() == old(self).allocator(),
            final(self).min_block() == old(self).min_block(),
            final(self)@ == in_use(old(self)@),
            forall|i: int|
                0 <= i < old(self)@.len() && (#[trigger] old(self)@[i]).alloc_count == 0
                    ==> call_ensures(
                    B::free,
                    (&old(self).allocator(), old(self)@[i].base, old(self)@[i].layout),
                    (),
                ),
    {
        let ghost all = self@;
        let mut moved: Vec<NearBlock<B::Ptr, H>> = Vec::new();
        core::mem::swap(&mut moved, &mut self.blocks);
        let ghost mut done: int = 0;
        assert(all.take(0) =~= Seq::empty());
        assert(in_use(all.take(0)) =~= Seq::empty());
        while moved.len() > 0
            invariant
                all == old(self)@,
                sorted(all),
                forall|i: int|
                    0 <= i < all.len() ==> (#[trigger] all[i]).layout.valid()
                        && all[i].layout.size != 0,
                self.min_block == old(self).min_block,
                self.block_allocator == old(self).block_allocator,
                0 <= done <= all.len(),
                moved@ == all.skip(done),
                self@ == in_use(all.take(done)),
                forall|i: int|
                    0 <= i < done && (#[trigger] all[i]).alloc_count == 0 ==> call_ensures(
                        B::free,
                        (&self.block_allocator, all[i].base, all[i].layout),
                        (),
                    ),
            decreases moved@.len(),
        {
            let block = moved.remove(0);
            proof {
                assert(block == all[done]);
                lemma_in_use_step(all, done);
                assert(all.skip(done).remove(0) =~= all.skip(done + 1));
            }
            if block.alloc_count == 0 {
                self.block_allocator.free(block.base, block.layout);
            } else {
                self.blocks.push(block);
            }
            proof {
                done = done + 1;
            }
        }
        proof {
            assert(all.take(done) =~= all);
            lemma_in_use(all);
        }
    }

    /// Free every block.
    pub fn release(self)
        requires
            self.wf(),
        ensures
            sorted(self@),
            forall|i: int|
                #![trigger self@[i]]
                0 <= i < self@.len() ==> self@[i].layout.valid() && self@[i].layout.size != 0,
            forall|i: int|
                #![trigger self@[i]]
                0 <= i < self@.len() ==> call_ensures(
                    B::free,
                    (&self.allocator(), self@[i].base, self@[i].layout),
                    (),
                ),
    {
        let ghost all = self@;
        let ghost mut done: int = 0;
        let mut blocks = self.blocks;
        while blocks.len() > 0
            invariant
                forall|i: int|
                    0 <= i < all.len() ==> (#[trigger] all[i]).layout.valid()
                        && all[i].layout.size != 0,
                0 <= done <= all.len(),
                blocks@ == all.skip(done),
                forall|i: int|
                    0 <= i < done ==> call_ensures(
                        B::free,
                        (&self.block_allocator, (#[trigger] all[i]).base, all[i].layout),
                        (),
                    ),
            decreases blocks@.len(),
        {
            let block = blocks.remove(0);
            proof {
                assert(block == all[done]);
                assert(all.skip(done).remove(0) =~= all.skip(done + 1));
            }
            self.block_allocator.free(block.base, block.layout);
            proof {
                done = done + 1;
            }
        }
    }
}

/// Whether a layout can be placed in a range: the first aligned address of the range, and the
/// size from there, do not exceed its end.
pub open spec fn fits(range: Range<usize>, layout: Layout) -> bool {
    let start = arith::align_up(range.start as int, layout.align as int);
    &&& start <= usize::MAX
    &&& if start + layout.size <= usize::MAX {
        start + layout.size <= range.end
    } else {
        range.end == usize::MAX
    }
}

/// The range without what precedes its first aligned address.
pub open spec fn aligned_range(range: Range<usize>, layout: Layout) -> Range<usize> {
    Range {
        start: arith::align_up(range.start as int, layout.align as int) as usize,
        end: range.end,
    }
}

/// The layout of a block for an allocation with the layout `layout`.
pub open spec fn block_layout(min_block: Layout, layout: Layout) -> Result<Layout, AllocError> {
    let needed = arith::align_up(layout.size as int, layout.align as int) + heap_state_size();
    let size = if min_block.size > needed {
        min_block.size as int
    } else {
        needed
    };
    let align = if min_block.align > layout.align {
        min_block.align
    } else {
        layout.align
    };
    if super::layout::valid_layout(size, align as int) {
        Ok(Layout { size: arith::align_up(size, align as int) as usize, align })
    } else {
        Err(AllocError::UnsupportedLayout)
    }
}

/// Whether a block was added, with a heap for it, after an attempt to allocate in that heap
/// that yielded `ptr`.
pub open spec fn block_added<P: AsMutPtr<u8>, H, M, C>(
    malloc: M,
    claim: C,
    layout: Layout,
    before: Seq<NearBlock<P, H>>,
    after: Seq<NearBlock<P, H>>,
    block: NearBlock<P, H>,
    heap: H,
    ptr: Option<usize>,
) -> bool where
    M: Fn(H, Layout) -> (H, Option<usize>),
    C: Fn(usize, usize) -> (H, Range<usize>),
 {
    &&& call_ensures(claim, (block.base.addr(), block.layout.size), (heap, block.heap_span))
    &&& call_ensures(malloc, (heap, layout), (block.heap, ptr))
    &&& block.alloc_count == if ptr is Some {
        1u64
    } else {
        0
    }
    &&& after == with_block(before, block)
}

/// How an allocation within a range that it fits is served: by the first block that can, or
/// else by a new block.
pub open spec fn served<B: NearAllocator, H, M, C>(
    allocator: B,
    new_layout: Result<Layout, AllocError>,
    malloc: M,
    claim: C,
    range: Range<usize>,
    layout: Layout,
    before: Seq<NearBlock<B::Ptr, H>>,
    after: Seq<NearBlock<B::Ptr, H>>,
    r: Result<usize, AllocError>,
) -> bool where
    M: Fn(H, Layout) -> (H, Option<usize>),
    C: Fn(usize, usize) -> (H, Range<usize>),
 {
    let aligned = aligned_range(range, layout);
    ||| (r is Ok && exists|k: int| #[trigger]
        allocated_in(malloc, aligned, layout, before, after, k, r->Ok_0))
    ||| exists|mid: Seq<NearBlock<B::Ptr, H>>| #[trigger]
        all_failed(malloc, aligned, layout, before, mid) && match new_layout {
            Err(e) => r == Err::<usize, AllocError>(e) && after == mid,
            Ok(new_layout) => served_by_new_block(
                allocator,
                new_layout,
                malloc,
                claim,
                range,
                layout,
                mid,
                after,
                r,
            ),
        }
}

/// How an allocation is served by a new block.
pub open spec fn served_by_new_block<B: NearAllocator, H, M, C>(
    allocator: B,
    new_layout: Layout,
    malloc: M,
    claim: C,
    range: Range<usize>,
    layout: Layout,
    before: Seq<NearBlock<B::Ptr, H>>,
    after: Seq<NearBlock<B::Ptr, H>>,
    r: Result<usize, AllocError>,
) -> bool where
    M: Fn(H, Layout) -> (H, Option<usize>),
    C: Fn(usize, usize) -> (H, Range<usize>),
 {
    exists|outcome: Result<B::Ptr, AllocError>| #[trigger]
        call_ensures(B::alloc_within, (&allocator, range, new_layout), outcome) && match outcome {
            Err(e) => r == Err::<usize, AllocError>(e) && after == before,
            Ok(base) => exists|block: NearBlock<B::Ptr, H>, heap: H, ptr: Option<usize>|
                {
                    &&& #[trigger] block_added(
                        malloc,
                        claim,
                        layout,
                        before,
                        after,
                        block,
                        heap,
                        ptr,
                    )
                    &&& block.base == base
                    &&& block.layout == new_layout
                    &&& r == match ptr {
                        Some(ptr) => Ok::<usize, AllocError>(ptr),
                        None => Err(AllocError::UnsupportedLayout),
                    }
                },
        }
}

/// What freeing memory in the `k`-th block leaves behind.
pub open spec fn freed_in<P, H, F: Fn(H, usize, Layout) -> H>(
    free: F,
    ptr: usize,
    layout: Layout,
    before: Seq<NearBlock<P, H>>,
    after: Seq<NearBlock<P, H>>,
    k: int,
) -> bool {
    &&& 0 <= k < before.len()
    &&& after.len() == before.len()
    &&& after == before.update(k, after[k])
    &&& after[k] == (NearBlock {
        heap: after[k].heap,
        alloc_count: (before[k].alloc_count - 1) as u64,
        ..before[k]
    })
    &&& call_ensures(free, (before[k].heap, ptr, layout), after[k].heap)
}

/// The blocks that have active allocations.
pub open spec fn in_use<P, H>(blocks: Seq<NearBlock<P, H>>) -> Seq<NearBlock<P, H>> {
    blocks.filter(|block: NearBlock<P, H>| block.alloc_count != 0)
}

proof fn lemma_in_use_step<P, H>(blocks: Seq<NearBlock<P, H>>, n: int)
    requires
        0 <= n < blocks.len(),
    ensures
        in_use(blocks.take(n + 1)) == if blocks[n].alloc_count != 0 {
            in_use(blocks.take(n)).push(blocks[n])
        } else {
            in_use(blocks.take(n))
        },
{
    reveal(Seq::filter);
    assert(blocks.take(n + 1).drop_last() =~= blocks.take(n));
    assert(blocks.take(n + 1).last() == blocks[n]);
}

/// The blocks in use are among the blocks and stay in order.
proof fn lemma_in_use<P, H>(blocks: Seq<NearBlock<P, H>>)
    requires
        sorted(blocks),
        forall|i: int|
            0 <= i < blocks.len() ==> (#[trigger] blocks[i]).layout.valid()
                && blocks[i].layout.size != 0,
    ensures
        sorted(in_use(blocks)),
        forall|i: int|
            0 <= i < in_use(blocks).len() ==> (#[trigger] in_use(blocks)[i]).layout.valid()
                && in_use(blocks)[i].layout.size != 0,
        forall|i: int|
            0 <= i < in_use(blocks).len() ==> blocks.contains(#[trigger] in_use(blocks)[i]),
    decreases blocks.len(),
{
    reveal(Seq::filter);
    if blocks.len() > 0 {
        let init = blocks.drop_last();
        assert(sorted(init));
        lemma_in_use(init);
        let n = init.len() as int;
        lemma_in_use_step(blocks, n);
        assert(blocks.take(n) =~= init);
        assert(blocks.take(n + 1) =~= blocks);
        assert forall|i: int| 0 <= i < in_use(blocks).len() implies blocks.contains(
            #[trigger] in_use(blocks)[i],
        ) by {
            if i < in_use(init).len() {
                let b = in_use(init)[i];
                let j = choose|j: int| 0 <= j < init.len() && init[j] == b;
                assert(blocks[j] == b);
                assert(in_use(blocks)[i] == b);
            } else {
                assert(blocks[n] == in_use(blocks)[i]);
            }
        }
        assert forall|a: int, b: int| 0 <= a < b < in_use(blocks).len() implies (
        #[trigger] in_use(blocks)[a]).heap_span.end < (#[trigger] in_use(
            blocks,
        )[b]).heap_span.end by {
            let x = in_use(init)[a];
            let j = choose|j: int| 0 <= j < init.len() && init[j] == x;
            assert(blocks[j] == x);
            if b < in_use(init).len() {
                assert(in_use(init)[a].heap_span.end < in_use(init)[b].heap_span.end);
            } else {
                assert(blocks[j].heap_span.end < blocks[n].heap_span.end);
            }
        }
    }
}

proof fn lemma_with_block_sorted<P, H>(blocks: Seq<NearBlock<P, H>>, block: NearBlock<P, H>)
    requires
        sorted(blocks),
    ensures
        sorted(with_block(blocks, block)),
{
    let end = block.heap_span.end as int;
    let k = rank(blocks, end);
    let after = with_block(blocks, block);
    lemma_rank(blocks, end);
    assert forall|a: int, b: int| 0 <= a < b < after.len() implies (
    #[trigger] after[a]).heap_span.end < (#[trigger] after[b]).heap_span.end by {
        if k < blocks.len() && blocks[k].heap_span.end == end {
            assert(blocks[a].heap_span.end < blocks[b].heap_span.end);
        } else {
            let a0 = if a < k {
                a
            } else {
                a - 1
            };
            let b0 = if b < k {
                b
            } else {
                b - 1
            };
            if a == k {
                assert(blocks[b0].heap_span.end >= end);
            } else if b == k {
                assert(blocks[a0].heap_span.end < end);
            } else {
                assert(blocks[a0].heap_span.end < blocks[b0].heap_span.end);
            }
        }
    }
}

/// Whether `malloc` hands out memory that is aligned and lies in the addresses that belong to
/// the heap, and whether `claim` makes heaps whose addresses lie in the memory given to them.
pub open spec fn well_behaved<H, M, C>(
    span_of: spec_fn(H) -> Range<usize>,
    malloc: M,
    claim: C,
    layout: Layout,
) -> bool where
    M: Fn(H, Layout) -> (H, Option<usize>),
    C: Fn(usize, usize) -> (H, Range<usize>),
 {
    &&& forall|heap: H, after: H, ptr: Option<usize>| #[trigger]
        call_ensures(malloc, (heap, layout), (after, ptr)) ==> {
            &&& span_of(after) == span_of(heap)
            &&& ptr matches Some(addr) ==> super::placed(addr, span_of(heap), layout)
        }
    &&& forall|base: usize, size: usize, heap: H, span: Range<usize>| #[trigger]
        call_ensures(claim, (base, size), (heap, span)) ==> {
            &&& span_of(heap) == span
            &&& span.start < span.end ==> base <= span.start && span.end <= base + size
        }
}

/// Whether the heap span of every block is that of its heap.
pub open spec fn spans_match<P, H>(
    blocks: Seq<NearBlock<P, H>>,
    span_of: spec_fn(H) -> Range<usize>,
) -> bool {
    forall|i: int|
        0 <= i < blocks.len() ==> (#[trigger] blocks[i]).heap_span == span_of(blocks[i].heap)
}

/// All bytes of memory that was allocated within a range lie in that range, whichever block
/// serves the allocation, provided that the heaps are well behaved.
pub proof fn law_allocation_is_within_range<B: NearAllocator, H, M, C>(
    span_of: spec_fn(H) -> Range<usize>,
    allocator: B,
    new_layout: Result<Layout, AllocError>,
    malloc: M,
    claim: C,
    range: Range<usize>,
    layout: Layout,
    before: Seq<NearBlock<B::Ptr, H>>,
    after: Seq<NearBlock<B::Ptr, H>>,
    ptr: usize,
) where
    M: Fn(H, Layout) -> (H, Option<usize>),
    C: Fn(usize, usize) -> (H, Range<usize>),

    requires
        layout.valid(),
        layout.size != 0,
        fits(range, layout),
        well_behaved(span_of, malloc, claim, layout),
        spans_match(before, span_of),
        new_layout matches Ok(block) ==> block.valid() && block.size != 0,
        served(allocator, new_layout, malloc, claim, range, layout, before, after, Ok(ptr)),
    ensures
        super::placed(ptr, range, layout),
{
    let r: Result<usize, AllocError> = Ok(ptr);
    let aligned = aligned_range(range, layout);
    arith::lemma_pow2_positive(layout.align as int);
    arith::lemma_align_up(range.start as int, layout.align as int);
    if exists|k: int| #[trigger]
        allocated_in(malloc, aligned, layout, before, after, k, r->Ok_0) {
        let k = choose|k: int| #[trigger]
            allocated_in(malloc, aligned, layout, before, after, k, r->Ok_0);
        assert(before[k].heap_span == span_of(before[k].heap));
    } else {
        let mid = choose|mid: Seq<NearBlock<B::Ptr, H>>| #[trigger]
            all_failed(malloc, aligned, layout, before, mid) && match new_layout {
                Err(e) => r == Err::<usize, AllocError>(e) && after == mid,
                Ok(new_layout) => served_by_new_block(
                    allocator,
                    new_layout,
                    malloc,
                    claim,
                    range,
                    layout,
                    mid,
                    after,
                    r,
                ),
            };
        let block_layout = new_layout->Ok_0;
        let outcome = choose|outcome: Result<B::Ptr, AllocError>| #[trigger]
            call_ensures(B::alloc_within, (&allocator, range, block_layout), outcome)
                && match outcome {
                Err(e) => r == Err::<usize, AllocError>(e) && after == mid,
                Ok(base) => exists|block: NearBlock<B::Ptr, H>, heap: H, ptr: Option<usize>|
                    {
                        &&& #[trigger] block_added(
                            malloc,
                            claim,
                            layout,
                            mid,
                            after,
                            block,
                            heap,
                            ptr,
                        )
                        &&& block.base == base
                        &&& block.layout == block_layout
                        &&& r == match ptr {
                            Some(ptr) => Ok::<usize, AllocError>(ptr),
                            None => Err(AllocError::UnsupportedLayout),
                        }
                    },
            };
        let base = outcome->Ok_0;
        assert(super::placed(base.addr(), range, block_layout));
    }
}

/// Freeing memory finds the block that it was allocated in: if heap spans do not overlap, the
/// block that contains the address, past the start of its heap span, is the one whose span is
/// the first to end at the address or above.
pub proof fn law_free_finds_the_block<P, H>(blocks: Seq<NearBlock<P, H>>, k: int, ptr: usize)
    requires
        sorted(blocks),
        0 <= k < blocks.len(),
        forall|j: int|
            0 <= j < k ==> (#[trigger] blocks[j]).heap_span.end <= blocks[k].heap_span.start,
        blocks[k].heap_span.start < ptr < blocks[k].heap_span.end,
    ensures
        rank(blocks, ptr as int) == k,
{
    let n = rank(blocks, ptr as int);
    lemma_rank(blocks, ptr as int);
    if n < k {
        assert(blocks[n].heap_span.end >= ptr);
    } else if k < n {
        assert(blocks[k].heap_span.end < ptr);
    }
}

/// Freeing what was allocated in a block leaves it with as many active allocations as before,
/// and does not change the other blocks.
pub proof fn law_free_undoes_allocation<P, H, M, F>(
    malloc: M,
    free: F,
    range: Range<usize>,
    layout: Layout,
    before: Seq<NearBlock<P, H>>,
    mid: Seq<NearBlock<P, H>>,
    after: Seq<NearBlock<P, H>>,
    k: int,
    ptr: usize,
) where M: Fn(H, Layout) -> (H, Option<usize>), F: Fn(H, usize, Layout) -> H
    requires
        allocated_in(malloc, range, layout, before, mid, k, ptr),
        freed_in(free, ptr, layout, mid, after, k),
    ensures
        after[k] == (NearBlock { heap: after[k].heap, ..before[k] }),
        forall|i: int| 0 <= i < before.len() && i != k ==> after[i] == #[trigger] mid[i],
        forall|i: int| k < i < before.len() ==> after[i] == #[trigger] before[i],
{
    assert(mid[k] == (NearBlock {
        heap: mid[k].heap,
        alloc_count: (before[k].alloc_count + 1) as u64,
        ..before[k]
    }));
}

/// A block is kept when unused blocks are freed if and only if it has active allocations.
pub proof fn law_blocks_in_use_are_kept<P, H>(
    blocks: Seq<NearBlock<P, H>>,
    block: NearBlock<P, H>,
)
    ensures
        in_use(blocks).contains(block) <==> blocks.contains(block) && block.alloc_count != 0,
    decreases blocks.len(),
{
    reveal(Seq::filter);
    if blocks.len() > 0 {
        let init = blocks.drop_last();
        let n = init.len() as int;
        law_blocks_in_use_are_kept(init, block);
        lemma_in_use_step(blocks, n);
        assert(blocks.take(n) =~= init);
        assert(blocks.take(n + 1) =~= blocks);
        assert(blocks =~= init.push(blocks[n]));
        lemma_push_contains(init, blocks[n], block);
        lemma_push_contains(in_use(init), blocks[n], block);
    }
}

proof fn lemma_push_contains<E>(s: Seq<E>, last: E, e: E)
    ensures
        s.push(last).contains(e) <==> s.contains(e) || e == last,
{
    let t = s.push(last);
    if s.contains(e) {
        let i = choose|i: int| 0 <= i < s.len() && s[i] == e;
        assert(t[i] == e);
    }
    if e == last {
        assert(t[s.len() as int] == e);
    }
    if t.contains(e) {
        let i = choose|i: int| 0 <= i < t.len() && t[i] == e;
        if i < s.len() {
            assert(s[i] == e);
        }
    }
}

/// Whether two spans of addresses have no address in common.
pub open spec fn apart(a: (int, int), b: (int, int)) -> bool {
    a.1 <= a.0 || b.1 <= b.0 || a.1 <= b.0 || b.1 <= a.0
}

/// A span of addresses by its bounds.
pub open spec fn bounds(span: Range<usize>) -> (int, int) {
    (span.start as int, span.end as int)
}

/// Whether the memory that is allocated in a heap is known: `malloc` adds what it hands out,
/// which overlaps nothing that is allocated, and nothing is allocated in a heap that `claim`
/// makes.
pub open spec fn tracks_live<H, M, C>(
    live_of: spec_fn(H) -> Set<(int, int)>,
    malloc: M,
    claim: C,
    layout: Layout,
) -> bool where
    M: Fn(H, Layout) -> (H, Option<usize>),
    C: Fn(usize, usize) -> (H, Range<usize>),
 {
    &&& forall|heap: H, after: H, ptr: Option<usize>| #[trigger]
        call_ensures(malloc, (heap, layout), (after, ptr)) ==> match ptr {
            Some(addr) => {
                let new = (addr as int, addr + layout.size);
                &&& live_of(after) == live_of(heap).insert(new)
                &&& forall|live: (int, int)| #[trigger]
                    live_of(heap).contains(live) ==> apart(live, new)
            },
            None => live_of(after) == live_of(heap),
        }
    &&& forall|base: usize, size: usize, heap: H, span: Range<usize>| #[trigger]
        call_ensures(claim, (base, size), (heap, span)) ==> live_of(heap) == Set::<
            (int, int),
        >::empty()
}

/// Whether memory is allocated in one of the blocks.
pub open spec fn live_in<P, H>(
    blocks: Seq<NearBlock<P, H>>,
    live_of: spec_fn(H) -> Set<(int, int)>,
    live: (int, int),
) -> bool {
    exists|i: int| 0 <= i < blocks.len() && live_of((#[trigger] blocks[i]).heap).contains(live)
}

/// Whether the heap spans of the blocks do not overlap, and what is allocated in a block lies in
/// its heap span.
pub open spec fn heaps_ok<P, H>(
    blocks: Seq<NearBlock<P, H>>,
    span_of: spec_fn(H) -> Range<usize>,
    live_of: spec_fn(H) -> Set<(int, int)>,
) -> bool {
    &&& spans_match(blocks, span_of)
    &&& forall|i: int, j: int|
        0 <= i < blocks.len() && 0 <= j < blocks.len() && i != j ==> apart(
            bounds((#[trigger] blocks[i]).heap_span),
            bounds((#[trigger] blocks[j]).heap_span),
        )
    &&& forall|i: int, live: (int, int)|
        0 <= i < blocks.len() && #[trigger] live_of(blocks[i].heap).contains(live) ==> {
            &&& blocks[i].heap_span.start <= live.0 < live.1
            &&& live.1 <= blocks[i].heap_span.end
        }
}

/// Whether the block allocator hands out memory that overlaps no heap span of a block.
pub open spec fn hands_out_fresh<B: NearAllocator, H>(
    allocator: B,
    range: Range<usize>,
    new_layout: Layout,
    blocks: Seq<NearBlock<B::Ptr, H>>,
) -> bool {
    forall|base: B::Ptr, i: int|
        #[trigger] call_ensures(B::alloc_within, (&allocator, range, new_layout), Ok(base)) && 0
            <= i < blocks.len() ==> apart(
            (base.addr() as int, base.addr() + new_layout.size),
            bounds((#[trigger] blocks[i]).heap_span),
        )
}

/// Blocks that differ from others in nothing that matters are as good.
proof fn lemma_same_memory<P, H>(
    span_of: spec_fn(H) -> Range<usize>,
    live_of: spec_fn(H) -> Set<(int, int)>,
    before: Seq<NearBlock<P, H>>,
    after: Seq<NearBlock<P, H>>,
)
    requires
        heaps_ok(before, span_of, live_of),
        before.len() == after.len(),
        forall|i: int|
            #![trigger before[i]]
            #![trigger after[i]]
            0 <= i < before.len() ==> after[i].heap_span == before[i].heap_span && span_of(
                after[i].heap,
            ) == span_of(before[i].heap) && live_of(after[i].heap) == live_of(before[i].heap),
    ensures
        heaps_ok(after, span_of, live_of),
        forall|live: (int, int)| #[trigger]
            live_in(after, live_of, live) <==> live_in(before, live_of, live),
{
    assert forall|i: int, j: int|
        0 <= i < after.len() && 0 <= j < after.len() && i != j implies apart(
        bounds((#[trigger] after[i]).heap_span),
        bounds((#[trigger] after[j]).heap_span),
    ) by {
        assert(before[i].heap_span == after[i].heap_span);
        assert(before[j].heap_span == after[j].heap_span);
    }
    assert forall|i: int, live: (int, int)|
        0 <= i < after.len() && #[trigger] live_of(after[i].heap).contains(live) implies {
        &&& after[i].heap_span.start <= live.0 < live.1
        &&& live.1 <= after[i].heap_span.end
    } by {
        assert(live_of(before[i].heap).contains(live));
    }
    assert forall|live: (int, int)| #[trigger]
        live_in(after, live_of, live) <==> live_in(before, live_of, live) by {
        if live_in(after, live_of, live) {
            let i = choose|i: int|
                0 <= i < after.len() && live_of((#[trigger] after[i]).heap).contains(live);
            assert(live_of(before[i].heap).contains(live));
        }
        if live_in(before, live_of, live) {
            let i = choose|i: int|
                0 <= i < before.len() && live_of((#[trigger] before[i]).heap).contains(live);
            assert(live_of(after[i].heap).contains(live));
        }
    }
}

/// An allocation in one of the blocks overlaps nothing that is allocated.
proof fn lemma_disjoint_in_existing<P, H, M, C>(
    span_of: spec_fn(H) -> Range<usize>,
    live_of: spec_fn(H) -> Set<(int, int)>,
    malloc: M,
    claim: C,
    range: Range<usize>,
    layout: Layout,
    before: Seq<NearBlock<P, H>>,
    after: Seq<NearBlock<P, H>>,
    k: int,
    ptr: usize,
) where M: Fn(H, Layout) -> (H, Option<usize>), C: Fn(usize, usize) -> (H, Range<usize>)
    requires
        layout.size != 0,
        well_behaved(span_of, malloc, claim, layout),
        tracks_live(live_of, malloc, claim, layout),
        heaps_ok(before, span_of, live_of),
        allocated_in(malloc, range, layout, before, after, k, ptr),
    ensures
        heaps_ok(after, span_of, live_of),
        forall|live: (int, int)| #[trigger]
            live_in(before, live_of, live) ==> apart(live, (ptr as int, ptr + layout.size)),
        forall|live: (int, int)| #[trigger]
            live_in(after, live_of, live) <==> live_in(before, live_of, live) || live == (
            ptr as int,
            ptr + layout.size,
        ),
{
    let new = (ptr as int, ptr + layout.size);
    let mid = after.update(k, before[k]);
    assert forall|i: int|
        #![trigger before[i]]
        #![trigger mid[i]]
        0 <= i < before.len() implies mid[i].heap_span == before[i].heap_span && span_of(
        mid[i].heap,
    ) == span_of(before[i].heap) && live_of(mid[i].heap) == live_of(before[i].heap) by {
        if i < k {
            assert(attempt_failed(malloc, range, layout, before[i], after[i]));
        }
    }
    lemma_same_memory(span_of, live_of, before, mid);
    assert(live_of(after[k].heap) == live_of(before[k].heap).insert(new));
    assert(before[k].heap_span == span_of(before[k].heap));
    assert forall|i: int| 0 <= i < after.len() implies (#[trigger] after[i]).heap_span == span_of(
        after[i].heap,
    ) by {
        assert(mid[i].heap_span == span_of(mid[i].heap));
    }
    assert forall|i: int, j: int|
        0 <= i < after.len() && 0 <= j < after.len() && i != j implies apart(
        bounds((#[trigger] after[i]).heap_span),
        bounds((#[trigger] after[j]).heap_span),
    ) by {
        assert(mid[i].heap_span == after[i].heap_span);
        assert(mid[j].heap_span == after[j].heap_span);
    }
    assert forall|i: int, live: (int, int)|
        0 <= i < after.len() && #[trigger] live_of(after[i].heap).contains(live) implies {
        &&& after[i].heap_span.start <= live.0 < live.1
        &&& live.1 <= after[i].heap_span.end
    } by {
        if i != k || live != new {
            assert(live_of(mid[i].heap).contains(live));
        }
    }
    assert forall|live: (int, int)| #[trigger]
        live_in(before, live_of, live) implies apart(live, new) by {
        let i = choose|i: int|
            0 <= i < before.len() && live_of((#[trigger] before[i]).heap).contains(live);
        if i != k {
            assert(apart(bounds(before[i].heap_span), bounds(before[k].heap_span)));
        }
    }
    assert forall|live: (int, int)| #[trigger]
        live_in(after, live_of, live) <==> live_in(before, live_of, live) || live == new by {
        if live_in(after, live_of, live) && live != new {
            let i = choose|i: int|
                0 <= i < after.len() && live_of((#[trigger] after[i]).heap).contains(live);
            assert(live_of(mid[i].heap).contains(live));
            assert(live_in(mid, live_of, live));
        }
        if live_in(before, live_of, live) {
            assert(live_in(mid, live_of, live));
            let i = choose|i: int|
                0 <= i < mid.len() && live_of((#[trigger] mid[i]).heap).contains(live);
            assert(live_of(after[i].heap).contains(live));
        }
        if live == new {
            assert(live_of(after[k].heap).contains(live));
        }
    }
}

/// An allocation in a new block overlaps nothing that is allocated.
proof fn lemma_disjoint_in_new_block<P, H>(
    span_of: spec_fn(H) -> Range<usize>,
    live_of: spec_fn(H) -> Set<(int, int)>,
    before: Seq<NearBlock<P, H>>,
    block: NearBlock<P, H>,
    new: (int, int),
)
    requires
        sorted(before),
        heaps_ok(before, span_of, live_of),
        block.heap_span == span_of(block.heap),
        live_of(block.heap) == Set::<(int, int)>::empty().insert(new),
        block.heap_span.start <= new.0 < new.1,
        new.1 <= block.heap_span.end,
        forall|i: int|
            0 <= i < before.len() ==> apart(
                bounds(block.heap_span),
                bounds((#[trigger] before[i]).heap_span),
            ),
    ensures
        heaps_ok(with_block(before, block), span_of, live_of),
        forall|live: (int, int)| #[trigger]
            live_in(before, live_of, live) ==> apart(live, new),
        forall|live: (int, int)| #[trigger]
            live_in(with_block(before, block), live_of, live) <==> live_in(before, live_of, live)
                || live == new,
{
    let end = block.heap_span.end as int;
    let k = rank(before, end);
    let after = with_block(before, block);
    lemma_rank(before, end);
    let replaced = k < before.len() && before[k].heap_span.end == end;
    // where a block comes from
    let origin = |i: int|
        if i < k || replaced {
            i
        } else {
            i - 1
        };
    assert(after[k] == block);
    assert forall|i: int| 0 <= i < after.len() && i != k implies 0 <= origin(i) < before.len()
        && #[trigger] after[i] == before[origin(i)] by {}
    assert forall|i: int| 0 <= i < after.len() implies (#[trigger] after[i]).heap_span == span_of(
        after[i].heap,
    ) by {
        if i != k {
            assert(before[origin(i)].heap_span == span_of(before[origin(i)].heap));
        }
    }
    assert forall|i: int, j: int|
        0 <= i < after.len() && 0 <= j < after.len() && i != j implies apart(
        bounds((#[trigger] after[i]).heap_span),
        bounds((#[trigger] after[j]).heap_span),
    ) by {
        if i != k && j != k {
            assert(apart(
                bounds(before[origin(i)].heap_span),
                bounds(before[origin(j)].heap_span),
            ));
        } else if i == k {
            assert(apart(bounds(block.heap_span), bounds(before[origin(j)].heap_span)));
        } else {
            assert(apart(bounds(block.heap_span), bounds(before[origin(i)].heap_span)));
        }
    }
    assert forall|i: int, live: (int, int)|
        0 <= i < after.len() && #[trigger] live_of(after[i].heap).contains(live) implies {
        &&& after[i].heap_span.start <= live.0 < live.1
        &&& live.1 <= after[i].heap_span.end
    } by {
        if i != k {
            assert(live_of(before[origin(i)].heap).contains(live));
        }
    }
    assert forall|live: (int, int)| #[trigger]
        live_in(before, live_of, live) implies apart(live, new) by {
        let i = choose|i: int|
            0 <= i < before.len() && live_of((#[trigger] before[i]).heap).contains(live);
        assert(apart(bounds(block.heap_span), bounds(before[i].heap_span)));
    }
    assert forall|live: (int, int)| #[trigger]
        live_in(after, live_of, live) <==> live_in(before, live_of, live) || live == new by {
        if live_in(after, live_of, live) && live != new {
            let i = choose|i: int|
                0 <= i < after.len() && live_of((#[trigger] after[i]).heap).contains(live);
            assert(i != k);
            assert(live_of(before[origin(i)].heap).contains(live));
        }
        if live_in(before, live_of, live) {
            let i = choose|i: int|
                0 <= i < before.len() && live_of((#[trigger] before[i]).heap).contains(live);
            assert(apart(bounds(block.heap_span), bounds(before[i].heap_span)));
            // a block with the same end would have an empty heap span
            assert(!(replaced && i == k));
            let j = if i < k || replaced {
                i
            } else {
                i + 1
            };
            assert(after[j] == before[i]);
            assert(live_of(after[j].heap).contains(live));
        }
        if live == new {
            assert(live_of(after[k].heap).contains(live));
        }
    }
}

/// Memory that was allocated overlaps none of the memory that was allocated before and not freed
/// yet, whichever block serves the allocation, and all of it stays allocated, provided that the
/// heaps and the block allocator hand out no memory that is in use.
pub proof fn law_allocation_is_disjoint_from_live<B: NearAllocator, H, M, C>(
    span_of: spec_fn(H) -> Range<usize>,
    live_of: spec_fn(H) -> Set<(int, int)>,
    allocator: B,
    new_layout: Result<Layout, AllocError>,
    malloc: M,
    claim: C,
    range: Range<usize>,
    layout: Layout,
    before: Seq<NearBlock<B::Ptr, H>>,
    after: Seq<NearBlock<B::Ptr, H>>,
    ptr: usize,
) where
    M: Fn(H, Layout) -> (H, Option<usize>),
    C: Fn(usize, usize) -> (H, Range<usize>),

    requires
        layout.size != 0,
        sorted(before),
        well_behaved(span_of, malloc, claim, layout),
        tracks_live(live_of, malloc, claim, layout),
        heaps_ok(before, span_of, live_of),
        new_layout matches Ok(block) ==> hands_out_fresh(allocator, range, block, before),
        served(allocator, new_layout, malloc, claim, range, layout, before, after, Ok(ptr)),
    ensures
        forall|live: (int, int)| #[trigger]
            live_in(before, live_of, live) ==> apart(live, (ptr as int, ptr + layout.size)),
        forall|live: (int, int)| #[trigger]
            live_in(after, live_of, live) <==> live_in(before, live_of, live) || live == (
            ptr as int,
            ptr + layout.size,
        ),
        heaps_ok(after, span_of, live_of),
{
    let r: Result<usize, AllocError> = Ok(ptr);
    let aligned = aligned_range(range, layout);
    let new = (ptr as int, ptr + layout.size);
    if exists|k: int| #[trigger]
        allocated_in(malloc, aligned, layout, before, after, k, r->Ok_0) {
        let k = choose|k: int| #[trigger]
            allocated_in(malloc, aligned, layout, before, after, k, r->Ok_0);
        lemma_disjoint_in_existing(
            span_of,
            live_of,
            malloc,
            claim,
            aligned,
            layout,
            before,
            after,
            k,
            ptr,
        );
    } else {
        let mid = choose|mid: Seq<NearBlock<B::Ptr, H>>| #[trigger]
            all_failed(malloc, aligned, layout, before, mid) && match new_layout {
                Err(e) => r == Err::<usize, AllocError>(e) && after == mid,
                Ok(new_layout) => served_by_new_block(
                    allocator,
                    new_layout,
                    malloc,
                    claim,
                    range,
                    layout,
                    mid,
                    after,
                    r,
                ),
            };
        let block_layout = new_layout->Ok_0;
        let outcome = choose|outcome: Result<B::Ptr, AllocError>| #[trigger]
            call_ensures(B::alloc_within, (&allocator, range, block_layout), outcome)
                && match outcome {
                Err(e) => r == Err::<usize, AllocError>(e) && after == mid,
                Ok(base) => exists|block: NearBlock<B::Ptr, H>, heap: H, ptr: Option<usize>|
                    {
                        &&& #[trigger] block_added(
                            malloc,
                            claim,
                            layout,
                            mid,
                            after,
                            block,
                            heap,
                            ptr,
                        )
                        &&& block.base == base
                        &&& block.layout == block_layout
                        &&& r == match ptr {
                            Some(ptr) => Ok::<usize, AllocError>(ptr),
                            None => Err(AllocError::UnsupportedLayout),
                        }
                    },
            };
        let base = outcome->Ok_0;
        assert(outcome == Ok::<B::Ptr, AllocError>(base));
        let (block, heap, addr) = choose|
            block: NearBlock<B::Ptr, H>,
            heap: H,
            addr: Option<usize>,
        |
            {
                &&& #[trigger] block_added(malloc, claim, layout, mid, after, block, heap, addr)
                &&& block.base == base
                &&& block.layout == block_layout
                &&& r == match addr {
                    Some(addr) => Ok::<usize, AllocError>(addr),
                    None => Err(AllocError::UnsupportedLayout),
                }
            };
        assert forall|i: int|
            #![trigger before[i]]
            #![trigger mid[i]]
            0 <= i < before.len() implies mid[i].heap_span == before[i].heap_span && span_of(
            mid[i].heap,
        ) == span_of(before[i].heap) && live_of(mid[i].heap) == live_of(before[i].heap) by {
            assert(attempt_failed(malloc, aligned, layout, before[i], mid[i]));
        }
        lemma_same_memory(span_of, live_of, before, mid);
        assert forall|a: int, b: int| 0 <= a < b < mid.len() implies (
        #[trigger] mid[a]).heap_span.end < (#[trigger] mid[b]).heap_span.end by {
            assert(before[a].heap_span.end < before[b].heap_span.end);
        }
        assert(super::placed(ptr, block.heap_span, layout));
        assert forall|i: int| 0 <= i < mid.len() implies apart(
            bounds(block.heap_span),
            bounds((#[trigger] mid[i]).heap_span),
        ) by {
            assert(apart(
                (base.addr() as int, base.addr() + block_layout.size),
                bounds(before[i].heap_span),
            ));
        }
        assert(live_of(block.heap) =~= Set::<(int, int)>::empty().insert(new));
        lemma_disjoint_in_new_block(span_of, live_of, mid, block, new);
        assert(after == with_block(mid, block));
        assert forall|live: (int, int)| #[trigger]
            live_in(before, live_of, live) implies apart(live, new) by {
            assert(live_in(mid, live_of, live));
        }
        assert forall|live: (int, int)| #[trigger]
            live_in(after, live_of, live) <==> live_in(before, live_of, live) || live == new by {
            assert(live_in(mid, live_of, live) <==> live_in(before, live_of, live));
        }
    }
}

/// Freeing memory ends its allocation and no other, provided that the heap does so.
pub proof fn law_free_ends_one_allocation<P, H, F: Fn(H, usize, Layout) -> H>(
    span_of: spec_fn(H) -> Range<usize>,
    live_of: spec_fn(H) -> Set<(int, int)>,
    free: F,
    ptr: usize,
    layout: Layout,
    before: Seq<NearBlock<P, H>>,
    after: Seq<NearBlock<P, H>>,
    k: int,
)
    requires
        heaps_ok(before, span_of, live_of),
        freed_in(free, ptr, layout, before, after, k),
        layout.size != 0,
        live_of(before[k].heap).contains((ptr as int, ptr + layout.size)),
        forall|heap: H, left: H| #[trigger]
            call_ensures(free, (heap, ptr, layout), left) ==> span_of(left) == span_of(heap)
                && live_of(left) == live_of(heap).remove((ptr as int, ptr + layout.size)),
    ensures
        heaps_ok(after, span_of, live_of),
        forall|live: (int, int)| #[trigger]
            live_in(after, live_of, live) <==> live_in(before, live_of, live) && live != (
            ptr as int,
            ptr + layout.size,
        ),
{
    let freed = (ptr as int, ptr + layout.size);
    assert forall|i: int| 0 <= i < after.len() && i != k implies #[trigger] after[i]
        == before[i] by {}
    assert forall|i: int| 0 <= i < after.len() implies (#[trigger] after[i]).heap_span == span_of(
        after[i].heap,
    ) by {
        assert(before[i].heap_span == span_of(before[i].heap));
    }
    assert forall|i: int, j: int|
        0 <= i < after.len() && 0 <= j < after.len() && i != j implies apart(
        bounds((#[trigger] after[i]).heap_span),
        bounds((#[trigger] after[j]).heap_span),
    ) by {
        assert(before[i].heap_span == after[i].heap_span);
        assert(before[j].heap_span == after[j].heap_span);
    }
    assert forall|i: int, live: (int, int)|
        0 <= i < after.len() && #[trigger] live_of(after[i].heap).contains(live) implies {
        &&& after[i].heap_span.start <= live.0 < live.1
        &&& live.1 <= after[i].heap_span.end
    } by {
        assert(live_of(before[i].heap).contains(live));
    }
    assert forall|live: (int, int)| #[trigger]
        live_in(after, live_of, live) <==> live_in(before, live_of, live) && live != freed by {
        if live_in(after, live_of, live) {
            let i = choose|i: int|
                0 <= i < after.len() && live_of((#[trigger] after[i]).heap).contains(live);
            assert(live_of(before[i].heap).contains(live));
            if i != k && live == freed {
                assert(apart(bounds(before[i].heap_span), bounds(before[k].heap_span)));
            }
        }
        if live_in(before, live_of, live) && live != freed {
            let i = choose|i: int|
                0 <= i < before.len() && live_of((#[trigger] before[i]).heap).contains(live);
            assert(live_of(after[i].heap).contains(live));
        }
    }
}

/// A layout can be placed in a range if and only if there is an aligned address in the range from
/// which it does not exceed the end of the range. A range up to the end of the address space is
/// not exceeded.
pub proof fn law_fits_iff_there_is_an_aligned_address(range: Range<usize>, layout: Layout)
    requires
        layout.valid(),
    ensures
        fits(range, layout) <==> exists|y: int|
            {
                &&& #[trigger] (y % layout.align as int) == 0
                &&& range.start <= y <= usize::MAX
                &&& y + layout.size <= range.end || range.end == usize::MAX
            },
{
    let align = layout.align as int;
    arith::lemma_pow2_positive(align);
    arith::lemma_align_up(range.start as int, align);
    let first = arith::align_up(range.start as int, align);
    if fits(range, layout) {
        assert(first % align == 0);
    }
    if exists|y: int|
        {
            &&& #[trigger] (y % align) == 0
            &&& range.start <= y <= usize::MAX
            &&& y + layout.size <= range.end || range.end == usize::MAX
        } {
        let y = choose|y: int|
            {
                &&& #[trigger] (y % align) == 0
                &&& range.start <= y <= usize::MAX
                &&& y + layout.size <= range.end || range.end == usize::MAX
            };
        assert(first <= y);
    }
}

/// An allocation that does not fit its range is refused, and nothing changes.
pub proof fn law_what_does_not_fit_is_refused<B: NearAllocator, H, M, C>(
    alloc: &mut BlockNearAlloc<B, H>,
    range: Range<usize>,
    layout: Layout,
    malloc: M,
    claim: C,
    r: Result<usize, AllocError>,
) where
    M: Fn(H, Layout) -> (H, Option<usize>),
    C: Fn(usize, usize) -> (H, Range<usize>),

    requires
        layout.valid(),
        call_ensures(
            BlockNearAlloc::<B, H>::alloc_within::<M, C>,
            (alloc, range, layout, malloc, claim),
            r,
        ),
        range.end < usize::MAX,
        forall|y: int|
            range.start <= y && #[trigger] (y % layout.align as int) == 0 ==> y + layout.size
                > range.end,
    ensures
        r == Err::<usize, AllocError>(AllocError::NoSuitableRegion),
        final(alloc)@ == old(alloc)@,
{
    law_fits_iff_there_is_an_aligned_address(range, layout);
}

/// The blocks that there are serve an allocation before a new one is asked for. If the addresses
/// of some block, of which there are any, lie in the range, from an aligned address on, and its
/// heap cannot fail to allocate the layout, then the allocation succeeds, in that block or one
/// before it, and no block is added, however many allocations are active in the block. The block
/// that serves has one more active allocation, and nothing else of any block changes but its
/// heap.
pub proof fn law_existing_block_serves<B: NearAllocator, H, M, C>(
    alloc: &mut BlockNearAlloc<B, H>,
    range: Range<usize>,
    layout: Layout,
    malloc: M,
    claim: C,
    r: Result<usize, AllocError>,
    j: int,
    y: int,
) where
    M: Fn(H, Layout) -> (H, Option<usize>),
    C: Fn(usize, usize) -> (H, Range<usize>),

    requires
        layout.valid(),
        call_ensures(
            BlockNearAlloc::<B, H>::alloc_within::<M, C>,
            (alloc, range, layout, malloc, claim),
            r,
        ),
        0 <= j < old(alloc)@.len(),
        y % layout.align as int == 0,
        range.start <= y,
        y + layout.size <= range.end,
        y <= old(alloc)@[j].heap_span.start < old(alloc)@[j].heap_span.end,
        old(alloc)@[j].heap_span.end <= range.end,
        forall|heap: H, ptr: Option<usize>| #[trigger]
            call_ensures(malloc, (old(alloc)@[j].heap, layout), (heap, ptr)) ==> ptr is Some,
    ensures
        r is Ok,
        final(alloc)@.len() == old(alloc)@.len(),
        exists|k: int|
            {
                &&& 0 <= k <= j
                &&& (#[trigger] final(alloc)@[k]).alloc_count == old(alloc)@[k].alloc_count + 1
                &&& call_ensures(
                    malloc,
                    (old(alloc)@[k].heap, layout),
                    (final(alloc)@[k].heap, Some(r->Ok_0)),
                )
                &&& forall|i: int|
                    0 <= i < old(alloc)@.len() ==> {
                        &&& (#[trigger] final(alloc)@[i]).heap_span == old(alloc)@[i].heap_span
                        &&& final(alloc)@[i].base == old(alloc)@[i].base
                        &&& final(alloc)@[i].layout == old(alloc)@[i].layout
                        &&& i != k ==> final(alloc)@[i].alloc_count == old(alloc)@[i].alloc_count
                        &&& i > k ==> final(alloc)@[i] == old(alloc)@[i]
                    }
            },
{
    let before = old(alloc)@;
    let after = final(alloc)@;
    let aligned = aligned_range(range, layout);
    law_fits_iff_there_is_an_aligned_address(range, layout);
    arith::lemma_pow2_positive(layout.align as int);
    arith::lemma_align_up(range.start as int, layout.align as int);
    assert(fits(range, layout)) by {
        assert(y % layout.align as int == 0);
    }
    assert(candidate(before[j], aligned));
    assert(!exists|mid: Seq<NearBlock<B::Ptr, H>>| #[trigger]
        all_failed(malloc, aligned, layout, before, mid)) by {
        if exists|mid: Seq<NearBlock<B::Ptr, H>>| #[trigger]
            all_failed(malloc, aligned, layout, before, mid) {
            let mid = choose|mid: Seq<NearBlock<B::Ptr, H>>| #[trigger]
                all_failed(malloc, aligned, layout, before, mid);
            assert(attempt_failed(malloc, aligned, layout, before[j], mid[j]));
        }
    }
    let k = choose|k: int| #[trigger]
        allocated_in(malloc, aligned, layout, before, after, k, r->Ok_0);
    assert(allocated_in(malloc, aligned, layout, before, after, k, r->Ok_0));
    if j < k {
        assert(attempt_failed(malloc, aligned, layout, before[j], after[j]));
    }
    assert forall|i: int| 0 <= i < before.len() implies {
        &&& (#[trigger] after[i]).heap_span == before[i].heap_span
        &&& after[i].base == before[i].base
        &&& after[i].layout == before[i].layout
        &&& i != k ==> after[i].alloc_count == before[i].alloc_count
        &&& i > k ==> after[i] == before[i]
    } by {
        if i < k {
            assert(attempt_failed(malloc, aligned, layout, before[i], after[i]));
        } else if i > k {
            assert(after[i] == before[i]);
        }
    }
    assert(after[k].alloc_count == before[k].alloc_count + 1);
}

/// A new block is aligned for the allocation and no less than the least block. It has room for
/// the allocation, rounded up to its alignment, and for the state of a heap, and is no less than
/// the least block. Its size is the least such multiple of its alignment. It is an error if that
/// is no layout.
pub proof fn law_new_block_has_room<B: NearAllocator, H>(
    alloc: BlockNearAlloc<B, H>,
    layout: Layout,
    r: Result<Layout, AllocError>,
)
    requires
        alloc.min_block().valid(),
        layout.valid(),
        call_ensures(BlockNearAlloc::<B, H>::new_block_layout, (&alloc, layout), r),
    ensures
        r == block_layout(alloc.min_block(), layout),
        exists|padded: int|
            {
                let state: int = if usize::BITS == 64 {
                    1024
                } else {
                    512
                };
                let least = alloc.min_block();
                let size = if least.size > padded + state {
                    least.size as int
                } else {
                    padded + state
                };
                let align = if least.align > layout.align {
                    least.align
                } else {
                    layout.align
                };
                &&& #[trigger] (padded % layout.align as int) == 0
                &&& layout.size <= padded < layout.size + layout.align
                &&& r is Ok <==> size <= isize::MAX + 1 - align
                &&& r matches Err(e) ==> e == AllocError::UnsupportedLayout
                &&& r matches Ok(block) ==> {
                    &&& block.align == align
                    &&& block.size as int % block.align as int == 0
                    &&& size <= block.size < size + align
                }
            },
{
    let least = alloc.min_block();
    let state = heap_state_size();
    arith::lemma_pow2_positive(layout.align as int);
    arith::lemma_pow2_positive(least.align as int);
    arith::lemma_align_up(layout.size as int, layout.align as int);
    let padded = arith::align_up(layout.size as int, layout.align as int);
    let size = if least.size > padded + state {
        least.size as int
    } else {
        padded + state
    };
    let align = if least.align > layout.align {
        least.align
    } else {
        layout.align
    };
    super::layout::lemma_greatest_size(size, align as int);
    arith::lemma_align_up(size, align as int);
    assert(padded % layout.align as int == 0);
}

/// A block is added only if the heap of every block whose addresses, of which there are any, lie
/// in the range, from the aligned address `y` on, has failed to allocate the layout.
pub proof fn law_new_block_is_the_last_resort<B: NearAllocator, H, M, C>(
    alloc: &mut BlockNearAlloc<B, H>,
    range: Range<usize>,
    layout: Layout,
    malloc: M,
    claim: C,
    r: Result<usize, AllocError>,
    j: int,
    y: int,
) where
    M: Fn(H, Layout) -> (H, Option<usize>),
    C: Fn(usize, usize) -> (H, Range<usize>),

    requires
        layout.valid(),
        call_ensures(
            BlockNearAlloc::<B, H>::alloc_within::<M, C>,
            (alloc, range, layout, malloc, claim),
            r,
        ),
        r is Err || final(alloc)@.len() != old(alloc)@.len(),
        0 <= j < old(alloc)@.len(),
        y % layout.align as int == 0,
        range.start <= y,
        y + layout.size <= range.end,
        y <= old(alloc)@[j].heap_span.start < old(alloc)@[j].heap_span.end,
        old(alloc)@[j].heap_span.end <= range.end,
    ensures
        exists|heap: H| #[trigger]
            call_ensures(malloc, (old(alloc)@[j].heap, layout), (heap, None::<usize>)),
{
    let before = old(alloc)@;
    let aligned = aligned_range(range, layout);
    law_fits_iff_there_is_an_aligned_address(range, layout);
    arith::lemma_pow2_positive(layout.align as int);
    arith::lemma_align_up(range.start as int, layout.align as int);
    assert(fits(range, layout)) by {
        assert(y % layout.align as int == 0);
    }
    assert(candidate(before[j], aligned));
    let mid = choose|mid: Seq<NearBlock<B::Ptr, H>>| #[trigger]
        all_failed(malloc, aligned, layout, before, mid);
    assert(all_failed(malloc, aligned, layout, before, mid));
    assert(attempt_failed(malloc, aligned, layout, before[j], mid[j]));
    assert(call_ensures(malloc, (before[j].heap, layout), (mid[j].heap, None::<usize>)));
}

/// Adding a block keeps every block whose addresses end elsewhere, and adds nothing else.
proof fn lemma_with_block_keeps<P, H>(
    blocks: Seq<NearBlock<P, H>>,
    block: NearBlock<P, H>,
    other: NearBlock<P, H>,
)
    requires
        sorted(blocks),
    ensures
        with_block(blocks, block).contains(block),
        blocks.contains(other) && other.heap_span.end != block.heap_span.end ==> with_block(
            blocks,
            block,
        ).contains(other),
        with_block(blocks, block).contains(other) ==> blocks.contains(other) || other == block,
        with_block(blocks, block).len() <= blocks.len() + 1,
{
    let end = block.heap_span.end as int;
    let k = rank(blocks, end);
    let after = with_block(blocks, block);
    lemma_rank(blocks, end);
    assert(after[k] == block);
    let replaced = k < blocks.len() && blocks[k].heap_span.end == end;
    if blocks.contains(other) && other.heap_span.end != block.heap_span.end {
        let i = choose|i: int| 0 <= i < blocks.len() && blocks[i] == other;
        if replaced || i < k {
            assert(after[i] == other);
        } else {
            assert(after[i + 1] == other);
        }
    }
    if after.contains(other) && other != block {
        let i = choose|i: int| 0 <= i < after.len() && after[i] == other;
        if replaced || i < k {
            assert(blocks[i] == other);
        } else {
            assert(blocks[i - 1] == other);
        }
    }
}

/// Whether blocks are the same but for their heaps.
pub open spec fn same_but_heaps<P, H>(a: Seq<NearBlock<P, H>>, b: Seq<NearBlock<P, H>>) -> bool {
    &&& a.len() == b.len()
    &&& forall|i: int|
        #![trigger a[i]]
        #![trigger b[i]]
        0 <= i < a.len() ==> a[i].heap_span == b[i].heap_span && a[i].alloc_count
            == b[i].alloc_count && a[i].base == b[i].base && a[i].layout == b[i].layout
}

/// If every block lies, in part at least, outside of the range, or has a heap that cannot allocate
/// the layout, a new block is asked for: the block allocator is given the very range, and the
/// layout of a new block. Its error is handed on, and no block is added. Otherwise a heap is made
/// of the whole block, the allocation is made in that heap, and the block is added, whether the
/// heap could allocate or not, with the number of allocations that it has. But for their heaps,
/// every block whose addresses end elsewhere stays as it was, and no other is added.
pub proof fn law_new_block_serves<B: NearAllocator, H, M, C>(
    alloc: &mut BlockNearAlloc<B, H>,
    range: Range<usize>,
    layout: Layout,
    malloc: M,
    claim: C,
    r: Result<usize, AllocError>,
    y: int,
) where
    M: Fn(H, Layout) -> (H, Option<usize>),
    C: Fn(usize, usize) -> (H, Range<usize>),

    requires
        layout.valid(),
        sorted(old(alloc)@),
        call_ensures(
            BlockNearAlloc::<B, H>::alloc_within::<M, C>,
            (alloc, range, layout, malloc, claim),
            r,
        ),
        y % layout.align as int == 0,
        range.start <= y,
        y + layout.size <= range.end,
        forall|j: int, heap: H, ptr: Option<usize>|
            #![trigger call_ensures(malloc, (old(alloc)@[j].heap, layout), (heap, ptr))]
            0 <= j < old(alloc)@.len() && call_ensures(
                malloc,
                (old(alloc)@[j].heap, layout),
                (heap, ptr),
            ) ==> ptr is None || (old(alloc)@[j].heap_span.start < old(alloc)@[j].heap_span.end && (
            old(alloc)@[j].heap_span.start < range.start || range.end
                < old(alloc)@[j].heap_span.end)),
    ensures
        exists|mid: Seq<NearBlock<B::Ptr, H>>|
            #[trigger] same_but_heaps(mid, old(alloc)@) && match block_layout(
                old(alloc).min_block(),
                layout,
            ) {
                Err(e) => r == Err::<usize, AllocError>(AllocError::UnsupportedLayout)
                    && final(alloc)@ == mid,
                Ok(new) => exists|outcome: Result<B::Ptr, AllocError>|
                    {
                        &&& #[trigger] call_ensures(
                            B::alloc_within,
                            (&old(alloc).allocator(), range, new),
                            outcome,
                        )
                        &&& outcome matches Err(e) ==> r == Err::<usize, AllocError>(e)
                            && final(alloc)@ == mid
                        &&& outcome matches Ok(base) ==> exists|
                            heap: H,
                            block: NearBlock<B::Ptr, H>,
                        |
                            {
                                &&& #[trigger] call_ensures(
                                    claim,
                                    (base.addr(), new.size),
                                    (heap, block.heap_span),
                                )
                                &&& block.base == base
                                &&& block.layout == new
                                &&& match r {
                                    Ok(ptr) => block.alloc_count == 1 && call_ensures(
                                        malloc,
                                        (heap, layout),
                                        (block.heap, Some(ptr)),
                                    ),
                                    Err(e) => e == AllocError::UnsupportedLayout
                                        && block.alloc_count == 0 && call_ensures(
                                        malloc,
                                        (heap, layout),
                                        (block.heap, None::<usize>),
                                    ),
                                }
                                &&& final(alloc)@.contains(block)
                                &&& forall|other: NearBlock<B::Ptr, H>| #[trigger]
                                    mid.contains(other) && other.heap_span.end
                                        != block.heap_span.end ==> final(alloc)@.contains(other)
                                &&& forall|other: NearBlock<B::Ptr, H>| #[trigger]
                                    final(alloc)@.contains(other) ==> mid.contains(other) || other
                                        == block
                            }
                    },
            },
{
    let before = old(alloc)@;
    let after = final(alloc)@;
    let aligned = aligned_range(range, layout);
    let new_layout = block_layout(old(alloc).min_block(), layout);
    law_fits_iff_there_is_an_aligned_address(range, layout);
    arith::lemma_pow2_positive(layout.align as int);
    arith::lemma_align_up(range.start as int, layout.align as int);
    assert(fits(range, layout)) by {
        assert(y % layout.align as int == 0);
    }
    assert forall|k: int| !#[trigger] allocated_in(
        malloc,
        aligned,
        layout,
        before,
        after,
        k,
        r->Ok_0,
    ) by {
        if allocated_in(malloc, aligned, layout, before, after, k, r->Ok_0) {
            assert(candidate(before[k], aligned));
            assert(call_ensures(
                malloc,
                (old(alloc)@[k].heap, layout),
                (after[k].heap, Some(r->Ok_0)),
            ));
        }
    }
    let mid = choose|mid: Seq<NearBlock<B::Ptr, H>>| #[trigger]
        all_failed(malloc, aligned, layout, before, mid) && match new_layout {
            Err(e) => r == Err::<usize, AllocError>(e) && after == mid,
            Ok(new_layout) => served_by_new_block(
                old(alloc).allocator(),
                new_layout,
                malloc,
                claim,
                range,
                layout,
                mid,
                after,
                r,
            ),
        };
    assert forall|i: int|
        #![trigger mid[i]]
        #![trigger before[i]]
        0 <= i < mid.len() implies mid[i].heap_span == before[i].heap_span && mid[i].alloc_count
        == before[i].alloc_count && mid[i].base == before[i].base && mid[i].layout
        == before[i].layout by {
        assert(attempt_failed(malloc, aligned, layout, before[i], mid[i]));
    }
    assert(same_but_heaps(mid, before));
    assert(sorted(mid)) by {
        assert forall|a: int, b: int| 0 <= a < b < mid.len() implies (
        #[trigger] mid[a]).heap_span.end < (#[trigger] mid[b]).heap_span.end by {
            assert(before[a].heap_span.end < before[b].heap_span.end);
        }
    }
    if let Ok(new) = new_layout {
        let outcome = choose|outcome: Result<B::Ptr, AllocError>| #[trigger]
            call_ensures(B::alloc_within, (&old(alloc).allocator(), range, new), outcome)
                && match outcome {
                Err(e) => r == Err::<usize, AllocError>(e) && after == mid,
                Ok(base) => exists|block: NearBlock<B::Ptr, H>, heap: H, ptr: Option<usize>|
                    {
                        &&& #[trigger] block_added(
                            malloc,
                            claim,
                            layout,
                            mid,
                            after,
                            block,
                            heap,
                            ptr,
                        )
                        &&& block.base == base
                        &&& block.layout == new
                        &&& r == match ptr {
                            Some(ptr) => Ok::<usize, AllocError>(ptr),
                            None => Err(AllocError::UnsupportedLayout),
                        }
                    },
            };
        if let Ok(base) = outcome {
            let (block, heap, ptr) = choose|
                block: NearBlock<B::Ptr, H>,
                heap: H,
                ptr: Option<usize>,
            |
                {
                    &&& #[trigger] block_added(malloc, claim, layout, mid, after, block, heap, ptr)
                    &&& block.base == base
                    &&& block.layout == new
                    &&& r == match ptr {
                        Some(ptr) => Ok::<usize, AllocError>(ptr),
                        None => Err(AllocError::UnsupportedLayout),
                    }
                };
            assert(call_ensures(claim, (base.addr(), new.size), (heap, block.heap_span)));
            assert forall|other: NearBlock<B::Ptr, H>|
                #![trigger mid.contains(other)]
                #![trigger after.contains(other)]
                (mid.contains(other) && other.heap_span.end != block.heap_span.end
                    ==> after.contains(other)) && (after.contains(other) ==> mid.contains(other)
                    || other == block) by {
                lemma_with_block_keeps(mid, block, other);
            }
            lemma_with_block_keeps(mid, block, block);
        }
    }
}

/// Memory is freed in the block with the lowest end at or above its address: that block has one
/// active allocation less, its heap is given the memory back, and nothing else changes.
pub proof fn law_memory_is_freed_in_its_block<B: NearAllocator, H, F: Fn(H, usize, Layout) -> H>(
    alloc: &mut BlockNearAlloc<B, H>,
    ptr: usize,
    layout: Layout,
    free: F,
    k: int,
    other: int,
)
    requires
        sorted(old(alloc)@),
        call_ensures(BlockNearAlloc::<B, H>::free::<F>, (alloc, ptr, layout, free), ()),
        0 <= k < old(alloc)@.len(),
        ptr <= old(alloc)@[k].heap_span.end,
        forall|j: int| 0 <= j < k ==> (#[trigger] old(alloc)@[j]).heap_span.end < ptr,
        old(alloc)@[k].alloc_count > 0,
    ensures
        final(alloc)@.len() == old(alloc)@.len(),
        final(alloc)@[k].alloc_count == old(alloc)@[k].alloc_count - 1,
        call_ensures(free, (old(alloc)@[k].heap, ptr, layout), final(alloc)@[k].heap),
        final(alloc)@[k].heap_span == old(alloc)@[k].heap_span,
        final(alloc)@[k].base == old(alloc)@[k].base,
        final(alloc)@[k].layout == old(alloc)@[k].layout,
        0 <= other < old(alloc)@.len() && other != k ==> final(alloc)@[other]
            == old(alloc)@[other],
{
    let n = rank(old(alloc)@, ptr as int);
    lemma_rank(old(alloc)@, ptr as int);
    if n < k {
        assert(old(alloc)@[n].heap_span.end >= ptr);
    } else if k < n {
        assert(old(alloc)@[k].heap_span.end < ptr);
    }
}

/// Memory can be freed if and only if there is a block that ends at or above its address and
/// below the end of the address space, and the one with the lowest such end has an active
/// allocation.
pub proof fn law_memory_of_a_block_can_be_freed<B: NearAllocator, H>(
    alloc: BlockNearAlloc<B, H>,
    ptr: usize,
    r: bool,
)
    requires
        sorted(alloc@),
        call_ensures(BlockNearAlloc::<B, H>::can_free, (&alloc, ptr), r),
    ensures
        r <==> exists|k: int|
            {
                &&& 0 <= k < alloc@.len()
                &&& ptr <= (#[trigger] alloc@[k]).heap_span.end < usize::MAX
                &&& alloc@[k].alloc_count > 0
                &&& forall|j: int| 0 <= j < k ==> (#[trigger] alloc@[j]).heap_span.end < ptr
            },
{
    let n = rank(alloc@, ptr as int);
    lemma_rank(alloc@, ptr as int);
    if r {
        assert(alloc@[n].heap_span.end >= ptr);
    }
    if exists|k: int|
        {
            &&& 0 <= k < alloc@.len()
            &&& ptr <= (#[trigger] alloc@[k]).heap_span.end < usize::MAX
            &&& alloc@[k].alloc_count > 0
            &&& forall|j: int| 0 <= j < k ==> (#[trigger] alloc@[j]).heap_span.end < ptr
        } {
        let k = choose|k: int|
            {
                &&& 0 <= k < alloc@.len()
                &&& ptr <= (#[trigger] alloc@[k]).heap_span.end < usize::MAX
                &&& alloc@[k].alloc_count > 0
                &&& forall|j: int| 0 <= j < k ==> (#[trigger] alloc@[j]).heap_span.end < ptr
            };
        if n < k {
            assert(alloc@[n].heap_span.end >= ptr);
        } else if k < n {
            assert(alloc@[k].heap_span.end < ptr);
        }
    }
}

/// Freeing unused blocks keeps exactly the blocks that have active allocations, each as it was,
/// and gives the memory of each other block back to the block allocator.
pub proof fn law_unused_blocks_are_freed<B: NearAllocator, H>(
    alloc: &mut BlockNearAlloc<B, H>,
    i: int,
    block: NearBlock<B::Ptr, H>,
)
    requires
        call_ensures(BlockNearAlloc::<B, H>::free_unused_blocks, (alloc,), ()),
    ensures
        final(alloc)@.contains(block) <==> old(alloc)@.contains(block) && block.alloc_count > 0,
        final(alloc)@.len() <= old(alloc)@.len(),
        0 <= i < old(alloc)@.len() && old(alloc)@[i].alloc_count == 0 ==> call_ensures(
            B::free,
            (&old(alloc).allocator(), old(alloc)@[i].base, old(alloc)@[i].layout),
            (),
        ),
{
    law_blocks_in_use_are_kept(old(alloc)@, block);
    lemma_in_use_is_shorter(old(alloc)@);
}

proof fn lemma_in_use_is_shorter<P, H>(blocks: Seq<NearBlock<P, H>>)
    ensures
        in_use(blocks).len() <= blocks.len(),
    decreases blocks.len(),
{
    reveal(Seq::filter);
    if blocks.len() > 0 {
        let init = blocks.drop_last();
        let n = init.len() as int;
        lemma_in_use_is_shorter(init);
        lemma_in_use_step(blocks, n);
        assert(blocks.take(n) =~= init);
        assert(blocks.take(n + 1) =~= blocks);
    }
}

/// A new allocator has no blocks, and keeps the block allocator and the least layout it was given.
pub proof fn law_new_allocator_has_no_blocks<B: NearAllocator, H>(
    block_allocator: B,
    min_block: Layout,
    alloc: BlockNearAlloc<B, H>,
)
    requires
        call_ensures(BlockNearAlloc::<B, H>::new, (block_allocator, min_block), alloc),
    ensures
        alloc@.len() == 0,
        alloc.allocator() == block_allocator,
        alloc.min_block() == min_block,
{
}

/// Letting go of the allocator gives the memory of every block back, with the layout it was
/// allocated with.
pub proof fn law_every_block_is_given_back<B: NearAllocator, H>(
    alloc: BlockNearAlloc<B, H>,
    i: int,
)
    requires
        call_ensures(BlockNearAlloc::<B, H>::release, (alloc,), ()),
        0 <= i < alloc@.len(),
    ensures
        call_ensures(B::free, (&alloc.allocator(), alloc@[i].base, alloc@[i].layout), ()),
{
}

} // verus!
