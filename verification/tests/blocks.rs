use std::cell::{Cell, RefCell};
use std::ops::Range;

use anglerkit::allocator::block::BlockNearAlloc;
use anglerkit::allocator::layout::Layout;
use anglerkit::allocator::{AllocError, NearAllocator};

/// Hands out addresses, the lowest first, and takes note of what is freed.
struct Bump {
    next: Cell<usize>,
    freed: RefCell<Vec<usize>>,
}

impl Bump {
    fn new() -> Self {
        Bump { next: Cell::new(0x10000), freed: RefCell::new(Vec::new()) }
    }
}

impl NearAllocator for Bump {
    type Ptr = usize;

    fn alloc_within(&self, range: Range<usize>, layout: Layout) -> Result<usize, AllocError> {
        let start = self.next.get().max(range.start).next_multiple_of(layout.align());
        if start + layout.size() > range.end {
            return Err(AllocError::NoSuitableRegion);
        }
        self.next.set(start + layout.size());
        Ok(start)
    }

    fn free(&self, ptr: usize, _layout: Layout) {
        self.freed.borrow_mut().push(ptr);
    }
}

/// A heap that hands out addresses from a range, the lowest first.
struct Heap {
    next: usize,
    end: usize,
}

/// Room that a heap keeps for itself.
const STATE: usize = 64;

fn claim(base: usize, size: usize) -> (Heap, Range<usize>) {
    (Heap { next: base + STATE, end: base + size }, base + STATE..base + size)
}

fn malloc(heap: Heap, layout: Layout) -> (Heap, Option<usize>) {
    let start = heap.next.next_multiple_of(layout.align());
    if start + layout.size() > heap.end {
        return (heap, None);
    }
    (Heap { next: start + layout.size(), ..heap }, Some(start))
}

fn free(heap: Heap, _ptr: usize, _layout: Layout) -> Heap {
    heap
}

fn layout(size: usize, align: usize) -> Layout {
    Layout::from_size_align(size, align).unwrap()
}

#[test]
fn blocks_are_shared_by_allocations() {
    let bump = Bump::new();
    let mut blocks: BlockNearAlloc<&Bump, Heap> = BlockNearAlloc::new(&bump, layout(4096, 4096));
    let a = blocks.alloc_within(0..usize::MAX, layout(100, 4), malloc, claim);
    assert_eq!(a, Ok(0x10040));
    let b = blocks.alloc_within(0..usize::MAX, layout(100, 16), malloc, claim);
    assert_eq!(b, Ok(0x100B0));
    assert_eq!(bump.next.get(), 0x11000);
    // this does not fit the block
    let c = blocks.alloc_within(0..usize::MAX, layout(5000, 16), malloc, claim);
    assert_eq!(c, Ok(0x11040));
    // 5000 bytes, padded, and the state of a heap make two units of the least alignment
    assert_eq!(bump.next.get(), 0x13000);
}

#[test]
fn block_outside_of_the_range_is_not_used() {
    let bump = Bump::new();
    let mut blocks: BlockNearAlloc<&Bump, Heap> = BlockNearAlloc::new(&bump, layout(4096, 4096));
    assert!(blocks.alloc_within(0..usize::MAX, layout(8, 8), malloc, claim).is_ok());
    let far = blocks.alloc_within(0x50000..0x60000, layout(8, 8), malloc, claim);
    assert_eq!(far, Ok(0x50040));
    let low = blocks.alloc_within(0..0x20000, layout(8, 8), malloc, claim);
    assert_eq!(low, Ok(0x10048));
}

#[test]
fn only_unused_blocks_are_freed() {
    let bump = Bump::new();
    let mut blocks: BlockNearAlloc<&Bump, Heap> = BlockNearAlloc::new(&bump, layout(4096, 4096));
    let a = blocks.alloc_within(0..0x20000, layout(8, 8), malloc, claim).unwrap();
    let b = blocks.alloc_within(0x50000..0x60000, layout(8, 8), malloc, claim).unwrap();
    blocks.free_unused_blocks();
    assert!(bump.freed.borrow().is_empty());
    assert!(blocks.can_free(a) && blocks.can_free(b));
    assert!(!blocks.can_free(0x70000));
    blocks.free(a, layout(8, 8), free);
    blocks.free_unused_blocks();
    assert_eq!(*bump.freed.borrow(), vec![0x10000]);
    blocks.free(b, layout(8, 8), free);
    assert!(!blocks.can_free(b));
    assert!(blocks.alloc_within(0x50000..0x60000, layout(8, 8), malloc, claim).is_ok());
    blocks.free_unused_blocks();
    assert_eq!(bump.freed.borrow().len(), 1);
    blocks.release();
    assert_eq!(*bump.freed.borrow(), vec![0x10000, 0x50000]);
}

#[test]
fn errors_of_block_allocation() {
    let bump = Bump::new();
    let mut blocks: BlockNearAlloc<&Bump, Heap> = BlockNearAlloc::new(&bump, layout(4096, 4096));
    let tight = blocks.alloc_within(0x1001..0x1010, layout(16, 1), malloc, claim);
    assert_eq!(tight, Err(AllocError::NoSuitableRegion));
    let top = blocks.alloc_within(usize::MAX - 2..usize::MAX, layout(1, 8), malloc, claim);
    assert_eq!(top, Err(AllocError::NoSuitableRegion));
    let low = blocks.alloc_within(0x100..0x200, layout(16, 1), malloc, claim);
    assert_eq!(low, Err(AllocError::NoSuitableRegion));
    let huge = layout(isize::MAX as usize - 100, 1);
    let outcome = blocks.alloc_within(0..usize::MAX, huge, malloc, claim);
    assert_eq!(outcome, Err(AllocError::UnsupportedLayout));
    // a heap may have no room even in a new block
    let full = |heap: Heap, _layout: Layout| (heap, None);
    let outcome = blocks.alloc_within(0..usize::MAX, layout(8, 8), full, claim);
    assert_eq!(outcome, Err(AllocError::UnsupportedLayout));
}

#[test]
fn layout_of_a_new_block() {
    let bump = Bump::new();
    let blocks: BlockNearAlloc<&Bump, Heap> = BlockNearAlloc::new(&bump, layout(4096, 4096));
    let small = blocks.new_block_layout(layout(10, 8)).unwrap();
    assert_eq!((small.size(), small.align()), (4096, 4096));
    let big = blocks.new_block_layout(layout(4000, 8192)).unwrap();
    assert_eq!((big.size(), big.align()), (16384, 8192));
}
