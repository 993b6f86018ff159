use std::cell::{Cell, RefCell};
use std::ops::Range;

use anglerkit::allocator::arc::Arc;
use anglerkit::allocator::boxed::Box as NearBox;
use anglerkit::allocator::layout::Layout;
use anglerkit::allocator::slab_pool::SlabPool;
use anglerkit::allocator::teardown::Shared;
use anglerkit::allocator::{AllocError, AsMutPtr, CloneableNearAlloc, Constrained, NearAllocator};

/// Hands out addresses from a range, the lowest first, and takes note of what is freed.
struct Bump {
    range: Range<usize>,
    next: Cell<usize>,
    freed: RefCell<Vec<(usize, Layout)>>,
    collected: Cell<usize>,
}

impl Bump {
    fn new(range: Range<usize>) -> Self {
        Bump {
            next: Cell::new(range.start),
            range,
            freed: RefCell::new(Vec::new()),
            collected: Cell::new(0),
        }
    }
}

impl NearAllocator for Bump {
    type Ptr = usize;

    fn alloc_within(&self, range: Range<usize>, layout: Layout) -> Result<usize, AllocError> {
        let start = self.next.get().max(range.start).next_multiple_of(layout.align());
        let end = start + layout.size();
        if end > self.range.end {
            return Err(AllocError::OutOfMemory);
        }
        if end > range.end {
            return Err(AllocError::NoSuitableRegion);
        }
        self.next.set(end);
        Ok(start)
    }

    fn free(&self, ptr: usize, layout: Layout) {
        self.freed.borrow_mut().push((ptr, layout));
    }

    fn garbage_collect(&self) {
        self.collected.set(self.collected.get() + 1);
    }
}

fn layout(size: usize, align: usize) -> Layout {
    Layout::from_size_align(size, align).unwrap()
}

#[test]
fn layouts() {
    assert_eq!(Layout::new::<u32>().size(), 4);
    assert_eq!(Layout::new::<u128>().align(), align_of::<u128>());
    assert!(Layout::from_size_align(8, 3).is_err());
    assert!(Layout::from_size_align(8, 0).is_err());
    assert!(Layout::from_size_align(isize::MAX as usize, 2).is_err());
    assert!(Layout::from_size_align(isize::MAX as usize - 1, 2).is_ok());
    let padded = layout(13, 8).pad_to_align();
    assert_eq!((padded.size(), padded.align()), (16, 8));
}

#[test]
fn errors_have_descriptions() {
    assert_eq!(AllocError::OutOfMemory.message(), "Out of memory");
    assert_eq!(
        AllocError::NoSuitableRegion.message(),
        "No suitable region found satisfying address restrictions"
    );
    assert_eq!(AllocError::UnsupportedLayout.message(), "Cannot allocate the provided layout");
    assert_eq!(
        AllocError::OsError.message(),
        "A call to the operating system failed during allocation"
    );
    assert_eq!(AllocError::Internal.message(), "Internal allocator error");
}

#[test]
fn default_methods_narrow_the_range() {
    let bump = Bump::new(0x1000..0x9000);
    assert_eq!(bump.allocate(layout(16, 16)), Ok(0x1000));
    assert_eq!(bump.alloc_near(0x5000, 0x100, layout(16, 16)), Ok(0x4F00));
    assert_eq!(bump.alloc_near(0x5000, 8, layout(17, 1)), Err(AllocError::NoSuitableRegion));
    // the distances stop at the ends of the address space
    let low = Bump::new(0..0x100);
    assert_eq!(low.alloc_near(5, 100, layout(8, 8)), Ok(0));
    let high = Bump::new(usize::MAX - 0x1000..usize::MAX);
    assert_eq!(high.alloc_near(usize::MAX - 0x100, 0x200, layout(8, 1)), Ok(usize::MAX - 0x300));
}

#[test]
fn references_and_boxes_are_allocators() {
    let bump = Bump::new(0x1000..0x9000);
    let by_ref = &bump;
    assert_eq!(by_ref.allocate(layout(16, 16)), Ok(0x1000));
    assert_eq!(by_ref.alloc_near(0x2000, 0x10, layout(16, 16)), Ok(0x1FF0));
    assert_eq!(by_ref.alloc_within(0x3000..0x4000, layout(8, 8)), Ok(0x3000));
    by_ref.free(0x3000, layout(8, 8));
    assert_eq!(*bump.freed.borrow(), vec![(0x3000, layout(8, 8))]);
    let boxed = Box::new(bump);
    assert_eq!(boxed.allocate(layout(16, 16)), Ok(0x3010));
    assert_eq!(boxed.alloc_near(0x5000, 0x10, layout(16, 16)), Ok(0x4FF0));
    assert_eq!(boxed.alloc_within(0x6000..0x7000, layout(8, 8)), Ok(0x6000));
    boxed.free(0x6000, layout(8, 8));
    assert_eq!(boxed.freed.borrow().len(), 2);
}

#[test]
fn addresses_are_pointers() {
    assert_eq!(AsMutPtr::<u8>::as_mut_ptr(&0x1234usize), 0x1234);
}

#[test]
fn constraints_are_applied() {
    let bump = Bump::new(0x1000..0x9000);
    assert_eq!(Constrained::new(&bump).allocate(layout(4, 4)), Ok(0x1000));
    assert_eq!(Constrained::from(&bump).allocate(layout(4, 4)), Ok(0x1004));
    assert_eq!(Constrained::new_near(&bump, 0x3000, 16).allocate(layout(4, 4)), Ok(0x2FF0));
    let within = Constrained::new_within(&bump, 0x4001..0x5000);
    assert_eq!(within.allocate(layout(4, 4)), Ok(0x4004));
    within.free(0x4004, layout(4, 4));
    assert_eq!(*bump.freed.borrow(), vec![(0x4004, layout(4, 4))]);
    assert_eq!(within.into_inner().next.get(), 0x4008);
}

#[test]
fn pointers_are_cloned() {
    assert_eq!(<&Bump as CloneableNearAlloc>::clone_ptr(&0x77), 0x77);
}

#[test]
fn boxes_hold_a_value() {
    let bump = Bump::new(0x1000..0x9000);
    let mut b = NearBox::try_new(5u64, Constrained::new_near(&bump, 0x2000, 64)).ok().unwrap();
    assert_eq!(b.as_ptr(), 0x1FC0);
    assert_eq!(b.as_mut_ptr(), 0x1FC0);
    assert_eq!(*b.as_ref(), 5);
    *b.as_mut() += 1;
    assert_eq!(*b, 6);
    let c = NearBox::new(7u64, Constrained::new(&bump));
    assert!(b < c);
    assert!(b != c);
    b.release();
    assert_eq!(*bump.freed.borrow(), vec![(0x1FC0, Layout::new::<u64>())]);
}

#[test]
fn zero_sized_boxes_reserve_nothing() {
    let nowhere = Bump::new(0..0);
    let b = NearBox::new((), Constrained::new(&nowhere));
    assert_eq!(b.as_ptr(), 1);
    b.release();
    assert!(nowhere.freed.borrow().is_empty());
}

#[test]
fn boxes_report_allocator_errors() {
    let nowhere = Bump::new(0..0);
    let outcome = NearBox::try_new(5u64, Constrained::new(&nowhere));
    assert_eq!(outcome.err(), Some(AllocError::OutOfMemory));
}

#[test]
fn last_reference_frees_the_memory() {
    let bump = Bump::new(0x1000..0x9000);
    let a = Arc::try_new(5u32, Constrained::new(&bump)).ok().unwrap();
    let b = a.clone();
    assert_eq!(*a, 5);
    assert_eq!(*b.as_ref(), 5);
    assert_eq!(a.data(), b.data());
    assert!(a == b);
    assert!(a <= b);
    assert_eq!(a.release().0, 2);
    assert!(bump.freed.borrow().is_empty());
    let c = b.clone();
    assert_eq!(b.release().0, 2);
    assert_eq!(c.release().0, 1);
    assert_eq!(bump.freed.borrow().len(), 1);
    assert_eq!(bump.freed.borrow()[0].0, 0x1000);
}

/// Takes note of when it is dropped, and of when memory is freed.
#[derive(Clone)]
struct Log(std::rc::Rc<RefCell<Vec<&'static str>>>);

impl Log {
    fn new() -> Self {
        Log(std::rc::Rc::new(RefCell::new(Vec::new())))
    }
}

struct Noted(Log);

impl Drop for Noted {
    fn drop(&mut self) {
        self.0 .0.borrow_mut().push("dropped");
    }
}

impl NearAllocator for Log {
    type Ptr = usize;

    fn alloc_within(&self, _range: Range<usize>, layout: Layout) -> Result<usize, AllocError> {
        Ok(layout.align())
    }

    fn free(&self, _ptr: usize, _layout: Layout) {
        self.0.borrow_mut().push("freed");
    }
}

#[test]
fn values_are_dropped_before_their_memory_is_freed() {
    let log = Log::new();
    let b = NearBox::new(Noted(log.clone()), Constrained::new(log.clone()));
    assert!(log.0.borrow().is_empty());
    b.release();
    assert_eq!(*log.0.borrow(), vec!["dropped", "freed"]);
}

#[test]
fn shared_values_outlive_all_references_but_the_last() {
    let log = Log::new();
    let a = Arc::new(Noted(log.clone()), Constrained::new(log.clone()));
    let b = a.clone();
    let c = b.clone();
    assert_eq!(b.release().0, 3);
    assert_eq!(a.release().0, 2);
    assert!(log.0.borrow().is_empty());
    assert_eq!(c.release().0, 1);
    assert_eq!(*log.0.borrow(), vec!["dropped", "freed"]);
}

#[test]
fn interleaved_teardowns_drop_before_they_free() {
    let log = Log::new();
    let at = Layout::new::<u64>();
    let first: Shared<Noted, Log> = Shared::new(Noted(log.clone()), 0x8000);
    let second = first.share();
    assert_eq!(*first.memory(), *second.memory());
    let first = first.let_go();
    assert!(log.0.borrow().is_empty());
    let second = second.let_go();
    assert_eq!(*log.0.borrow(), vec!["dropped"]);
    // the one that let go of the value last is not the last on the count
    let (prior, memory) = second.take_reference();
    assert_eq!(prior, 2);
    memory.free(log.clone(), at);
    assert_eq!(*log.0.borrow(), vec!["dropped"]);
    let (prior, memory) = first.take_reference();
    assert_eq!(prior, 1);
    memory.free(log.clone(), at);
    assert_eq!(*log.0.borrow(), vec!["dropped", "freed"]);
}

#[test]
fn arcs_report_allocator_errors() {
    let nowhere = Bump::new(0..0);
    let outcome = Arc::try_new((), Constrained::new(&nowhere));
    assert_eq!(outcome.err(), Some(AllocError::OutOfMemory));
    let bump = Bump::new(0x1000..0x9000);
    assert_eq!(*Arc::new(9u8, Constrained::new(&bump)), 9);
}

#[test]
fn pool_adds_slabs_where_they_are_needed() {
    let bump = Bump::new(0x1000..0x100000);
    let mut pool: SlabPool<u64, &Bump> = SlabPool::new(&bump, 64);
    // the first slab has room for eight values
    let near_low: Vec<_> = (0..8).map(|_| pool.alloc_near(0x2000, 0x800).unwrap()).collect();
    let addresses: Vec<usize> = near_low.iter().map(|p| p.as_mut_ptr()).collect();
    assert_eq!(addresses, (0..8).map(|i| 0x1800 + 8 * i).collect::<Vec<_>>());
    // a ninth does not fit, nor does one far away
    let ninth = pool.alloc_near(0x2000, 0x800).unwrap();
    assert_eq!(ninth.as_mut_ptr(), 0x1840);
    let far = pool.alloc_near(0x80000, 0x100).unwrap();
    assert_eq!(far.as_mut_ptr(), 0x7FF00);
    // a freed slot is used again
    pool.free(ninth);
    assert_eq!(pool.alloc_near(0x2000, 0x800).unwrap().as_mut_ptr(), 0x1840);
    for ptr in near_low {
        pool.free(ptr);
    }
    assert_eq!(pool.alloc_near(0x2000, 0x800).unwrap().as_mut_ptr(), 0x1838);
    pool.release();
    let freed: Vec<usize> = bump.freed.borrow().iter().map(|f| f.0).collect();
    assert_eq!(freed, vec![0x1800, 0x1840, 0x7FF00]);
}

#[test]
fn pool_reports_errors() {
    let nowhere = Bump::new(0..0);
    let mut pool: SlabPool<u64, &Bump> = SlabPool::new(&nowhere, 64);
    assert_eq!(pool.alloc_near(0x2000, 0x100).err(), Some(AllocError::OutOfMemory));
    let bump = Bump::new(0x1000..0x9000);
    let mut empty: SlabPool<u64, &Bump> = SlabPool::new(&bump, 0);
    assert_eq!(empty.alloc_near(0x2000, 0x100).err(), Some(AllocError::UnsupportedLayout));
    let mut huge: SlabPool<u64, &Bump> = SlabPool::new(&bump, 16);
    assert!(huge.alloc_near(0x2000, 0x100).is_ok());
    assert!(huge.add_slab(0x8000).is_ok());
}
