use anglerkit::allocator::block::BlockNearAlloc;
use anglerkit::allocator::layout::Layout;
use anglerkit::allocator::region::{
    allocation_granularity, covers_block, find_in_gap, first_fit, try_alloc_in_gap, used_ranges,
    RegionNearAlloc, WINDOWS_ALLOC_GRAN,
};
use anglerkit::allocator::{AllocError, AsMutPtr, NearAllocator};

fn layout(size: usize, align: usize) -> Layout {
    Layout::from_size_align(size, align).unwrap()
}

const GRAN: usize = 0x1000;

#[test]
fn gap_near_the_start_of_the_range() {
    let found = find_in_gap(0x800..0x5800, 0x1234..0x9000, layout(0x100, 16), GRAN);
    assert_eq!(found, Some(0x1240));
}

#[test]
fn gap_near_the_end_of_the_range() {
    let found = find_in_gap(0x1800..0x9800, 0..0x3000, layout(0x1000, 16), GRAN);
    assert_eq!(found, Some(0x2000));
    assert_eq!(find_in_gap(0x1800..0x9800, 0..0x2FFF, layout(0x1000, 16), GRAN), None);
}

#[test]
fn gap_without_a_whole_granule() {
    assert_eq!(find_in_gap(0x1001..0x2FFF, 0..usize::MAX, layout(1, 1), GRAN), None);
    assert_eq!(find_in_gap(0x1001..0x3000, 0..usize::MAX, layout(1, 1), GRAN), Some(0x2000));
    assert_eq!(find_in_gap(0x3000..0x1000, 0..usize::MAX, layout(1, 1), GRAN), None);
    assert_eq!(find_in_gap(usize::MAX..usize::MAX, 0..usize::MAX, layout(1, 1), GRAN), None);
}

#[test]
fn granularity_depends_on_the_system() {
    assert_eq!(allocation_granularity(4096, false), Some(4096));
    assert_eq!(allocation_granularity(4096, true), Some(0x10000));
    assert_eq!(allocation_granularity(5000, false), None);
}

#[test]
fn first_aligned_address_of_a_range() {
    assert_eq!(first_fit(&(0x1001..0x1020), layout(16, 16)), Some(0x1010));
    assert_eq!(first_fit(&(0x1001..0x101F), layout(16, 16)), None);
    assert_eq!(first_fit(&(usize::MAX - 2..usize::MAX), layout(1, 8)), None);
}

#[test]
fn memory_elsewhere_is_refused() {
    assert!(covers_block(&(0x1000..0x2000), 0x1800, 0x800));
    assert!(!covers_block(&(0x1000..0x2000), 0x1800, 0x801));
    assert!(!covers_block(&(0x1000..0x2000), 0x800, 1));
    assert!(!covers_block(&(0x1000..0x2000), usize::MAX, 1));
    let elsewhere = |_base: usize, _size: usize| Some((0x90000..0x91000, ()));
    let outcome = try_alloc_in_gap(0..0x10000, 0x2000..0x8000, layout(8, 8), GRAN, &elsewhere);
    assert_eq!(outcome.unwrap().err(), Some(AllocError::OsError));
    let there = |base: usize, size: usize| Some((base..base + size, "handle"));
    let outcome = try_alloc_in_gap(0..0x10000, 0x2000..0x8000, layout(8, 8), GRAN, &there);
    let ptr = outcome.unwrap().ok().unwrap();
    assert_eq!((ptr.user_base, *ptr.alloc_handle), (0x2000, "handle"));
    assert!(try_alloc_in_gap(0..0x100, 0..0x8000, layout(8, 8), GRAN, &there).is_none());
}

#[test]
fn reports_become_ranges() {
    let reports = vec![Ok((0x1000, 0x2000, 1)), Err("error".to_string()), Ok((usize::MAX, 5, 0))];
    assert_eq!(
        used_ranges(&reports),
        vec![Some(0x1000..0x3000), None, Some(usize::MAX..usize::MAX)]
    );
}

#[test]
fn gaps_are_tried_in_order() {
    let used = || {
        Some(vec![Some(0x0000..0x3000), Some(0x4000..0x8000), Some(0xA000..0x20000)])
    };
    let query = |start: usize, size: usize| {
        assert_eq!((start, size), (0x1000, 0xF000));
        used()
    };
    let there = |base: usize, size: usize| Some((base..base + size, ()));
    let alloc = RegionNearAlloc;
    let first = alloc.alloc_within_with(0x1100..0xF800, layout(8, 8), GRAN, query, there);
    assert_eq!(first.ok().unwrap().user_base, 0x3000);
    let second = alloc.alloc_within_with(0x1100..0xF800, layout(0x1800, 8), GRAN, query, there);
    assert_eq!(second.ok().unwrap().user_base, 0x8000);
    let none = alloc.alloc_within_with(0x1100..0xF800, layout(0x2800, 8), GRAN, query, there);
    assert_eq!(none.err(), Some(AllocError::NoSuitableRegion));
    // a gap that is refused is passed over
    let refusing = |base: usize, size: usize| {
        if base == 0x3000 {
            None
        } else {
            Some((base..base + size, ()))
        }
    };
    let next = alloc.alloc_within_with(0x1100..0xF800, layout(8, 8), GRAN, query, refusing);
    assert_eq!(next.ok().unwrap().user_base, 0x8000);
}

#[test]
fn last_gap_decides_the_error() {
    let alloc = RegionNearAlloc::default();
    let used = |_start: usize, _size: usize| Some(vec![Some(0..0x2000)]);
    let refused = |_base: usize, _size: usize| None::<(std::ops::Range<usize>, ())>;
    let outcome = alloc.alloc_within_with(0..0x8000, layout(8, 8), GRAN, used, refused);
    assert_eq!(outcome.err(), Some(AllocError::OsError));
    let unknown = |_start: usize, _size: usize| None;
    let outcome = alloc.alloc_within_with(0..0x8000, layout(8, 8), GRAN, unknown, refused);
    assert_eq!(outcome.err(), Some(AllocError::OsError));
    let broken = |_start: usize, _size: usize| Some(vec![None]);
    let outcome = alloc.alloc_within_with(0..0x8000, layout(8, 8), GRAN, broken, refused);
    assert_eq!(outcome.err(), Some(AllocError::OsError));
    let outcome = alloc.alloc_within_with(1..8, layout(8, 8), GRAN, broken, refused);
    assert_eq!(outcome.err(), Some(AllocError::NoSuitableRegion));
}

#[test]
fn memory_comes_from_the_operating_system() {
    let near = std::hint::black_box(vec![0u8; 16]).as_ptr().addr();
    let alloc = RegionNearAlloc;
    let page = layout(region::page::size(), 16);
    let ptr = alloc.alloc_near(near, 1 << 30, page).ok().unwrap();
    let addr = AsMutPtr::<u8>::as_mut_ptr(&ptr);
    assert!(addr.abs_diff(near) <= 1 << 30);
    let found = region::query(std::ptr::without_provenance::<u8>(addr)).unwrap();
    assert_eq!(found.protection(), region::Protection::READ_WRITE_EXECUTE);
    // the memory is in use, so that other memory is found
    let other = alloc.alloc_near(near, 1 << 30, page).ok().unwrap();
    assert!(other.user_base != ptr.user_base);
    alloc.free(ptr, page);
    alloc.free(other, page);
    let found = region::query(std::ptr::without_provenance::<u8>(addr));
    assert!(found.map(|r| r.protection()).ok() != Some(region::Protection::READ_WRITE_EXECUTE));
}

#[test]
fn memory_stays_until_it_is_freed() {
    let near = std::hint::black_box(vec![0u8; 16]).as_ptr().addr();
    let page = layout(region::page::size(), 16);
    let ptr = RegionNearAlloc.alloc_near(near, 1 << 30, page).ok().unwrap();
    let addr = ptr.user_base;
    drop(ptr);
    let found = region::query(std::ptr::without_provenance::<u8>(addr)).unwrap();
    assert_eq!(found.protection(), region::Protection::READ_WRITE_EXECUTE);
}

#[test]
fn memory_in_whole_granules() {
    let near = std::hint::black_box(vec![0u8; 16]).as_ptr().addr();
    let alloc = RegionNearAlloc;
    let range = near - (1 << 30)..near + (1 << 30);
    let found = alloc.alloc_within_granules(range, layout(64, 64), WINDOWS_ALLOC_GRAN);
    assert_eq!(found.ok().unwrap().user_base % 64, 0);
}

#[test]
fn used_memory_is_not_allocated() {
    let values = vec![1u8; 1 << 20];
    let start = values.as_ptr().addr();
    let outcome = RegionNearAlloc.alloc_within(start..start + values.len(), layout(64, 64));
    assert_eq!(outcome.err(), Some(AllocError::NoSuitableRegion));
    assert!(values.iter().all(|v| *v == 1));
}

#[test]
fn blocks_of_memory_from_the_operating_system() {
    let near = std::hint::black_box(vec![0u8; 16]).as_ptr().addr();
    let page = layout(region::page::size(), region::page::size());
    let mut blocks: BlockNearAlloc<RegionNearAlloc, usize> =
        BlockNearAlloc::new(RegionNearAlloc, page);
    // each heap counts up from the start of its block
    let malloc = |next: usize, layout: Layout| (next + layout.size(), Some(next));
    let claim = |base: usize, size: usize| (base, base..base + size);
    let range = near - (1 << 30)..near + (1 << 30);
    let a = blocks.alloc_within(range.clone(), layout(16, 16), malloc, claim).unwrap();
    let b = blocks.alloc_within(range, layout(16, 16), malloc, claim).unwrap();
    assert_eq!(b, a + 16);
    blocks.release();
}
