//! Allocation of whole regions of virtual memory between those that are in use.

use core::mem::ManuallyDrop;
use core::ops::Range;

use vstd::arithmetic::power2;
use vstd::prelude::*;

use super::block;
use super::layout::Layout;
use super::teardown;
use super::{AllocError, AsMutPtr, NearAllocator};
use crate::arith;
use crate::os::memory::Protection;
use crate::os::native;

verus! {

/// Stateless allocator that asks the operating system for virtual memory.
///
/// It is not recommended to use this allocator directly. Instead, wrap it inside a
/// [`BlockNearAlloc`](super::block::BlockNearAlloc) to reduce the amount of
/// virtual memory system calls required.
#[derive(Debug, Clone, Copy)]
pub struct RegionNearAlloc;

impl Default for RegionNearAlloc {
    fn default() -> (r: Self)
        ensures
            r == RegionNearAlloc,
    {
        RegionNearAlloc
    }
}

/// The allocation granularity of Windows.
pub const WINDOWS_ALLOC_GRAN: usize = 0x10000;

/// The unit in which a system allocates virtual memory, given its page size, if that is a
/// power of two.
pub open spec fn granularity(page_size: usize, windows: bool) -> Option<usize> {
    if windows {
        Some(WINDOWS_ALLOC_GRAN)
    } else if power2::is_pow2(page_size as int) {
        Some(page_size)
    } else {
        None
    }
}

/// The unit in which a system allocates virtual memory, given its page size, if that is a
/// power of two.
pub fn allocation_granularity(page_size: usize, windows: bool) -> (r: Option<usize>)
    ensures
        r == granularity(page_size, windows),
        r matches Some(alloc_gran) ==> power2::is_pow2(alloc_gran as int),
{
    if windows {
        proof {
            reveal_with_fuel(power2::is_pow2, 18);
        }
        Some(WINDOWS_ALLOC_GRAN)
    } else if arith::is_power_of_two(page_size) {
        Some(page_size)
    } else {
        None
    }
}

/// The addresses of the regions that were reported as used, given the base address, the size
/// and the protection flags of each. `None` stands for an error.
pub open spec fn used_range(region: Result<(usize, usize, usize), String>) -> Option<
    Range<usize>,
> {
    match region {
        Ok((base, size, _)) => Some(
            Range {
                start: base,
                end: if base + size <= usize::MAX {
                    (base + size) as usize
                } else {
                    usize::MAX
                },
            },
        ),
        Err(_) => None,
    }
}

/// The addresses of the regions that were reported as used.
pub fn used_ranges(regions: &Vec<Result<(usize, usize, usize), String>>) -> (r: Vec<
    Option<Range<usize>>,
>)
    ensures
        r@.len() == regions@.len(),
        forall|i: int| 0 <= i < r@.len() ==> #[trigger] r@[i] == used_range(regions@[i]),
{
    let mut ranges: Vec<Option<Range<usize>>> = Vec::new();
    let mut i: usize = 0;
    while i < regions.len()
        invariant
            i <= regions@.len(),
            ranges@.len() == i,
            forall|j: int| 0 <= j < i ==> #[trigger] ranges@[j] == used_range(regions@[j]),
        decreases regions@.len() - i,
    {
        let range = match &regions[i] {
            Ok((base, size, _)) => Some(*base..base.saturating_add(*size)),
            Err(_) => None,
        };
        ranges.push(range);
        i = i + 1;
    }
    ranges
}

/// Ask the operating system for the used regions among `size` bytes at `start`. The result is
/// the addresses of the regions that it answers with, or `None` if it answers with an error.
fn query_used(start: usize, size: usize) -> (r: Option<Vec<Option<Range<usize>>>>)
    ensures
        exists|answer: Result<Vec<Result<(usize, usize, usize), String>>, String>| #[trigger]
            call_ensures(native::query_range, (start, size), answer) && match answer {
                Ok(regions) => r matches Some(ranges) && ranges@ == regions@.map_values(
                    |region: Result<(usize, usize, usize), String>| used_range(region),
                ),
                Err(_) => r is None,
            },
        size == 0 ==> r is None,
{
    match native::query_range(start, size) {
        Ok(regions) => Some(used_ranges(&regions)),
        Err(_) => None,
    }
}

/// Ask the operating system for `size` bytes of read-write-execute memory at `base`. The result
/// is the addresses that it allocated, with the handle that keeps them allocated, or `None` if it
/// answers with an error.
fn alloc_rwx(base: usize, size: usize) -> (r: Option<(Range<usize>, region::Allocation)>)
    ensures
        call_ensures(
            native::alloc_at,
            (base, size, Protection::READ_WRITE_EXECUTE.spec_bits()),
            r,
        ),
        size == 0 ==> r is None,
{
    native::alloc_at(base, size, Protection::READ_WRITE_EXECUTE.bits())
}

/// Memory obtained from the operating system, with the handle that keeps it allocated until it
/// is freed.
pub struct Ptr<H> {
    /// The user's memory may not be aligned with the system's allocation granularity.
    pub user_base: usize,
    pub alloc_handle: ManuallyDrop<H>,
}

impl<T, H> AsMutPtr<T> for Ptr<H> {
    open spec fn addr(&self) -> usize {
        self.user_base
    }

    fn as_mut_ptr(&self) -> (r: usize) {
        self.user_base
    }
}

/// The lowest address for a layout in a gap between used regions and in a range, if there is
/// one. Only whole granules of the gap can be allocated.
///
/// ```text
/// gap[   GRAN|    range[ <avail>  GRAN|  gap]        range]
/// range[    gap[   GRAN|      <avail>   range]     GRAN|  gap]
/// ```
pub open spec fn gap_base(
    gap: Range<usize>,
    range: Range<usize>,
    layout: Layout,
    alloc_gran: int,
) -> Option<usize> {
    let min_boundary = arith::align_up(gap.start as int, alloc_gran);
    let max_boundary = arith::align_down(gap.end as int, alloc_gran);
    let start = if min_boundary > range.start {
        min_boundary
    } else {
        range.start as int
    };
    let end = if max_boundary < range.end {
        max_boundary
    } else {
        range.end as int
    };
    let user_base = arith::align_up(start, layout.align as int);
    if user_base + layout.size <= end {
        Some(user_base as usize)
    } else {
        None
    }
}

/// Find the lowest address for a layout in a gap between used regions and in a range.
pub fn find_in_gap(
    gap: Range<usize>,
    range: Range<usize>,
    layout: Layout,
    alloc_gran: usize,
) -> (r: Option<usize>)
    requires
        layout.valid(),
        power2::is_pow2(alloc_gran as int),
    ensures
        r == gap_base(gap, range, layout, alloc_gran as int),
        r matches Some(base) ==> super::placed(base, range, layout),
{
    proof {
        arith::lemma_pow2_positive(alloc_gran as int);
        arith::lemma_pow2_positive(layout.align as int);
        arith::lemma_align_up(gap.start as int, alloc_gran as int);
        arith::lemma_align_down(gap.end as int, alloc_gran as int);
        let m = arith::align_up(gap.start as int, alloc_gran as int);
        arith::lemma_align_up(
            if m > range.start {
                m
            } else {
                range.start as int
            },
            layout.align as int,
        );
    }
    let min_boundary: usize = match arith::checked_next_multiple_of(gap.start, alloc_gran) {
        Some(min_boundary) => min_boundary,
        None => return None,
    };
    let max_boundary: usize = arith::floor_to_multiple(gap.end, alloc_gran);
    let start: usize = if min_boundary > range.start {
        min_boundary
    } else {
        range.start
    };
    let end: usize = if max_boundary < range.end {
        max_boundary
    } else {
        range.end
    };
    let user_base: usize = match arith::checked_next_multiple_of(start, layout.align) {
        Some(user_base) => user_base,
        None => return None,
    };
    match user_base.checked_add(layout.size) {
        Some(user_end) if user_end <= end => Some(user_base),
        _ => None,
    }
}

/// Whether `span` covers `size` bytes at `base`.
pub open spec fn covers(span: Range<usize>, base: usize, size: usize) -> bool {
    span.start <= base && base + size <= span.end
}

/// Whether `span` covers `size` bytes at `base`.
pub fn covers_block(span: &Range<usize>, base: usize, size: usize) -> (r: bool)
    ensures
        r == covers(*span, base, size),
{
    span.start <= base && base <= span.end && size <= span.end - base
}

/// Whether `alloc_at` may allocate `size` bytes at `base` and yield the given handle.
pub open spec fn alloc_ok<H, F: Fn(usize, usize) -> Option<(Range<usize>, H)>>(
    alloc_at: F,
    base: usize,
    size: usize,
    handle: H,
) -> bool {
    exists|span: Range<usize>| #[trigger]
        call_ensures(alloc_at, (base, size), Some((span, handle))) && covers(span, base, size)
}

/// Whether `alloc_at` may fail to allocate `size` bytes at `base`, or allocate elsewhere.
pub open spec fn alloc_failed<H, F: Fn(usize, usize) -> Option<(Range<usize>, H)>>(
    alloc_at: F,
    base: usize,
    size: usize,
) -> bool {
    exists|outcome: Option<(Range<usize>, H)>| #[trigger]
        call_ensures(alloc_at, (base, size), outcome) && (outcome matches Some((span, _))
            ==> !covers(span, base, size))
}

/// Allocate in a gap between used regions, if the layout fits there.
///
/// `alloc_at` allocates memory of the given size at the given address, if it can, and returns
/// the addresses that it allocated and the handle that keeps them allocated. Memory that is
/// not where it was asked for is let go.
pub fn try_alloc_in_gap<H, F: Fn(usize, usize) -> Option<(Range<usize>, H)>>(
    gap: Range<usize>,
    range: Range<usize>,
    layout: Layout,
    alloc_gran: usize,
    alloc_at: &F,
) -> (r: Option<Result<Ptr<H>, AllocError>>)
    requires
        layout.valid(),
        power2::is_pow2(alloc_gran as int),
        forall|base: usize| #[trigger] call_requires(alloc_at, (base, layout.size)),
    ensures
        match gap_base(gap, range, layout, alloc_gran as int) {
            None => r is None,
            Some(base) => {
                &&& r matches Some(outcome)
                &&& match outcome {
                    Ok(ptr) => {
                        &&& ptr.user_base == base
                        &&& alloc_ok(*alloc_at, base, layout.size, ptr.alloc_handle@)
                        &&& super::placed(base, range, layout)
                    },
                    Err(e) => {
                        &&& e == AllocError::OsError
                        &&& alloc_failed(*alloc_at, base, layout.size)
                    },
                }
            },
        },
{
    match find_in_gap(gap, range, layout, alloc_gran) {
        Some(user_base) => match alloc_at(user_base, layout.size) {
            Some((span, alloc_handle)) if covers_block(&span, user_base, layout.size) => Some(
                Ok(Ptr { user_base, alloc_handle: ManuallyDrop::new(alloc_handle) }),
            ),
            _ => Some(Err(AllocError::OsError)),
        },
        None => None,
    }
}

/// The first aligned address of a range, if the layout fits the range.
pub fn first_fit(range: &Range<usize>, layout: Layout) -> (r: Option<usize>)
    requires
        layout.valid(),
    ensures
        r is Some <==> block::fits(*range, layout),
        r matches Some(start) ==> start == arith::align_up(
            range.start as int,
            layout.align as int,
        ),
{
    proof {
        arith::lemma_pow2_positive(layout.align as int);
    }
    match arith::checked_next_multiple_of(range.start, layout.align) {
        Some(start) if start.saturating_add(layout.size) <= range.end => Some(start),
        _ => None,
    }
}

/// Where the search for used regions starts: a granule boundary at or below the first aligned
/// address of the range.
pub open spec fn search_start(range: Range<usize>, layout: Layout, alloc_gran: int) -> int {
    arith::align_down(
        arith::align_up(range.start as int, layout.align as int),
        alloc_gran,
    )
}

/// Where the search for used regions ends: a granule boundary at or above the end of the
/// range, or the last one in the address space.
pub open spec fn search_end(range: Range<usize>, alloc_gran: int) -> int {
    let end = range.end + alloc_gran - 1;
    arith::align_down(
        if end <= usize::MAX {
            end
        } else {
            usize::MAX as int
        },
        alloc_gran,
    )
}

/// The gap before the `i`-th used region, or after the last one.
pub open spec fn gap_before(
    regions: Seq<Option<Range<usize>>>,
    start: usize,
    end: usize,
    i: int,
) -> Range<usize> {
    Range {
        start: if i > 0 {
            regions[i - 1]->0.end
        } else {
            start
        },
        end: if i < regions.len() {
            regions[i]->0.start
        } else {
            end
        },
    }
}

/// Whether nothing could be allocated in a gap.
pub open spec fn gap_failed<H, F: Fn(usize, usize) -> Option<(Range<usize>, H)>>(
    alloc_at: F,
    gap: Range<usize>,
    range: Range<usize>,
    layout: Layout,
    alloc_gran: int,
) -> bool {
    gap_base(gap, range, layout, alloc_gran) matches Some(base) ==> alloc_failed(
        alloc_at,
        base,
        layout.size,
    )
}

/// Whether `n` used regions were reported and nothing could be allocated in the gaps before
/// them.
pub open spec fn gaps_failed<H, F: Fn(usize, usize) -> Option<(Range<usize>, H)>>(
    alloc_at: F,
    regions: Seq<Option<Range<usize>>>,
    start: usize,
    end: usize,
    range: Range<usize>,
    layout: Layout,
    alloc_gran: int,
    n: int,
) -> bool {
    forall|i: int|
        0 <= i < n ==> #[trigger] regions[i] is Some && gap_failed(
            alloc_at,
            gap_before(regions, start, end, i),
            range,
            layout,
            alloc_gran,
        )
}

/// The result of a search for a gap, given the used regions that were reported. A region that
/// is `None` stands for an error.
pub open spec fn searched<H, F: Fn(usize, usize) -> Option<(Range<usize>, H)>>(
    alloc_at: F,
    regions: Seq<Option<Range<usize>>>,
    start: usize,
    end: usize,
    range: Range<usize>,
    layout: Layout,
    alloc_gran: int,
    r: Result<Ptr<H>, AllocError>,
) -> bool {
    exists|n: int|
        {
            let gap = gap_before(regions, start, end, n);
            &&& 0 <= n <= regions.len()
            &&& #[trigger] gaps_failed(alloc_at, regions, start, end, range, layout, alloc_gran, n)
            &&& match r {
                Ok(ptr) => {
                    &&& n < regions.len() ==> regions[n] is Some
                    &&& gap_base(gap, range, layout, alloc_gran) == Some(ptr.user_base)
                    &&& alloc_ok(alloc_at, ptr.user_base, layout.size, ptr.alloc_handle@)
                },
                Err(AllocError::OsError) => if n < regions.len() {
                    regions[n] is None
                } else {
                    &&& gap_base(gap, range, layout, alloc_gran) matches Some(base)
                    &&& alloc_failed(alloc_at, base, layout.size)
                },
                Err(AllocError::NoSuitableRegion) => {
                    &&& n == regions.len()
                    &&& gap_base(gap, range, layout, alloc_gran) is None
                },
                Err(_) => false,
            }
        }
}

/// The result of a search for a gap among the used regions that `query` reports.
pub open spec fn queried<H, Q, F>(
    query: Q,
    alloc_at: F,
    start: usize,
    end: usize,
    range: Range<usize>,
    layout: Layout,
    alloc_gran: int,
    r: Result<Ptr<H>, AllocError>,
) -> bool where
    Q: Fn(usize, usize) -> Option<Vec<Option<Range<usize>>>>,
    F: Fn(usize, usize) -> Option<(Range<usize>, H)>,
 {
    let size = (end - start) as usize;
    exists|answer: Option<Vec<Option<Range<usize>>>>| #[trigger]
        call_ensures(query, (start, size), answer) && match answer {
            Some(regions) => searched(
                alloc_at,
                regions@,
                start,
                end,
                range,
                layout,
                alloc_gran,
                r,
            ),
            None => r == Err::<Ptr<H>, AllocError>(AllocError::OsError),
        }
}

/// Whether the operating system may report these used regions among `size` bytes at `start`.
pub closed spec fn os_reports(
    start: usize,
    size: usize,
    answer: Option<Vec<Option<Range<usize>>>>,
) -> bool {
    call_ensures(query_used, (start, size), answer)
}

/// Whether the operating system may allocate `size` bytes of read-write-execute memory at
/// `base`, with the given handle.
pub closed spec fn os_grants(base: usize, size: usize, handle: region::Allocation) -> bool {
    exists|span: Range<usize>| #[trigger]
        call_ensures(
            native::alloc_at,
            (base, size, Protection::READ_WRITE_EXECUTE.spec_bits()),
            Some((span, handle)),
        ) && covers(span, base, size)
}

/// Whether the operating system may fail to allocate `size` bytes of read-write-execute memory
/// at `base`.
pub closed spec fn os_refuses(base: usize, size: usize) -> bool {
    exists|outcome: Option<(Range<usize>, region::Allocation)>| #[trigger]
        call_ensures(
            native::alloc_at,
            (base, size, Protection::READ_WRITE_EXECUTE.spec_bits()),
            outcome,
        ) && (outcome matches Some((span, _)) ==> !covers(span, base, size))
}

/// Whether the operating system may have this page size.
pub closed spec fn os_page_size(page_size: usize) -> bool {
    call_ensures(native::page_size, (), page_size)
}

/// Whether the operating system may separate the components of a path by this character.
pub closed spec fn os_separator(separator: char) -> bool {
    call_ensures(native::main_separator, (), separator)
}

/// The result of asking the operating system for memory with a layout in a range: it is asked
/// for the used regions, and for memory in the gaps between them.
pub closed spec fn os_searched(
    range: Range<usize>,
    layout: Layout,
    alloc_gran: int,
    r: Result<Ptr<region::Allocation>, AllocError>,
) -> bool {
    if block::fits(range, layout) {
        queried(
            query_used,
            alloc_rwx,
            search_start(range, layout, alloc_gran) as usize,
            search_end(range, alloc_gran) as usize,
            range,
            layout,
            alloc_gran,
            r,
        )
    } else {
        r == Err::<Ptr<region::Allocation>, AllocError>(AllocError::NoSuitableRegion)
    }
}

impl RegionNearAlloc {
    /// Search the gaps between the used regions, in order, for one in which a layout can be
    /// allocated.
    pub fn alloc_in_gaps<H, F: Fn(usize, usize) -> Option<(Range<usize>, H)>>(
        &self,
        regions: &Vec<Option<Range<usize>>>,
        start: usize,
        end: usize,
        range: Range<usize>,
        layout: Layout,
        alloc_gran: usize,
        alloc_at: &F,
    ) -> (r: Result<Ptr<H>, AllocError>)
        requires
            layout.valid(),
            power2::is_pow2(alloc_gran as int),
            forall|base: usize| #[trigger] call_requires(alloc_at, (base, layout.size)),
        ensures
            searched(*alloc_at, regions@, start, end, range, layout, alloc_gran as int, r),
            r matches Ok(ptr) ==> super::placed(ptr.user_base, range, layout),
    {
        let mut last_region_end: usize = start;
        let mut i: usize = 0;
        while i < regions.len()
            invariant
                layout.valid(),
                power2::is_pow2(alloc_gran as int),
                forall|base: usize| #[trigger] call_requires(alloc_at, (base, layout.size)),
                i <= regions@.len(),
                last_region_end == gap_before(regions@, start, end, i as int).start,
                gaps_failed(
                    *alloc_at,
                    regions@,
                    start,
                    end,
                    range,
                    layout,
                    alloc_gran as int,
                    i as int,
                ),
            decreases regions@.len() - i,
        {
            match &regions[i] {
                Some(region) => {
                    let gap = last_region_end..region.start;
                    assert(gap == gap_before(regions@, start, end, i as int));
                    match try_alloc_in_gap(
                        gap,
                        range.start..range.end,
                        layout,
                        alloc_gran,
                        alloc_at,
                    ) {
                        Some(Ok(ptr)) => {
                            return Ok(ptr);
                        },
                        // a failed allocation is no reason to stop, other gaps may do
                        _ => {
                            last_region_end = region.end;
                        },
                    }
                },
                None => {
                    return Err(AllocError::OsError);
                },
            }
            i = i + 1;
        }
        let gap = last_region_end..end;
        assert(gap == gap_before(regions@, start, end, i as int));
        match try_alloc_in_gap(gap, range.start..range.end, layout, alloc_gran, alloc_at) {
            Some(outcome) => outcome,
            None => Err(AllocError::NoSuitableRegion),
        }
    }

    /// Allocate memory according to the provided [`Layout`], by means of the given system
    /// calls. All bytes of allocated storage are guaranteed to lie within `range`.
    ///
    /// `query` reports the used regions among the given number of bytes at the given address,
    /// in order, if it can; a region that is `None` stands for an error. `alloc_at` allocates
    /// memory of the given size at the given address.
    pub fn alloc_within_with<H, Q, F>(
        &self,
        range: Range<usize>,
        layout: Layout,
        alloc_gran: usize,
        query: Q,
        alloc_at: F,
    ) -> (r: Result<Ptr<H>, AllocError>) where
        Q: Fn(usize, usize) -> Option<Vec<Option<Range<usize>>>>,
        F: Fn(usize, usize) -> Option<(Range<usize>, H)>,

        requires
            layout.valid(),
            layout.size != 0,
            power2::is_pow2(alloc_gran as int),
            forall|start: usize, size: usize| #[trigger] call_requires(query, (start, size)),
            forall|base: usize| #[trigger] call_requires(alloc_at, (base, layout.size)),
        ensures
            !block::fits(range, layout) ==> r == Err::<Ptr<H>, AllocError>(
                AllocError::NoSuitableRegion,
            ),
            block::fits(range, layout) ==> queried(
                query,
                alloc_at,
                search_start(range, layout, alloc_gran as int) as usize,
                search_end(range, alloc_gran as int) as usize,
                range,
                layout,
                alloc_gran as int,
                r,
            ),
            r matches Ok(ptr) ==> super::placed(ptr.user_base, range, layout),
    {
        proof {
            arith::lemma_pow2_positive(alloc_gran as int);
            arith::lemma_pow2_positive(layout.align as int);
            arith::lemma_align_up(range.start as int, layout.align as int);
        }
        let aligned_start: usize = match first_fit(&range, layout) {
            Some(aligned_start) => aligned_start,
            None => return Err(AllocError::NoSuitableRegion),
        };
        let start: usize = arith::floor_to_multiple(aligned_start, alloc_gran);
        let end: usize = arith::floor_to_multiple(
            range.end.saturating_add(alloc_gran - 1),
            alloc_gran,
        );
        proof {
            lemma_search_is_ordered(range, layout, alloc_gran as int);
        }
        match query(start, end - start) {
            Some(regions) => self.alloc_in_gaps(
                &regions,
                start,
                end,
                range,
                layout,
                alloc_gran,
                &alloc_at,
            ),
            None => Err(AllocError::OsError),
        }
    }

    /// Allocate memory according to the provided [`Layout`] on a system that allocates in
    /// multiples of `alloc_gran`. All bytes of allocated storage are guaranteed to lie within
    /// `range`.
    pub fn alloc_within_granules(
        &self,
        range: Range<usize>,
        layout: Layout,
        alloc_gran: usize,
    ) -> (r: Result<Ptr<region::Allocation>, AllocError>)
        requires
            layout.valid(),
            layout.size != 0,
            power2::is_pow2(alloc_gran as int),
        ensures
            os_searched(range, layout, alloc_gran as int, r),
            r matches Ok(ptr) ==> super::placed(ptr.user_base, range, layout),
            r matches Err(e) ==> e == AllocError::NoSuitableRegion || e == AllocError::OsError,
            !block::fits(range, layout) ==> (r matches Err(e) && e
                == AllocError::NoSuitableRegion),
    {
        self.alloc_within_with(range, layout, alloc_gran, query_used, alloc_rwx)
    }
}

impl NearAllocator for RegionNearAlloc {
    type Ptr = Ptr<region::Allocation>;

    /// Memory is allocated in multiples of the allocation granularity of the system. The result
    /// is [`AllocError::OsError`] if that is no power of two.
    fn alloc_within(&self, range: Range<usize>, layout: Layout) -> (r: Result<
        Self::Ptr,
        AllocError,
    >)
        ensures
            r matches Err(e) ==> e == AllocError::NoSuitableRegion || e == AllocError::OsError,
            !block::fits(range, layout) ==> (r matches Err(e) && e
                == AllocError::NoSuitableRegion),
            block::fits(range, layout) ==> exists|page_size: usize, separator: char|
                {
                    &&& #[trigger] os_page_size(page_size)
                    &&& #[trigger] os_separator(separator)
                    &&& match granularity(page_size, separator == '\\') {
                        Some(alloc_gran) => os_searched(range, layout, alloc_gran as int, r),
                        None => r matches Err(e) && e == AllocError::OsError,
                    }
                },
    {
        if first_fit(&range, layout).is_none() {
            return Err(AllocError::NoSuitableRegion);
        }
        let page_size: usize = native::page_size();
        let separator: char = native::main_separator();
        assert(os_page_size(page_size) && os_separator(separator));
        let alloc_gran: usize = match allocation_granularity(page_size, separator == '\\') {
            Some(alloc_gran) => alloc_gran,
            None => return Err(AllocError::OsError),
        };
        let r = self.alloc_within_granules(range, layout, alloc_gran);
        assert(r matches Ok(ptr) ==> AsMutPtr::<u8>::addr(&ptr) == ptr.user_base);
        r
    }

    /// The memory is freed by dropping its handle.
    fn free(&self, ptr: Self::Ptr, layout: Layout)
        ensures
            teardown::discarded(ptr.alloc_handle@),
    {
        teardown::discard(ManuallyDrop::into_inner(ptr.alloc_handle));
    }
}

/// The search for used regions does not end before it starts.
proof fn lemma_search_is_ordered(range: Range<usize>, layout: Layout, alloc_gran: int)
    requires
        0 < alloc_gran <= usize::MAX,
        0 < layout.align,
        block::fits(range, layout),
    ensures
        0 <= search_start(range, layout, alloc_gran) <= search_end(range, alloc_gran)
            <= usize::MAX,
{
    let start = arith::align_up(range.start as int, layout.align as int);
    let end = range.end + alloc_gran - 1;
    arith::lemma_align_up(range.start as int, layout.align as int);
    arith::lemma_align_down(start, alloc_gran);
    arith::lemma_align_down(
        if end <= usize::MAX {
            end
        } else {
            usize::MAX as int
        },
        alloc_gran,
    );
}

/// An address at which a layout may be allocated in a gap: aligned, in whole granules of the
/// gap and in the range.
pub open spec fn usable(
    addr: int,
    gap: Range<usize>,
    range: Range<usize>,
    layout: Layout,
    alloc_gran: int,
) -> bool {
    &&& addr % layout.align as int == 0
    &&& arith::align_up(gap.start as int, alloc_gran) <= addr
    &&& addr + layout.size <= arith::align_down(gap.end as int, alloc_gran)
    &&& range.start <= addr
    &&& addr + layout.size <= range.end
}

/// A search in a gap finds the lowest address at which the layout may be allocated, and finds
/// one whenever there is one.
pub proof fn law_lowest_address_is_found(
    gap: Range<usize>,
    range: Range<usize>,
    layout: Layout,
    alloc_gran: int,
    addr: int,
)
    requires
        layout.valid(),
        power2::is_pow2(alloc_gran),
    ensures
        gap_base(gap, range, layout, alloc_gran) matches Some(base) ==> usable(
            base as int,
            gap,
            range,
            layout,
            alloc_gran,
        ),
        usable(addr, gap, range, layout, alloc_gran) ==> (gap_base(
            gap,
            range,
            layout,
            alloc_gran,
        ) matches Some(base) && base <= addr),
{
    arith::lemma_pow2_positive(alloc_gran);
    arith::lemma_pow2_positive(layout.align as int);
    arith::lemma_align_up(gap.start as int, alloc_gran);
    arith::lemma_align_down(gap.end as int, alloc_gran);
    let min_boundary = arith::align_up(gap.start as int, alloc_gran);
    let start = if min_boundary > range.start {
        min_boundary
    } else {
        range.start as int
    };
    arith::lemma_align_up(start, layout.align as int);
}

/// A search succeeds if no error is reported and there is a gap with a usable address that is
/// not refused: that memory is refused in other gaps does not end the search.
#[verifier::spinoff_prover]
pub proof fn law_grantable_gap_suffices<H, F: Fn(usize, usize) -> Option<(Range<usize>, H)>>(
    alloc_at: F,
    regions: Seq<Option<Range<usize>>>,
    start: usize,
    end: usize,
    range: Range<usize>,
    layout: Layout,
    alloc_gran: int,
    r: Result<Ptr<H>, AllocError>,
    k: int,
)
    requires
        searched(alloc_at, regions, start, end, range, layout, alloc_gran, r),
        forall|i: int| 0 <= i < regions.len() ==> #[trigger] regions[i] is Some,
        0 <= k <= regions.len(),
        gap_base(gap_before(regions, start, end, k), range, layout, alloc_gran) matches Some(base)
            && !alloc_failed(alloc_at, base, layout.size),
    ensures
        r is Ok,
{
    let n = choose|n: int|
        {
            let gap = gap_before(regions, start, end, n);
            &&& 0 <= n <= regions.len()
            &&& #[trigger] gaps_failed(alloc_at, regions, start, end, range, layout, alloc_gran, n)
            &&& match r {
                Ok(ptr) => {
                    &&& n < regions.len() ==> regions[n] is Some
                    &&& gap_base(gap, range, layout, alloc_gran) == Some(ptr.user_base)
                    &&& alloc_ok(alloc_at, ptr.user_base, layout.size, ptr.alloc_handle@)
                },
                Err(AllocError::OsError) => if n < regions.len() {
                    regions[n] is None
                } else {
                    &&& gap_base(gap, range, layout, alloc_gran) matches Some(base)
                    &&& alloc_failed(alloc_at, base, layout.size)
                },
                Err(AllocError::NoSuitableRegion) => {
                    &&& n == regions.len()
                    &&& gap_base(gap, range, layout, alloc_gran) is None
                },
                Err(_) => false,
            }
        };
    if r is Err {
        if k < n {
            assert(regions[k] is Some);
            assert(gap_failed(
                alloc_at,
                gap_before(regions, start, end, k),
                range,
                layout,
                alloc_gran,
            ));
        } else {
            assert(k == n);
        }
    }
}

/// Memory that was obtained from the operating system is memory that it granted, at the very
/// address that is returned.
pub proof fn law_memory_is_granted_by_the_system(
    range: Range<usize>,
    layout: Layout,
    alloc_gran: int,
    ptr: Ptr<region::Allocation>,
)
    requires
        os_searched(range, layout, alloc_gran, Ok(ptr)),
    ensures
        os_grants(ptr.user_base, layout.size, ptr.alloc_handle@),
{
}

/// Memory is obtained from the operating system if it reports no error and there is a gap
/// between the regions it reports with a usable address that it does not refuse.
pub proof fn law_grantable_memory_is_obtained(
    range: Range<usize>,
    layout: Layout,
    alloc_gran: int,
    r: Result<Ptr<region::Allocation>, AllocError>,
    regions: Vec<Option<Range<usize>>>,
    k: int,
)
    requires
        block::fits(range, layout),
        os_searched(range, layout, alloc_gran, r),
        forall|answer: Option<Vec<Option<Range<usize>>>>| #[trigger]
            os_reports(
                search_start(range, layout, alloc_gran) as usize,
                (search_end(range, alloc_gran) as usize - search_start(
                    range,
                    layout,
                    alloc_gran,
                ) as usize) as usize,
                answer,
            ) ==> answer == Some(regions),
        forall|i: int| 0 <= i < regions@.len() ==> #[trigger] regions@[i] is Some,
        0 <= k <= regions@.len(),
        gap_base(
            gap_before(
                regions@,
                search_start(range, layout, alloc_gran) as usize,
                search_end(range, alloc_gran) as usize,
                k,
            ),
            range,
            layout,
            alloc_gran,
        ) matches Some(base) && !os_refuses(base, layout.size),
    ensures
        r is Ok,
{
    let start = search_start(range, layout, alloc_gran) as usize;
    let end = search_end(range, alloc_gran) as usize;
    let size = (end - start) as usize;
    assert forall|answer: Option<Vec<Option<Range<usize>>>>| #[trigger]
        call_ensures(query_used, (start, size), answer) implies answer == Some(regions) by {
        assert(os_reports(start, size, answer));
    }
    law_grantable_gap_suffices(
        alloc_rwx,
        regions@,
        start,
        end,
        range,
        layout,
        alloc_gran,
        r,
        k,
    );
}

/// The granules that are allocated in a gap do not overlap the used regions around it.
pub proof fn law_gap_avoids_used_regions(
    gap: Range<usize>,
    range: Range<usize>,
    layout: Layout,
    alloc_gran: int,
)
    requires
        layout.valid(),
        power2::is_pow2(alloc_gran),
    ensures
        gap_base(gap, range, layout, alloc_gran) matches Some(base) ==> gap.start
            <= arith::align_down(base as int, alloc_gran) && arith::align_up(
            base + layout.size,
            alloc_gran,
        ) <= gap.end,
{
    law_lowest_address_is_found(gap, range, layout, alloc_gran, 0);
    arith::lemma_pow2_positive(alloc_gran);
    arith::lemma_align_up(gap.start as int, alloc_gran);
    arith::lemma_align_down(gap.end as int, alloc_gran);
    if let Some(base) = gap_base(gap, range, layout, alloc_gran) {
        arith::lemma_align_down(base as int, alloc_gran);
        arith::lemma_align_up(base + layout.size, alloc_gran);
    }
}

/// Whether the granules that hold `size` bytes at `base` do not overlap a region.
pub open spec fn clear_of(region: Range<usize>, base: usize, size: usize, alloc_gran: int) -> bool {
    ||| region.end <= arith::align_down(base as int, alloc_gran)
    ||| arith::align_up(base + size, alloc_gran) <= region.start
}

/// Whether regions are reported without an error, in ascending order, and do not overlap.
pub open spec fn ordered(regions: Seq<Option<Range<usize>>>) -> bool {
    &&& forall|i: int|
        0 <= i < regions.len() ==> (#[trigger] regions[i] matches Some(region) && region.start
            <= region.end)
    &&& forall|i: int, j: int|
        0 <= i < j < regions.len() ==> (#[trigger] regions[i])->0.end <= (
        #[trigger] regions[j])->0.start
}

/// Memory that is asked for in any of the gaps overlaps none of the used regions, if they were
/// reported in ascending order and do not overlap.
pub proof fn law_memory_asked_for_is_unused(
    regions: Seq<Option<Range<usize>>>,
    start: usize,
    end: usize,
    range: Range<usize>,
    layout: Layout,
    alloc_gran: int,
    k: int,
)
    requires
        layout.valid(),
        power2::is_pow2(alloc_gran),
        ordered(regions),
        0 <= k <= regions.len(),
    ensures
        gap_base(gap_before(regions, start, end, k), range, layout, alloc_gran) matches Some(base)
            ==> forall|i: int|
            0 <= i < regions.len() ==> clear_of(
                (#[trigger] regions[i])->0,
                base,
                layout.size,
                alloc_gran,
            ),
{
    let gap = gap_before(regions, start, end, k);
    law_gap_avoids_used_regions(gap, range, layout, alloc_gran);
    if let Some(base) = gap_base(gap, range, layout, alloc_gran) {
        assert forall|i: int| 0 <= i < regions.len() implies clear_of(
            (#[trigger] regions[i])->0,
            base,
            layout.size,
            alloc_gran,
        ) by {
            if i < k {
                assert(regions[i]->0.end <= regions[k - 1]->0.end) by {
                    assert(regions[k - 1]->0.start <= regions[k - 1]->0.end);
                }
            } else {
                assert(regions[k]->0.start <= regions[i]->0.start) by {
                    assert(regions[k]->0.start <= regions[k]->0.end);
                }
            }
        }
    }
}

/// Memory that a search obtains overlaps none of the used regions, if they were reported in
/// ascending order and do not overlap.
pub proof fn law_memory_obtained_was_unused<H, F: Fn(usize, usize) -> Option<(Range<usize>, H)>>(
    alloc_at: F,
    regions: Seq<Option<Range<usize>>>,
    start: usize,
    end: usize,
    range: Range<usize>,
    layout: Layout,
    alloc_gran: int,
    ptr: Ptr<H>,
)
    requires
        layout.valid(),
        power2::is_pow2(alloc_gran),
        ordered(regions),
        searched(alloc_at, regions, start, end, range, layout, alloc_gran, Ok(ptr)),
    ensures
        forall|i: int|
            0 <= i < regions.len() ==> clear_of(
                (#[trigger] regions[i])->0,
                ptr.user_base,
                layout.size,
                alloc_gran,
            ),
{
    let n = choose|n: int|
        {
            &&& 0 <= n <= regions.len()
            &&& #[trigger] gaps_failed(alloc_at, regions, start, end, range, layout, alloc_gran, n)
            &&& gap_base(gap_before(regions, start, end, n), range, layout, alloc_gran) == Some(
                ptr.user_base,
            )
        };
    law_memory_asked_for_is_unused(regions, start, end, range, layout, alloc_gran, n);
}

/// Memory that was obtained from the operating system overlaps none of the used regions that it
/// reported, if it reports them in ascending order and they do not overlap.
pub proof fn law_memory_from_the_system_was_unused(
    range: Range<usize>,
    layout: Layout,
    alloc_gran: int,
    ptr: Ptr<region::Allocation>,
)
    requires
        layout.valid(),
        power2::is_pow2(alloc_gran),
        os_searched(range, layout, alloc_gran, Ok(ptr)),
        forall|start: usize, size: usize, regions: Vec<Option<Range<usize>>>| #[trigger]
            os_reports(start, size, Some(regions)) ==> ordered(regions@),
    ensures
        exists|regions: Vec<Option<Range<usize>>>|
            {
                &&& #[trigger] os_reports(
                    search_start(range, layout, alloc_gran) as usize,
                    (search_end(range, alloc_gran) as usize - search_start(
                        range,
                        layout,
                        alloc_gran,
                    ) as usize) as usize,
                    Some(regions),
                )
                &&& forall|i: int|
                    0 <= i < regions@.len() ==> clear_of(
                        (#[trigger] regions@[i])->0,
                        ptr.user_base,
                        layout.size,
                        alloc_gran,
                    )
            },
{
    let start = search_start(range, layout, alloc_gran) as usize;
    let end = search_end(range, alloc_gran) as usize;
    let size = (end - start) as usize;
    let answer = choose|answer: Option<Vec<Option<Range<usize>>>>| #[trigger]
        call_ensures(query_used, (start, size), answer) && match answer {
            Some(regions) => searched(
                alloc_rwx,
                regions@,
                start,
                end,
                range,
                layout,
                alloc_gran,
                Ok(ptr),
            ),
            None => false,
        };
    let regions = answer->0;
    assert(os_reports(start, size, Some(regions)));
    law_memory_obtained_was_unused(
        alloc_rwx,
        regions@,
        start,
        end,
        range,
        layout,
        alloc_gran,
        ptr,
    );
}

/// Windows allocates in multiples of 65536 bytes, whatever its page size, and other systems in
/// multiples of their page size, if that is a power of two.
pub proof fn law_granularity_of_systems(page_size: usize, windows: bool, r: Option<usize>)
    requires
        call_ensures(allocation_granularity, (page_size, windows), r),
    ensures
        windows ==> r == Some(65536usize),
        !windows && power2::is_pow2(page_size as int) ==> r == Some(page_size),
        !windows && !power2::is_pow2(page_size as int) ==> r is None,
{
}

/// A region that was reported is used from its base up to its size above that, or up to the end
/// of the address space. Reports and ranges are in the same order, and an error has no range.
pub proof fn law_used_ranges_are_as_reported(
    regions: Vec<Result<(usize, usize, usize), String>>,
    r: Vec<Option<Range<usize>>>,
    i: int,
)
    requires
        call_ensures(used_ranges, (&regions,), r),
        0 <= i < regions@.len(),
    ensures
        r@.len() == regions@.len(),
        r@[i] is Some <==> regions@[i] is Ok,
        regions@[i] matches Ok(report) ==> {
            &&& r@[i]->0.start == report.0
            &&& r@[i]->0.end == if report.0 + report.1 <= usize::MAX {
                report.0 + report.1
            } else {
                usize::MAX as int
            }
        },
{
}

/// A span covers bytes if and only if it starts no higher than they start and ends no lower than
/// they end.
pub proof fn law_span_covers_bytes(span: Range<usize>, base: usize, size: usize, r: bool)
    requires
        call_ensures(covers_block, (&span, base, size), r),
    ensures
        r <==> span.start <= base && base + size <= span.end,
{
}

/// The first address at which a layout fits a range is a multiple of the alignment at or above
/// the start of the range, and less than the alignment above it. There is one if and only if the
/// layout, from there, does not exceed the range; a range up to the end of the address space is
/// not exceeded.
pub proof fn law_first_fit_is_the_lowest(range: Range<usize>, layout: Layout, r: Option<usize>)
    requires
        layout.valid(),
        call_ensures(first_fit, (&range, layout), r),
    ensures
        r matches Some(start) ==> {
            &&& start as int % layout.align as int == 0
            &&& range.start <= start < range.start + layout.align
            &&& start + layout.size <= range.end || range.end == usize::MAX
        },
        r is Some <==> exists|y: int|
            {
                &&& #[trigger] (y % layout.align as int) == 0
                &&& range.start <= y <= usize::MAX
                &&& y + layout.size <= range.end || range.end == usize::MAX
            },
{
    arith::lemma_pow2_positive(layout.align as int);
    arith::lemma_align_up(range.start as int, layout.align as int);
    block::law_fits_iff_there_is_an_aligned_address(range, layout);
}

/// Used regions are looked for from the greatest multiple of the granularity at or below the
/// first aligned address of the range up to the least one at or above its end, or the last one in
/// the address space.
pub proof fn law_search_covers_the_range(range: Range<usize>, layout: Layout, alloc_gran: int)
    requires
        layout.valid(),
        power2::is_pow2(alloc_gran),
        alloc_gran <= usize::MAX,
    ensures
        ({
            let start = search_start(range, layout, alloc_gran);
            let end = search_end(range, alloc_gran);
            &&& start % alloc_gran == 0
            &&& end % alloc_gran == 0
            &&& exists|first: int|
                {
                    &&& #[trigger] (first % layout.align as int) == 0
                    &&& range.start <= first < range.start + layout.align
                    &&& start <= first < start + alloc_gran
                }
            &&& range.end + alloc_gran - 1 <= usize::MAX ==> range.end <= end < range.end
                + alloc_gran
            &&& range.end + alloc_gran - 1 > usize::MAX ==> end <= usize::MAX < end + alloc_gran
        }),
{
    arith::lemma_pow2_positive(layout.align as int);
    arith::lemma_pow2_positive(alloc_gran);
    let first = arith::align_up(range.start as int, layout.align as int);
    arith::lemma_align_up(range.start as int, layout.align as int);
    arith::lemma_align_down(first, alloc_gran);
    let last = range.end + alloc_gran - 1;
    arith::lemma_align_down(
        if last <= usize::MAX {
            last
        } else {
            usize::MAX as int
        },
        alloc_gran,
    );
    assert(first % layout.align as int == 0);
}

/// An address is found in a gap if and only if there is one that is aligned and from which the
/// layout lies in the range and between two multiples `low` and `high` of the granularity that
/// lie in the gap; and the one that is found is the lowest.
pub proof fn law_gap_yields_its_lowest_address(
    gap: Range<usize>,
    range: Range<usize>,
    layout: Layout,
    alloc_gran: usize,
    r: Option<usize>,
    addr: int,
    low: int,
    high: int,
)
    requires
        layout.valid(),
        power2::is_pow2(alloc_gran as int),
        call_ensures(find_in_gap, (gap, range, layout, alloc_gran), r),
    ensures
        r matches Some(base) ==> {
            &&& base as int % layout.align as int == 0
            &&& range.start <= base
            &&& base + layout.size <= range.end
            &&& exists|low: int, high: int|
                {
                    &&& #[trigger] (low % alloc_gran as int) == 0
                    &&& #[trigger] (high % alloc_gran as int) == 0
                    &&& gap.start <= low <= base
                    &&& base + layout.size <= high <= gap.end
                }
        },
        addr % layout.align as int == 0 && range.start <= addr && addr + layout.size <= range.end
            && low % alloc_gran as int == 0 && high % alloc_gran as int == 0 && gap.start <= low
            <= addr && addr + layout.size <= high <= gap.end ==> (r matches Some(base) && base
            <= addr),
{
    let gran = alloc_gran as int;
    law_lowest_address_is_found(gap, range, layout, gran, addr);
    arith::lemma_pow2_positive(gran);
    arith::lemma_align_up(gap.start as int, gran);
    arith::lemma_align_down(gap.end as int, gran);
    let (a, b) = (
        arith::align_up(gap.start as int, gran),
        arith::align_down(gap.end as int, gran),
    );
    assert(a % gran == 0 && b % gran == 0);
}

/// The gap that the free addresses `low..high` lie in: the first one that ends no lower than they
/// do. It starts no higher than they do.
proof fn lemma_gap_of(
    regions: Seq<Option<Range<usize>>>,
    start: usize,
    end: usize,
    low: int,
    high: int,
    k: int,
) -> (n: int)
    requires
        ordered(regions),
        0 <= k <= regions.len(),
        start <= low < high <= end,
        forall|i: int|
            0 <= i < regions.len() ==> ((#[trigger] regions[i])->0.end <= low || high
                <= regions[i]->0.start),
        forall|i: int| 0 <= i < k ==> (#[trigger] regions[i])->0.end <= low,
    ensures
        0 <= n <= regions.len(),
        gap_before(regions, start, end, n).start <= low,
        high <= gap_before(regions, start, end, n).end,
        forall|i: int| 0 <= i < n ==> (#[trigger] regions[i])->0.end <= low,
    decreases regions.len() - k,
{
    if k == regions.len() {
        if k > 0 {
            assert(regions[k - 1]->0.end <= low);
        }
        k
    } else if regions[k]->0.end <= low {
        lemma_gap_of(regions, start, end, low, high, k + 1)
    } else {
        assert(high <= regions[k]->0.start);
        if k > 0 {
            assert(regions[k - 1]->0.end <= low);
        }
        k
    }
}

/// A search among used regions in ascending order, none of which overlap, finds every address
/// that can be had, the lowest first. If there is an address that is aligned, from which the
/// layout lies in the range and between two multiples `low` and `high` of the granularity that
/// lie in the part that was searched, and no used region overlaps what is between these, and if
/// memory is never refused, then the search succeeds, and at no higher address.
pub proof fn law_search_finds_every_free_address<
    H,
    F: Fn(usize, usize) -> Option<(Range<usize>, H)>,
>(
    alloc: RegionNearAlloc,
    regions: Vec<Option<Range<usize>>>,
    start: usize,
    end: usize,
    range: Range<usize>,
    layout: Layout,
    alloc_gran: usize,
    alloc_at: &F,
    r: Result<Ptr<H>, AllocError>,
    addr: int,
    low: int,
    high: int,
)
    requires
        layout.valid(),
        layout.size != 0,
        power2::is_pow2(alloc_gran as int),
        call_ensures(
            RegionNearAlloc::alloc_in_gaps::<H, F>,
            (&alloc, &regions, start, end, range, layout, alloc_gran, alloc_at),
            r,
        ),
        forall|i: int|
            0 <= i < regions@.len() ==> (#[trigger] regions@[i] matches Some(region)
                && region.start <= region.end),
        forall|i: int, j: int|
            0 <= i < j < regions@.len() ==> (#[trigger] regions@[i])->0.end <= (
            #[trigger] regions@[j])->0.start,
        forall|base: usize, outcome: Option<(Range<usize>, H)>| #[trigger]
            call_ensures(alloc_at, (base, layout.size), outcome) ==> (outcome matches Some(
                (span, _),
            ) && span.start <= base && base + layout.size <= span.end),
        addr % layout.align as int == 0,
        range.start <= addr,
        addr + layout.size <= range.end,
        low % alloc_gran as int == 0,
        high % alloc_gran as int == 0,
        start <= low <= addr,
        addr + layout.size <= high <= end,
        forall|i: int|
            0 <= i < regions@.len() ==> ((#[trigger] regions@[i])->0.end <= low || high
                <= regions@[i]->0.start),
    ensures
        r matches Ok(ptr) && ptr.user_base <= addr,
{
    let gran = alloc_gran as int;
    assert(ordered(regions@));
    let k = lemma_gap_of(regions@, start, end, low, high, 0);
    let gap = gap_before(regions@, start, end, k);
    arith::lemma_pow2_positive(gran);
    arith::lemma_align_up(gap.start as int, gran);
    arith::lemma_align_down(gap.end as int, gran);
    law_lowest_address_is_found(gap, range, layout, gran, addr);
    assert(usable(addr, gap, range, layout, gran));
    let base = gap_base(gap, range, layout, gran)->0;
    assert forall|base: usize| !alloc_failed(*alloc_at, base, layout.size) by {}
    law_grantable_gap_suffices(
        *alloc_at,
        regions@,
        start,
        end,
        range,
        layout,
        gran,
        r,
        k,
    );
    let ptr = r->Ok_0;
    let n = choose|n: int|
        {
            &&& 0 <= n <= regions@.len()
            &&& #[trigger] gaps_failed(*alloc_at, regions@, start, end, range, layout, gran, n)
            &&& gap_base(gap_before(regions@, start, end, n), range, layout, gran) == Some(
                ptr.user_base,
            )
        };
    if k < n {
        assert(regions@[k] is Some);
        assert(gap_failed(*alloc_at, gap, range, layout, gran));
        assert(!alloc_failed(*alloc_at, base, layout.size));
    } else if n < k {
        let found = gap_before(regions@, start, end, n);
        arith::lemma_align_up(found.start as int, gran);
        arith::lemma_align_down(found.end as int, gran);
        law_lowest_address_is_found(found, range, layout, gran, addr);
        assert(regions@[n]->0.end <= low);
        assert(regions@[n]->0.start <= regions@[n]->0.end);
    }
}

/// What a search asks for and what it makes of the answers, given by two functions. The used
/// regions are asked for from a multiple of the granularity on, over the bytes up to the end of
/// the search. If that meets an error, so does the allocation. Memory that is returned is memory
/// that was allocated at that very address, and covers the layout.
pub proof fn law_allocation_asks_for_the_used_regions<H, Q, F>(
    alloc: RegionNearAlloc,
    range: Range<usize>,
    layout: Layout,
    alloc_gran: usize,
    query: Q,
    alloc_at: F,
    r: Result<Ptr<H>, AllocError>,
    y: int,
) where
    Q: Fn(usize, usize) -> Option<Vec<Option<Range<usize>>>>,
    F: Fn(usize, usize) -> Option<(Range<usize>, H)>,

    requires
        layout.valid(),
        power2::is_pow2(alloc_gran as int),
        call_ensures(
            RegionNearAlloc::alloc_within_with::<H, Q, F>,
            (&alloc, range, layout, alloc_gran, query, alloc_at),
            r,
        ),
        y % layout.align as int == 0,
        range.start <= y,
        y + layout.size <= range.end,
    ensures
        exists|answer: Option<Vec<Option<Range<usize>>>>, start: usize, end: usize|
            {
                &&& #[trigger] call_ensures(query, (start, (end - start) as usize), answer)
                &&& start == search_start(range, layout, alloc_gran as int)
                &&& end == search_end(range, alloc_gran as int)
                &&& answer is None ==> r == Err::<Ptr<H>, AllocError>(AllocError::OsError)
                &&& (answer matches Some(regions) && regions@.len() == 0) ==> match r {
                    Ok(ptr) => gap_base(
                        Range { start, end },
                        range,
                        layout,
                        alloc_gran as int,
                    ) == Some(ptr.user_base),
                    Err(AllocError::NoSuitableRegion) => gap_base(
                        Range { start, end },
                        range,
                        layout,
                        alloc_gran as int,
                    ) is None,
                    Err(e) => e == AllocError::OsError,
                }
            },
        r matches Ok(ptr) ==> exists|span: Range<usize>|
            {
                &&& #[trigger] call_ensures(
                    alloc_at,
                    (ptr.user_base, layout.size),
                    Some((span, ptr.alloc_handle@)),
                )
                &&& span.start <= ptr.user_base
                &&& ptr.user_base + layout.size <= span.end
            },
        r matches Err(e) ==> e == AllocError::OsError || e == AllocError::NoSuitableRegion,
{
    block::law_fits_iff_there_is_an_aligned_address(range, layout);
    assert(block::fits(range, layout)) by {
        assert(y % layout.align as int == 0);
    }
    arith::lemma_pow2_positive(alloc_gran as int);
    arith::lemma_pow2_positive(layout.align as int);
    lemma_search_is_ordered(range, layout, alloc_gran as int);
    let start = search_start(range, layout, alloc_gran as int) as usize;
    let end = search_end(range, alloc_gran as int) as usize;
    let size = (end - start) as usize;
    let answer = choose|answer: Option<Vec<Option<Range<usize>>>>| #[trigger]
        call_ensures(query, (start, size), answer) && match answer {
            Some(regions) => searched(
                alloc_at,
                regions@,
                start,
                end,
                range,
                layout,
                alloc_gran as int,
                r,
            ),
            None => r == Err::<Ptr<H>, AllocError>(AllocError::OsError),
        };
    assert(call_ensures(query, (start, (end - start) as usize), answer));
    if let Some(regions) = answer {
        if regions@.len() == 0 {
            assert(gap_before(regions@, start, end, 0) == (Range { start, end }));
        }
    }
}

/// Memory is asked for from the operating system itself: the used regions by the query of the
/// very bytes that are searched, and the memory with the right to read, write and execute.
proof fn law_the_system_is_asked(
    start: usize,
    size: usize,
    used: Option<Vec<Option<Range<usize>>>>,
    granted: Option<(Range<usize>, region::Allocation)>,
)
    requires
        call_ensures(query_used, (start, size), used),
        call_ensures(alloc_rwx, (start, size), granted),
    ensures
        exists|answer: Result<Vec<Result<(usize, usize, usize), String>>, String>| #[trigger]
            call_ensures(native::query_range, (start, size), answer) && (used is Some
                <==> answer is Ok),
        call_ensures(native::alloc_at, (start, size, 7usize), granted),
{
    assert(Protection::READ_WRITE_EXECUTE.spec_bits() == 7);
}

/// An allocation in multiples of a granularity is a search among the used regions that the
/// operating system reports, with memory that it grants.
proof fn law_granules_are_searched_in_the_system(
    alloc: RegionNearAlloc,
    range: Range<usize>,
    layout: Layout,
    alloc_gran: usize,
    r: Result<Ptr<region::Allocation>, AllocError>,
    y: int,
)
    requires
        layout.valid(),
        power2::is_pow2(alloc_gran as int),
        call_ensures(
            RegionNearAlloc::alloc_within_granules,
            (&alloc, range, layout, alloc_gran),
            r,
        ),
        y % layout.align as int == 0,
        range.start <= y,
        y + layout.size <= range.end,
    ensures
        exists|answer: Option<Vec<Option<Range<usize>>>>, start: usize, end: usize|
            {
                &&& #[trigger] call_ensures(query_used, (start, (end - start) as usize), answer)
                &&& start == search_start(range, layout, alloc_gran as int)
                &&& end == search_end(range, alloc_gran as int)
                &&& answer is None ==> r == Err::<Ptr<region::Allocation>, AllocError>(
                    AllocError::OsError,
                )
                &&& answer matches Some(regions) ==> searched(
                    alloc_rwx,
                    regions@,
                    start,
                    end,
                    range,
                    layout,
                    alloc_gran as int,
                    r,
                )
            },
        r matches Ok(ptr) ==> exists|span: Range<usize>|
            {
                &&& #[trigger] call_ensures(
                    alloc_rwx,
                    (ptr.user_base, layout.size),
                    Some((span, ptr.alloc_handle@)),
                )
                &&& span.start <= ptr.user_base
                &&& ptr.user_base + layout.size <= span.end
            },
{
    block::law_fits_iff_there_is_an_aligned_address(range, layout);
    assert(block::fits(range, layout)) by {
        assert(y % layout.align as int == 0);
    }
    arith::lemma_pow2_positive(alloc_gran as int);
    arith::lemma_pow2_positive(layout.align as int);
    lemma_search_is_ordered(range, layout, alloc_gran as int);
    let start = search_start(range, layout, alloc_gran as int) as usize;
    let end = search_end(range, alloc_gran as int) as usize;
    let size = (end - start) as usize;
    let answer = choose|answer: Option<Vec<Option<Range<usize>>>>| #[trigger]
        call_ensures(query_used, (start, size), answer) && match answer {
            Some(regions) => searched(
                alloc_rwx,
                regions@,
                start,
                end,
                range,
                layout,
                alloc_gran as int,
                r,
            ),
            None => r == Err::<Ptr<region::Allocation>, AllocError>(AllocError::OsError),
        };
    assert(call_ensures(query_used, (start, (end - start) as usize), answer));
}

/// Whether an address is aligned, and the layout lies, from there, in a range and between two
/// multiples of the granularity in the part that is searched.
pub open spec fn obtainable(
    addr: int,
    low: int,
    high: int,
    part: Range<usize>,
    range: Range<usize>,
    layout: Layout,
    alloc_gran: int,
) -> bool {
    &&& addr % layout.align as int == 0
    &&& range.start <= addr
    &&& addr + layout.size <= range.end
    &&& low % alloc_gran == 0
    &&& high % alloc_gran == 0
    &&& part.start <= low <= addr
    &&& addr + layout.size <= high <= part.end
}

/// A search fails for want of a region if there is none: if no used region was an error, they are
/// in ascending order and touch the part that was searched, and every aligned address from which
/// the layout lies in the range and between two multiples of the granularity in that part has a
/// used region that overlaps what is between these.
pub proof fn law_search_fails_without_a_free_address<
    H,
    F: Fn(usize, usize) -> Option<(Range<usize>, H)>,
>(
    alloc: RegionNearAlloc,
    regions: Vec<Option<Range<usize>>>,
    start: usize,
    end: usize,
    range: Range<usize>,
    layout: Layout,
    alloc_gran: usize,
    alloc_at: &F,
    r: Result<Ptr<H>, AllocError>,
)
    requires
        layout.valid(),
        layout.size != 0,
        power2::is_pow2(alloc_gran as int),
        call_ensures(
            RegionNearAlloc::alloc_in_gaps::<H, F>,
            (&alloc, &regions, start, end, range, layout, alloc_gran, alloc_at),
            r,
        ),
        forall|i: int|
            0 <= i < regions@.len() ==> (#[trigger] regions@[i] matches Some(region)
                && region.start <= region.end && start <= region.end && region.start <= end),
        forall|i: int, j: int|
            0 <= i < j < regions@.len() ==> (#[trigger] regions@[i])->0.end <= (
            #[trigger] regions@[j])->0.start,
        forall|addr: int, low: int, high: int| #[trigger]
            obtainable(addr, low, high, start..end, range, layout, alloc_gran as int)
                ==> exists|i: int|
                0 <= i < regions@.len() && (#[trigger] regions@[i])->0.end > low
                    && regions@[i]->0.start < high,
    ensures
        r == Err::<Ptr<H>, AllocError>(AllocError::NoSuitableRegion),
{
    let gran = alloc_gran as int;
    assert(ordered(regions@));
    assert forall|n: int| 0 <= n <= regions@.len() implies #[trigger] gap_base(
        gap_before(regions@, start, end, n),
        range,
        layout,
        gran,
    ) is None by {
        let gap = gap_before(regions@, start, end, n);
        if let Some(base) = gap_base(gap, range, layout, gran) {
            arith::lemma_pow2_positive(gran);
            arith::lemma_pow2_positive(layout.align as int);
            law_lowest_address_is_found(gap, range, layout, gran, 0);
            arith::lemma_align_up(gap.start as int, gran);
            arith::lemma_align_down(gap.end as int, gran);
            let low = arith::align_up(gap.start as int, gran);
            let high = arith::align_down(gap.end as int, gran);
            if n > 0 {
                assert(start <= regions@[n - 1]->0.end);
            }
            if n < regions@.len() {
                assert(regions@[n]->0.start <= end);
            }
            assert(obtainable(base as int, low, high, start..end, range, layout, gran));
            let i = choose|i: int|
                0 <= i < regions@.len() && (#[trigger] regions@[i])->0.end > low
                    && regions@[i]->0.start < high;
            if i < n {
                assert(regions@[i]->0.end <= regions@[n - 1]->0.end) by {
                    assert(regions@[n - 1]->0.start <= regions@[n - 1]->0.end);
                }
            } else {
                assert(regions@[n]->0.start <= regions@[i]->0.start) by {
                    assert(regions@[n]->0.start <= regions@[n]->0.end);
                }
            }
        }
    }
    let n = lemma_searched(*alloc_at, regions@, start, end, range, layout, gran, r);
    assert(gap_base(gap_before(regions@, start, end, n), range, layout, gran) is None);
    if n < regions@.len() {
        assert(regions@[n] is Some);
    }
}

/// A search that is refused all memory tells so if there is room behind the last used region.
pub proof fn law_refusal_behind_the_last_region_is_told<
    H,
    F: Fn(usize, usize) -> Option<(Range<usize>, H)>,
>(
    alloc: RegionNearAlloc,
    regions: Vec<Option<Range<usize>>>,
    start: usize,
    end: usize,
    range: Range<usize>,
    layout: Layout,
    alloc_gran: usize,
    alloc_at: &F,
    r: Result<Ptr<H>, AllocError>,
    addr: int,
    low: int,
    high: int,
)
    requires
        layout.valid(),
        layout.size != 0,
        power2::is_pow2(alloc_gran as int),
        call_ensures(
            RegionNearAlloc::alloc_in_gaps::<H, F>,
            (&alloc, &regions, start, end, range, layout, alloc_gran, alloc_at),
            r,
        ),
        forall|i: int|
            0 <= i < regions@.len() ==> (#[trigger] regions@[i] matches Some(region)
                && region.start <= region.end && start <= region.end && region.start <= end),
        forall|i: int, j: int|
            0 <= i < j < regions@.len() ==> (#[trigger] regions@[i])->0.end <= (
            #[trigger] regions@[j])->0.start,
        forall|base: usize, outcome: Option<(Range<usize>, H)>| #[trigger]
            call_ensures(alloc_at, (base, layout.size), outcome) ==> outcome is None,
        addr % layout.align as int == 0,
        range.start <= addr,
        addr + layout.size <= range.end,
        low % alloc_gran as int == 0,
        high % alloc_gran as int == 0,
        start <= low <= addr,
        addr + layout.size <= high <= end,
        forall|i: int| 0 <= i < regions@.len() ==> (#[trigger] regions@[i])->0.end <= low,
    ensures
        r == Err::<Ptr<H>, AllocError>(AllocError::OsError),
{
    let gran = alloc_gran as int;
    let last = regions@.len() as int;
    let gap = gap_before(regions@, start, end, last);
    arith::lemma_pow2_positive(gran);
    arith::lemma_align_up(gap.start as int, gran);
    arith::lemma_align_down(gap.end as int, gran);
    if last > 0 {
        assert(regions@[last - 1]->0.end <= low);
    }
    law_lowest_address_is_found(gap, range, layout, gran, addr);
    assert(usable(addr, gap, range, layout, gran));
    let n = lemma_searched(*alloc_at, regions@, start, end, range, layout, gran, r);
    if n < last {
        assert(regions@[n] is Some);
    }
}

/// A search that meets an error among the used regions, and is refused all memory before that,
/// tells of an error of the system.
pub proof fn law_reported_error_ends_the_search<
    H,
    F: Fn(usize, usize) -> Option<(Range<usize>, H)>,
>(
    alloc: RegionNearAlloc,
    regions: Vec<Option<Range<usize>>>,
    start: usize,
    end: usize,
    range: Range<usize>,
    layout: Layout,
    alloc_gran: usize,
    alloc_at: &F,
    r: Result<Ptr<H>, AllocError>,
    i: int,
)
    requires
        layout.valid(),
        layout.size != 0,
        power2::is_pow2(alloc_gran as int),
        call_ensures(
            RegionNearAlloc::alloc_in_gaps::<H, F>,
            (&alloc, &regions, start, end, range, layout, alloc_gran, alloc_at),
            r,
        ),
        forall|base: usize, outcome: Option<(Range<usize>, H)>| #[trigger]
            call_ensures(alloc_at, (base, layout.size), outcome) ==> outcome is None,
        0 <= i < regions@.len(),
        regions@[i] is None,
    ensures
        r == Err::<Ptr<H>, AllocError>(AllocError::OsError),
{
    let n = lemma_searched(
        *alloc_at,
        regions@,
        start,
        end,
        range,
        layout,
        alloc_gran as int,
        r,
    );
    if i < n {
        assert(regions@[i] is Some);
    }
}

/// Where a search ended.
proof fn lemma_searched<H, F: Fn(usize, usize) -> Option<(Range<usize>, H)>>(
    alloc_at: F,
    regions: Seq<Option<Range<usize>>>,
    start: usize,
    end: usize,
    range: Range<usize>,
    layout: Layout,
    alloc_gran: int,
    r: Result<Ptr<H>, AllocError>,
) -> (n: int)
    requires
        searched(alloc_at, regions, start, end, range, layout, alloc_gran, r),
    ensures
        0 <= n <= regions.len(),
        forall|i: int| 0 <= i < n ==> #[trigger] regions[i] is Some,
        match r {
            Ok(ptr) => {
                &&& n < regions.len() ==> regions[n] is Some
                &&& gap_base(gap_before(regions, start, end, n), range, layout, alloc_gran)
                    == Some(ptr.user_base)
                &&& alloc_ok(alloc_at, ptr.user_base, layout.size, ptr.alloc_handle@)
            },
            Err(AllocError::OsError) => if n < regions.len() {
                regions[n] is None
            } else {
                gap_base(gap_before(regions, start, end, n), range, layout, alloc_gran) is Some
            },
            Err(AllocError::NoSuitableRegion) => {
                &&& n == regions.len()
                &&& gap_base(gap_before(regions, start, end, n), range, layout, alloc_gran)
                    is None
            },
            Err(_) => false,
        },
{
    let n = choose|n: int|
        {
            let gap = gap_before(regions, start, end, n);
            &&& 0 <= n <= regions.len()
            &&& #[trigger] gaps_failed(alloc_at, regions, start, end, range, layout, alloc_gran, n)
            &&& match r {
                Ok(ptr) => {
                    &&& n < regions.len() ==> regions[n] is Some
                    &&& gap_base(gap, range, layout, alloc_gran) == Some(ptr.user_base)
                    &&& alloc_ok(alloc_at, ptr.user_base, layout.size, ptr.alloc_handle@)
                },
                Err(AllocError::OsError) => if n < regions.len() {
                    regions[n] is None
                } else {
                    &&& gap_base(gap, range, layout, alloc_gran) matches Some(base)
                    &&& alloc_failed(alloc_at, base, layout.size)
                },
                Err(AllocError::NoSuitableRegion) => {
                    &&& n == regions.len()
                    &&& gap_base(gap, range, layout, alloc_gran) is None
                },
                Err(_) => false,
            }
        };
    n
}

/// What is said of the operating system is said of the calls that are made to it.
proof fn law_statements_on_the_system_are_on_its_calls(
    addr: usize,
    size: usize,
    answer: Option<Vec<Option<Range<usize>>>>,
    handle: region::Allocation,
    page_size: usize,
    separator: char,
)
    ensures
        os_reports(addr, size, answer) <==> call_ensures(query_used, (addr, size), answer),
        os_grants(addr, size, handle) <==> exists|span: Range<usize>| #[trigger]
            call_ensures(native::alloc_at, (addr, size, 7usize), Some((span, handle)))
                && span.start <= addr && addr + size <= span.end,
        os_refuses(addr, size) <==> exists|outcome: Option<(Range<usize>, region::Allocation)>|
            #[trigger] call_ensures(native::alloc_at, (addr, size, 7usize), outcome) && (
            outcome matches Some((span, _)) ==> !(span.start <= addr && addr + size
                <= span.end)),
        os_page_size(page_size) <==> call_ensures(native::page_size, (), page_size),
        os_separator(separator) <==> call_ensures(native::main_separator, (), separator),
{
    assert(Protection::READ_WRITE_EXECUTE.spec_bits() == 7);
}

/// Memory near an address, or anywhere, is memory in the range that lies at most the displacement
/// away from the address, on both sides, or in the whole address space.
pub proof fn law_nearby_memory_is_memory_in_a_range(
    alloc: RegionNearAlloc,
    address: usize,
    displacement: usize,
    layout: Layout,
    near: Result<Ptr<region::Allocation>, AllocError>,
    anywhere: Result<Ptr<region::Allocation>, AllocError>,
)
    requires
        call_ensures(
            <RegionNearAlloc as NearAllocator>::alloc_near,
            (&alloc, address, displacement, layout),
            near,
        ),
        call_ensures(
            <RegionNearAlloc as NearAllocator>::allocate,
            (&alloc, layout),
            anywhere,
        ),
    ensures
        exists|range: Range<usize>|
            {
                &&& range.start == if displacement <= address {
                    address - displacement
                } else {
                    0
                }
                &&& range.end == if address + displacement <= usize::MAX {
                    address + displacement
                } else {
                    usize::MAX as int
                }
                &&& #[trigger] call_ensures(
                    <RegionNearAlloc as NearAllocator>::alloc_within,
                    (&alloc, range, layout),
                    near,
                )
            },
        exists|range: Range<usize>|
            range.start == 0 && range.end == usize::MAX && #[trigger] call_ensures(
                <RegionNearAlloc as NearAllocator>::alloc_within,
                (&alloc, range, layout),
                anywhere,
            ),
{
}

} // verus!
