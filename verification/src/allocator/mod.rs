//! Read-write-execute memory allocators.
//!
//! Memory is designated by its address. An allocator reserves addresses; what is stored at
//! them is held by the types that ask for the memory.

use core::ops::Range;

use vstd::prelude::*;

use self::layout::Layout;

pub mod arc;
pub mod atomic_slab;
pub mod block;
pub mod boxed;
pub mod interleaving;
pub mod layout;
pub mod region;
pub mod slab_pool;
pub mod teardown;

verus! {

/// Allocation error describing the different failure scenarios of a [`NearAllocator`].
#[derive(Debug, Clone, Copy, PartialEq, Eq, Structural)]
pub enum AllocError {
    /// The allocator ran out of memory.
    OutOfMemory,
    /// The allocation address restrictions (e.g. within a range of addresses) could not
    /// be satisfied.
    NoSuitableRegion,
    /// The layout being allocated is not supported by the allocator (e.g. the size or
    /// alignment is too large).
    UnsupportedLayout,
    /// An operating system call (e.g. mmap/VirtualAlloc) that was required for
    /// allocation failed.
    OsError,
    /// An opaque implementation-specific error occured. Avoid using this error variant
    /// unless none of the others describe the error.
    Internal,
}

impl AllocError {
    /// Description of the error.
    pub fn message(&self) -> (r: &'static str)
        ensures
            r@ == (match *self {
                AllocError::OutOfMemory => "Out of memory"@,
                AllocError::NoSuitableRegion =>
                    "No suitable region found satisfying address restrictions"@,
                AllocError::UnsupportedLayout => "Cannot allocate the provided layout"@,
                AllocError::OsError =>
                    "A call to the operating system failed during allocation"@,
                AllocError::Internal => "Internal allocator error"@,
            }),
    {
        match *self {
            AllocError::OutOfMemory => "Out of memory",
            AllocError::NoSuitableRegion =>
                "No suitable region found satisfying address restrictions",
            AllocError::UnsupportedLayout => "Cannot allocate the provided layout",
            AllocError::OsError => "A call to the operating system failed during allocation",
            AllocError::Internal => "Internal allocator error",
        }
    }
}

/// Types which designate memory for a `T` by its address.
///
/// Unlike a conversion, this takes `self` by reference.
pub trait AsMutPtr<T> {
    /// The address that is designated.
    spec fn addr(&self) -> usize;

    /// Get the address that is designated.
    fn as_mut_ptr(&self) -> (r: usize)
        ensures
            r == self.addr(),
    ;
}

impl<T> AsMutPtr<T> for usize {
    open spec fn addr(&self) -> usize {
        *self
    }

    fn as_mut_ptr(&self) -> (r: usize) {
        *self
    }
}

/// Whether a block with the given layout, placed at `addr`, is aligned and lies within
/// `range`, whole.
pub open spec fn placed(addr: usize, range: Range<usize>, layout: Layout) -> bool {
    &&& range.start <= addr
    &&& addr + layout.size <= range.end
    &&& addr as int % layout.align as int == 0
}

/// The entire address space.
pub open spec fn anywhere() -> Range<usize> {
    Range { start: 0, end: usize::MAX }
}

/// The addresses at most `displacement` bytes away from `address`.
pub open spec fn near(address: usize, displacement: usize) -> Range<usize> {
    Range {
        start: if address >= displacement {
            (address - displacement) as usize
        } else {
            0
        },
        end: if address + displacement <= usize::MAX {
            (address + displacement) as usize
        } else {
            usize::MAX
        },
    }
}

/// Allocator that allows allocating read-write-executable memory conforming to a
/// specific [`Layout`] and within a particular address range.
pub trait NearAllocator {
    type Ptr: AsMutPtr<u8>;

    /// Allocate executable memory according to the provided [`Layout`]. All bytes of
    /// allocated storage are guaranteed to lie within `range`.
    fn alloc_within(&self, range: Range<usize>, layout: Layout) -> (r: Result<
        Self::Ptr,
        AllocError,
    >)
        requires
            layout.valid(),
            layout.size != 0,
        ensures
            r matches Ok(ptr) ==> placed(ptr.addr(), range, layout),
    ;

    /// Allocate executable memory according to the provided [`Layout`].
    ///
    /// The default implementation uses [`NearAllocator::alloc_within`] with the entire
    /// address space for `range`.
    fn allocate(&self, layout: Layout) -> (r: Result<Self::Ptr, AllocError>)
        requires
            layout.valid(),
            layout.size != 0,
        ensures
            r matches Ok(ptr) ==> placed(ptr.addr(), anywhere(), layout),
        default_ensures
            call_ensures(Self::alloc_within, (self, anywhere(), layout), r),
            exists|range: Range<usize>|
                range.start == 0 && range.end == usize::MAX && #[trigger] call_ensures(
                    Self::alloc_within,
                    (self, range, layout),
                    r,
                ),
    {
        self.alloc_within(0..usize::MAX, layout)
    }

    /// Allocate executable memory according to the provided [`Layout`]. All bytes of
    /// allocated storage will be at most `displacement` bytes away from
    /// `address`.
    ///
    /// The default implementation uses [`NearAllocator::alloc_within`] internally.
    fn alloc_near(&self, address: usize, displacement: usize, layout: Layout) -> (r: Result<
        Self::Ptr,
        AllocError,
    >)
        requires
            layout.valid(),
            layout.size != 0,
        ensures
            r matches Ok(ptr) ==> placed(ptr.addr(), near(address, displacement), layout),
        default_ensures
            call_ensures(Self::alloc_within, (self, near(address, displacement), layout), r),
            exists|range: Range<usize>|
                {
                    &&& range.start == if displacement <= address {
                        address - displacement
                    } else {
                        0
                    }
                    &&& range.end == if address + displacement <= usize::MAX {
                        address + displacement
                    } else {
                        usize::MAX as int
                    }
                    &&& #[trigger] call_ensures(Self::alloc_within, (self, range, layout), r)
                },
    {
        // minimum address at which the layout could be allocated
        let min_addr: usize = address.saturating_sub(displacement);
        // maximum address at which the end of layout could point
        let max_addr: usize = address.saturating_add(displacement);
        self.alloc_within(min_addr..max_addr, layout)
    }

    /// Free memory previously allocated through this allocator with the same `layout`.
    fn free(&self, ptr: Self::Ptr, layout: Layout)
        requires
            layout.valid(),
            layout.size != 0,
    ;

    /// Free unused memory pools held by the allocator.
    ///
    /// The default implementation does nothing.
    fn garbage_collect(&self) {
    }
}

impl<A: NearAllocator> NearAllocator for &A {
    type Ptr = A::Ptr;

    fn alloc_within(&self, range: Range<usize>, layout: Layout) -> (r: Result<
        Self::Ptr,
        AllocError,
    >)
        ensures
            call_ensures(A::alloc_within, (*self, range, layout), r),
    {
        (**self).alloc_within(range, layout)
    }

    fn allocate(&self, layout: Layout) -> (r: Result<Self::Ptr, AllocError>)
        ensures
            call_ensures(A::allocate, (*self, layout), r),
    {
        (**self).allocate(layout)
    }

    fn alloc_near(&self, address: usize, displacement: usize, layout: Layout) -> (r: Result<
        Self::Ptr,
        AllocError,
    >)
        ensures
            call_ensures(A::alloc_near, (*self, address, displacement, layout), r),
    {
        (**self).alloc_near(address, displacement, layout)
    }

    fn free(&self, ptr: Self::Ptr, layout: Layout)
        ensures
            call_ensures(A::free, (*self, ptr, layout), ()),
    {
        (**self).free(ptr, layout)
    }
}

impl<A: NearAllocator> NearAllocator for Box<A> {
    type Ptr = A::Ptr;

    fn alloc_within(&self, range: Range<usize>, layout: Layout) -> (r: Result<
        Self::Ptr,
        AllocError,
    >)
        ensures
            call_ensures(A::alloc_within, (&**self, range, layout), r),
    {
        (**self).alloc_within(range, layout)
    }

    fn allocate(&self, layout: Layout) -> (r: Result<Self::Ptr, AllocError>)
        ensures
            call_ensures(A::allocate, (&**self, layout), r),
    {
        (**self).allocate(layout)
    }

    fn alloc_near(&self, address: usize, displacement: usize, layout: Layout) -> (r: Result<
        Self::Ptr,
        AllocError,
    >)
        ensures
            call_ensures(A::alloc_near, (&**self, address, displacement, layout), r),
    {
        (**self).alloc_near(address, displacement, layout)
    }

    fn free(&self, ptr: Self::Ptr, layout: Layout)
        ensures
            call_ensures(A::free, (&**self, ptr, layout), ()),
    {
        (**self).free(ptr, layout)
    }
}

/// Where allocated memory may lie.
pub enum AllocConstraint {
    Unconstrained,
    Near { address: usize, displacement: usize },
    Within(Range<usize>),
}

impl AllocConstraint {
    /// The addresses that the constraint admits.
    pub open spec fn range(self) -> Range<usize> {
        match self {
            AllocConstraint::Unconstrained => anywhere(),
            AllocConstraint::Near { address, displacement } => near(address, displacement),
            AllocConstraint::Within(range) => range,
        }
    }
}

/// Wrapper around a [`NearAllocator`] with pre-applied allocation constraints, e.g.
/// range parameters to [`NearAllocator::alloc_within`]
pub struct Constrained<A: NearAllocator> {
    allocator: A,
    constraint: AllocConstraint,
}

impl<A: NearAllocator> From<A> for Constrained<A> {
    fn from(value: A) -> (r: Self)
        ensures
            r.inner() == value,
            r.constraint() == AllocConstraint::Unconstrained,
    {
        Constrained { allocator: value, constraint: AllocConstraint::Unconstrained }
    }
}

impl<A: NearAllocator> vstd::std_specs::convert::FromSpecImpl<A> for Constrained<A> {
    open spec fn obeys_from_spec() -> bool {
        true
    }

    closed spec fn from_spec(value: A) -> Self {
        Constrained { allocator: value, constraint: AllocConstraint::Unconstrained }
    }
}

impl<A: NearAllocator> Constrained<A> {
    /// The wrapped allocator.
    pub closed spec fn inner(self) -> A {
        self.allocator
    }

    /// The constraint on allocations.
    pub closed spec fn constraint(self) -> AllocConstraint {
        self.constraint
    }

    /// Create a constrained [`NearAllocator`] without any actual constraints.
    ///
    /// Calls to [`Self::allocate`] will defer to [`NearAllocator::allocate`].
    pub fn new(allocator: A) -> (r: Self)
        ensures
            r.inner() == allocator,
            r.constraint() == AllocConstraint::Unconstrained,
    {
        Constrained { allocator, constraint: AllocConstraint::Unconstrained }
    }

    /// Consumes self, returning the wrapped [`NearAllocator`].
    pub fn into_inner(self) -> (r: A)
        ensures
            r == self.inner(),
    {
        self.allocator
    }

    /// Create a constrained [`NearAllocator`] which guarantees that the memory
    /// of allocated values will lie within `displacement` bytes of `address`.
    ///
    /// Calls to [`Self::allocate`] will defer to [`NearAllocator::alloc_near`].
    pub fn new_near(allocator: A, address: usize, displacement: usize) -> (r: Self)
        ensures
            r.inner() == allocator,
            r.constraint() == (AllocConstraint::Near { address, displacement }),
    {
        Constrained { allocator, constraint: AllocConstraint::Near { address, displacement } }
    }

    /// Create a constrained [`NearAllocator`] which guarantees that the memory
    /// of allocated values will lie within `range`
    ///
    /// Calls to [`Self::allocate`] will defer to [`NearAllocator::alloc_within`].
    pub fn new_within(allocator: A, range: Range<usize>) -> (r: Self)
        ensures
            r.inner() == allocator,
            r.constraint() == AllocConstraint::Within(range),
    {
        Constrained { allocator, constraint: AllocConstraint::Within(range) }
    }

    /// What an allocation with this constraint may return.
    pub open spec fn may_return(self, layout: Layout, r: Result<A::Ptr, AllocError>) -> bool {
        match self.constraint() {
            AllocConstraint::Unconstrained => call_ensures(
                A::allocate,
                (&self.inner(), layout),
                r,
            ),
            AllocConstraint::Near { address, displacement } => call_ensures(
                A::alloc_near,
                (&self.inner(), address, displacement, layout),
                r,
            ),
            AllocConstraint::Within(range) => call_ensures(
                A::alloc_within,
                (&self.inner(), range, layout),
                r,
            ),
        }
    }

    /// Attempt to allocate memory from the wrapped [`NearAllocator`] given the
    /// constraints.
    pub fn allocate(&self, layout: Layout) -> (r: Result<A::Ptr, AllocError>)
        requires
            layout.valid(),
            layout.size != 0,
        ensures
            self.may_return(layout, r),
            r matches Ok(ptr) ==> placed(ptr.addr(), self.constraint().range(), layout),
            match self.constraint() {
                AllocConstraint::Unconstrained => call_ensures(
                    A::allocate,
                    (&self.inner(), layout),
                    r,
                ),
                AllocConstraint::Near { address, displacement } => call_ensures(
                    A::alloc_near,
                    (&self.inner(), address, displacement, layout),
                    r,
                ),
                AllocConstraint::Within(range) => call_ensures(
                    A::alloc_within,
                    (&self.inner(), range, layout),
                    r,
                ),
            },
    {
        match &self.constraint {
            AllocConstraint::Unconstrained => self.allocator.allocate(layout),
            AllocConstraint::Near { address, displacement } => self.allocator.alloc_near(
                *address,
                *displacement,
                layout,
            ),
            AllocConstraint::Within(range) => self.allocator.alloc_within(
                range.start..range.end,
                layout,
            ),
        }
    }

    /// Frees previously allocated memory.
    pub fn free(&self, ptr: A::Ptr, layout: Layout)
        requires
            layout.valid(),
            layout.size != 0,
        ensures
            call_ensures(A::free, (&self.inner(), ptr, layout), ()),
    {
        self.allocator.free(ptr, layout);
    }
}

/// Trait alias for a [`NearAllocator`] which is [`Clone`] along with its pointer type.
///
/// This is often a requirement for data structures which share the allocator, such a
/// reference-counter pointers.
pub trait CloneableNearAlloc: NearAllocator + Clone {
    /// Whether `copy` may result from cloning `ptr`.
    spec fn ptr_cloned(ptr: Self::Ptr, copy: Self::Ptr) -> bool;

    /// Clone this [`NearAllocator`]'s pointer type.
    fn clone_ptr(ptr: &Self::Ptr) -> (r: Self::Ptr)
        ensures
            Self::ptr_cloned(*ptr, r),
    ;
}

impl<A: NearAllocator + Clone> CloneableNearAlloc for A where A::Ptr: Clone {
    open spec fn ptr_cloned(ptr: Self::Ptr, copy: Self::Ptr) -> bool {
        cloned(ptr, copy)
    }

    fn clone_ptr(ptr: &Self::Ptr) -> (r: Self::Ptr) {
        ptr.clone()
    }
}

/// Every byte of memory that was placed near an address is within `displacement` bytes of it.
pub proof fn law_near_is_near(
    addr: usize,
    address: usize,
    displacement: usize,
    layout: Layout,
    byte: int,
)
    requires
        placed(addr, near(address, displacement), layout),
        addr <= byte < addr + layout.size,
    ensures
        address - displacement <= byte < address + displacement,
{
}

/// Memory is placed in a range if and only if its address is a multiple of the alignment, it
/// starts no lower than the range, and it ends no higher.
pub proof fn law_placed_memory_is_aligned_and_inside(
    addr: usize,
    range: Range<usize>,
    layout: Layout,
)
    ensures
        placed(addr, range, layout) <==> {
            &&& addr as int % layout.align as int == 0
            &&& range.start <= addr
            &&& addr + layout.size <= range.end
        },
{
}

/// Memory that may lie anywhere may lie wherever it ends in the address space.
pub proof fn law_anywhere_is_everywhere(addr: usize, size: usize)
    ensures
        anywhere().start <= addr && addr + size <= anywhere().end <==> addr + size <= usize::MAX,
{
}

/// Memory may lie near an address if and only if it starts and ends at most the displacement
/// away from it, below or above, and ends in the address space. No such place is left out.
pub proof fn law_near_reaches_both_sides(
    addr: usize,
    size: usize,
    address: usize,
    displacement: usize,
)
    ensures
        near(address, displacement).start <= addr && addr + size <= near(
            address,
            displacement,
        ).end <==> {
            &&& address - displacement <= addr
            &&& addr + size <= address + displacement
            &&& addr + size <= usize::MAX
        },
        near(address, displacement).start == if displacement <= address {
            address - displacement
        } else {
            0
        },
        near(address, displacement).end == if address + displacement <= usize::MAX {
            address + displacement
        } else {
            usize::MAX as int
        },
{
}

/// An allocation is made by the very call that the constraint stands for, with the very address
/// and displacement, or range, that the constraint was made with.
pub proof fn law_constraint_decides_the_call<A: NearAllocator>(
    constrained: Constrained<A>,
    layout: Layout,
    r: Result<A::Ptr, AllocError>,
)
    requires
        call_ensures(Constrained::<A>::allocate, (&constrained, layout), r),
    ensures
        forall|allocator: A| #[trigger]
            call_ensures(Constrained::<A>::new, (allocator,), constrained) ==> call_ensures(
                A::allocate,
                (&allocator, layout),
                r,
            ),
        forall|allocator: A, address: usize, displacement: usize| #[trigger]
            call_ensures(
                Constrained::<A>::new_near,
                (allocator, address, displacement),
                constrained,
            ) ==> call_ensures(A::alloc_near, (&allocator, address, displacement, layout), r),
        forall|allocator: A, range: Range<usize>| #[trigger]
            call_ensures(Constrained::<A>::new_within, (allocator, range), constrained)
                ==> call_ensures(A::alloc_within, (&allocator, range, layout), r),
{
}

/// Memory that was allocated under a constraint lies where the constraint says.
pub proof fn law_constraint_is_kept<A: NearAllocator>(
    constrained: Constrained<A>,
    layout: Layout,
    ptr: A::Ptr,
)
    requires
        call_ensures(Constrained::<A>::allocate, (&constrained, layout), Ok(ptr)),
    ensures
        ptr.addr() as int % layout.align as int == 0,
        ptr.addr() + layout.size <= usize::MAX,
        constrained.constraint() matches AllocConstraint::Near { address, displacement } ==> {
            &&& address - displacement <= ptr.addr()
            &&& ptr.addr() + layout.size <= address + displacement
        },
        constrained.constraint() matches AllocConstraint::Within(range) ==> {
            &&& range.start <= ptr.addr()
            &&& ptr.addr() + layout.size <= range.end
        },
{
}

/// An address designates the memory at that address.
pub proof fn law_address_designates_itself<T>(addr: usize)
    ensures
        AsMutPtr::<T>::addr(&addr) == addr,
{
}

/// Every error has its description.
pub proof fn law_errors_have_their_descriptions(
    a: AllocError,
    b: AllocError,
    x: &'static str,
    y: &'static str,
)
    requires
        call_ensures(AllocError::message, (&a,), x),
        call_ensures(AllocError::message, (&b,), y),
    ensures
        a == AllocError::OutOfMemory ==> x@ == "Out of memory"@,
        a == AllocError::NoSuitableRegion ==> x@
            == "No suitable region found satisfying address restrictions"@,
        a == AllocError::UnsupportedLayout ==> x@ == "Cannot allocate the provided layout"@,
        a == AllocError::OsError ==> x@
            == "A call to the operating system failed during allocation"@,
        a == AllocError::Internal ==> x@ == "Internal allocator error"@,
        a == b ==> x@ == y@,
{
}

/// A constrained allocator gives its allocator back, and frees memory by it.
pub proof fn law_constrained_allocator_is_the_allocator<A: NearAllocator>(
    allocator: A,
    constrained: Constrained<A>,
    back: A,
    ptr: A::Ptr,
    layout: Layout,
)
    requires
        call_ensures(Constrained::<A>::new, (allocator,), constrained) || (exists|
            address: usize,
            displacement: usize,
        | #[trigger]
            call_ensures(
                Constrained::<A>::new_near,
                (allocator, address, displacement),
                constrained,
            )) || (exists|range: Range<usize>| #[trigger]
            call_ensures(Constrained::<A>::new_within, (allocator, range), constrained)),
        call_ensures(Constrained::<A>::into_inner, (constrained,), back),
        call_ensures(Constrained::<A>::free, (&constrained, ptr, layout), ()),
    ensures
        back == allocator,
        call_ensures(A::free, (&allocator, ptr, layout), ()),
{
}

/// A reference to an allocator, or a box of one, allocates and frees by that allocator, with the
/// very arguments.
pub proof fn law_references_and_boxes_forward<A: NearAllocator>(
    allocator: &A,
    boxed: Box<A>,
    range: Range<usize>,
    address: usize,
    displacement: usize,
    layout: Layout,
    r: Result<A::Ptr, AllocError>,
    ptr: A::Ptr,
)
    ensures
        call_ensures(<&A as NearAllocator>::alloc_within, (&allocator, range, layout), r)
            ==> call_ensures(A::alloc_within, (allocator, range, layout), r),
        call_ensures(
            <&A as NearAllocator>::alloc_near,
            (&allocator, address, displacement, layout),
            r,
        ) ==> call_ensures(A::alloc_near, (allocator, address, displacement, layout), r),
        call_ensures(<&A as NearAllocator>::allocate, (&allocator, layout), r) ==> call_ensures(
            A::allocate,
            (allocator, layout),
            r,
        ),
        call_ensures(<&A as NearAllocator>::free, (&allocator, ptr, layout), ()) ==> call_ensures(
            A::free,
            (allocator, ptr, layout),
            (),
        ),
        call_ensures(<Box<A> as NearAllocator>::alloc_within, (&boxed, range, layout), r)
            ==> call_ensures(A::alloc_within, (&*boxed, range, layout), r),
        call_ensures(
            <Box<A> as NearAllocator>::alloc_near,
            (&boxed, address, displacement, layout),
            r,
        ) ==> call_ensures(A::alloc_near, (&*boxed, address, displacement, layout), r),
        call_ensures(<Box<A> as NearAllocator>::allocate, (&boxed, layout), r) ==> call_ensures(
            A::allocate,
            (&*boxed, layout),
            r,
        ),
        call_ensures(<Box<A> as NearAllocator>::free, (&boxed, ptr, layout), ()) ==> call_ensures(
            A::free,
            (&*boxed, ptr, layout),
            (),
        ),
{
}

/// An allocator that becomes a constrained one has no constraint.
pub proof fn law_allocator_becomes_unconstrained<A: NearAllocator>(
    allocator: A,
    constrained: Constrained<A>,
    layout: Layout,
    r: Result<A::Ptr, AllocError>,
)
    requires
        call_ensures(<Constrained<A> as From<A>>::from, (allocator,), constrained),
        call_ensures(Constrained::<A>::allocate, (&constrained, layout), r),
    ensures
        constrained.inner() == allocator,
        constrained.constraint() == AllocConstraint::Unconstrained,
        call_ensures(A::allocate, (&allocator, layout), r),
{
}

} // verus!
