//! Reference-counted values in near-allocated memory.

use core::sync::atomic::{AtomicUsize, Ordering};

use vstd::prelude::*;
use vstd::std_specs::cmp::{PartialEqSpec, PartialEqSpecImpl, PartialOrdSpec, PartialOrdSpecImpl};

use super::layout::Layout;
use super::teardown;
use super::teardown::{Shared, Steps, TeardownStep};
use super::{AllocError, AsMutPtr, CloneableNearAlloc, Constrained, NearAllocator};

verus! {

/// What the memory is reserved for: a value and the number of references to it.
pub struct ArcData<T> {
    pub value: T,
    pub refcnt: AtomicUsize,
}

/// Atomically reference counted value together with the memory reserved for it by a
/// [`CloneableNearAlloc`].
///
/// This is similar to the standard library's `Arc` type, except that it does not
/// support weak references.
#[must_use]
pub struct Arc<T, A: CloneableNearAlloc> {
    content: Shared<T, A>,
    allocator: A,
}

impl<T, A: CloneableNearAlloc> Arc<T, A> {
    /// The value.
    pub closed spec fn value(self) -> T {
        self.content.value()
    }

    /// The reference count.
    pub closed spec fn counter(self) -> AtomicUsize {
        self.content.counter()
    }

    /// The memory reserved for the value and its reference count.
    pub closed spec fn reserved(self) -> A::Ptr {
        self.content.ptr()
    }

    /// The allocator that reserved the memory.
    pub closed spec fn allocator(self) -> A {
        self.allocator
    }

    /// The value and its reference count have a size.
    pub open spec fn wf(self) -> bool {
        vstd::layout::size_of::<ArcData<T>>() != 0
    }

    /// What giving up this reference does, given the number of references before that and what
    /// letting go of the value gave back: the value is dropped if it was given back, and nothing
    /// else drops it; after that one is taken off the reference count; and after that the memory
    /// is freed if this was the last reference, and not otherwise.
    pub open spec fn given_up(
        self,
        prior: usize,
        back: Option<T>,
        steps: Seq<TeardownStep>,
    ) -> bool {
        &&& teardown::given_back(self.value(), back)
        &&& back matches Some(value) ==> value == self.value() && teardown::discarded(value)
        &&& prior == 1 ==> teardown::freed(
            self.allocator(),
            self.reserved(),
            Layout::spec_for::<ArcData<T>>(),
        )
        &&& steps == teardown::shared_steps(back is Some, prior == 1)
    }

    /// Try to allocate `value` in a specific near allocator.
    ///
    /// Allocation constraints are specified in the [`Constrained`] wrapper.
    ///
    /// # Errors
    /// Fails if `allocator` fails to allocate memory.
    pub fn try_new(value: T, allocator: Constrained<A>) -> (r: Result<Self, AllocError>)
        ensures
            vstd::layout::size_of::<ArcData<T>>() != 0 ==> allocator.may_return(
                Layout::spec_for::<ArcData<T>>(),
                match r {
                    Ok(arc) => Ok(arc.reserved()),
                    Err(e) => Err(e),
                },
            ),
            r matches Ok(arc) ==> {
                &&& arc.wf()
                &&& arc.value() == value
                &&& arc.allocator() == allocator.inner()
                &&& call_ensures(AtomicUsize::new, (1usize,), arc.counter())
                &&& super::placed(
                    arc.reserved().addr(),
                    allocator.constraint().range(),
                    Layout::spec_for::<ArcData<T>>(),
                )
            },
    {
        let layout = Layout::new::<ArcData<T>>();
        if layout.size == 0 {
            // not reached: a reference count has a size
            return Err(AllocError::UnsupportedLayout);
        }
        match allocator.allocate(layout) {
            Ok(ptr) => Ok(
                Arc { content: Shared::new(value, ptr), allocator: allocator.into_inner() },
            ),
            Err(e) => Err(e),
        }
    }

    /// Allocate `value` in a specific near allocator, which must not fail.
    ///
    /// Allocation constraints are specified in the [`Constrained`] wrapper.
    pub fn new(value: T, allocator: Constrained<A>) -> (r: Self)
        requires
            vstd::layout::size_of::<ArcData<T>>() != 0,
            forall|outcome: Result<A::Ptr, AllocError>|
                allocator.may_return(Layout::spec_for::<ArcData<T>>(), outcome)
                    ==> outcome is Ok,
        ensures
            r.wf(),
            r.value() == value,
            r.allocator() == allocator.inner(),
            call_ensures(AtomicUsize::new, (1usize,), r.counter()),
            allocator.may_return(Layout::spec_for::<ArcData<T>>(), Ok(r.reserved())),
            super::placed(
                r.reserved().addr(),
                allocator.constraint().range(),
                Layout::spec_for::<ArcData<T>>(),
            ),
    {
        match Self::try_new(value, allocator) {
            Ok(arc) => arc,
            Err(e) => vstd::pervasive::unreached(),
        }
    }

    /// Get the address of the memory reserved for the value and its reference count.
    pub fn data(&self) -> (r: usize)
        ensures
            r == self.reserved().addr(),
    {
        self.content.memory().as_mut_ptr()
    }

    /// Borrow the value.
    pub fn as_ref(&self) -> (r: &T)
        ensures
            *r == self.value(),
    {
        self.content.get()
    }

    /// Give up this reference: let go of the value, which is dropped if nobody else has it, take
    /// one off the reference count and, if this was the last reference, give the memory back to
    /// the allocator. Returns the number of references there were, this one counted, and the
    /// steps that were taken.
    pub fn release(self) -> (r: (usize, Steps))
        requires
            self.wf(),
        ensures
            call_ensures(
                AtomicUsize::fetch_sub,
                (&self.counter(), 1usize, Ordering::Relaxed),
                r.0,
            ),
            exists|back: Option<T>| #[trigger] self.given_up(r.0, back, r.1@),
    {
        let layout = Layout::new::<ArcData<T>>();
        let Arc { content, allocator } = self;
        let counted = content.let_go();
        let ghost back = if counted@.len() == 0 {
            None
        } else {
            Some(self.value())
        };
        let (prior, memory) = counted.take_reference();
        let steps = memory.free(allocator, layout);
        assert(steps@ =~= teardown::shared_steps(back is Some, prior == 1));
        let r = (prior, steps);
        assert(self.given_up(r.0, back, r.1@));
        r
    }

    /// Whether `copy` is a further reference to the same value.
    pub open spec fn shared(self, copy: Self) -> bool {
        &&& copy.value() == self.value()
        &&& copy.counter() == self.counter()
        &&& A::ptr_cloned(self.reserved(), copy.reserved())
        &&& cloned(self.allocator(), copy.allocator())
    }
}

impl<T, A: CloneableNearAlloc> Clone for Arc<T, A> {
    /// A further reference to the same value: adds one to the reference count.
    fn clone(&self) -> (r: Self)
        ensures
            self.shared(r),
            exists|prior: usize|
                call_ensures(
                    AtomicUsize::fetch_add,
                    (&self.counter(), 1usize, Ordering::Relaxed),
                    prior,
                ),
    {
        Arc { content: self.content.share(), allocator: self.allocator.clone() }
    }
}

impl<T, A: CloneableNearAlloc> core::ops::Deref for Arc<T, A> {
    type Target = T;

    fn deref(&self) -> (r: &T)
        ensures
            *r == self.value(),
    {
        self.content.get()
    }
}

impl<T: PartialEq, A: CloneableNearAlloc> PartialEq for Arc<T, A> {
    fn eq(&self, other: &Self) -> (r: bool) {
        *self.content.get() == *other.content.get()
    }
}

impl<T: PartialEq, A: CloneableNearAlloc> PartialEqSpecImpl for Arc<T, A> {
    open spec fn obeys_eq_spec() -> bool {
        T::obeys_eq_spec()
    }

    open spec fn eq_spec(&self, other: &Self) -> bool {
        self.value().eq_spec(&other.value())
    }
}

impl<T: Eq, A: CloneableNearAlloc> Eq for Arc<T, A> {

}

impl<T: PartialOrd, A: CloneableNearAlloc> PartialOrd for Arc<T, A> {
    fn partial_cmp(&self, other: &Self) -> (r: Option<core::cmp::Ordering>) {
        self.content.get().partial_cmp(other.content.get())
    }
}

impl<T: PartialOrd, A: CloneableNearAlloc> PartialOrdSpecImpl for Arc<T, A> {
    open spec fn obeys_partial_cmp_spec() -> bool {
        T::obeys_partial_cmp_spec()
    }

    open spec fn partial_cmp_spec(&self, other: &Self) -> Option<core::cmp::Ordering> {
        self.value().partial_cmp_spec(&other.value())
    }
}

/// A reference-counted value that is made is the very value, in memory that the allocator
/// allocated for it and its reference count, and its first reference is counted. An error of the
/// allocator is handed on.
pub proof fn law_value_is_held_in_its_memory<T, A: CloneableNearAlloc>(
    value: T,
    constrained: Constrained<A>,
    r: Result<Arc<T, A>, AllocError>,
    held: &T,
    addr: usize,
)
    requires
        vstd::layout::size_of::<ArcData<T>>() != 0,
        call_ensures(Arc::<T, A>::try_new, (value, constrained), r),
        r matches Ok(arc) ==> call_ensures(Arc::<T, A>::as_ref, (&arc,), held),
        r matches Ok(arc) ==> call_ensures(Arc::<T, A>::data, (&arc,), addr),
    ensures
        match r {
            Ok(arc) => {
                &&& *held == value
                &&& addr == arc.reserved().addr()
                &&& call_ensures(AtomicUsize::new, (1usize,), arc.counter())
                &&& constrained.may_return(Layout::spec_for::<ArcData<T>>(), Ok(arc.reserved()))
            },
            Err(e) => constrained.may_return(Layout::spec_for::<ArcData<T>>(), Err(e)),
        },
{
}

/// Giving up a reference drops the value if it was given back, which means that nobody else has
/// it, takes one off the reference count after that, and after that gives the memory back if and
/// only if there was one reference. Nothing else happens.
pub proof fn law_reference_is_given_up_in_order<T, A: CloneableNearAlloc>(
    arc: Arc<T, A>,
    r: (usize, Steps),
)
    requires
        call_ensures(Arc::<T, A>::release, (arc,), r),
    ensures
        exists|back: Option<T>|
            {
                &&& #[trigger] teardown::given_back(arc.value(), back)
                &&& back is None && r.0 != 1 ==> r.1@ == seq![TeardownStep::TakeReference]
                &&& back is None && r.0 == 1 ==> r.1@ == seq![
                    TeardownStep::TakeReference,
                    TeardownStep::FreeMemory,
                ]
                &&& back is Some && r.0 != 1 ==> r.1@ == seq![
                    TeardownStep::DropValue,
                    TeardownStep::TakeReference,
                ]
                &&& back is Some && r.0 == 1 ==> r.1@ == seq![
                    TeardownStep::DropValue,
                    TeardownStep::TakeReference,
                    TeardownStep::FreeMemory,
                ]
                &&& back matches Some(value) ==> value == arc.value() && teardown::discarded(value)
            },
        r.0 == 1 ==> call_ensures(
            A::free,
            (&arc.allocator(), arc.reserved(), Layout::spec_for::<ArcData<T>>()),
            (),
        ),
{
    let back = choose|back: Option<T>| #[trigger] arc.given_up(r.0, back, r.1@);
    assert(teardown::given_back(arc.value(), back));
    let drop_value = TeardownStep::DropValue;
    let take_reference = TeardownStep::TakeReference;
    let free_memory = TeardownStep::FreeMemory;
    if back is None && r.0 != 1 {
        assert(r.1@ =~= seq![take_reference]);
    } else if back is None {
        assert(r.1@ =~= seq![take_reference, free_memory]);
    } else if r.0 != 1 {
        assert(r.1@ =~= seq![drop_value, take_reference]);
    } else {
        assert(r.1@ =~= seq![drop_value, take_reference, free_memory]);
    }
}

/// A further reference is to the same value, under the same reference count, which is raised by
/// one, with a clone of the pointer and of the allocator.
pub proof fn law_further_reference_is_counted<T, A: CloneableNearAlloc>(
    arc: Arc<T, A>,
    copy: Arc<T, A>,
)
    requires
        call_ensures(Arc::<T, A>::clone, (&arc,), copy),
    ensures
        copy.value() == arc.value(),
        copy.counter() == arc.counter(),
        A::ptr_cloned(arc.reserved(), copy.reserved()),
        cloned(arc.allocator(), copy.allocator()),
        exists|prior: usize|
            call_ensures(
                AtomicUsize::fetch_add,
                (&arc.counter(), 1usize, Ordering::Relaxed),
                prior,
            ),
{
}

/// Reference-counted values are compared by value.
pub proof fn law_shared_values_are_compared_by_value<T: PartialEq, A: CloneableNearAlloc>(
    a: Arc<T, A>,
    b: Arc<T, A>,
)
    ensures
        PartialEqSpec::eq_spec(&a, &b) <==> a.value().eq_spec(&b.value()),
{
}

/// Reference-counted values are ordered by value.
pub proof fn law_shared_values_are_ordered_by_value<T: PartialOrd, A: CloneableNearAlloc>(
    a: Arc<T, A>,
    b: Arc<T, A>,
)
    ensures
        PartialOrdSpec::partial_cmp_spec(&a, &b) == a.value().partial_cmp_spec(&b.value()),
{
}

/// A reference-counted value that must be made is the very value.
pub proof fn law_new_reference_holds_its_value<T, A: CloneableNearAlloc>(
    value: T,
    constrained: Constrained<A>,
    arc: Arc<T, A>,
    copy: Arc<T, A>,
    held: &T,
)
    requires
        call_ensures(Arc::<T, A>::new, (value, constrained), arc),
        call_ensures(Arc::<T, A>::clone, (&arc,), copy),
        call_ensures(Arc::<T, A>::as_ref, (&copy,), held),
    ensures
        *held == value,
        arc.allocator() == constrained.inner(),
        call_ensures(AtomicUsize::new, (1usize,), arc.counter()),
{
}

/// A reference that is dereferenced yields the value.
pub proof fn law_reference_leads_to_its_value<T, A: CloneableNearAlloc>(arc: Arc<T, A>, r: &T)
    requires
        call_ensures(core::ops::Deref::deref, (&arc,), r),
    ensures
        *r == arc.value(),
{
}

} // verus!
