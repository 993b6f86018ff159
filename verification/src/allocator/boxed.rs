//! Owned values in near-allocated memory.

use vstd::prelude::*;
use vstd::std_specs::cmp::{PartialEqSpec, PartialEqSpecImpl, PartialOrdSpec, PartialOrdSpecImpl};

use super::layout::Layout;
use super::teardown;
use super::teardown::{Occupied, Steps, TeardownStep};
use super::{AllocError, AsMutPtr, Constrained, NearAllocator};

verus! {

/// An owned value together with the memory reserved for it by a [`NearAllocator`].
///
/// This has similar semantics to the standard library's `Box` type. No memory is reserved for
/// a zero-sized value.
#[must_use]
pub struct Box<T, A: NearAllocator> {
    content: Occupied<T, A>,
    allocator: A,
}

impl<T, A: NearAllocator> Box<T, A> {
    /// The value.
    pub closed spec fn value(self) -> T {
        self.content.value()
    }

    /// The memory reserved for the value, if it has a size.
    pub closed spec fn reserved(self) -> Option<A::Ptr> {
        self.content.ptr()
    }

    /// The allocator that reserved the memory.
    pub closed spec fn allocator(self) -> A {
        self.allocator
    }

    /// Memory is reserved if and only if the value has a size.
    pub open spec fn wf(self) -> bool {
        self.reserved() is Some <==> vstd::layout::size_of::<T>() != 0
    }

    /// Try to allocate `value` in a specific near allocator.
    ///
    /// Allocation constraints are specified in the [`Constrained`] wrapper.
    ///
    /// # Errors
    /// Fails if `allocator` fails to allocate memory for `value`.
    pub fn try_new(value: T, allocator: Constrained<A>) -> (r: Result<Self, AllocError>)
        ensures
            r matches Ok(b) ==> b.wf() && b.value() == value && b.allocator()
                == allocator.inner(),
            vstd::layout::size_of::<T>() == 0 ==> r is Ok,
            vstd::layout::size_of::<T>() != 0 ==> allocator.may_return(
                Layout::spec_for::<T>(),
                match r {
                    Ok(b) => Ok(b.reserved()->0),
                    Err(e) => Err(e),
                },
            ),
            r matches Ok(b) ==> (b.reserved() matches Some(ptr) ==> super::placed(
                ptr.addr(),
                allocator.constraint().range(),
                Layout::spec_for::<T>(),
            )),
    {
        let layout = Layout::new::<T>();
        if layout.size == 0 {
            return Ok(
                Box { content: Occupied::new(value, None), allocator: allocator.into_inner() },
            );
        }
        match allocator.allocate(layout) {
            Ok(ptr) => Ok(
                Box { content: Occupied::new(value, Some(ptr)), allocator: allocator.into_inner() },
            ),
            Err(e) => Err(e),
        }
    }

    /// Allocate `value` in a specific near allocator, which must not fail.
    ///
    /// Allocation constraints are specified in the [`Constrained`] wrapper.
    pub fn new(value: T, allocator: Constrained<A>) -> (r: Self)
        requires
            vstd::layout::size_of::<T>() != 0 ==> forall|outcome: Result<A::Ptr, AllocError>|
                allocator.may_return(Layout::spec_for::<T>(), outcome) ==> outcome is Ok,
        ensures
            r.wf(),
            r.value() == value,
            r.allocator() == allocator.inner(),
            r.reserved() matches Some(ptr) ==> allocator.may_return(
                Layout::spec_for::<T>(),
                Ok(ptr),
            ) && super::placed(
                ptr.addr(),
                allocator.constraint().range(),
                Layout::spec_for::<T>(),
            ),
    {
        match Self::try_new(value, allocator) {
            Ok(b) => b,
            Err(e) => vstd::pervasive::unreached(),
        }
    }

    /// The address of the value: that of the reserved memory or, for a zero-sized value, some
    /// aligned address.
    pub open spec fn address(self) -> int {
        match self.reserved() {
            Some(ptr) => ptr.addr() as int,
            None => vstd::layout::align_of::<T>() as int,
        }
    }

    /// Get the address of the allocated memory.
    pub fn as_ptr(&self) -> (r: usize)
        requires
            self.wf(),
        ensures
            r == self.address(),
            match self.reserved() {
                Some(ptr) => r == ptr.addr(),
                None => r == vstd::layout::align_of::<T>(),
            },
    {
        match self.content.memory() {
            Some(ptr) => ptr.as_mut_ptr(),
            None => core::mem::align_of::<T>(),
        }
    }

    /// Get the address of the allocated memory.
    pub fn as_mut_ptr(&mut self) -> (r: usize)
        requires
            old(self).wf(),
        ensures
            r == old(self).address(),
            *final(self) == *old(self),
    {
        self.as_ptr()
    }

    /// Borrow the value.
    pub fn as_ref(&self) -> (r: &T)
        ensures
            *r == self.value(),
    {
        self.content.get()
    }

    /// Mutably borrow the value.
    pub fn as_mut(&mut self) -> (r: &mut T)
        ensures
            *r == old(self).value(),
            final(self).value() == *final(r),
            final(self).reserved() == old(self).reserved(),
            final(self).allocator() == old(self).allocator(),
    {
        self.content.get_mut()
    }

    /// Drop the value, and after that give its memory, if it has any, back to the allocator.
    /// Returns the steps that were taken.
    pub fn release(self) -> (r: Steps)
        requires
            self.wf(),
        ensures
            r@ == teardown::owned_steps(self.reserved() is Some),
            self.reserved() is Some ==> r@ == seq![
                TeardownStep::DropValue,
                TeardownStep::FreeMemory,
            ],
            self.reserved() is None ==> r@ == seq![TeardownStep::DropValue],
            teardown::discarded(self.value()),
            self.reserved() matches Some(ptr) ==> teardown::freed(
                self.allocator(),
                ptr,
                Layout::spec_for::<T>(),
            ),
    {
        let layout = Layout::new::<T>();
        let Box { content, allocator } = self;
        let r = content.drop_value().free(allocator, layout);
        assert(r@ =~= teardown::owned_steps(self.reserved() is Some));
        r
    }
}

impl<T, A: NearAllocator> core::ops::Deref for Box<T, A> {
    type Target = T;

    fn deref(&self) -> (r: &T)
        ensures
            *r == self.value(),
    {
        self.content.get()
    }
}

impl<T: PartialEq, A: NearAllocator> PartialEq for Box<T, A> {
    fn eq(&self, other: &Self) -> (r: bool) {
        *self.content.get() == *other.content.get()
    }
}

impl<T: PartialEq, A: NearAllocator> PartialEqSpecImpl for Box<T, A> {
    open spec fn obeys_eq_spec() -> bool {
        T::obeys_eq_spec()
    }

    open spec fn eq_spec(&self, other: &Self) -> bool {
        self.value().eq_spec(&other.value())
    }
}

impl<T: Eq, A: NearAllocator> Eq for Box<T, A> {

}

impl<T: PartialOrd, A: NearAllocator> PartialOrd for Box<T, A> {
    fn partial_cmp(&self, other: &Self) -> (r: Option<core::cmp::Ordering>) {
        self.content.get().partial_cmp(other.content.get())
    }
}

impl<T: PartialOrd, A: NearAllocator> PartialOrdSpecImpl for Box<T, A> {
    open spec fn obeys_partial_cmp_spec() -> bool {
        T::obeys_partial_cmp_spec()
    }

    open spec fn partial_cmp_spec(&self, other: &Self) -> Option<core::cmp::Ordering> {
        self.value().partial_cmp_spec(&other.value())
    }
}

/// A box that is made holds the very value, in memory that the allocator allocated for a value of
/// its size and alignment, and is where that memory is. A value without a size has no memory, and
/// its box is always made, at an address that is aligned for it. An error of the allocator is
/// handed on.
pub proof fn law_box_holds_its_value_in_its_memory<T, A: NearAllocator>(
    value: T,
    constrained: Constrained<A>,
    r: Result<Box<T, A>, AllocError>,
    held: &T,
    addr: usize,
)
    requires
        call_ensures(Box::<T, A>::try_new, (value, constrained), r),
        r matches Ok(b) ==> call_ensures(Box::<T, A>::as_ref, (&b,), held),
        r matches Ok(b) ==> call_ensures(Box::<T, A>::as_ptr, (&b,), addr),
    ensures
        r is Ok ==> *held == value,
        vstd::layout::size_of::<T>() == 0 ==> (r matches Ok(b) && b.reserved() is None && addr
            == vstd::layout::align_of::<T>()),
        vstd::layout::size_of::<T>() != 0 ==> match r {
            Ok(b) => {
                &&& b.reserved() matches Some(ptr)
                &&& addr == ptr.addr()
                &&& addr as int % Layout::spec_for::<T>().align as int == 0
                &&& constrained.may_return(
                    Layout {
                        size: vstd::layout::size_of::<T>() as usize,
                        align: vstd::layout::align_of::<T>() as usize,
                    },
                    Ok(ptr),
                )
            },
            Err(e) => constrained.may_return(
                Layout {
                    size: vstd::layout::size_of::<T>() as usize,
                    align: vstd::layout::align_of::<T>() as usize,
                },
                Err(e),
            ),
        },
{
}

/// Letting go of a box drops its value and after that, if it has memory, gives that memory back
/// to the allocator of the box, with the size and alignment of the value; nothing else happens.
pub proof fn law_released_box_is_dropped_and_freed<T, A: NearAllocator>(b: Box<T, A>, steps: Steps)
    requires
        call_ensures(Box::<T, A>::release, (b,), steps),
    ensures
        teardown::discarded(b.value()),
        steps@[0] == TeardownStep::DropValue,
        b.reserved() is None ==> steps@.len() == 1,
        b.reserved() matches Some(ptr) ==> {
            &&& steps@.len() == 2
            &&& steps@[1] == TeardownStep::FreeMemory
            &&& call_ensures(
                A::free,
                (&b.allocator(), ptr, Layout::spec_for::<T>()),
                (),
            )
        },
{
}

/// Boxes are compared by their values.
pub proof fn law_boxes_are_compared_by_value<T: PartialEq, A: NearAllocator>(
    a: Box<T, A>,
    b: Box<T, A>,
)
    ensures
        PartialEqSpec::eq_spec(&a, &b) <==> a.value().eq_spec(&b.value()),
{
}

/// Boxes are ordered by their values.
pub proof fn law_boxes_are_ordered_by_value<T: PartialOrd, A: NearAllocator>(
    a: Box<T, A>,
    b: Box<T, A>,
)
    ensures
        PartialOrdSpec::partial_cmp_spec(&a, &b) == a.value().partial_cmp_spec(&b.value()),
{
}

/// A box that is dereferenced yields its value.
pub proof fn law_box_leads_to_its_value<T, A: NearAllocator>(b: Box<T, A>, r: &T)
    requires
        call_ensures(<Box<T, A> as core::ops::Deref>::deref, (&b,), r),
    ensures
        *r == b.value(),
{
}

/// A box that must be made holds the very value, at the address of its memory.
pub proof fn law_new_box_holds_its_value<T, A: NearAllocator>(
    value: T,
    constrained: Constrained<A>,
    b: Box<T, A>,
    held: &T,
)
    requires
        call_ensures(Box::<T, A>::new, (value, constrained), b),
        call_ensures(Box::<T, A>::as_ref, (&b,), held),
    ensures
        *held == value,
        b.allocator() == constrained.inner(),
        b.reserved() is Some <==> vstd::layout::size_of::<T>() != 0,
{
}

/// What is written through a box is what it holds after that, in the same memory.
pub proof fn law_box_keeps_what_is_written<T, A: NearAllocator>(
    b: &mut Box<T, A>,
    value: &mut T,
    held: &T,
    before: usize,
    after: usize,
)
    requires
        call_ensures(Box::<T, A>::as_mut, (b,), value),
        call_ensures(Box::<T, A>::as_ref, (final(b),), held),
        call_ensures(Box::<T, A>::as_ptr, (old(b),), before),
        call_ensures(Box::<T, A>::as_ptr, (final(b),), after),
    ensures
        *old(value) == old(b).value(),
        *held == *final(value),
        after == before,
{
}

} // verus!
