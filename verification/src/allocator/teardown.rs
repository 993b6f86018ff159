//! What becomes of a value in allocated memory when it is no longer used.
//!
//! A value is dropped before its memory is freed. A value that is shared is dropped when the
//! last share in it is let go of, and its memory is freed when the last reference is taken off
//! its reference count; everyone who has a share lets go of it before that.
//!
//! The pointer to the memory is held together with the value, and is had only by dropping the
//! value, or by letting go of the share in it and taking the last reference.

use core::mem::ManuallyDrop;
use core::sync::atomic::{AtomicUsize, Ordering};

use vstd::prelude::*;

use super::layout::Layout;
use super::{CloneableNearAlloc, NearAllocator};

verus! {

/// One step of a teardown.
#[derive(Debug, Clone, Copy, PartialEq, Eq, Structural)]
pub enum TeardownStep {
    /// The value is dropped.
    DropValue,
    /// One is taken off the reference count.
    TakeReference,
    /// The memory of the value is given back to the allocator.
    FreeMemory,
}

/// The steps of a teardown that were taken, in order.
pub struct Steps {
    taken: Ghost<Seq<TeardownStep>>,
}

impl View for Steps {
    type V = Seq<TeardownStep>;

    closed spec fn view(&self) -> Seq<TeardownStep> {
        self.taken@
    }
}

/// The steps by which a value with one owner is torn down.
pub open spec fn owned_steps(has_memory: bool) -> Seq<TeardownStep> {
    if has_memory {
        seq![TeardownStep::DropValue, TeardownStep::FreeMemory]
    } else {
        seq![TeardownStep::DropValue]
    }
}

/// The steps by which a reference to a shared value is given up, given whether it held the last
/// share in the value, and whether it was the last on the reference count.
pub open spec fn shared_steps(last_share: bool, last_reference: bool) -> Seq<TeardownStep> {
    let dropped = if last_share {
        seq![TeardownStep::DropValue]
    } else {
        Seq::empty()
    };
    let taken = dropped.push(TeardownStep::TakeReference);
    if last_reference {
        taken.push(TeardownStep::FreeMemory)
    } else {
        taken
    }
}

/// Drop a value.
pub fn discard<T>(value: T) {
}

/// Whether a value has been dropped.
pub open spec fn discarded<T>(value: T) -> bool {
    call_ensures(discard::<T>, (value,), ())
}

/// Whether memory has been given back to the allocator.
pub open spec fn freed<A: NearAllocator>(allocator: A, ptr: A::Ptr, layout: Layout) -> bool {
    call_ensures(A::free, (&allocator, ptr, layout), ())
}

/// A value and the pointer to the memory reserved for it, if there is any.
pub struct Occupied<T, A: NearAllocator> {
    value: T,
    ptr: Option<A::Ptr>,
}

impl<T, A: NearAllocator> Occupied<T, A> {
    pub closed spec fn value(self) -> T {
        self.value
    }

    pub closed spec fn ptr(self) -> Option<A::Ptr> {
        self.ptr
    }

    pub fn new(value: T, ptr: Option<A::Ptr>) -> (r: Self)
        ensures
            r.value() == value,
            r.ptr() == ptr,
    {
        Occupied { value, ptr }
    }

    /// Borrow the value.
    pub fn get(&self) -> (r: &T)
        ensures
            *r == self.value(),
    {
        &self.value
    }

    /// Mutably borrow the value.
    pub fn get_mut(&mut self) -> (r: &mut T)
        ensures
            *r == old(self).value(),
            final(self).value() == *final(r),
            final(self).ptr() == old(self).ptr(),
    {
        &mut self.value
    }

    /// Borrow the pointer.
    pub fn memory(&self) -> (r: &Option<A::Ptr>)
        ensures
            *r == self.ptr(),
    {
        &self.ptr
    }

    /// Drop the value. Its memory is vacant after that.
    pub fn drop_value(self) -> (r: Vacant<A>)
        ensures
            discarded(self.value()),
            r.ptr() == self.ptr(),
            r@ == seq![TeardownStep::DropValue],
    {
        let Occupied { value, ptr } = self;
        discard(value);
        Vacant { ptr, steps: Ghost(Seq::empty().push(TeardownStep::DropValue)) }
    }
}

/// The pointer to memory in which there is no value any more, and the steps that led there.
pub struct Vacant<A: NearAllocator> {
    ptr: Option<A::Ptr>,
    steps: Ghost<Seq<TeardownStep>>,
}

impl<A: NearAllocator> View for Vacant<A> {
    type V = Seq<TeardownStep>;

    closed spec fn view(&self) -> Seq<TeardownStep> {
        self.steps@
    }
}

impl<A: NearAllocator> Vacant<A> {
    pub closed spec fn ptr(self) -> Option<A::Ptr> {
        self.ptr
    }

    /// Give the memory, if there is any, back to the allocator.
    pub fn free(self, allocator: A, layout: Layout) -> (r: Steps)
        requires
            self.ptr() is Some ==> layout.valid() && layout.size != 0,
        ensures
            match self.ptr() {
                Some(ptr) => {
                    &&& freed(allocator, ptr, layout)
                    &&& r@ == self@.push(TeardownStep::FreeMemory)
                },
                None => r@ == self@,
            },
    {
        match self.ptr {
            Some(ptr) => {
                allocator.free(ptr, layout);
                Steps { taken: Ghost(self.steps@.push(TeardownStep::FreeMemory)) }
            },
            None => Steps { taken: self.steps },
        }
    }
}

/// Calls `std::sync::Arc::into_inner`, which gives up a share in a value and returns the value if
/// no other share is left. All that is claimed is that the value which is returned, if one is, is
/// the one that was shared: whether another share is left is up to those who have one.
#[verifier::external_body]
fn into_inner<T>(share: std::sync::Arc<T>) -> (r: Option<T>)
    ensures
        r matches Some(value) ==> value == *share,
{
    std::sync::Arc::into_inner(share)
}

/// What letting go of a share in a value may give back: the value, if no other share is left.
pub closed spec fn given_back<T>(value: T, r: Option<T>) -> bool {
    exists|share: std::sync::Arc<T>| *share == value && #[trigger]
        call_ensures(into_inner::<T>, (share,), r)
}

/// A share in a value, the count of the references to it and the pointer to the memory reserved
/// for both.
pub struct Shared<T, A: CloneableNearAlloc> {
    value: std::sync::Arc<T>,
    refcnt: std::sync::Arc<AtomicUsize>,
    ptr: A::Ptr,
}

impl<T, A: CloneableNearAlloc> Shared<T, A> {
    pub closed spec fn value(self) -> T {
        *self.value
    }

    pub closed spec fn counter(self) -> AtomicUsize {
        *self.refcnt
    }

    pub closed spec fn ptr(self) -> A::Ptr {
        self.ptr
    }

    /// The first reference to a value.
    pub fn new(value: T, ptr: A::Ptr) -> (r: Self)
        ensures
            r.value() == value,
            r.ptr() == ptr,
            call_ensures(AtomicUsize::new, (1usize,), r.counter()),
    {
        Shared {
            value: std::sync::Arc::new(value),
            refcnt: std::sync::Arc::new(AtomicUsize::new(1)),
            ptr,
        }
    }

    /// Borrow the value.
    pub fn get(&self) -> (r: &T)
        ensures
            *r == self.value(),
    {
        &self.value
    }

    /// Borrow the pointer.
    pub fn memory(&self) -> (r: &A::Ptr)
        ensures
            *r == self.ptr(),
    {
        &self.ptr
    }

    /// A further reference to the value: adds one to the reference count.
    pub fn share(&self) -> (r: Self)
        ensures
            r.value() == self.value(),
            r.counter() == self.counter(),
            A::ptr_cloned(self.ptr(), r.ptr()),
            exists|prior: usize|
                call_ensures(
                    AtomicUsize::fetch_add,
                    (&self.counter(), 1usize, Ordering::Relaxed),
                    prior,
                ),
    {
        let prior: usize = self.refcnt.fetch_add(1, Ordering::Relaxed);
        assert(call_ensures(
            AtomicUsize::fetch_add,
            (&self.counter(), 1usize, Ordering::Relaxed),
            prior,
        ));
        Shared {
            value: self.value.clone(),
            refcnt: self.refcnt.clone(),
            ptr: A::clone_ptr(&self.ptr),
        }
    }

    /// Let go of the share in the value. The value is dropped if no other share is left.
    pub fn let_go(self) -> (r: Counted<A>)
        ensures
            r.counter() == self.counter(),
            r.ptr() == self.ptr(),
            given_back(self.value(), None) && r@ == Seq::<TeardownStep>::empty() || given_back(
                self.value(),
                Some(self.value()),
            ) && discarded(self.value()) && r@ == seq![TeardownStep::DropValue],
    {
        let Shared { value: share, refcnt, ptr } = self;
        match into_inner(share) {
            Some(value) => {
                discard(value);
                Counted { refcnt, ptr, steps: Ghost(Seq::empty().push(TeardownStep::DropValue)) }
            },
            None => Counted { refcnt, ptr, steps: Ghost(Seq::empty()) },
        }
    }
}

/// The count of the references to a value, one of which has no share in the value any more, and
/// the pointer to the memory reserved for the value.
pub struct Counted<A: CloneableNearAlloc> {
    refcnt: std::sync::Arc<AtomicUsize>,
    ptr: A::Ptr,
    steps: Ghost<Seq<TeardownStep>>,
}

impl<A: CloneableNearAlloc> View for Counted<A> {
    type V = Seq<TeardownStep>;

    closed spec fn view(&self) -> Seq<TeardownStep> {
        self.steps@
    }
}

impl<A: CloneableNearAlloc> Counted<A> {
    pub closed spec fn counter(self) -> AtomicUsize {
        *self.refcnt
    }

    pub closed spec fn ptr(self) -> A::Ptr {
        self.ptr
    }

    /// Take one off the reference count. Returns the number of references there were, and the
    /// memory if this was the last. The pointer is forgotten otherwise.
    pub fn take_reference(self) -> (r: (usize, Vacant<A>))
        ensures
            call_ensures(
                AtomicUsize::fetch_sub,
                (&self.counter(), 1usize, Ordering::Relaxed),
                r.0,
            ),
            r.1.ptr() == (if r.0 == 1 {
                Some(self.ptr())
            } else {
                None
            }),
            r.1@ == self@.push(TeardownStep::TakeReference),
    {
        let prior: usize = self.refcnt.fetch_sub(1, Ordering::Relaxed);
        let steps = Ghost(self.steps@.push(TeardownStep::TakeReference));
        if prior == 1 {
            (prior, Vacant { ptr: Some(self.ptr), steps })
        } else {
            let _ = ManuallyDrop::new(self.ptr);
            (prior, Vacant { ptr: None, steps })
        }
    }
}

/// What happens to a value that is shared.
pub enum SharedEvent {
    /// A reference is cloned.
    Clone,
    /// A share in the value is let go of. The value is dropped if it was the last.
    LetGo,
    /// One who has let go of a share takes one off the reference count.
    TakeReference,
    /// One who took the last reference frees the memory.
    FreeMemory,
}

/// A value that is shared, and the teardowns of it that are under way.
pub struct SharedState {
    /// The reference count.
    pub count: int,
    /// The references that have not been given up: each has a share in the value.
    pub references: int,
    /// Those that have let go of their share and are about to take one off the count.
    pub leaving: int,
    /// Those that took the last reference and are about to free the memory.
    pub freeing: int,
    /// How often the value was dropped.
    pub dropped: int,
    /// How often the memory was freed.
    pub freed: int,
}

impl SharedState {
    /// One reference, as there is to a new value.
    pub open spec fn fresh() -> SharedState {
        SharedState { count: 1, references: 1, leaving: 0, freeing: 0, dropped: 0, freed: 0 }
    }

    /// Whether something can happen.
    pub open spec fn enabled(self, event: SharedEvent) -> bool {
        match event {
            SharedEvent::Clone => self.references > 0,
            SharedEvent::LetGo => self.references > 0,
            SharedEvent::TakeReference => self.leaving > 0,
            SharedEvent::FreeMemory => self.freeing > 0,
        }
    }

    /// The state after something has happened.
    pub open spec fn step(self, event: SharedEvent) -> SharedState {
        match event {
            SharedEvent::Clone => SharedState {
                count: self.count + 1,
                references: self.references + 1,
                ..self
            },
            SharedEvent::LetGo => SharedState {
                references: self.references - 1,
                leaving: self.leaving + 1,
                dropped: if self.references == 1 {
                    self.dropped + 1
                } else {
                    self.dropped
                },
                ..self
            },
            SharedEvent::TakeReference => SharedState {
                count: self.count - 1,
                leaving: self.leaving - 1,
                freeing: if self.count == 1 {
                    self.freeing + 1
                } else {
                    self.freeing
                },
                ..self
            },
            SharedEvent::FreeMemory => SharedState {
                freeing: self.freeing - 1,
                freed: self.freed + 1,
                ..self
            },
        }
    }

    /// The state after several things have happened, in that order.
    pub open spec fn run(self, history: Seq<SharedEvent>) -> SharedState
        decreases history.len(),
    {
        if history.len() == 0 {
            self
        } else {
            self.run(history.drop_last()).step(history.last())
        }
    }

    /// Whether several things can happen in this order.
    pub open spec fn possible(self, history: Seq<SharedEvent>) -> bool
        decreases history.len(),
    {
        history.len() == 0 || (self.possible(history.drop_last()) && self.run(
            history.drop_last(),
        ).enabled(history.last()))
    }
}

/// Whatever the order in which references are cloned and given up, and however the teardowns
/// interleave: as long as there is a reference, the value is not dropped and its memory not
/// freed; the value is dropped once at most, and its memory freed once at most, after that; and
/// when nothing is left to do, both have happened once.
pub proof fn law_torn_down_once_after_the_last_reference(history: Seq<SharedEvent>)
    requires
        SharedState::fresh().possible(history),
    ensures
        ({
            let s = SharedState::fresh().run(history);
            &&& s.count == s.references + s.leaving
            &&& s.references >= 0 && s.leaving >= 0 && s.freeing >= 0
            &&& 0 <= s.freed <= s.dropped <= 1
            &&& s.references > 0 ==> s.freeing == 0 && s.dropped == 0 && s.freed == 0
            &&& s.freeing > 0 ==> s.dropped == 1 && s.freed == 0
            &&& s.references == 0 && s.leaving == 0 && s.freeing == 0 ==> s.dropped == 1
                && s.freed == 1
        }),
{
    lemma_teardown(history);
}

/// A reference that is given up while no other teardown is under way is the last in both
/// respects or in neither: either the value is dropped, then one is taken off the reference count
/// and then the memory is freed, or nothing is dropped or freed.
pub proof fn law_last_reference_tears_down(history: Seq<SharedEvent>)
    requires
        SharedState::fresh().possible(history),
        SharedState::fresh().run(history).references > 0,
        SharedState::fresh().run(history).leaving == 0,
    ensures
        ({
            let s = SharedState::fresh().run(history);
            let let_go = s.step(SharedEvent::LetGo);
            let taken = let_go.step(SharedEvent::TakeReference);
            let steps = shared_steps(let_go.dropped > s.dropped, taken.freeing > s.freeing);
            if s.references == 1 {
                steps == seq![
                    TeardownStep::DropValue,
                    TeardownStep::TakeReference,
                    TeardownStep::FreeMemory,
                ]
            } else {
                steps == seq![TeardownStep::TakeReference]
            }
        }),
{
    lemma_teardown(history);
    let s = SharedState::fresh().run(history);
    let let_go = s.step(SharedEvent::LetGo);
    let taken = let_go.step(SharedEvent::TakeReference);
    let steps = shared_steps(let_go.dropped > s.dropped, taken.freeing > s.freeing);
    if s.references == 1 {
        assert(steps =~= seq![
            TeardownStep::DropValue,
            TeardownStep::TakeReference,
            TeardownStep::FreeMemory,
        ]);
    } else {
        assert(steps =~= seq![TeardownStep::TakeReference]);
    }
}

proof fn lemma_teardown(history: Seq<SharedEvent>)
    requires
        SharedState::fresh().possible(history),
    ensures
        ({
            let s = SharedState::fresh().run(history);
            &&& s.count == s.references + s.leaving
            &&& s.references >= 0 && s.leaving >= 0 && s.freeing >= 0 && s.freed >= 0
            &&& s.dropped == if s.references == 0 {
                1int
            } else {
                0
            }
            &&& s.freeing + s.freed == if s.count == 0 {
                1int
            } else {
                0
            }
        }),
    decreases history.len(),
{
    if history.len() > 0 {
        lemma_teardown(history.drop_last());
    }
}

/// Letting go of a shared value gives back that value or nothing.
pub proof fn law_only_the_value_is_given_back<T>(value: T, r: Option<T>)
    requires
        given_back(value, r),
    ensures
        r matches Some(back) ==> back == value,
{
}

/// Memory is freed by giving the very pointer and layout back to the very allocator.
pub proof fn law_freed_memory_is_given_back<A: NearAllocator>(
    allocator: A,
    ptr: A::Ptr,
    layout: Layout,
)
    ensures
        freed(allocator, ptr, layout) <==> call_ensures(A::free, (&allocator, ptr, layout), ()),
{
}

/// A reference that is taken off the count leaves the pointer to whoever took the last one, and
/// to nobody else.
pub proof fn law_last_reference_has_the_pointer<A: CloneableNearAlloc>(
    counted: Counted<A>,
    r: (usize, Vacant<A>),
)
    requires
        call_ensures(Counted::<A>::take_reference, (counted,), r),
    ensures
        r.0 == 1 ==> r.1.ptr() == Some(counted.ptr()),
        r.0 != 1 ==> r.1.ptr() is None,
        r.1@ == counted@.push(TeardownStep::TakeReference),
{
}

/// A value with its memory is held as it is, until it is dropped; the memory, if there is any, is
/// freed after that, by the allocator and with the layout that are given. These are all the steps.
pub proof fn law_owned_value_is_torn_down<T, A: NearAllocator>(
    value: T,
    ptr: Option<A::Ptr>,
    occupied: Occupied<T, A>,
    held: &T,
    vacant: Vacant<A>,
    allocator: A,
    layout: Layout,
    steps: Steps,
)
    requires
        call_ensures(Occupied::<T, A>::new, (value, ptr), occupied),
        call_ensures(Occupied::<T, A>::get, (&occupied,), held),
        call_ensures(Occupied::<T, A>::drop_value, (occupied,), vacant),
        call_ensures(Vacant::<A>::free, (vacant, allocator, layout), steps),
    ensures
        *held == value,
        discarded(value),
        steps@[0] == TeardownStep::DropValue,
        ptr is None ==> steps@.len() == 1,
        ptr matches Some(ptr) ==> {
            &&& steps@.len() == 2
            &&& steps@[1] == TeardownStep::FreeMemory
            &&& call_ensures(A::free, (&allocator, ptr, layout), ())
        },
{
}

/// A value that is shared is the same for everyone who has a share, and is counted once for each.
/// Letting go of a share leaves the count and the pointer alone.
pub proof fn law_shares_are_of_one_value<T, A: CloneableNearAlloc>(
    value: T,
    ptr: A::Ptr,
    first: Shared<T, A>,
    second: Shared<T, A>,
    held: &T,
    counted: Counted<A>,
)
    requires
        call_ensures(Shared::<T, A>::new, (value, ptr), first),
        call_ensures(Shared::<T, A>::share, (&first,), second),
        call_ensures(Shared::<T, A>::get, (&second,), held),
        call_ensures(Shared::<T, A>::let_go, (second,), counted),
    ensures
        *held == value,
        first.ptr() == ptr,
        A::ptr_cloned(ptr, second.ptr()),
        second.counter() == first.counter(),
        counted.counter() == first.counter(),
        counted.ptr() == second.ptr(),
        counted@.len() == 0 || (counted@ == seq![TeardownStep::DropValue] && discarded(value)),
{
}

} // verus!
