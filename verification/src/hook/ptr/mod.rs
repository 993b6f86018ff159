//! Hooks of functions that are called through a pointer in memory, such as an entry of a
//! virtual method table or of an import address table.

use core::marker::PhantomData;

use vstd::prelude::*;

use super::{RawHook, Toggle, ToggleableHook};
use crate::error::Error;
use crate::os::access::{Memory, Write};
use crate::os::memory;
use crate::os::memory::{MemFunctions, MemProtectGuard, Protection};
use crate::os::OsErr;

pub mod builder;

verus! {

/// A pointer to a function, the function it points to and the one that is to be called in its
/// place.
pub struct RawPtrHook<M: MemFunctions> {
    pub target: usize,
    pub original: usize,
    pub hook: usize,
    /// The operating system that protects the pointer.
    pub phantom: PhantomData<M>,
}

/// The outcome of storing `new` in the pointer at `target`: the memory is made writable, the
/// pointer is replaced while it is, and then the protection of the memory is restored.
///
/// The pointer is left as it was if the memory cannot be made writable; it is replaced even if
/// the protection cannot be restored.
pub open spec fn stored<M: MemFunctions>(
    memory: Memory<M>,
    target: usize,
    new: usize,
    before: usize,
    after: usize,
    changed: Memory<M>,
    error: Option<Error>,
) -> bool {
    exists|guard: Result<MemProtectGuard, OsErr>, writable: M|
        {
            &&& #[trigger] memory::guarded(
                memory.system(),
                target,
                vstd::layout::size_of::<usize>() as usize,
                Protection::READ_WRITE,
                writable,
                guard,
            )
            &&& match guard {
                Ok(guard) => {
                    &&& after == new
                    &&& changed.writes() == memory.writes().push(
                        Write { at: writable, addr: target, before, after: new },
                    )
                    &&& match error {
                        None => memory::reverted(writable, guard@, changed.system(), Ok(())),
                        Some(Error::OsErr(e)) => memory::reverted(
                            writable,
                            guard@,
                            changed.system(),
                            Err(e),
                        ),
                    }
                },
                Err(e) => {
                    &&& after == before
                    &&& changed.writes() == memory.writes()
                    &&& changed.system() == writable
                    &&& error == Some(Error::OsErr(e))
                },
            }
        }
}

/// Whether a pointer at the target is in the address space, whole.
pub open spec fn in_address_space(target: usize) -> bool {
    target + vstd::layout::size_of::<usize>() <= usize::MAX
}

/// The error of an operation, if it met one.
pub open spec fn error_of<T>(r: Result<T, Error>) -> Option<Error> {
    match r {
        Ok(_) => None,
        Err(e) => Some(e),
    }
}

impl<M: MemFunctions> RawPtrHook<M> {
    /// Replace the pointer at the target. Returns what it was.
    pub fn swap_target(&self, memory: &mut Memory<M>, word: &mut usize, new: usize) -> (r: Result<
        usize,
        Error,
    >)
        requires
            in_address_space(self.target),
        ensures
            stored(
                *old(memory),
                self.target,
                new,
                *old(word),
                *final(word),
                *final(memory),
                error_of(r),
            ),
            r matches Ok(previous) ==> previous == *old(word) && *final(word) == new,
            r is Err ==> *final(word) == *old(word) || *final(word) == new,
    {
        let size: usize = core::mem::size_of::<usize>();
        assert(size == vstd::layout::size_of::<usize>() as usize);
        let guard = match memory.mem_protect_guard(self.target, size, Protection::READ_WRITE) {
            Ok(guard) => guard,
            Err(e) => return Err(Error::from(e)),
        };
        let previous: usize = memory.replace(self.target, word, new);
        let outcome = memory.revert(guard);
        assert(outcome is Ok ==> outcome->Ok_0 == ());
        match outcome {
            Ok(()) => Ok(previous),
            // the error is forwarded to the caller
            Err(e) => Err(Error::from(e)),
        }
    }
}

impl<M: MemFunctions> RawHook for RawPtrHook<M> {
    type Os = M;

    open spec fn valid(&self) -> bool {
        in_address_space(self.target)
    }

    open spec fn hook_word(&self) -> usize {
        self.hook
    }

    open spec fn original_word(&self) -> usize {
        self.original
    }

    open spec fn stored(
        &self,
        memory: Memory<M>,
        new: usize,
        before: usize,
        after: usize,
        changed: Memory<M>,
        r: Result<(), Error>,
    ) -> bool {
        stored(memory, self.target, new, before, after, changed, error_of(r))
    }

    fn original(&self) -> (r: usize)
        ensures
            r == self.original,
    {
        self.original
    }

    fn enable(&self, memory: &mut Memory<M>, word: &mut usize) -> (r: Result<(), Error>)
        ensures
            r is Ok ==> *final(word) == self.hook,
            *final(word) == self.hook || *final(word) == *old(word),
    {
        match self.swap_target(memory, word, self.hook) {
            Ok(_) => Ok(()),
            Err(e) => Err(e),
        }
    }

    fn disable(&self, memory: &mut Memory<M>, word: &mut usize) -> (r: Result<(), Error>)
        ensures
            r is Ok ==> *final(word) == self.original,
            *final(word) == self.original || *final(word) == *old(word),
    {
        match self.swap_target(memory, word, self.original) {
            Ok(_) => Ok(()),
            Err(e) => Err(e),
        }
    }

    fn uninstall(self, memory: &mut Memory<M>, word: &mut usize) -> (r: Result<(), Error>)
        ensures
            r is Ok ==> *final(word) == self.original,
            *final(word) == self.original || *final(word) == *old(word),
    {
        self.disable(memory, word)
    }
}

/// Enabling a hook and disabling it restores the pointer.
pub proof fn law_disable_undoes_enable<M: MemFunctions>(
    memory: Seq<Memory<M>>,
    target: usize,
    hook: usize,
    before: usize,
    enabled: usize,
    disabled: usize,
)
    requires
        memory.len() == 3,
        stored(memory[0], target, hook, before, enabled, memory[1], None),
        stored(memory[1], target, before, enabled, disabled, memory[2], None),
    ensures
        enabled == hook,
        disabled == before,
{
}

/// An operation that meets an error leaves the pointer as it was, or has replaced it: there is
/// no third outcome.
pub proof fn law_pointer_is_never_torn<M: MemFunctions>(
    memory: Memory<M>,
    target: usize,
    new: usize,
    before: usize,
    after: usize,
    changed: Memory<M>,
    error: Option<Error>,
)
    requires
        stored(memory, target, new, before, after, changed, error),
    ensures
        after == before || after == new,
        error is None ==> after == new,
{
}

/// A pointer is replaced once at most, and then in the state in which the system is after the
/// pointer was made writable and before the protection of its memory is restored.
pub proof fn law_pointer_is_replaced_while_writable<M: MemFunctions>(
    memory: Memory<M>,
    target: usize,
    new: usize,
    before: usize,
    after: usize,
    changed: Memory<M>,
    error: Option<Error>,
)
    requires
        stored(memory, target, new, before, after, changed, error),
    ensures
        changed.writes() == memory.writes() || exists|guard: MemProtectGuard, writable: M|
            {
                &&& #[trigger] memory::guarded(
                    memory.system(),
                    target,
                    vstd::layout::size_of::<usize>() as usize,
                    Protection::READ_WRITE,
                    writable,
                    Ok(guard),
                )
                &&& changed.writes() == memory.writes().push(
                    Write { at: writable, addr: target, before, after: new },
                )
                &&& exists|outcome: Result<(), OsErr>| #[trigger]
                    memory::reverted(writable, guard@, changed.system(), outcome)
            },
        error is None ==> changed.writes() != memory.writes(),
{
    let (guard, writable) = choose|guard: Result<MemProtectGuard, OsErr>, writable: M|
        {
            &&& #[trigger] memory::guarded(
                memory.system(),
                target,
                vstd::layout::size_of::<usize>() as usize,
                Protection::READ_WRITE,
                writable,
                guard,
            )
            &&& match guard {
                Ok(guard) => {
                    &&& after == new
                    &&& changed.writes() == memory.writes().push(
                        Write { at: writable, addr: target, before, after: new },
                    )
                    &&& match error {
                        None => memory::reverted(writable, guard@, changed.system(), Ok(())),
                        Some(Error::OsErr(e)) => memory::reverted(
                            writable,
                            guard@,
                            changed.system(),
                            Err(e),
                        ),
                    }
                },
                Err(e) => {
                    &&& after == before
                    &&& changed.writes() == memory.writes()
                    &&& changed.system() == writable
                    &&& error == Some(Error::OsErr(e))
                },
            }
        };
    if guard is Ok {
        assert(changed.writes().len() == memory.writes().len() + 1);
    }
}

/// A pointer at an address is in the address space, whole, if and only if its last byte is.
pub proof fn law_pointer_ends_in_the_address_space(target: usize)
    ensures
        in_address_space(target) <==> target + usize::BITS / 8 <= usize::MAX,
{
    broadcast use vstd::layout::layout_of_primitives;
    vstd::layout::unsigned_int_max_values();
}

/// Enabling a hook stores the address of the hook, whatever the hook, the original function and
/// the pointer before it. If it meets an error, the pointer is that or what it was.
pub proof fn law_enable_stores_the_hook<M: MemFunctions>(
    hook: RawPtrHook<M>,
    memory: &mut Memory<M>,
    word: &mut usize,
    r: Result<(), Error>,
)
    requires
        call_ensures(RawPtrHook::<M>::enable, (&hook, memory, word), r),
    ensures
        r is Ok ==> *final(word) == hook.hook,
        r is Err ==> *final(word) == hook.hook || *final(word) == *old(word),
{
}

/// Disabling or uninstalling a hook stores the address of the original function, whatever the
/// hook, the original function and the pointer before it. If it meets an error, the pointer is
/// that or what it was.
pub proof fn law_disable_stores_the_original<M: MemFunctions>(
    hook: RawPtrHook<M>,
    memory: &mut Memory<M>,
    word: &mut usize,
    r: Result<(), Error>,
)
    requires
        call_ensures(RawPtrHook::<M>::disable, (&hook, memory, word), r) || call_ensures(
            RawPtrHook::<M>::uninstall,
            (hook, memory, word),
            r,
        ),
    ensures
        r is Ok ==> *final(word) == hook.original,
        r is Err ==> *final(word) == hook.original || *final(word) == *old(word),
{
}

/// Replacing a pointer returns what it was and leaves the new address in it, whatever both are.
pub proof fn law_swap_exchanges_the_pointer<M: MemFunctions>(
    hook: RawPtrHook<M>,
    memory: &mut Memory<M>,
    word: &mut usize,
    new: usize,
    r: Result<usize, Error>,
)
    requires
        call_ensures(RawPtrHook::<M>::swap_target, (&hook, memory, word, new), r),
    ensures
        r matches Ok(previous) ==> previous == *old(word) && *final(word) == new,
        r is Err ==> *final(word) == *old(word) || *final(word) == new,
{
}

/// What replacing a pointer does, error by error. If the memory cannot be made writable, that
/// error is reported and the pointer is left alone. If it can, the pointer is replaced once while
/// it is, and whether the protection could be restored after that is what is reported.
pub proof fn law_swap_reports_every_error<M: MemFunctions>(
    hook: RawPtrHook<M>,
    memory: &mut Memory<M>,
    word: &mut usize,
    new: usize,
    r: Result<usize, Error>,
)
    requires
        call_ensures(RawPtrHook::<M>::swap_target, (&hook, memory, word, new), r),
    ensures
        exists|guard: Result<MemProtectGuard, OsErr>, writable: M|
            {
                &&& #[trigger] memory::guarded(
                    old(memory).system(),
                    hook.target,
                    vstd::layout::size_of::<usize>() as usize,
                    Protection::READ_WRITE,
                    writable,
                    guard,
                )
                &&& guard matches Err(e) ==> {
                    &&& r == Err::<usize, Error>(Error::OsErr(e))
                    &&& *final(word) == *old(word)
                    &&& final(memory).system() == writable
                    &&& final(memory).writes() == old(memory).writes()
                }
                &&& guard matches Ok(guard) ==> {
                    &&& *final(word) == new
                    &&& final(memory).writes() == old(memory).writes().push(
                        Write { at: writable, addr: hook.target, before: *old(word), after: new },
                    )
                    &&& r is Ok ==> memory::reverted(
                        writable,
                        guard@,
                        final(memory).system(),
                        Ok(()),
                    )
                    &&& r matches Err(Error::OsErr(e)) ==> memory::reverted(
                        writable,
                        guard@,
                        final(memory).system(),
                        Err(e),
                    )
                }
            },
{
    assert(stored(
        *old(memory),
        hook.target,
        new,
        *old(word),
        *final(word),
        *final(memory),
        error_of(r),
    ));
}

/// A hook that does not ask for the original function is called with the arguments, and nothing
/// else; one that asks for it is called with the context it was installed with, and the
/// arguments.
pub proof fn law_hook_is_called_with_the_arguments<
    A,
    Ret,
    F: Fn(A) -> Ret,
    H: Fn(&Context, A) -> Ret,
>(
    plain: Plain<F>,
    with_context: WithContext<H>,
    ctx: Context,
    args: A,
    r: Ret,
)
    ensures
        HookThunk::<A, Ret>::callable(&plain, ctx, args) <==> call_requires(plain.hook, (args,)),
        plain.returns_value(ctx, args, r) <==> call_ensures(plain.hook, (args,), r),
        HookThunk::<A, Ret>::callable(&with_context, ctx, args) <==> call_requires(
            with_context.hook,
            (&ctx, args),
        ),
        with_context.returns_value(ctx, args, r) <==> call_ensures(
            with_context.hook,
            (&ctx, args),
            r,
        ),
{
}

/// A hook that is called does what its thunk does with the arguments. One with a switch does so
/// if and only if the switch is there and on; otherwise the original function is called, with
/// the same arguments.
pub proof fn law_switch_chooses_hook_or_original<CC, T, A, Ret, C: Fn(usize, A) -> Ret>(
    bare: BareHook<CC, T>,
    switch: Option<bool>,
    call: &C,
    args: A,
    r: Ret,
) where T: HookThunk<A, Ret>
    requires
        call_ensures(
            BareHook::<CC, T>::call_toggled::<A, Ret, C>,
            (&bare, switch, call, args),
            r,
        ),
    ensures
        switch == Some(true) ==> bare.thunk.returns_value(bare.context, args, r),
        switch != Some(true) ==> call_ensures(call, (bare.context@->0, args), r),
{
}

/// The original function is the one that was told first, however often one is told.
pub proof fn law_first_original_stays(
    fresh: Context,
    first: usize,
    second: usize,
    context: &mut Context,
    again: &mut Context,
    a: usize,
    b: usize,
    r: usize,
)
    requires
        call_ensures(Context::new, (), fresh),
        *old(context) == fresh,
        call_ensures(Context::set_original, (context, first), a),
        *old(again) == *final(context),
        call_ensures(Context::set_original, (again, second), b),
        call_ensures(Context::original_ptr, (final(again),), r),
    ensures
        a == first,
        b == first,
        r == first,
{
}

/// What a hook is told of the function that it is called in place of. The original function
/// is known once the hook is installed.
pub struct Context {
    original: Option<usize>,
}

impl View for Context {
    type V = Option<usize>;

    closed spec fn view(&self) -> Option<usize> {
        self.original
    }
}

impl Context {
    pub fn new() -> (r: Self)
        ensures
            r@ is None,
    {
        Context { original: None }
    }

    /// Tell the original function, unless it was told before. Returns the one that was told.
    pub fn set_original(&mut self, original: usize) -> (r: usize)
        ensures
            final(self)@ == Some(r),
            r == (if old(self)@ is Some {
                old(self)@->0
            } else {
                original
            }),
    {
        match self.original {
            Some(told) => told,
            None => {
                self.original = Some(original);
                original
            },
        }
    }

    /// The original function.
    pub fn original_ptr(&self) -> (r: usize)
        requires
            self@ is Some,
        ensures
            Some(r) == self@,
    {
        match self.original {
            Some(original) => original,
            None => vstd::pervasive::unreached(),
        }
    }

    /// Call the original function, given the means to call a function by its address.
    pub fn call_original<A, Ret, C: Fn(usize, A) -> Ret>(&self, call: &C, args: A) -> (r: Ret)
        requires
            self@ is Some,
            call_requires(call, (self@->0, args)),
        ensures
            call_ensures(call, (self@->0, args), r),
    {
        call(self.original_ptr(), args)
    }
}

/// A function that can be called in place of another.
pub trait HookThunk<A, Ret> {
    /// Whether the function can be called with the given arguments.
    spec fn callable(&self, ctx: Context, args: A) -> bool;

    /// Whether the function may return `r`.
    spec fn returns_value(&self, ctx: Context, args: A, r: Ret) -> bool;

    fn call(&self, ctx: &Context, args: A) -> (r: Ret)
        requires
            self.callable(*ctx, args),
        ensures
            self.returns_value(*ctx, args, r),
    ;
}

/// A hook that does not ask for the original function.
pub struct Plain<F> {
    pub hook: F,
}

impl<A, Ret, F: Fn(A) -> Ret> HookThunk<A, Ret> for Plain<F> {
    open spec fn callable(&self, ctx: Context, args: A) -> bool {
        call_requires(self.hook, (args,))
    }

    open spec fn returns_value(&self, ctx: Context, args: A, r: Ret) -> bool {
        call_ensures(self.hook, (args,), r)
    }

    fn call(&self, ctx: &Context, args: A) -> (r: Ret)
        ensures
            call_ensures(self.hook, (args,), r),
    {
        (self.hook)(args)
    }
}

/// A hook that is told the original function.
pub struct WithContext<H> {
    pub hook: H,
}

impl<A, Ret, H: Fn(&Context, A) -> Ret> HookThunk<A, Ret> for WithContext<H> {
    open spec fn callable(&self, ctx: Context, args: A) -> bool {
        call_requires(self.hook, (&ctx, args))
    }

    open spec fn returns_value(&self, ctx: Context, args: A, r: Ret) -> bool {
        call_ensures(self.hook, (&ctx, args), r)
    }

    fn call(&self, ctx: &Context, args: A) -> (r: Ret)
        ensures
            call_ensures(self.hook, (ctx, args), r),
    {
        (self.hook)(ctx, args)
    }
}

/// The function at the address that an installed hook puts in place of the original one.
pub struct BareHook<CC, T> {
    pub addr: usize,
    pub cc: CC,
    pub thunk: T,
    pub context: Context,
}

impl<CC, T> BareHook<CC, T> {
    /// Call the hook.
    pub fn call<A, Ret>(&self, args: A) -> (r: Ret) where T: HookThunk<A, Ret>
        requires
            self.thunk.callable(self.context, args),
        ensures
            self.thunk.returns_value(self.context, args, r),
    {
        self.thunk.call(&self.context, args)
    }

    /// Call the hook or the original function, as the switch of the hook tells, given the
    /// means to call a function by its address. The switch is `None` when the hook was
    /// released.
    pub fn call_toggled<A, Ret, C: Fn(usize, A) -> Ret>(
        &self,
        switch: Option<bool>,
        call: &C,
        args: A,
    ) -> (r: Ret) where T: HookThunk<A, Ret>
        requires
            self.context@ is Some,
            super::goes_to_hook(switch) ==> self.thunk.callable(self.context, args),
            !super::goes_to_hook(switch) ==> call_requires(call, (self.context@->0, args)),
        ensures
            super::goes_to_hook(switch) ==> self.thunk.returns_value(self.context, args, r),
            !super::goes_to_hook(switch) ==> call_ensures(call, (self.context@->0, args), r),
            match switch {
                Some(true) => self.thunk.returns_value(self.context, args, r),
                _ => call_ensures(call, (self.context@->0, args), r),
            },
    {
        if super::calls_hook(switch) {
            self.thunk.call(&self.context, args)
        } else {
            self.context.call_original(call, args)
        }
    }
}

/// Where a call through a pointer goes.
pub enum Destination {
    /// To the hook.
    Hook,
    /// To the function at an address.
    Function(usize),
}

/// Where a call through a pointer that may have been hooked goes, given the pointer, the
/// function that is called in place of the original and the switch of the hook.
pub open spec fn destination<CC, T>(
    word: usize,
    bare: BareHook<CC, T>,
    switch: Option<bool>,
) -> Destination {
    if word != bare.addr {
        Destination::Function(word)
    } else if super::goes_to_hook(switch) {
        Destination::Hook
    } else {
        Destination::Function(bare.context@->0)
    }
}

/// After a hook with a switch was installed in place of a function, and toggled any number of
/// times, a call through the pointer goes to the hook if there was no toggle or the last one
/// enabled it, and to the function otherwise; it goes to the function once the hook was
/// released. The original function stays known throughout, and no toggle changes the pointer.
pub proof fn law_calls_follow_the_switch<M: MemFunctions, CC, T>(
    memory: Memory<M>,
    changed: Memory<M>,
    target: usize,
    function: usize,
    word: usize,
    hooks: Seq<ToggleableHook<RawPtrHook<M>, BareHook<CC, T>>>,
    toggles: Seq<Toggle>,
)
    requires
        super::toggled_in_turn(hooks, toggles),
        hooks[0].enabled(),
        hooks[0].raw().original == function,
        hooks[0].spec_bare().context@ == Some(function),
        stored(memory, target, hooks[0].spec_bare().addr, function, word, changed, None),
    ensures
        ({
            let hook = hooks.last();
            &&& destination(word, hook.spec_bare(), Some(hook.enabled())) == if toggles.len() == 0
                || toggles.last() is Enable {
                Destination::Hook
            } else {
                Destination::Function(function)
            }
            &&& destination(word, hook.spec_bare(), None) == Destination::Function(function)
            &&& hook.raw().original_word() == function
        }),
{
    super::law_last_toggle_decides(hooks, toggles);
}

/// The original function is called by the means that are given, with the very arguments.
pub proof fn law_original_is_called<A, Ret, C: Fn(usize, A) -> Ret>(
    context: Context,
    call: &C,
    args: A,
    original: usize,
    r: Ret,
)
    requires
        call_ensures(Context::original_ptr, (&context,), original),
        call_ensures(Context::call_original::<A, Ret, C>, (&context, call, args), r),
    ensures
        call_ensures(call, (original, args), r),
{
}

/// A hook without a switch does what its thunk does.
pub proof fn law_bare_hook_calls_its_thunk<CC, T: HookThunk<A, Ret>, A, Ret>(
    bare: BareHook<CC, T>,
    args: A,
    r: Ret,
)
    requires
        call_ensures(BareHook::<CC, T>::call::<A, Ret>, (&bare, args), r),
    ensures
        bare.thunk.returns_value(bare.context, args, r),
{
}

} // verus!
