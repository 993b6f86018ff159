//! Stepwise description of a pointer hook.

use core::marker::PhantomData;

use vstd::prelude::*;

use super::{BareHook, Context, Plain, RawPtrHook, WithContext};
use crate::error::Error;
use crate::hook::{cc, LeakyHook, RawHook, ToggleableHook};
use crate::os::access::{Memory, Write};
use crate::os::memory::MemFunctions;

verus! {

/// A pointer hook that is being described.
pub struct Builder<S = InitState> {
    pub state: S,
}

/// Nothing is known of the hook.
pub struct InitState;

/// The pointer is known, and the signature of the function, which has the calling convention
/// `CC`.
pub struct SigState<CC> {
    pub target: usize,
    pub phantom: PhantomData<CC>,
}

/// The pointer or the calling convention is known.
pub struct CCState<CC, const HAS_TARGET: bool, const HAS_CC: bool> {
    pub target: usize,
    pub cc: CC,
}

/// All is known of the hook that is needed to install it.
pub struct ThunkState<CC, T> {
    pub target: usize,
    pub cc: CC,
    pub thunk: T,
    /// The context that is told the original function, if the hook asks for it.
    pub ctx_orig_setter: Option<Context>,
}

impl Default for Builder<InitState> {
    fn default() -> (r: Self)
        ensures
            r.state == InitState,
    {
        Self::new()
    }
}

impl Builder<InitState> {
    pub fn new() -> (r: Self)
        ensures
            r.state == InitState,
    {
        Builder { state: InitState }
    }

    /// Hook the function that the pointer at `target` points to. The calling convention is
    /// that of its signature.
    pub fn target_fn<CC: Default>(self, target: usize) -> (r: Builder<SigState<CC>>)
        ensures
            r.state.target == target,
    {
        Builder { state: SigState { target, phantom: PhantomData } }
    }

    /// Hook the function that the pointer at `target` points to.
    pub fn target_ptr(self, target: usize) -> (r: Builder<CCState<cc::C, true, false>>)
        ensures
            r.state.target == target,
            r.state.cc == cc::C,
    {
        Builder { state: CCState { target, cc: cc::C } }
    }

    /// Hook the function that the pointer at the address `target` points to.
    pub fn target_addr(self, target: usize) -> (r: Builder<CCState<cc::C, true, false>>)
        ensures
            r.state.target == target,
            r.state.cc == cc::C,
    {
        Builder { state: CCState { target, cc: cc::C } }
    }

    /// Hook a function with the given calling convention.
    pub fn cc<CC>(self, cc: CC) -> (r: Builder<CCState<CC, false, true>>)
        ensures
            r.state.target == 0,
            r.state.cc == cc,
    {
        Builder { state: CCState { target: 0, cc } }
    }
}

impl<CC, const HAS_CC: bool> Builder<CCState<CC, false, HAS_CC>> {
    /// Hook the function that the pointer at `target` points to.
    pub fn target_ptr(self, target: usize) -> (r: Builder<CCState<CC, true, HAS_CC>>)
        ensures
            r.state.target == target,
            r.state.cc == self.state.cc,
    {
        Builder { state: CCState { target, cc: self.state.cc } }
    }

    /// Hook the function that the pointer at the address `target` points to.
    pub fn target_addr(self, target: usize) -> (r: Builder<CCState<CC, true, HAS_CC>>)
        ensures
            r.state.target == target,
            r.state.cc == self.state.cc,
    {
        Builder { state: CCState { target, cc: self.state.cc } }
    }
}

impl<const HAS_TARGET: bool> Builder<CCState<cc::C, HAS_TARGET, false>> {
    /// Hook a function with the given calling convention.
    pub fn cc<CC>(self, cc: CC) -> (r: Builder<CCState<CC, HAS_TARGET, true>>)
        ensures
            r.state.target == self.state.target,
            r.state.cc == cc,
    {
        Builder { state: CCState { target: self.state.target, cc } }
    }
}

impl<CC, const HAS_CC: bool> Builder<CCState<CC, true, HAS_CC>> {
    /// Call `hook` in place of the function.
    pub fn hook<F>(self, hook: F) -> (r: Builder<ThunkState<CC, Plain<F>>>)
        ensures
            r.state.target == self.state.target,
            r.state.cc == self.state.cc,
            r.state.thunk.hook == hook,
            r.state.ctx_orig_setter is None,
    {
        Builder {
            state: ThunkState {
                target: self.state.target,
                cc: self.state.cc,
                thunk: Plain { hook },
                ctx_orig_setter: None,
            },
        }
    }

    /// Call `hook` in place of the function. It is told the original function.
    pub fn hook_ctx<H>(self, hook: H) -> (r: Builder<ThunkState<CC, WithContext<H>>>)
        ensures
            r.state.target == self.state.target,
            r.state.cc == self.state.cc,
            r.state.thunk.hook == hook,
            r.state.ctx_orig_setter matches Some(context) && context@ is None,
    {
        Builder {
            state: ThunkState {
                target: self.state.target,
                cc: self.state.cc,
                thunk: WithContext { hook },
                ctx_orig_setter: Some(Context::new()),
            },
        }
    }
}

impl<CC: Default> Builder<SigState<CC>> {
    /// Call `hook` in place of the function.
    pub fn hook<F>(self, hook: F) -> (r: Builder<ThunkState<CC, Plain<F>>>)
        ensures
            r.state.target == self.state.target,
            call_ensures(CC::default, (), r.state.cc),
            r.state.thunk.hook == hook,
            r.state.ctx_orig_setter is None,
    {
        Builder {
            state: ThunkState {
                target: self.state.target,
                cc: CC::default(),
                thunk: Plain { hook },
                ctx_orig_setter: None,
            },
        }
    }

    /// Call `hook` in place of the function. It is told the original function.
    pub fn hook_ctx<H>(self, hook: H) -> (r: Builder<ThunkState<CC, WithContext<H>>>)
        ensures
            r.state.target == self.state.target,
            call_ensures(CC::default, (), r.state.cc),
            r.state.thunk.hook == hook,
            r.state.ctx_orig_setter matches Some(context) && context@ is None,
    {
        Builder {
            state: ThunkState {
                target: self.state.target,
                cc: CC::default(),
                thunk: WithContext { hook },
                ctx_orig_setter: Some(Context::new()),
            },
        }
    }
}

impl<CC, T> Builder<ThunkState<CC, T>> {
    /// Install the hook, given the address of a function that calls it and the pointer to the
    /// function that is hooked. The hook is enabled.
    pub fn install<M: MemFunctions>(
        self,
        memory: &mut Memory<M>,
        word: &mut usize,
        hook_addr: usize,
    ) -> (r: Result<LeakyHook<RawPtrHook<M>, BareHook<CC, T>>, Error>)
        requires
            super::in_address_space(self.state.target),
        ensures
            super::stored(
                *old(memory),
                self.state.target,
                hook_addr,
                *old(word),
                *final(word),
                *final(memory),
                super::error_of(r),
            ),
            r matches Ok(hook) ==> {
                &&& hook.raw() == (RawPtrHook::<M> {
                    target: self.state.target,
                    original: *old(word),
                    hook: hook_addr,
                    phantom: PhantomData,
                })
                &&& hook.spec_bare().addr == hook_addr
                &&& hook.spec_bare().cc == self.state.cc
                &&& hook.spec_bare().thunk == self.state.thunk
                &&& hook.spec_bare().context@ == match self.state.ctx_orig_setter {
                    Some(context) => if context@ is Some {
                        context@
                    } else {
                        Some(*old(word))
                    },
                    None => None,
                }
            },
    {
        let state = self.state;
        let mut raw = RawPtrHook {
            target: state.target,
            original: 0,
            hook: hook_addr,
            phantom: PhantomData,
        };
        let original: usize = match raw.swap_target(memory, word, hook_addr) {
            Ok(original) => original,
            Err(e) => return Err(e),
        };
        raw.original = original;
        let context = match state.ctx_orig_setter {
            Some(context) => {
                let mut context = context;
                let _ = context.set_original(original);
                context
            },
            None => Context::new(),
        };
        let bare = BareHook { addr: hook_addr, cc: state.cc, thunk: state.thunk, context };
        Ok(LeakyHook::new(raw, bare))
    }

    /// Install the hook with a switch that is consulted at each call, given the address of a
    /// function that calls it and the pointer to the function that is hooked. The hook is
    /// enabled, and so is its switch.
    pub fn install_toggleable<M: MemFunctions>(
        self,
        memory: &mut Memory<M>,
        word: &mut usize,
        hook_addr: usize,
    ) -> (r: Result<ToggleableHook<RawPtrHook<M>, BareHook<CC, T>>, Error>)
        requires
            super::in_address_space(self.state.target),
        ensures
            super::stored(
                *old(memory),
                self.state.target,
                hook_addr,
                *old(word),
                *final(word),
                *final(memory),
                super::error_of(r),
            ),
            r matches Ok(hook) ==> {
                &&& hook.enabled()
                &&& hook.raw() == (RawPtrHook::<M> {
                    target: self.state.target,
                    original: *old(word),
                    hook: hook_addr,
                    phantom: PhantomData,
                })
                &&& hook.spec_bare().addr == hook_addr
                &&& hook.spec_bare().cc == self.state.cc
                &&& hook.spec_bare().thunk == self.state.thunk
                &&& hook.spec_bare().context@ == match self.state.ctx_orig_setter {
                    Some(context) => if context@ is Some {
                        context@
                    } else {
                        Some(*old(word))
                    },
                    None => Some(*old(word)),
                }
            },
    {
        let state = self.state;
        let mut context = match state.ctx_orig_setter {
            Some(context) => context,
            None => Context::new(),
        };
        let mut raw = RawPtrHook {
            target: state.target,
            original: 0,
            hook: hook_addr,
            phantom: PhantomData,
        };
        let original: usize = match raw.swap_target(memory, word, hook_addr) {
            Ok(original) => original,
            Err(e) => return Err(e),
        };
        raw.original = original;
        let _ = context.set_original(original);
        let bare = BareHook { addr: hook_addr, cc: state.cc, thunk: state.thunk, context };
        Ok(ToggleableHook::new(raw, bare))
    }
}

/// Installing a hook leaves the address of the hook in the pointer, and the hook then tells the
/// function that the pointer led to before. Disabling it brings that function back, and enabling
/// it after that brings back the very address that was installed, whatever the addresses are.
pub proof fn law_installed_hook_can_be_switched<M: MemFunctions, CC, T>(
    builder: Builder<ThunkState<CC, T>>,
    hook_addr: usize,
    hook: LeakyHook<RawPtrHook<M>, BareHook<CC, T>>,
    memory: &mut Memory<M>,
    disabling: &mut Memory<M>,
    enabling: &mut Memory<M>,
    install: &mut usize,
    disable: &mut usize,
    enable: &mut usize,
    disabled: core::result::Result<(), Error>,
    enabled: core::result::Result<(), Error>,
    original: usize,
)
    requires
        call_ensures(
            Builder::<ThunkState<CC, T>>::install::<M>,
            (builder, memory, install, hook_addr),
            Ok(hook),
        ),
        call_ensures(LeakyHook::original, (&hook,), original),
        *old(disable) == *final(install),
        call_ensures(LeakyHook::disable, (&hook, disabling, disable), disabled),
        disabled is Ok,
        *old(enable) == *final(disable),
        call_ensures(LeakyHook::enable, (&hook, enabling, enable), enabled),
        enabled is Ok,
    ensures
        *final(install) == hook_addr,
        original == *old(install),
        *final(disable) == *old(install),
        *final(enable) == hook_addr,
{
    let raw = hook.raw();
    assert(raw.stored(
        *old(disabling),
        raw.original_word(),
        *old(disable),
        *final(disable),
        *final(disabling),
        disabled,
    ));
    assert(raw.stored(
        *old(enabling),
        raw.hook_word(),
        *old(enable),
        *final(enable),
        *final(enabling),
        enabled,
    ));
}

/// Taking a hook with a switch out of memory stores the original function, and putting it back
/// stores the hook.
proof fn lemma_raw_toggles<M: MemFunctions, CC, T>(
    hook: ToggleableHook<RawPtrHook<M>, BareHook<CC, T>>,
)
    ensures
        forall|memory: &mut Memory<M>, word: &mut usize, r: core::result::Result<(), Error>|
            #[trigger] call_ensures(ToggleableHook::disable_raw, (&hook, memory, word), r) && r
                is Ok ==> *final(word) == hook.raw().original,
        forall|memory: &mut Memory<M>, word: &mut usize, r: core::result::Result<(), Error>|
            #[trigger] call_ensures(ToggleableHook::enable_raw, (&hook, memory, word), r) && r
                is Ok ==> *final(word) == hook.raw().hook,
{
    assert forall|memory: &mut Memory<M>, word: &mut usize, r: core::result::Result<(), Error>|
        #[trigger] call_ensures(ToggleableHook::disable_raw, (&hook, memory, word), r) && r
            is Ok implies *final(word) == hook.raw().original by {
        assert(hook.raw().stored(
            *memory,
            hook.raw().original_word(),
            *word,
            *final(word),
            *final(memory),
            r,
        ));
    }
    assert forall|memory: &mut Memory<M>, word: &mut usize, r: core::result::Result<(), Error>|
        #[trigger] call_ensures(ToggleableHook::enable_raw, (&hook, memory, word), r) && r
            is Ok implies *final(word) == hook.raw().hook by {
        assert(hook.raw().stored(
            *memory,
            hook.raw().hook_word(),
            *word,
            *final(word),
            *final(memory),
            r,
        ));
    }
}

/// The same holds of a hook with a switch that is taken out of memory and put back. Its switch
/// is on when it is installed.
pub proof fn law_installed_switch_can_leave_memory<M: MemFunctions, CC, T>(
    builder: Builder<ThunkState<CC, T>>,
    hook_addr: usize,
    hook: ToggleableHook<RawPtrHook<M>, BareHook<CC, T>>,
    memory: &mut Memory<M>,
    disabling: &mut Memory<M>,
    enabling: &mut Memory<M>,
    install: &mut usize,
    disable: &mut usize,
    enable: &mut usize,
    disabled: core::result::Result<(), Error>,
    enabled: core::result::Result<(), Error>,
    original: usize,
    switch: Option<bool>,
)
    requires
        call_ensures(
            Builder::<ThunkState<CC, T>>::install_toggleable::<M>,
            (builder, memory, install, hook_addr),
            Ok(hook),
        ),
        call_ensures(ToggleableHook::original, (&hook,), original),
        call_ensures(ToggleableHook::switch, (&hook,), switch),
        *old(disable) == *final(install),
        call_ensures(ToggleableHook::disable_raw, (&hook, disabling, disable), disabled),
        disabled is Ok,
        *old(enable) == *final(disable),
        call_ensures(ToggleableHook::enable_raw, (&hook, enabling, enable), enabled),
        enabled is Ok,
    ensures
        *final(install) == hook_addr,
        original == *old(install),
        switch == Some(true),
        *final(disable) == *old(install),
        *final(enable) == hook_addr,
{
    lemma_raw_toggles(hook);
}

/// Letting go of a hook brings the original function back, unless the memory cannot be made
/// writable. The function that is called in its place is handed back as it is.
pub proof fn law_released_hook_is_disabled<M: MemFunctions, B>(
    hook: LeakyHook<RawPtrHook<M>, B>,
    memory: &mut Memory<M>,
    word: &mut usize,
    bare: B,
)
    requires
        call_ensures(LeakyHook::release, (hook, memory, word), bare),
    ensures
        bare == hook.spec_bare(),
        *final(word) == hook.raw().original || (*final(word) == *old(word)
            && final(memory).writes() == old(memory).writes()),
{
    let raw = hook.raw();
    let kept = raw.stored(
        *old(memory),
        raw.original_word(),
        *old(word),
        *final(word),
        *final(memory),
        Ok(()),
    );
    assert(kept || !kept);
    let r = choose|r: core::result::Result<(), Error>| #[trigger]
        hook.raw().stored(
            *old(memory),
            hook.raw().original_word(),
            *old(word),
            *final(word),
            *final(memory),
            r,
        );
    assert(super::stored(
        *old(memory),
        hook.raw().target,
        hook.raw().original,
        *old(word),
        *final(word),
        *final(memory),
        super::error_of(r),
    ));
}

/// A hook that could not be installed has left the pointer as it was, or replaced it by the
/// address of the hook; in the first case nothing was written.
pub proof fn law_failed_installation_tears_nothing<M: MemFunctions, CC, T>(
    builder: Builder<ThunkState<CC, T>>,
    hook_addr: usize,
    memory: &mut Memory<M>,
    word: &mut usize,
    error: Error,
)
    requires
        call_ensures(
            Builder::<ThunkState<CC, T>>::install::<M>,
            (builder, memory, word, hook_addr),
            Err(error),
        ) || call_ensures(
            Builder::<ThunkState<CC, T>>::install_toggleable::<M>,
            (builder, memory, word, hook_addr),
            Err(error),
        ),
    ensures
        *final(word) == *old(word) || *final(word) == hook_addr,
        final(memory).writes() == old(memory).writes() ==> *final(word) == *old(word),
{
    let r: core::result::Result<(), Error> = Err(error);
    assert(super::stored(
        *old(memory),
        builder.state.target,
        hook_addr,
        *old(word),
        *final(word),
        *final(memory),
        Some(error),
    ));
    assert(old(memory).writes().push(
        Write {
            at: old(memory).system(),
            addr: 0,
            before: 0,
            after: 0,
        },
    ).len() == old(memory).writes().len() + 1);
}

/// A hook that asks for the original function is told the one that the pointer led to before it
/// was installed, and so is every hook with a switch, unless one was told before.
pub proof fn law_installed_hook_knows_the_original<M: MemFunctions, CC, T>(
    builder: Builder<ThunkState<CC, T>>,
    hook_addr: usize,
    memory: &mut Memory<M>,
    word: &mut usize,
    leaky: LeakyHook<RawPtrHook<M>, BareHook<CC, T>>,
    toggleable: ToggleableHook<RawPtrHook<M>, BareHook<CC, T>>,
)
    ensures
        call_ensures(
            Builder::<ThunkState<CC, T>>::install::<M>,
            (builder, memory, word, hook_addr),
            Ok(leaky),
        ) && (builder.state.ctx_orig_setter matches Some(context) && context@ is None)
            ==> leaky.spec_bare().context@ == Some(*old(word)) && leaky.spec_bare().addr
            == hook_addr && leaky.spec_bare().thunk == builder.state.thunk
            && leaky.spec_bare().cc == builder.state.cc,
        call_ensures(
            Builder::<ThunkState<CC, T>>::install_toggleable::<M>,
            (builder, memory, word, hook_addr),
            Ok(toggleable),
        ) && (builder.state.ctx_orig_setter matches Some(context) ==> context@ is None)
            ==> toggleable.spec_bare().context@ == Some(*old(word))
            && toggleable.spec_bare().addr == hook_addr && toggleable.spec_bare().thunk
            == builder.state.thunk && toggleable.spec_bare().cc == builder.state.cc,
{
}

/// What is described step by step is what the hook is installed with: the pointer, the calling
/// convention and the hook, in whatever order the first two are told, and a context if and only
/// if the hook asks for the original function.
pub proof fn law_builder_keeps_what_it_was_told<CC, F>(
    start: Builder<InitState>,
    target: usize,
    cc: CC,
    hook: F,
    by_target: Builder<CCState<cc::C, true, false>>,
    by_addr: Builder<CCState<cc::C, true, false>>,
    by_cc: Builder<CCState<CC, false, true>>,
    target_then_cc: Builder<CCState<CC, true, true>>,
    cc_then_target: Builder<CCState<CC, true, true>>,
    plain: Builder<ThunkState<CC, Plain<F>>>,
    with_context: Builder<ThunkState<CC, WithContext<F>>>,
)
    requires
        call_ensures(Builder::<InitState>::target_ptr, (start, target), by_target),
        call_ensures(Builder::<InitState>::target_addr, (start, target), by_addr),
        call_ensures(Builder::<InitState>::cc::<CC>, (start, cc), by_cc),
        call_ensures(
            Builder::<CCState<cc::C, true, false>>::cc::<CC>,
            (by_target, cc),
            target_then_cc,
        ),
        call_ensures(
            Builder::<CCState<CC, false, true>>::target_ptr,
            (by_cc, target),
            cc_then_target,
        ) || call_ensures(
            Builder::<CCState<CC, false, true>>::target_addr,
            (by_cc, target),
            cc_then_target,
        ),
        call_ensures(
            Builder::<CCState<CC, true, true>>::hook::<F>,
            (target_then_cc, hook),
            plain,
        ),
        call_ensures(
            Builder::<CCState<CC, true, true>>::hook_ctx::<F>,
            (cc_then_target, hook),
            with_context,
        ),
    ensures
        by_addr.state == by_target.state,
        by_target.state.cc == cc::C,
        cc_then_target.state == target_then_cc.state,
        plain.state.target == target,
        plain.state.cc == cc,
        plain.state.thunk.hook == hook,
        plain.state.ctx_orig_setter is None,
        with_context.state.target == target,
        with_context.state.cc == cc,
        with_context.state.thunk.hook == hook,
        with_context.state.ctx_orig_setter matches Some(context) && context@ is None,
{
}

/// A hook of a function with a known signature is installed at its pointer, with the default
/// calling convention.
pub proof fn law_signature_tells_the_convention<CC: Default, F>(
    start: Builder<InitState>,
    target: usize,
    hook: F,
    signed: Builder<SigState<CC>>,
    plain: Builder<ThunkState<CC, Plain<F>>>,
    with_context: Builder<ThunkState<CC, WithContext<F>>>,
)
    requires
        call_ensures(Builder::<InitState>::target_fn::<CC>, (start, target), signed),
        call_ensures(Builder::<SigState<CC>>::hook::<F>, (signed, hook), plain),
        call_ensures(Builder::<SigState<CC>>::hook_ctx::<F>, (signed, hook), with_context),
    ensures
        plain.state.target == target,
        call_ensures(CC::default, (), plain.state.cc),
        plain.state.thunk.hook == hook,
        plain.state.ctx_orig_setter is None,
        with_context.state.target == target,
        call_ensures(CC::default, (), with_context.state.cc),
        with_context.state.thunk.hook == hook,
        with_context.state.ctx_orig_setter matches Some(context) && context@ is None,
{
}

} // verus!
