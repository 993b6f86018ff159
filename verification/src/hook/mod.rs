//! Hooks: functions that are called in place of others.
//!
//! The word in memory that a hook changes is handed to the operations that change it, and so is
//! the memory around it, which the operating system protects.

use vstd::prelude::*;

use crate::error::Error;
use crate::os::access::Memory;
use crate::os::memory::MemFunctions;

pub mod cc;
pub mod ptr;

verus! {

/// A hook that can be switched on and off by a change of memory.
pub trait RawHook: Sized {
    /// The operating system that protects the memory.
    type Os: MemFunctions;

    /// Whether the memory that the hook changes is in the address space, whole.
    spec fn valid(&self) -> bool;

    /// The word that switches the hook on.
    spec fn hook_word(&self) -> usize;

    /// The word that switches the hook off: the address of the original function.
    spec fn original_word(&self) -> usize;

    /// The outcome of storing `new` where the hook takes effect.
    spec fn stored(
        &self,
        memory: Memory<Self::Os>,
        new: usize,
        before: usize,
        after: usize,
        changed: Memory<Self::Os>,
        r: Result<(), Error>,
    ) -> bool;

    fn original(&self) -> (r: usize)
        ensures
            r == self.original_word(),
    ;

    fn enable(&self, memory: &mut Memory<Self::Os>, word: &mut usize) -> (r: Result<(), Error>)
        requires
            self.valid(),
        ensures
            self.stored(
                *old(memory),
                self.hook_word(),
                *old(word),
                *final(word),
                *final(memory),
                r,
            ),
    ;

    fn disable(&self, memory: &mut Memory<Self::Os>, word: &mut usize) -> (r: Result<(), Error>)
        requires
            self.valid(),
        ensures
            self.stored(
                *old(memory),
                self.original_word(),
                *old(word),
                *final(word),
                *final(memory),
                r,
            ),
    ;

    fn uninstall(self, memory: &mut Memory<Self::Os>, word: &mut usize) -> (r: Result<(), Error>)
        requires
            self.valid(),
        ensures
            self.stored(
                *old(memory),
                self.original_word(),
                *old(word),
                *final(word),
                *final(memory),
                r,
            ),
    ;
}

/// A hook that is disabled when it is released. The function that is called in place of the
/// original is never freed.
#[must_use]
pub struct LeakyHook<R: RawHook, B> {
    raw: R,
    bare: B,
}

impl<R: RawHook, B> LeakyHook<R, B> {
    pub closed spec fn raw(&self) -> R {
        self.raw
    }

    pub closed spec fn spec_bare(&self) -> B {
        self.bare
    }

    pub(crate) fn new(raw: R, bare: B) -> (r: Self)
        ensures
            r.raw() == raw,
            r.spec_bare() == bare,
    {
        LeakyHook { raw, bare }
    }

    /// The function that is called in place of the original.
    pub fn bare(&self) -> (r: &B)
        ensures
            *r == self.spec_bare(),
    {
        &self.bare
    }

    pub fn original(&self) -> (r: usize)
        ensures
            r == self.raw().original_word(),
    {
        self.raw.original()
    }

    pub fn enable(&self, memory: &mut Memory<R::Os>, word: &mut usize) -> (r: Result<(), Error>)
        requires
            self.raw().valid(),
        ensures
            self.raw().stored(
                *old(memory),
                self.raw().hook_word(),
                *old(word),
                *final(word),
                *final(memory),
                r,
            ),
    {
        self.raw.enable(memory, word)
    }

    pub fn disable(&self, memory: &mut Memory<R::Os>, word: &mut usize) -> (r: Result<(), Error>)
        requires
            self.raw().valid(),
        ensures
            self.raw().stored(
                *old(memory),
                self.raw().original_word(),
                *old(word),
                *final(word),
                *final(memory),
                r,
            ),
    {
        self.raw.disable(memory, word)
    }

    /// Let go of the hook: it is disabled, whether or not that meets an error. The function
    /// that is called in place of the original stays.
    pub fn release(self, memory: &mut Memory<R::Os>, word: &mut usize) -> (bare: B)
        requires
            self.raw().valid(),
        ensures
            bare == self.spec_bare(),
            exists|r: Result<(), Error>| #[trigger]
                self.raw().stored(
                *old(memory),
                self.raw().original_word(),
                *old(word),
                *final(word),
                *final(memory),
                r,
            ),
    {
        let _ = self.raw.disable(memory, word);
        self.bare
    }
}

/// Whether a call goes to the hook, given the switch of the hook, or `None` when the hook was
/// released: it goes to the original function otherwise.
pub open spec fn goes_to_hook(switch: Option<bool>) -> bool {
    switch == Some(true)
}

/// Whether a call goes to the hook, given the switch of the hook, or `None` when the hook was
/// released.
pub fn calls_hook(switch: Option<bool>) -> (r: bool)
    ensures
        r == goes_to_hook(switch),
        r <==> switch == Some(true),
{
    match switch {
        Some(enabled) => enabled,
        None => false,
    }
}

/// What is done to the switch of a hook.
pub enum Toggle {
    Enable,
    Disable,
}

/// A hook with a switch that is consulted at each call. It stays in memory when it is
/// released, and calls the original function from then on.
pub struct ToggleableHook<R: RawHook, B> {
    raw: R,
    enabled: bool,
    bare: B,
}

impl<R: RawHook, B> ToggleableHook<R, B> {
    pub closed spec fn raw(&self) -> R {
        self.raw
    }

    pub closed spec fn enabled(&self) -> bool {
        self.enabled
    }

    pub closed spec fn spec_bare(&self) -> B {
        self.bare
    }

    /// Whether this hook becomes `after` when its switch is toggled: nothing but the switch
    /// changes.
    pub open spec fn toggled(self, toggle: Toggle, after: Self) -> bool {
        &&& after.enabled() == (toggle is Enable)
        &&& after.raw() == self.raw()
        &&& after.spec_bare() == self.spec_bare()
    }

    pub(crate) fn new(raw: R, bare: B) -> (r: Self)
        ensures
            r.raw() == raw,
            r.enabled(),
            r.spec_bare() == bare,
    {
        ToggleableHook { raw, enabled: true, bare }
    }

    /// The function that is called in place of the original.
    pub fn bare(&self) -> (r: &B)
        ensures
            *r == self.spec_bare(),
    {
        &self.bare
    }

    /// The switch that is consulted at each call.
    pub fn switch(&self) -> (r: Option<bool>)
        ensures
            r == Some(self.enabled()),
    {
        Some(self.enabled)
    }

    pub fn original(&self) -> (r: usize)
        ensures
            r == self.raw().original_word(),
    {
        self.raw.original()
    }

    pub fn enable(&mut self)
        ensures
            old(self).toggled(Toggle::Enable, *final(self)),
    {
        self.enabled = true;
    }

    pub fn disable(&mut self)
        ensures
            old(self).toggled(Toggle::Disable, *final(self)),
    {
        self.enabled = false;
    }

    pub fn enable_raw(this: &Self, memory: &mut Memory<R::Os>, word: &mut usize) -> (r: Result<
        (),
        Error,
    >)
        requires
            this.raw().valid(),
        ensures
            this.raw().stored(
                *old(memory),
                this.raw().hook_word(),
                *old(word),
                *final(word),
                *final(memory),
                r,
            ),
    {
        this.raw.enable(memory, word)
    }

    pub fn disable_raw(this: &Self, memory: &mut Memory<R::Os>, word: &mut usize) -> (r: Result<
        (),
        Error,
    >)
        requires
            this.raw().valid(),
        ensures
            this.raw().stored(
                *old(memory),
                this.raw().original_word(),
                *old(word),
                *final(word),
                *final(memory),
                r,
            ),
    {
        this.raw.disable(memory, word)
    }

    /// Let go of the hook. From then on its switch is `None`; the function that is called in
    /// place of the original stays.
    pub fn release(self) -> (bare: B)
        ensures
            bare == self.spec_bare(),
    {
        self.bare
    }
}

/// Whether the switch of a hook was toggled a number of times, given the hook before and after
/// each time.
pub open spec fn toggled_in_turn<R: RawHook, B>(
    hooks: Seq<ToggleableHook<R, B>>,
    toggles: Seq<Toggle>,
) -> bool {
    &&& hooks.len() == toggles.len() + 1
    &&& forall|i: int|
        0 <= i < toggles.len() ==> (#[trigger] hooks[i]).toggled(toggles[i], hooks[i + 1])
}

/// The switch of a hook that starts out enabled is as it was toggled last, and nothing else of
/// the hook changes, however often it is toggled.
pub proof fn law_last_toggle_decides<R: RawHook, B>(
    hooks: Seq<ToggleableHook<R, B>>,
    toggles: Seq<Toggle>,
)
    requires
        toggled_in_turn(hooks, toggles),
        hooks[0].enabled(),
    ensures
        hooks.last().enabled() == (toggles.len() == 0 || toggles.last() is Enable),
        hooks.last().raw() == hooks[0].raw(),
        hooks.last().spec_bare() == hooks[0].spec_bare(),
    decreases toggles.len(),
{
    if toggles.len() > 0 {
        let n = toggles.len() - 1;
        let earlier = hooks.drop_last();
        assert forall|i: int| 0 <= i < n implies (#[trigger] earlier[i]).toggled(
            toggles.drop_last()[i],
            earlier[i + 1],
        ) by {
            assert(hooks[i].toggled(toggles[i], hooks[i + 1]));
        }
        law_last_toggle_decides(earlier, toggles.drop_last());
        assert(hooks[n].toggled(toggles[n], hooks[n + 1]));
    }
}

/// A switch that is consulted tells what was done to it last: it is on after the hook was
/// enabled and off after it was disabled, whatever it was before. A call goes to the hook if and
/// only if it is there and on.
pub proof fn law_switch_tells_the_last_toggle<R: RawHook, B>(
    on: &mut ToggleableHook<R, B>,
    off: &mut ToggleableHook<R, B>,
    switched_on: Option<bool>,
    switched_off: Option<bool>,
    to_hook: bool,
    to_original: bool,
    released: bool,
)
    requires
        call_ensures(ToggleableHook::<R, B>::enable, (on,), ()),
        call_ensures(ToggleableHook::<R, B>::switch, (final(on),), switched_on),
        call_ensures(calls_hook, (switched_on,), to_hook),
        call_ensures(ToggleableHook::<R, B>::disable, (off,), ()),
        call_ensures(ToggleableHook::<R, B>::switch, (final(off),), switched_off),
        call_ensures(calls_hook, (switched_off,), to_original),
        call_ensures(calls_hook, (None,), released),
    ensures
        switched_on == Some(true),
        to_hook,
        switched_off == Some(false),
        !to_original,
        !released,
{
}

/// Toggling a hook changes its switch and nothing else of it.
pub proof fn law_toggle_changes_the_switch_alone<R: RawHook, B>(hook: &mut ToggleableHook<R, B>)
    requires
        call_ensures(ToggleableHook::<R, B>::enable, (hook,), ()) || call_ensures(
            ToggleableHook::<R, B>::disable,
            (hook,),
            (),
        ),
    ensures
        final(hook).raw() == old(hook).raw(),
        final(hook).spec_bare() == old(hook).spec_bare(),
{
}

/// The function that is called in place of the original is handed out, and handed back at the
/// end, as it is.
pub proof fn law_bare_hook_is_kept<R: RawHook, B>(
    leaky: LeakyHook<R, B>,
    a: &B,
    toggleable: ToggleableHook<R, B>,
    b: &B,
    back: B,
)
    requires
        call_ensures(LeakyHook::<R, B>::bare, (&leaky,), a),
        call_ensures(ToggleableHook::<R, B>::bare, (&toggleable,), b),
        call_ensures(ToggleableHook::<R, B>::release, (toggleable,), back),
    ensures
        *a == leaky.spec_bare(),
        *b == toggleable.spec_bare(),
        back == *b,
{
}

} // verus!
