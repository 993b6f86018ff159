use std::marker::PhantomData;

use anglerkit::error::Error;
use anglerkit::hook::ptr::builder::Builder;
use anglerkit::hook::ptr::{BareHook, Context, HookThunk, RawPtrHook};
use anglerkit::hook::{calls_hook, cc, RawHook};
use anglerkit::os::access::Memory;
use anglerkit::os::memory::{MemFunctions, MemoryRegion, Protection};
use anglerkit::os::OsErr;

/// Pages of 4096 bytes that all have the same protection, with a log of the changes to it.
struct Pages {
    log: Vec<(usize, usize, Protection)>,
    refuse: Option<usize>,
}

impl Pages {
    fn memory() -> Memory<Self> {
        Memory::new(Pages { log: Vec::new(), refuse: None })
    }

    /// The change of protection with the given number is refused.
    fn refusing(n: usize) -> Memory<Self> {
        Memory::new(Pages { log: Vec::new(), refuse: Some(n) })
    }
}

fn raw_hook(original: usize) -> RawPtrHook<Pages> {
    RawPtrHook { target: TABLE, original, hook: HOOK, phantom: PhantomData }
}

impl MemFunctions for Pages {
    fn page_size(&self) -> usize {
        4096
    }

    fn mem_query(&self, addr: usize, _size: usize) -> Result<Vec<MemoryRegion>, OsErr> {
        Ok(vec![MemoryRegion {
            base: addr / 4096 * 4096,
            size: 0x10000,
            prot: Protection::READ,
        }])
    }

    fn mem_protect(&mut self, addr: usize, size: usize, prot: Protection) -> Result<(), OsErr> {
        if self.refuse == Some(self.log.len()) {
            return Err(OsErr::from_str("refused"));
        }
        self.log.push((addr, size, prot));
        Ok(())
    }
}

const FUN1: usize = 0x1000;
const FUN2: usize = 0x2000;
const HOOK: usize = 0x3000;
const TABLE: usize = 0x5008;

fn fun(addr: usize, arg: usize) -> usize {
    match addr {
        FUN1 => arg + 123,
        FUN2 => 2 * arg,
        _ => panic!("no function at {addr:#x}"),
    }
}

/// Call through a pointer that may have been hooked.
fn call<CC, T: HookThunk<usize, usize>>(word: usize, bare: &BareHook<CC, T>, arg: usize) -> usize {
    if word == bare.addr {
        bare.call(arg)
    } else {
        fun(word, arg)
    }
}

/// Call through a pointer that may have been hooked by a hook with a switch.
fn call_toggled<CC, T: HookThunk<usize, usize>>(
    word: usize,
    bare: &BareHook<CC, T>,
    switch: Option<bool>,
    arg: usize,
) -> usize {
    if word == bare.addr {
        bare.call_toggled(switch, &fun, arg)
    } else {
        fun(word, arg)
    }
}

#[test]
fn test_non_toggleable_hook_by_sig() {
    let mut memory = Pages::memory();
    let mut vmt_or_iat = [FUN1, FUN2];

    let builder = Builder::new()
        .target_fn::<cc::C>(TABLE)
        .hook_ctx(|ctx: &Context, n: usize| n + fun(ctx.original_ptr(), n));

    let hook0 = builder.install(&mut memory, &mut vmt_or_iat[0], HOOK).unwrap();
    assert_eq!(call(vmt_or_iat[0], hook0.bare(), 100), 323);
}

#[test]
fn test_toggleable_hook_ctx_by_addr() {
    let mut memory = Pages::memory();
    let mut vmt_or_iat = [FUN1, FUN2];

    let builder = Builder::new().target_addr(TABLE + 8).cc(cc::C).hook_ctx(
        |ctx: &Context, n: usize| -> usize {
            let original_value = ctx.call_original(&fun, n);
            original_value + 1000
        },
    );

    let mut hook1 = builder.install_toggleable(&mut memory, &mut vmt_or_iat[1], HOOK).unwrap();

    assert_eq!(call_toggled(vmt_or_iat[1], hook1.bare(), hook1.switch(), 100), 1200);

    hook1.disable();
    assert_eq!(call_toggled(vmt_or_iat[1], hook1.bare(), hook1.switch(), 100), 200);

    hook1.enable();
    assert_eq!(call_toggled(vmt_or_iat[1], hook1.bare(), hook1.switch(), 50), 1100);

    let bare = hook1.release(); // should disable
    assert_eq!(call_toggled(vmt_or_iat[1], &bare, None, 200), 400);
}

#[test]
fn hook_without_context() {
    let mut memory = Pages::memory();
    let mut word = FUN1;
    let hook = Builder::new()
        .cc("fastcall")
        .target_ptr(TABLE)
        .hook(|n: usize| n + 1)
        .install(&mut memory, &mut word, HOOK)
        .unwrap();
    assert_eq!(word, HOOK);
    assert_eq!(hook.original(), FUN1);
    assert_eq!(hook.bare().cc, "fastcall");
    assert_eq!(call(word, hook.bare(), 5), 6);
}

#[test]
fn builder_keeps_what_it_was_told() {
    let by_cc = Builder::new().cc(7u8);
    assert_eq!(by_cc.state.target, 0);
    let by_cc = by_cc.target_addr(0x77);
    assert_eq!((by_cc.state.target, by_cc.state.cc), (0x77, 7));
    let by_ptr = Builder::default().target_ptr(0x88);
    assert_eq!((by_ptr.state.target, by_ptr.state.cc), (0x88, cc::C));
    let by_ptr = by_ptr.cc(9u8);
    assert_eq!((by_ptr.state.target, by_ptr.state.cc), (0x88, 9));
    let plain = Builder::new().target_fn::<cc::C>(0x99).hook(|n: usize| n);
    assert_eq!(plain.state.target, 0x99);
    assert!(plain.state.ctx_orig_setter.is_none());
}

#[test]
fn leaky_hook_is_disabled_when_released() {
    let mut memory = Pages::memory();
    let mut word = FUN1;
    let hook = Builder::new()
        .target_ptr(TABLE)
        .hook(|n: usize| 10 * n)
        .install(&mut memory, &mut word, HOOK)
        .unwrap();
    assert!(hook.disable(&mut memory, &mut word).is_ok());
    assert_eq!(word, FUN1);
    assert!(hook.enable(&mut memory, &mut word).is_ok());
    assert_eq!(word, HOOK);
    let bare = hook.release(&mut memory, &mut word);
    assert_eq!(word, FUN1);
    assert_eq!(call(word, &bare, 7), 130);
}

#[test]
fn toggleable_hook_can_leave_memory() {
    let mut memory = Pages::memory();
    let mut word = FUN2;
    let hook = Builder::new()
        .target_addr(TABLE)
        .hook(|n: usize| n + 3)
        .install_toggleable(&mut memory, &mut word, HOOK)
        .unwrap();
    assert_eq!(hook.original(), FUN2);
    assert_eq!(call_toggled(word, hook.bare(), hook.switch(), 4), 7);
    assert!(anglerkit::hook::ToggleableHook::disable_raw(&hook, &mut memory, &mut word).is_ok());
    assert_eq!(word, FUN2);
    assert!(anglerkit::hook::ToggleableHook::enable_raw(&hook, &mut memory, &mut word).is_ok());
    assert_eq!(word, HOOK);
}

#[test]
fn memory_is_made_writable_and_restored() {
    let mut memory = Pages::memory();
    let mut word = FUN1;
    let raw = raw_hook(FUN1);
    assert_eq!(raw.swap_target(&mut memory, &mut word, 0x42).unwrap(), FUN1);
    assert_eq!(word, 0x42);
    assert_eq!(
        memory.os().log,
        vec![
            (TABLE, size_of::<usize>(), Protection::READ_WRITE),
            (0x5000, 0x1000, Protection::READ),
        ]
    );
}

#[test]
fn memory_that_stays_protected_is_left_alone() {
    let mut memory = Pages::refusing(0);
    let mut word = FUN1;
    let raw = raw_hook(FUN1);
    let error = raw.enable(&mut memory, &mut word).unwrap_err();
    assert_eq!(word, FUN1);
    assert_eq!(error.message(), "OS error: OS error: refused");
    let outcome = Builder::new().target_ptr(TABLE).hook(|n: usize| n).install(
        &mut memory,
        &mut word,
        HOOK,
    );
    assert!(outcome.is_err());
    assert_eq!(word, FUN1);
}

#[test]
fn failure_to_restore_is_reported_after_the_change() {
    let mut memory = Pages::refusing(1);
    let mut word = FUN1;
    let raw = raw_hook(FUN1);
    let Error::OsErr(error) = raw.enable(&mut memory, &mut word).unwrap_err();
    assert_eq!(error.message(), "OS error: refused");
    assert_eq!(word, HOOK);
}

#[test]
fn uninstall_restores_the_pointer() {
    let mut memory = Pages::memory();
    let mut word = FUN2;
    let raw = raw_hook(FUN2);
    assert_eq!(raw.original(), FUN2);
    raw.enable(&mut memory, &mut word).unwrap();
    assert_eq!(word, HOOK);
    raw.uninstall(&mut memory, &mut word).unwrap();
    assert_eq!(word, FUN2);
}

#[test]
fn original_is_told_once() {
    let mut context = Context::new();
    assert_eq!(context.set_original(5), 5);
    assert_eq!(context.set_original(6), 5);
    assert_eq!(context.original_ptr(), 5);
}

#[test]
fn switch_decides() {
    assert!(calls_hook(Some(true)));
    assert!(!calls_hook(Some(false)));
    assert!(!calls_hook(None));
}
