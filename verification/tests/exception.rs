use std::cell::{Cell, RefCell};

use anglerkit::os::exception::{
    ContextStack, CpuContext, Disposition, ExceptionFunctions, ExceptionFunctionsEx,
    AARCH64_BREAKPOINT_LEN, X86_BREAKPOINT_LEN,
};

/// Functions are executed and never interrupted.
struct Direct;

impl ExceptionFunctions for Direct {}

/// Functions are interrupted when they raise a flag.
struct Simulated {
    stack: RefCell<ContextStack<u32>>,
    fault: Cell<bool>,
}

impl Simulated {
    fn new() -> Self {
        Simulated { stack: RefCell::new(ContextStack::new()), fault: Cell::new(false) }
    }

    fn exception(&self, addr: usize) {
        let mut ctx = context(addr, 0, 0);
        self.stack.borrow_mut().on_exception(SETJMP, X86_BREAKPOINT_LEN, addr, &mut ctx);
    }
}

impl ExceptionFunctions for Simulated {
    fn try_except_raw<C, F: FnOnce(C) -> C>(&self, ctx: C, fun: F) -> Option<C> {
        self.exception(SETJMP);
        let out = fun(ctx);
        if self.fault.take() {
            self.exception(0);
        }
        self.stack.borrow_mut().finish().then_some(out)
    }
}

#[test]
fn function_that_is_not_interrupted() {
    assert_eq!(Direct.try_except(|| 6 * 7), Ok(42));
    assert_eq!(Direct.try_except_raw(3, |n: i32| n + 1), Some(4));
}

#[test]
fn test_seh() {
    let os = Simulated::new();
    let result = os.try_except(|| {
        os.fault.set(true);
    });
    assert!(result.is_err())
}

#[test]
fn interrupted_function_within_another() {
    let os = Simulated::new();
    let result = os.try_except(|| {
        let inner = os.try_except(|| os.fault.set(true));
        (inner, 42)
    });
    assert_eq!(result, Ok((Err(()), 42)));
}

fn context(pc: usize, ret: usize, rest: u32) -> CpuContext<u32> {
    CpuContext { pc, ret, rest }
}

fn parts(ctx: &CpuContext<u32>) -> (usize, usize, u32) {
    (ctx.pc, ctx.ret, ctx.rest)
}

const SETJMP: usize = 0x500;

#[test]
fn call_without_exception() {
    let mut stack = ContextStack::new();
    let mut ctx = context(SETJMP, 99, 7);
    let handled = stack.on_exception(SETJMP, X86_BREAKPOINT_LEN, SETJMP, &mut ctx);
    assert_eq!(handled, Disposition::ContinueExecution);
    assert_eq!(parts(&ctx), (0x501, 0, 7));
    assert!(stack.finish());
}

#[test]
fn call_with_exception_returns_twice() {
    let mut stack = ContextStack::new();
    let mut ctx = context(SETJMP, 99, 7);
    stack.on_exception(SETJMP, AARCH64_BREAKPOINT_LEN, SETJMP, &mut ctx);
    assert_eq!(parts(&ctx), (0x504, 0, 7));
    let mut fault = context(0x9000, 12, 34);
    let handled = stack.on_exception(SETJMP, AARCH64_BREAKPOINT_LEN, 0x9000, &mut fault);
    assert_eq!(handled, Disposition::ContinueExecution);
    assert_eq!(parts(&fault), (0x504, 1, 7));
    assert!(!stack.finish());
}

#[test]
fn exception_outside_of_a_call_is_passed_on() {
    let mut stack = ContextStack::new();
    let mut ctx = context(0x9000, 12, 34);
    let handled = stack.on_exception(SETJMP, X86_BREAKPOINT_LEN, 0x9000, &mut ctx);
    assert_eq!(handled, Disposition::ContinueSearch);
    assert_eq!(parts(&ctx), (0x9000, 12, 34));
}

#[test]
fn nested_calls_are_independent() {
    let mut stack = ContextStack::new();
    let mut outer = context(SETJMP, 0, 1);
    stack.on_exception(SETJMP, X86_BREAKPOINT_LEN, SETJMP, &mut outer);
    let mut inner = context(SETJMP, 0, 2);
    stack.on_exception(SETJMP, X86_BREAKPOINT_LEN, SETJMP, &mut inner);
    let mut fault = context(0x9000, 0, 3);
    stack.on_exception(SETJMP, X86_BREAKPOINT_LEN, 0x9000, &mut fault);
    assert_eq!(parts(&fault), (0x501, 1, 2));
    assert!(!stack.finish());
    assert!(stack.finish());
}
