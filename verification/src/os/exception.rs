//! Recovery from hardware exceptions.

use vstd::prelude::*;

verus! {

pub trait ExceptionFunctions: Sized {
    /// Whether execution of a function may be interrupted and yet return to the caller.
    open spec fn may_interrupt(&self) -> bool {
        true
    }

    /// Execute a function taking some context within a hardware exception handler.
    ///
    /// Returns what the function makes of the context if it executed successfully and `None`
    /// if execution was interrupted due to an exception (e.g. `EXCEPTION_ACCESS_VIOLATION` or
    /// `SIGBUS`).
    ///
    /// For a more ergonomic API consider using [`ExceptionFunctionsEx::try_except`].
    ///
    /// Due to platform and architecture differences, this method only catches exceptions on a
    /// best-effort basis. Its use should be limited to best-effort recovery from hardware
    /// exceptions, and program soundness should not be based on this method's ability to catch
    /// a particular exception.
    fn try_except_raw<C, F: FnOnce(C) -> C>(&self, ctx: C, fun: F) -> (r: Option<C>)
        requires
            call_requires(fun, (ctx,)),
        ensures
            r matches Some(out) ==> call_ensures(fun, (ctx,), out),
            r is None ==> self.may_interrupt(),
        default_ensures
            r is Some,
    {
        Some(fun(ctx))
    }
}

/// A function that is to be executed, or what it returned.
pub enum Progress<F, R> {
    Pending(F),
    Done(R),
}

/// Execute the function, if that has not been done.
pub fn run<F: FnOnce() -> R, R>(progress: Progress<F, R>) -> (r: Progress<F, R>)
    requires
        progress matches Progress::Pending(fun) ==> call_requires(fun, ()),
    ensures
        r matches Progress::Done(value) && match progress {
            Progress::Pending(fun) => call_ensures(fun, (), value),
            Progress::Done(done) => value == done,
        },
{
    match progress {
        Progress::Pending(fun) => Progress::Done(fun()),
        Progress::Done(done) => Progress::Done(done),
    }
}

/// Whether `r` is what one execution of a function within the exception handler of `os` gives:
/// what the function returned if the raw call tells that it was executed, and an error if the raw
/// call tells, by `None`, that it was interrupted.
pub open spec fn ran_within<T: ExceptionFunctions, F: FnOnce() -> R, R>(
    os: &T,
    fun: F,
    r: Result<R, ()>,
) -> bool {
    call_ensures(
        T::try_except_raw,
        (os, Progress::Pending(fun), run::<F, R>),
        match r {
            Ok(value) => Some(Progress::Done(value)),
            Err(_) => None::<Progress<F, R>>,
        },
    )
}

/// Extension trait for [`ExceptionFunctions`].
pub trait ExceptionFunctionsEx: ExceptionFunctions {
    /// Execute a closure within a hardware exception handler.
    ///
    /// Returns [`Ok`] if the function executed successfully and [`Err`] if execution
    /// was interrupted due to an exception (e.g. `EXCEPTION_ACCESS_VIOLATION` or
    /// `SIGBUS`).
    ///
    /// Due to platform and architecture differences, this method only catches
    /// exceptions on a best-effort basis. Do not rely on it catching any particular
    /// exception for soundness.
    fn try_except<F: FnOnce() -> R, R>(&self, fun: F) -> (r: Result<R, ()>)
        requires
            call_requires(fun, ()),
        ensures
            ran_within(self, fun, r),
            call_ensures(
                Self::try_except_raw,
                (self, Progress::Pending(fun), run::<F, R>),
                match r {
                    Ok(value) => Some(Progress::Done(value)),
                    Err(_) => None::<Progress<F, R>>,
                },
            ),
            r matches Ok(value) ==> call_ensures(fun, (), value),
            r is Err ==> self.may_interrupt(),
    {
        let ran = self.try_except_raw(Progress::Pending(fun), run::<F, R>);
        match ran {
            Some(Progress::Done(value)) => Ok(value),
            _ => Err(()),
        }
    }
}

impl<T: ExceptionFunctions> ExceptionFunctionsEx for T {

}

/// Length of the `int3` instruction of x86.
pub const X86_BREAKPOINT_LEN: usize = 1;

/// Length of the `brk` instruction of aarch64.
pub const AARCH64_BREAKPOINT_LEN: usize = 4;

/// The registers of a thread.
pub struct CpuContext<R> {
    /// The instruction that is executed next.
    pub pc: usize,
    /// The register that holds what a function returns.
    pub ret: usize,
    /// All other registers.
    pub rest: R,
}

/// How an exception is dealt with.
#[derive(Debug, Clone, Copy, PartialEq, Eq, Structural)]
pub enum Disposition {
    /// The thread goes on with the registers of the context.
    ContinueExecution,
    /// The next exception handler is called.
    ContinueSearch,
}

/// The contexts to which a thread returns when a call is interrupted, the innermost last.
///
/// A call is made by executing a function that consists of a breakpoint and a return. The
/// exception handler saves the context behind the breakpoint, with `0` as what the function
/// returns. When another exception occurs, the saved context is restored, with `1` as what the
/// function returns: it returns a second time.
pub struct ContextStack<R> {
    stack: Vec<CpuContext<R>>,
}

impl<R> View for ContextStack<R> {
    type V = Seq<CpuContext<R>>;

    closed spec fn view(&self) -> Seq<CpuContext<R>> {
        self.stack@
    }
}

/// The context behind a breakpoint, with `0` as what the function returns.
pub open spec fn behind_breakpoint<R>(
    ctx: CpuContext<R>,
    breakpoint_len: usize,
) -> CpuContext<R> {
    CpuContext { pc: (ctx.pc + breakpoint_len) as usize, ret: 0, rest: ctx.rest }
}

/// A saved context, with `1` as what the function returns.
pub open spec fn second_return<R>(saved: CpuContext<R>) -> CpuContext<R> {
    CpuContext { ret: 1, ..saved }
}

/// The saved contexts after an exception that the breakpoint did not cause.
pub open spec fn interrupted<R>(stack: Seq<CpuContext<R>>) -> Seq<CpuContext<R>> {
    if stack.len() == 0 {
        stack
    } else {
        stack.update(stack.len() - 1, second_return(stack.last()))
    }
}

impl<R: Copy> ContextStack<R> {
    pub fn new() -> (r: Self)
        ensures
            r@ == Seq::<CpuContext<R>>::empty(),
    {
        ContextStack { stack: Vec::new() }
    }

    /// Handle an exception that occurred at `exception_addr`, given where the breakpoint is.
    ///
    /// If no context is saved, the exception has nothing to do with a call that is being made,
    /// and is left to the next handler.
    pub fn on_exception(
        &mut self,
        breakpoint_addr: usize,
        breakpoint_len: usize,
        exception_addr: usize,
        ctx: &mut CpuContext<R>,
    ) -> (r: Disposition)
        requires
            exception_addr == breakpoint_addr ==> old(ctx).pc + breakpoint_len <= usize::MAX,
        ensures
            exception_addr == breakpoint_addr ==> {
                &&& r == Disposition::ContinueExecution
                &&& *final(ctx) == behind_breakpoint(*old(ctx), breakpoint_len)
                &&& final(self)@ == old(self)@.push(*final(ctx))
            },
            exception_addr != breakpoint_addr ==> {
                &&& final(self)@ == interrupted(old(self)@)
                &&& if old(self)@.len() == 0 {
                    &&& r == Disposition::ContinueSearch
                    &&& *final(ctx) == *old(ctx)
                } else {
                    &&& r == Disposition::ContinueExecution
                    &&& *final(ctx) == second_return(old(self)@.last())
                }
            },
            exception_addr == breakpoint_addr ==> {
                &&& final(ctx).pc == old(ctx).pc + breakpoint_len
                &&& final(ctx).ret == 0
                &&& final(ctx).rest == old(ctx).rest
            },
            exception_addr != breakpoint_addr && old(self)@.len() == 0 ==> final(self)@
                == old(self)@,
            exception_addr != breakpoint_addr && old(self)@.len() > 0 ==> {
                &&& final(ctx).pc == old(self)@.last().pc
                &&& final(ctx).ret == 1
                &&& final(ctx).rest == old(self)@.last().rest
                &&& final(self)@ == old(self)@.drop_last().push(*final(ctx))
            },
    {
        if exception_addr == breakpoint_addr {
            let saved = CpuContext { pc: ctx.pc + breakpoint_len, ret: 0, rest: ctx.rest };
            *ctx = CpuContext { pc: saved.pc, ret: saved.ret, rest: saved.rest };
            self.stack.push(saved);
            return Disposition::ContinueExecution;
        }
        let n: usize = self.stack.len();
        if n == 0 {
            return Disposition::ContinueSearch;
        }
        let pc: usize = self.stack[n - 1].pc;
        let rest = self.stack[n - 1].rest;
        self.stack.set(n - 1, CpuContext { pc, ret: 1, rest });
        *ctx = CpuContext { pc, ret: 1, rest };
        assert(self@ =~= old(self)@.drop_last().push(*ctx));
        Disposition::ContinueExecution
    }

    /// End the innermost call. Returns whether it was not interrupted.
    pub fn finish(&mut self) -> (r: bool)
        requires
            old(self)@.len() > 0,
        ensures
            r == (old(self)@.last().ret == 0),
            final(self)@ == old(self)@.drop_last(),
    {
        match self.stack.pop() {
            Some(ctx) => ctx.ret == 0,
            None => vstd::pervasive::unreached(),
        }
    }
}

/// What happens on a thread that makes calls.
pub enum CallEvent<R> {
    /// A call begins at the breakpoint, in the given context.
    Begin(CpuContext<R>),
    /// An exception occurs elsewhere.
    Exception,
    /// The innermost call ends.
    End,
}

/// The saved contexts after an event.
pub open spec fn after_event<R>(
    stack: Seq<CpuContext<R>>,
    event: CallEvent<R>,
    breakpoint_len: usize,
) -> Seq<CpuContext<R>> {
    match event {
        CallEvent::Begin(ctx) => stack.push(behind_breakpoint(ctx, breakpoint_len)),
        CallEvent::Exception => interrupted(stack),
        CallEvent::End => stack.drop_last(),
    }
}

/// The saved contexts after a history.
pub open spec fn after_history<R>(
    stack: Seq<CpuContext<R>>,
    history: Seq<CallEvent<R>>,
    breakpoint_len: usize,
) -> Seq<CpuContext<R>>
    decreases history.len(),
{
    if history.len() == 0 {
        stack
    } else {
        after_event(
            after_history(stack, history.drop_last(), breakpoint_len),
            history.last(),
            breakpoint_len,
        )
    }
}

/// How many more calls a history begins than it ends.
pub open spec fn open_calls<R>(history: Seq<CallEvent<R>>) -> int
    decreases history.len(),
{
    if history.len() == 0 {
        0
    } else {
        open_calls(history.drop_last()) + match history.last() {
            CallEvent::Begin(_) => 1int,
            CallEvent::Exception => 0,
            CallEvent::End => -1,
        }
    }
}

/// Whether a history ends no call that it does not begin.
pub open spec fn within_call<R>(history: Seq<CallEvent<R>>) -> bool
    decreases history.len(),
{
    history.len() == 0 || (within_call(history.drop_last()) && open_calls(history) >= 0)
}

/// Whether an exception occurs in a history while no call that it begins is open.
pub open spec fn has_exception<R>(history: Seq<CallEvent<R>>) -> bool
    decreases history.len(),
{
    history.len() > 0 && (has_exception(history.drop_last()) || (history.last()
        == CallEvent::<R>::Exception && open_calls(history.drop_last()) == 0))
}

/// Whatever happens during a call, calls within it included, the contexts of the calls around
/// it stay as they are, and its own context tells at the end whether it was interrupted: that
/// is, whether an exception occurred while it was the innermost call.
pub proof fn law_call_tells_whether_it_was_interrupted<R>(
    stack: Seq<CpuContext<R>>,
    ctx: CpuContext<R>,
    breakpoint_len: usize,
    history: Seq<CallEvent<R>>,
)
    requires
        within_call(history),
    ensures
        ({
            let saved = behind_breakpoint(ctx, breakpoint_len);
            let end = after_history(stack.push(saved), history, breakpoint_len);
            let n = stack.len() as int;
            &&& end.len() == n + 1 + open_calls(history)
            &&& end.take(n) == stack
            &&& end[n] == if has_exception(history) {
                second_return(saved)
            } else {
                saved
            }
            &&& (end[n].ret == 0) == !has_exception(history)
        }),
    decreases history.len(),
{
    let saved = behind_breakpoint(ctx, breakpoint_len);
    let n = stack.len() as int;
    if history.len() == 0 {
        assert(stack.push(saved).take(n) =~= stack);
    } else {
        law_call_tells_whether_it_was_interrupted(
            stack,
            ctx,
            breakpoint_len,
            history.drop_last(),
        );
        let before = after_history(stack.push(saved), history.drop_last(), breakpoint_len);
        let end = after_event(before, history.last(), breakpoint_len);
        assert(open_calls(history.drop_last()) >= 0) by {
            reveal_with_fuel(within_call, 2);
            reveal_with_fuel(open_calls, 2);
        }
        match history.last() {
            CallEvent::Begin(_) => {
                assert(end[n] == before[n]);
            },
            CallEvent::Exception => {
                if open_calls(history.drop_last()) == 0 {
                    assert(end[n] == second_return(before[n]));
                } else {
                    assert(end[n] == before[n]);
                }
            },
            CallEvent::End => {
                assert(end[n] == before[n]);
            },
        }
        assert(end.take(n) =~= before.take(n));
    }
}

/// A call within a call is told by itself: however often it is interrupted, and whatever calls
/// are made within it, its end says whether it was interrupted, and leaves the outer call as it
/// was, neither interrupted nor ended.
pub proof fn law_inner_interruption_is_not_reported_by_the_outer_call<R>(
    stack: Seq<CpuContext<R>>,
    outer: CpuContext<R>,
    inner: CpuContext<R>,
    breakpoint_len: usize,
    during: Seq<CallEvent<R>>,
)
    requires
        within_call(during),
        open_calls(during) == 0,
    ensures
        ({
            let saved = behind_breakpoint(outer, breakpoint_len);
            let begun = after_event(
                stack.push(saved),
                CallEvent::Begin(inner),
                breakpoint_len,
            );
            let before_end = after_history(begun, during, breakpoint_len);
            let ended = after_event(before_end, CallEvent::<R>::End, breakpoint_len);
            &&& (before_end.last().ret == 0) == !has_exception(during)
            &&& ended == stack.push(saved)
            &&& ended.last().ret == 0
        }),
{
    let saved = behind_breakpoint(outer, breakpoint_len);
    let around = stack.push(saved);
    law_call_tells_whether_it_was_interrupted(around, inner, breakpoint_len, during);
    let begun = around.push(behind_breakpoint(inner, breakpoint_len));
    let before_end = after_history(begun, during, breakpoint_len);
    assert(before_end.drop_last() =~= before_end.take(around.len() as int));
}

/// A call that begins at the breakpoint goes on behind it, with `0` as what the function returns
/// and every other register as it was, on top of the calls that are being made. If it ends at
/// once, it was not interrupted, and the calls around it are left as they were.
pub proof fn law_undisturbed_call_succeeds<R: Copy>(
    begin: &mut ContextStack<R>,
    end: &mut ContextStack<R>,
    ctx: &mut CpuContext<R>,
    breakpoint_addr: usize,
    breakpoint_len: usize,
    disposition: Disposition,
    finished: bool,
)
    requires
        call_ensures(
            ContextStack::<R>::on_exception,
            (begin, breakpoint_addr, breakpoint_len, breakpoint_addr, ctx),
            disposition,
        ),
        *old(end) == *final(begin),
        call_ensures(ContextStack::<R>::finish, (end,), finished),
    ensures
        disposition == Disposition::ContinueExecution,
        final(ctx).pc == old(ctx).pc + breakpoint_len,
        final(ctx).ret == 0,
        final(ctx).rest == old(ctx).rest,
        finished,
        final(end)@ == old(begin)@,
{
    assert(final(begin)@.drop_last() =~= old(begin)@);
}

/// An exception elsewhere goes on where the innermost call began, in the context that was saved
/// there, with `1` as what the function returns. That call then tells that it was interrupted,
/// and the calls around it are left as they were. If no call is being made, nothing changes, and
/// the exception is left to the next handler.
pub proof fn law_exception_interrupts_the_innermost_call<R: Copy>(
    stack: &mut ContextStack<R>,
    end: &mut ContextStack<R>,
    ctx: &mut CpuContext<R>,
    breakpoint_addr: usize,
    breakpoint_len: usize,
    exception_addr: usize,
    disposition: Disposition,
    finished: bool,
)
    requires
        exception_addr != breakpoint_addr,
        call_ensures(
            ContextStack::<R>::on_exception,
            (stack, breakpoint_addr, breakpoint_len, exception_addr, ctx),
            disposition,
        ),
        *old(end) == *final(stack),
        old(stack)@.len() > 0 ==> call_ensures(ContextStack::<R>::finish, (end,), finished),
    ensures
        old(stack)@.len() > 0 ==> {
            &&& disposition == Disposition::ContinueExecution
            &&& final(ctx).pc == old(stack)@.last().pc
            &&& final(ctx).ret == 1
            &&& final(ctx).rest == old(stack)@.last().rest
            &&& !finished
            &&& final(end)@ == old(stack)@.drop_last()
        },
        old(stack)@.len() == 0 ==> {
            &&& disposition == Disposition::ContinueSearch
            &&& *final(ctx) == *old(ctx)
            &&& final(stack)@ == old(stack)@
        },
{
    if old(stack)@.len() > 0 {
        assert(final(stack)@.drop_last() =~= old(stack)@.drop_last());
    }
}

/// The saved contexts after an event of a history are those that the handler leaves, or those
/// that the end of a call leaves.
pub proof fn law_history_is_what_the_handler_does<R: Copy>(
    stack: Seq<CpuContext<R>>,
    ctx: CpuContext<R>,
    breakpoint_len: usize,
)
    requires
        ctx.pc + breakpoint_len <= usize::MAX,
    ensures
        after_event(stack, CallEvent::Begin(ctx), breakpoint_len) == stack.push(
            CpuContext { pc: (ctx.pc + breakpoint_len) as usize, ret: 0, rest: ctx.rest },
        ),
        stack.len() > 0 ==> after_event(stack, CallEvent::<R>::Exception, breakpoint_len)
            == stack.drop_last().push(
            CpuContext { pc: stack.last().pc, ret: 1, rest: stack.last().rest },
        ),
        after_event(stack, CallEvent::<R>::End, breakpoint_len) == stack.drop_last(),
{
    if stack.len() > 0 {
        assert(after_event(stack, CallEvent::<R>::Exception, breakpoint_len)
            =~= stack.drop_last().push(
            CpuContext { pc: stack.last().pc, ret: 1, rest: stack.last().rest },
        ));
    }
}

/// The breakpoint of x86 is one byte long, and that of aarch64 is one instruction of four.
pub proof fn law_breakpoints_are_skipped_whole()
    ensures
        X86_BREAKPOINT_LEN == 1,
        AARCH64_BREAKPOINT_LEN == 4,
{
}

/// What a closure that is executed within an exception handler returns is handed on, if it is
/// executed, and it is executed as it was given.
pub proof fn law_closure_is_run_as_given<F: FnOnce() -> R, R>(fun: F, r: Progress<F, R>)
    requires
        call_ensures(run::<F, R>, (Progress::Pending(fun),), r),
    ensures
        r matches Progress::Done(value) && call_ensures(fun, (), value),
{
}

/// What is run within an exception handler is run by the raw call, with the very closure: an error
/// means that the raw call was interrupted, and a value that it returned that value.
pub proof fn law_result_is_that_of_the_raw_call<T: ExceptionFunctions, F: FnOnce() -> R, R>(
    os: &T,
    fun: F,
    r: Result<R, ()>,
)
    requires
        ran_within(os, fun, r),
    ensures
        r is Err ==> call_ensures(
            T::try_except_raw,
            (os, Progress::Pending(fun), run::<F, R>),
            None::<Progress<F, R>>,
        ),
        r matches Ok(value) ==> call_ensures(
            T::try_except_raw,
            (os, Progress::Pending(fun), run::<F, R>),
            Some(Progress::<F, R>::Done(value)),
        ),
{
}

} // verus!
