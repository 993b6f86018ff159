//! Changes to memory whose protection stands in the way.

use vstd::prelude::*;

use super::memory;
use super::memory::{MemFunctions, MemProtectGuard, Protection};
use super::OsErr;

verus! {

/// The replacement of a word in memory.
pub struct Write<M> {
    /// The system when the word was replaced.
    pub at: M,
    /// The address of the word.
    pub addr: usize,
    pub before: usize,
    pub after: usize,
}

/// Memory as an operating system protects it.
///
/// The words that were replaced are on record, each with the state in which the system was: that
/// tells when the word was replaced.
pub struct Memory<M: MemFunctions> {
    os: M,
    writes: Ghost<Seq<Write<M>>>,
}

impl<M: MemFunctions> Memory<M> {
    /// The system that protects the memory.
    pub closed spec fn system(self) -> M {
        self.os
    }

    /// The words that were replaced, in order.
    pub closed spec fn writes(self) -> Seq<Write<M>> {
        self.writes@
    }

    pub fn new(os: M) -> (r: Self)
        ensures
            r.system() == os,
            r.writes() == Seq::<Write<M>>::empty(),
    {
        Memory { os, writes: Ghost(Seq::empty()) }
    }

    /// The system that protects the memory.
    pub fn os(&self) -> (r: &M)
        ensures
            *r == self.system(),
    {
        &self.os
    }

    /// Change the protection of the pages that `size` bytes at `addr` touch. Returns what is
    /// needed to restore it.
    pub fn mem_protect_guard(&mut self, addr: usize, size: usize, prot: Protection) -> (r: Result<
        MemProtectGuard,
        OsErr,
    >)
        requires
            addr + size <= usize::MAX,
        ensures
            memory::guarded(old(self).system(), addr, size, prot, final(self).system(), r),
            final(self).writes() == old(self).writes(),
    {
        self.os.mem_protect_guard(addr, size, prot)
    }

    /// Replace the word at `addr`. Returns what it was.
    pub fn replace(&mut self, addr: usize, word: &mut usize, new: usize) -> (r: usize)
        ensures
            r == *old(word),
            *final(word) == new,
            final(self).system() == old(self).system(),
            final(self).writes() == old(self).writes().push(
                Write { at: old(self).system(), addr, before: *old(word), after: new },
            ),
    {
        let previous: usize = *word;
        *word = new;
        self.writes = Ghost(
            self.writes@.push(Write { at: self.os, addr, before: previous, after: new }),
        );
        previous
    }

    /// Restore the protection of the regions that a guard keeps, in order, up to the first
    /// error.
    pub fn revert(&mut self, guard: MemProtectGuard) -> (r: Result<(), OsErr>)
        ensures
            memory::reverted(old(self).system(), guard@, final(self).system(), r),
            final(self).writes() == old(self).writes(),
    {
        guard.revert(&mut self.os)
    }
}

/// Replacing a word returns what it was, leaves the new word in it, and puts just that on record,
/// with the system as it is; the system is not changed.
pub proof fn law_replaced_word_is_on_record<M: MemFunctions>(
    memory: &mut Memory<M>,
    addr: usize,
    word: &mut usize,
    new: usize,
    r: usize,
)
    requires
        call_ensures(Memory::<M>::replace, (memory, addr, word, new), r),
    ensures
        r == *old(word),
        *final(word) == new,
        final(memory).system() == old(memory).system(),
        final(memory).writes().len() == old(memory).writes().len() + 1,
        final(memory).writes().last() == (Write {
            at: old(memory).system(),
            addr,
            before: *old(word),
            after: new,
        }),
        final(memory).writes().drop_last() == old(memory).writes(),
{
    assert(final(memory).writes().drop_last() =~= old(memory).writes());
}

/// Making a guard and reverting it are done by the system, and put nothing on record.
pub proof fn law_protection_is_changed_by_the_system<M: MemFunctions>(
    memory: &mut Memory<M>,
    addr: usize,
    size: usize,
    prot: Protection,
    made: Result<MemProtectGuard, OsErr>,
    other: &mut Memory<M>,
    guard: MemProtectGuard,
    reverted: Result<(), OsErr>,
)
    requires
        call_ensures(Memory::<M>::mem_protect_guard, (memory, addr, size, prot), made),
        call_ensures(Memory::<M>::revert, (other, guard), reverted),
    ensures
        memory::guarded(
            old(memory).system(),
            addr,
            size,
            prot,
            final(memory).system(),
            made,
        ),
        final(memory).writes() == old(memory).writes(),
        memory::reverted(old(other).system(), guard@, final(other).system(), reverted),
        final(other).writes() == old(other).writes(),
{
}

/// Memory that is taken over from a system has nothing on record, and tells that system.
pub proof fn law_new_memory_has_no_record<M: MemFunctions>(os: M, memory: Memory<M>, told: &M)
    requires
        call_ensures(Memory::<M>::new, (os,), memory),
        call_ensures(Memory::<M>::os, (&memory,), told),
    ensures
        *told == os,
        memory.system() == os,
        memory.writes().len() == 0,
{
}

} // verus!
