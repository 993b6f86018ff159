//! What machine code for each architecture has in common.

use vstd::prelude::*;

verus! {

/// A sequence of instructions responsible for rerouting a function call to an
/// arbitrary address.
///
/// This is typically used when hooking requires that the hook procedure be within a
/// certain address range of the function being hooked.
///
/// After [`Self::init`](Thunk::init) is called the thunk's bytes must be valid
/// machine code which, when executed, sets the instruction pointer
/// to [`Self::target`](Thunk::target).
///
/// Ideally, this should be the sole effect; no other registers or flags should be
/// modified. On architectures where this is not possible, thunks should only
/// clobber registers reserved for this by linker thunks (e.g. ip0/ip1 on aarch64).
pub trait Thunk: Sized {
    /// A code address.
    type Addr;

    /// Whether the bytes around the target are the instructions of the thunk.
    spec fn wf(&self) -> bool;

    spec fn spec_target(&self) -> Self::Addr;

    /// Whether the thunk can be placed at an address.
    spec fn fits_at(&self, addr: Self::Addr) -> bool;

    /// The bytes of the thunk in memory.
    spec fn image(&self) -> Seq<u8>;

    /// For thunks that are sensitive to their address, initialize that state, given the
    /// address at which the thunk is and stays.
    fn init(&mut self, addr: Self::Addr)
        requires
            old(self).wf(),
            old(self).fits_at(addr),
        ensures
            final(self).wf(),
            final(self).spec_target() == old(self).spec_target(),
        default_ensures
            *final(self) == *old(self),
    {
    }

    /// Get the target of this thunk.
    fn target(&self) -> (r: Self::Addr)
        ensures
            r == self.spec_target(),
    ;

    /// Set the target of this thunk.
    fn set_target(&mut self, target: Self::Addr)
        requires
            old(self).wf(),
        ensures
            final(self).wf(),
            final(self).spec_target() == target,
    ;

    /// The bytes of the thunk in memory.
    fn to_bytes(&self) -> (r: Vec<u8>)
        requires
            self.wf(),
        ensures
            r@ == self.image(),
    ;
}

} // verus!
