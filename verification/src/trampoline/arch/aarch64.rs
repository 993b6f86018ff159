//! Machine code for aarch64.

use vstd::arithmetic::power::pow;
use vstd::prelude::*;

use super::bytes;
use super::traits;

verus! {

/// aarch64 indirect jump thunk.
pub struct Thunk {
    /// Load self.target into ip0 (x16).
    ldr_ip0: [u8; 4],
    /// Branch to ip0 (x16).
    br_ip0: [u8; 4],
    target: u64,
}

/// The instructions of a thunk.
pub open spec fn instructions() -> Seq<u8> {
    seq![0x50, 0x00, 0x00, 0x58, 0x00, 0x02, 0x1F, 0xD6]
}

/// The bytes of a thunk in memory.
pub open spec fn thunk_image(target: u64) -> Seq<u8> {
    instructions() + bytes::le_bytes(target as nat, 8)
}

impl Thunk {
    pub fn new(target: u64) -> (r: Self)
        ensures
            traits::Thunk::wf(&r),
            traits::Thunk::spec_target(&r) == target,
    {
        let r = Thunk {
            ldr_ip0: [0x50, 0x00, 0x00, 0x58],
            br_ip0: [0x00, 0x02, 0x1F, 0xD6],
            target,
        };
        assert(r.ldr_ip0@ + r.br_ip0@ =~= instructions());
        r
    }
}

impl traits::Thunk for Thunk {
    type Addr = u64;

    closed spec fn wf(&self) -> bool {
        self.ldr_ip0@ + self.br_ip0@ == instructions()
    }

    closed spec fn spec_target(&self) -> u64 {
        self.target
    }

    open spec fn fits_at(&self, addr: u64) -> bool {
        true
    }

    open spec fn image(&self) -> Seq<u8> {
        thunk_image(self.spec_target())
    }

    fn target(&self) -> (r: u64) {
        self.target
    }

    fn set_target(&mut self, target: u64)
        ensures
            traits::Thunk::spec_target(final(self)) == target,
    {
        self.target = target;
    }

    fn to_bytes(&self) -> (r: Vec<u8>)
        ensures
            r@.len() == 16,
            r@[0] == 0x50,
            r@[1] == 0,
            r@[2] == 0,
            r@[3] == 0x58,
            r@[4] == 0,
            r@[5] == 2,
            r@[6] == 0x1f,
            r@[7] == 0xd6,
            forall|i: int|
                0 <= i < 8 ==> #[trigger] r@[8 + i] == self.spec_target() as int / pow(
                    256,
                    i as nat,
                ) % 256,
    {
        let mut image: Vec<u8> = Vec::new();
        bytes::push_all(&mut image, &self.ldr_ip0);
        bytes::push_all(&mut image, &self.br_ip0);
        assert(image@ =~= instructions());
        bytes::push_le(&mut image, self.target, 8);
        image
    }
}

/// The register that a load of a 64-bit literal writes.
pub open spec fn ldr_literal_register(word: int) -> int {
    word % 32
}

/// The offset of what a load of a literal reads, relative to the instruction.
pub open spec fn ldr_literal_offset(word: int) -> int {
    4 * ((word / 32) % 0x80000)
}

/// Whether a word is a load of a 64-bit literal that follows the instruction.
pub open spec fn is_ldr_literal(word: int) -> bool {
    word / 0x1000000 == 0x58 && (word / 32) % 0x80000 < 0x40000
}

/// Whether a word is a branch to a register.
pub open spec fn is_br(word: int) -> bool {
    word - 32 * br_register(word) == 0xD61F0000
}

/// The register to which a branch goes.
pub open spec fn br_register(word: int) -> int {
    (word / 32) % 32
}

/// A thunk loads its target into x16 and branches there.
pub proof fn law_thunk_branches_to_target(target: u64)
    ensures
        ({
            let image = thunk_image(target);
            let ldr = bytes::le_value(image.subrange(0, 4)) as int;
            let br = bytes::le_value(image.subrange(4, 8)) as int;
            let offset = ldr_literal_offset(ldr);
            &&& image.len() == 16
            &&& is_ldr_literal(ldr)
            &&& bytes::le_value(image.subrange(offset, offset + 8)) == target
            &&& is_br(br)
            &&& ldr_literal_register(ldr) == 16
            &&& br_register(br) == 16
        }),
{
    let image = thunk_image(target);
    reveal_with_fuel(bytes::byte_range, 9);
    bytes::law_le_round_trip(target as nat, 8);
    reveal_with_fuel(bytes::le_value, 5);
    assert(image.subrange(0, 4) =~= seq![0x50u8, 0x00u8, 0x00u8, 0x58u8]);
    assert(image.subrange(4, 8) =~= seq![0x00u8, 0x02u8, 0x1Fu8, 0xD6u8]);
    assert(image.subrange(8, 16) =~= bytes::le_bytes(target as nat, 8));
}

/// Whatever its target, the bytes of a thunk are the load `50 00 00 58`, the branch `00 02 1F D6`
/// and the target, its lowest byte first. It does not matter whether the thunk was made for the
/// target or was given it later.
pub proof fn law_thunk_is_code_and_its_target(
    first: u64,
    target: u64,
    made: Thunk,
    thunk: &mut Thunk,
    code: Vec<u8>,
    later: Vec<u8>,
)
    requires
        call_ensures(Thunk::new, (target,), made),
        call_ensures(<Thunk as traits::Thunk>::to_bytes, (&made,), code),
        call_ensures(Thunk::new, (first,), *old(thunk)),
        call_ensures(<Thunk as traits::Thunk>::set_target, (thunk, target), ()),
        call_ensures(<Thunk as traits::Thunk>::to_bytes, (final(thunk),), later),
    ensures
        code@.len() == 16,
        code@[0] == 0x50,
        code@[1] == 0,
        code@[2] == 0,
        code@[3] == 0x58,
        code@[4] == 0,
        code@[5] == 2,
        code@[6] == 0x1f,
        code@[7] == 0xd6,
        forall|i: int|
            0 <= i < 8 ==> #[trigger] code@[8 + i] == target as int / pow(256, i as nat) % 256,
        later@ == code@,
{
    assert(later@ =~= code@) by {
        assert forall|i: int| 0 <= i < 16 implies later@[i] == code@[i] by {
            if i >= 8 {
                assert(later@[8 + (i - 8)] == code@[8 + (i - 8)]);
            }
        }
    }
}

/// A thunk can be placed at any address, and needs nothing there: its bytes stay as they are.
pub proof fn law_thunk_does_not_depend_on_its_address(
    thunk: &mut Thunk,
    addr: u64,
    before: Vec<u8>,
    after: Vec<u8>,
)
    requires
        call_ensures(<Thunk as traits::Thunk>::to_bytes, (old(thunk),), before),
        call_ensures(<Thunk as traits::Thunk>::init, (thunk, addr), ()),
        call_ensures(<Thunk as traits::Thunk>::to_bytes, (final(thunk),), after),
    ensures
        traits::Thunk::fits_at(old(thunk), addr),
        after@ == before@,
{
    assert(traits::Thunk::spec_target(final(thunk)) == traits::Thunk::spec_target(old(thunk)));
    assert(after@ =~= before@) by {
        assert forall|i: int| 0 <= i < 16 implies after@[i] == before@[i] by {
            if i >= 8 {
                assert(after@[8 + (i - 8)] == before@[8 + (i - 8)]);
            }
        }
    }
}

} // verus!
