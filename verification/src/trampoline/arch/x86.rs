//! Machine code for x86.

use vstd::arithmetic::power::pow;
use vstd::prelude::*;

use super::bytes;
use super::traits;

verus! {

/// Absolute jump to the code address that is stored at an address.
struct JmpMem {
    opcode: [u8; 2],
    address: u32,
}

/// x86 indirect jump thunk.
pub struct Thunk {
    /// Absolute jump to target code address.
    ///
    /// jmp dword ptr [.target] (FF 25 &self.target)
    jmp_mem: JmpMem,
    /// Padding for `target` to be 4-byte aligned.
    pad: [u8; 2],
    /// The code address to jump to.
    target: u32,
}

/// Where the target is in a thunk.
pub const TARGET_OFFSET: u32 = 8;

/// The bytes of a thunk in memory, given the address at which it looks for its target.
pub open spec fn thunk_image(address: u32, target: u32) -> Seq<u8> {
    seq![0xFFu8, 0x25u8] + bytes::le_bytes(address as nat, 4) + seq![0xCCu8, 0xCCu8]
        + bytes::le_bytes(target as nat, 4)
}

impl Thunk {
    /// The address at which the thunk looks for its target.
    pub closed spec fn address(&self) -> u32 {
        self.jmp_mem.address
    }

    pub fn new(target: u32) -> (r: Self)
        ensures
            traits::Thunk::wf(&r),
            traits::Thunk::spec_target(&r) == target,
            r.address() == 0,
    {
        let r = Thunk {
            jmp_mem: JmpMem { opcode: [0xFF, 0x25], address: 0 },
            pad: [0xCC, 0xCC],
            target,
        };
        assert(r.jmp_mem.opcode@ =~= seq![0xFFu8, 0x25u8]);
        assert(r.pad@ =~= seq![0xCCu8, 0xCCu8]);
        r
    }
}

impl traits::Thunk for Thunk {
    type Addr = u32;

    closed spec fn wf(&self) -> bool {
        self.jmp_mem.opcode@ == seq![0xFFu8, 0x25u8] && self.pad@ == seq![0xCCu8, 0xCCu8]
    }

    closed spec fn spec_target(&self) -> u32 {
        self.target
    }

    open spec fn fits_at(&self, addr: u32) -> bool {
        addr + TARGET_OFFSET <= u32::MAX
    }

    open spec fn image(&self) -> Seq<u8> {
        thunk_image(self.address(), self.spec_target())
    }

    fn init(&mut self, addr: u32)
        ensures
            final(self).address() == addr + TARGET_OFFSET,
            final(self).address() == addr + 8,
    {
        self.jmp_mem.address = addr + TARGET_OFFSET;
    }

    fn target(&self) -> (r: u32) {
        self.target
    }

    fn set_target(&mut self, target: u32)
        ensures
            final(self).address() == old(self).address(),
            traits::Thunk::spec_target(final(self)) == target,
    {
        self.target = target;
    }

    fn to_bytes(&self) -> (r: Vec<u8>)
        ensures
            r@.len() == 12,
            r@[0] == 0xFF,
            r@[1] == 0x25,
            r@[6] == 0xCC,
            r@[7] == 0xCC,
            forall|i: int|
                0 <= i < 4 ==> #[trigger] r@[2 + i] == self.address() as int / pow(256, i as nat)
                    % 256,
            forall|i: int|
                0 <= i < 4 ==> #[trigger] r@[8 + i] == self.spec_target() as int / pow(
                    256,
                    i as nat,
                ) % 256,
    {
        let mut image: Vec<u8> = Vec::new();
        bytes::push_all(&mut image, &self.jmp_mem.opcode);
        bytes::push_le(&mut image, self.jmp_mem.address as u64, 4);
        bytes::push_all(&mut image, &self.pad);
        bytes::push_le(&mut image, self.target as u64, 4);
        assert(image@ =~= thunk_image(self.jmp_mem.address, self.target));
        proof {
            bytes::law_each_byte_has_its_weight(self.jmp_mem.address as nat, 4, 0);
            bytes::law_each_byte_has_its_weight(self.target as nat, 4, 0);
        }
        assert forall|i: int| 0 <= i < 4 implies #[trigger] image@[2 + i]
            == self.jmp_mem.address as int / pow(256, i as nat) % 256 by {
            bytes::law_each_byte_has_its_weight(self.jmp_mem.address as nat, 4, i);
        }
        assert forall|i: int| 0 <= i < 4 implies #[trigger] image@[8 + i] == self.target as int
            / pow(256, i as nat) % 256 by {
            bytes::law_each_byte_has_its_weight(self.target as nat, 4, i);
        }
        image
    }
}

/// Code that jumps back behind the instructions that a hook displaced.
pub struct Trampoline {
    /// Instructions displaced by the hook, padded with NOPs.
    /// The maximum size of an x86 instruction is 15 bytes.
    pub nop_padded_instructions: [u8; 15],
    /// 32-bit rip-relative jump instruction.
    pub jmp_rel32_opcode: u8,
    pub jmp_target: i32,
}

/// Whether an opcode and the byte that follows it are a near jump to the code address that is
/// stored at a 32-bit address.
pub open spec fn is_jmp_mem(opcode: u8, modrm: u8) -> bool {
    opcode == 0xFF && modrm / 64 == 0 && (modrm / 8) % 8 == 4 && modrm % 8 == 5
}

/// A thunk that was initialized at the address where it is jumps to its target: it is a jump
/// to the code address that is stored where the target is in the thunk.
pub proof fn law_thunk_jumps_to_target(addr: u32, target: u32)
    requires
        addr + TARGET_OFFSET <= u32::MAX,
    ensures
        ({
            let image = thunk_image((addr + TARGET_OFFSET) as u32, target);
            let operand = bytes::le_value(image.subrange(2, 6)) - addr;
            &&& image.len() == 12
            &&& is_jmp_mem(image[0], image[1])
            &&& operand == TARGET_OFFSET
            &&& bytes::le_value(image.subrange(operand, operand + 4)) == target
        }),
{
    let image = thunk_image((addr + TARGET_OFFSET) as u32, target);
    reveal_with_fuel(bytes::byte_range, 5);
    bytes::law_le_round_trip((addr + TARGET_OFFSET) as nat, 4);
    bytes::law_le_round_trip(target as nat, 4);
    assert(image.subrange(2, 6) =~= bytes::le_bytes((addr + TARGET_OFFSET) as nat, 4));
    assert(image.subrange(8, 12) =~= bytes::le_bytes(target as nat, 4));
}

/// Whatever its target, the bytes of a thunk that was initialized at an address are the jump
/// `FF 25`, the address eight bytes behind that one, two bytes of padding and, there, the target,
/// lowest bytes first.
pub proof fn law_thunk_is_a_jump_and_its_target(
    first: u32,
    target: u32,
    addr: u32,
    thunk: &mut Thunk,
    placed: &mut Thunk,
    code: Vec<u8>,
)
    requires
        addr + 8 <= u32::MAX,
        call_ensures(Thunk::new, (first,), *old(thunk)),
        call_ensures(<Thunk as traits::Thunk>::set_target, (thunk, target), ()),
        *old(placed) == *final(thunk),
        call_ensures(<Thunk as traits::Thunk>::init, (placed, addr), ()),
        call_ensures(<Thunk as traits::Thunk>::to_bytes, (final(placed),), code),
    ensures
        code@.len() == 12,
        code@[0] == 0xFF,
        code@[1] == 0x25,
        code@[6] == 0xCC,
        code@[7] == 0xCC,
        forall|i: int|
            0 <= i < 4 ==> #[trigger] code@[2 + i] == (addr + 8) / pow(256, i as nat) % 256,
        forall|i: int|
            0 <= i < 4 ==> #[trigger] code@[8 + i] == target as int / pow(256, i as nat) % 256,
{
}

/// A thunk can be placed wherever its target is in the address space.
pub proof fn law_thunk_fits_below_the_end(thunk: Thunk, addr: u32)
    ensures
        traits::Thunk::fits_at(&thunk, addr) <==> addr + 8 <= u32::MAX,
{
}

} // verus!
