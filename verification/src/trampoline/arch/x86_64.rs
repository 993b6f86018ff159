//! Machine code for x86_64.

use vstd::arithmetic::power::pow;
use vstd::prelude::*;

use super::bytes;
use super::traits;

verus! {

/// x86_64 indirect jump thunk.
pub struct Thunk {
    /// Rip-relative jump to target code address.
    ///
    /// jmp qword ptr [RIP+1 -> target] (66 FF 2D 01 00 00 00)
    jmp_rip_mem: [u8; 7],
    /// Padding for `target` to be 8-byte aligned.
    pad: u8,
    /// The code address to jump to.
    target: u64,
}

/// The jump instruction of a thunk.
pub open spec fn jmp_rip_mem() -> Seq<u8> {
    seq![0x66, 0xFF, 0x2D, 0x01, 0x00, 0x00, 0x00]
}

/// The bytes of a thunk in memory.
pub open spec fn thunk_image(target: u64) -> Seq<u8> {
    jmp_rip_mem() + seq![0xCCu8] + bytes::le_bytes(target as nat, 8)
}

impl Thunk {
    pub fn new(target: u64) -> (r: Self)
        ensures
            traits::Thunk::wf(&r),
            traits::Thunk::spec_target(&r) == target,
    {
        let r = Thunk {
            jmp_rip_mem: [0x66, 0xFF, 0x2D, 0x01, 0x00, 0x00, 0x00],
            pad: 0xCC,
            target,
        };
        assert(r.jmp_rip_mem@ =~= jmp_rip_mem());
        r
    }
}

impl traits::Thunk for Thunk {
    type Addr = u64;

    closed spec fn wf(&self) -> bool {
        self.jmp_rip_mem@ == jmp_rip_mem() && self.pad == 0xCC
    }

    closed spec fn spec_target(&self) -> u64 {
        self.target
    }

    open spec fn fits_at(&self, addr: u64) -> bool {
        true
    }

    open spec fn image(&self) -> Seq<u8> {
        thunk_image(self.spec_target())
    }

    fn target(&self) -> (r: u64) {
        self.target
    }

    fn set_target(&mut self, target: u64)
        ensures
            traits::Thunk::spec_target(final(self)) == target,
    {
        self.target = target;
    }

    fn to_bytes(&self) -> (r: Vec<u8>)
        ensures
            r@.len() == 16,
            r@[0] == 0x66,
            r@[1] == 0xff,
            r@[2] == 0x2d,
            r@[3] == 1,
            r@[4] == 0,
            r@[5] == 0,
            r@[6] == 0,
            r@[7] == 0xcc,
            forall|i: int|
                0 <= i < 8 ==> #[trigger] r@[8 + i] == self.spec_target() as int / pow(
                    256,
                    i as nat,
                ) % 256,
    {
        let mut image: Vec<u8> = Vec::new();
        bytes::push_all(&mut image, &self.jmp_rip_mem);
        image.push(self.pad);
        bytes::push_le(&mut image, self.target, 8);
        assert(image@ =~= thunk_image(self.target));
        assert forall|i: int| 0 <= i < 8 implies #[trigger] image@[8 + i] == self.target as int
            / pow(256, i as nat) % 256 by {
            bytes::law_each_byte_has_its_weight(self.target as nat, 8, i);
        }
        image
    }
}

/// Code that jumps back behind the instructions that a hook displaced.
pub struct Trampoline {
    /// Instructions displaced by the hook, padded with NOPs.
    /// The maximum size of an x86 instruction is 15 bytes.
    pub nop_padded_instructions: [u8; 15],
    /// 32-bit rip-relative jump instruction.
    pub jmp_rel32_opcode: u8,
    pub jmp_target: i32,
}

/// The operand of a thunk's jump, relative to the end of the instruction, is where the target
/// is in the thunk, and the target can be read there.
pub proof fn law_operand_is_target(target: u64)
    ensures
        ({
            let image = thunk_image(target);
            let operand = (jmp_rip_mem().len() + bytes::le_value(image.subrange(3, 7))) as int;
            &&& image.len() == 16
            &&& operand == 8
            &&& bytes::le_value(image.subrange(operand, operand + 8)) == target
        }),
{
    let image = thunk_image(target);
    reveal_with_fuel(bytes::byte_range, 9);
    bytes::law_le_round_trip(target as nat, 8);
    reveal_with_fuel(bytes::le_value, 5);
    assert(image.subrange(3, 7) =~= seq![1u8, 0u8, 0u8, 0u8]);
    assert(image.subrange(8, 16) =~= bytes::le_bytes(target as nat, 8));
}

/// Whether an opcode and the byte that follows it are a jump through memory whose address is
/// relative to the instruction pointer: the form of that opcode with the number five.
pub open spec fn is_jmp_rip_mem(opcode: u8, modrm: u8) -> bool {
    opcode == 0xFF && modrm / 64 == 0 && (modrm / 8) % 8 == 5 && modrm % 8 == 5
}

/// Whatever its target, the bytes of a thunk are the jump `66 FF 2D 01 00 00 00`, which is a jump
/// through memory relative to the instruction pointer, one byte of padding, and the target, its
/// lowest byte first. It does not matter whether the thunk was made for the target or was given
/// it later.
pub proof fn law_thunk_is_a_jump_and_its_target(
    first: u64,
    target: u64,
    made: Thunk,
    thunk: &mut Thunk,
    code: Vec<u8>,
    later: Vec<u8>,
)
    requires
        call_ensures(Thunk::new, (target,), made),
        call_ensures(<Thunk as traits::Thunk>::to_bytes, (&made,), code),
        call_ensures(Thunk::new, (first,), *old(thunk)),
        call_ensures(<Thunk as traits::Thunk>::set_target, (thunk, target), ()),
        call_ensures(<Thunk as traits::Thunk>::to_bytes, (final(thunk),), later),
    ensures
        code@.len() == 16,
        code@[0] == 0x66,
        code@[1] == 0xff,
        code@[2] == 0x2d,
        code@[3] == 1,
        code@[4] == 0,
        code@[5] == 0,
        code@[6] == 0,
        code@[7] == 0xcc,
        is_jmp_rip_mem(code@[1], code@[2]),
        forall|i: int|
            0 <= i < 8 ==> #[trigger] code@[8 + i] == target as int / pow(256, i as nat) % 256,
        later@ == code@,
{
    assert(later@ =~= code@) by {
        assert forall|i: int| 0 <= i < 16 implies later@[i] == code@[i] by {
            if i >= 8 {
                assert(later@[8 + (i - 8)] == code@[8 + (i - 8)]);
            }
        }
    }
}

/// Whatever the target, the image of a thunk begins with the jump, and no byte of it but those of
/// the target depends on the target.
pub proof fn law_code_is_the_same_for_every_target(target: u64, other: u64)
    ensures
        thunk_image(target).len() == 16,
        thunk_image(target).take(8) == seq![
            0x66u8,
            0xFFu8,
            0x2Du8,
            0x01u8,
            0x00u8,
            0x00u8,
            0x00u8,
            0xCCu8,
        ],
        thunk_image(target).take(8) == thunk_image(other).take(8),
        bytes::le_value(thunk_image(target).skip(8)) == target,
{
    reveal_with_fuel(bytes::byte_range, 9);
    bytes::law_le_round_trip(target as nat, 8);
    bytes::law_le_round_trip(other as nat, 8);
    assert(thunk_image(target).take(8) =~= seq![
        0x66u8,
        0xFFu8,
        0x2Du8,
        0x01u8,
        0x00u8,
        0x00u8,
        0x00u8,
        0xCCu8,
    ]);
    assert(thunk_image(target).take(8) =~= thunk_image(other).take(8));
    assert(thunk_image(target).skip(8) =~= bytes::le_bytes(target as nat, 8));
}

/// A thunk can be placed at any address, and needs nothing there: its bytes stay as they are.
pub proof fn law_thunk_does_not_depend_on_its_address(
    thunk: &mut Thunk,
    addr: u64,
    before: Vec<u8>,
    after: Vec<u8>,
)
    requires
        call_ensures(<Thunk as traits::Thunk>::to_bytes, (old(thunk),), before),
        call_ensures(<Thunk as traits::Thunk>::init, (thunk, addr), ()),
        call_ensures(<Thunk as traits::Thunk>::to_bytes, (final(thunk),), after),
    ensures
        traits::Thunk::fits_at(old(thunk), addr),
        after@ == before@,
{
    assert(traits::Thunk::spec_target(final(thunk)) == traits::Thunk::spec_target(old(thunk)));
    assert(after@ =~= before@) by {
        assert forall|i: int| 0 <= i < 16 implies after@[i] == before@[i] by {
            if i >= 8 {
                assert(after@[8 + (i - 8)] == before@[8 + (i - 8)]);
            }
        }
    }
}

} // verus!
