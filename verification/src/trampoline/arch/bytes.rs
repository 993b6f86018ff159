//! Little-endian numbers in machine code.

use vstd::arithmetic::power::pow;
use vstd::prelude::*;

verus! {

/// The `n` lowest bytes of a number, the lowest first.
pub open spec fn le_bytes(value: nat, n: nat) -> Seq<u8>
    decreases n,
{
    if n == 0 {
        Seq::empty()
    } else {
        seq![(value % 256) as u8] + le_bytes(value / 256, (n - 1) as nat)
    }
}

/// The number whose bytes are given, the lowest first.
pub open spec fn le_value(bytes: Seq<u8>) -> nat
    decreases bytes.len(),
{
    if bytes.len() == 0 {
        0
    } else {
        bytes[0] as nat + 256 * le_value(bytes.skip(1))
    }
}

/// `256` to the power of `n`.
pub open spec fn byte_range(n: nat) -> nat
    decreases n,
{
    if n == 0 {
        1
    } else {
        256 * byte_range((n - 1) as nat)
    }
}

/// A number that fits `n` bytes can be read back from them.
pub proof fn law_le_round_trip(value: nat, n: nat)
    requires
        value < byte_range(n),
    ensures
        le_bytes(value, n).len() == n,
        le_value(le_bytes(value, n)) == value,
    decreases n,
{
    if n > 0 {
        law_le_round_trip(value / 256, (n - 1) as nat);
        assert(le_bytes(value, n).skip(1) =~= le_bytes(value / 256, (n - 1) as nat));
    }
}

/// Each byte of a number has its weight: the one with the number `i`, counted from the first,
/// stands for that many times the `i`-th power of `256`.
pub proof fn law_each_byte_has_its_weight(value: nat, n: nat, i: int)
    ensures
        le_bytes(value, n).len() == n,
        0 <= i < n ==> le_bytes(value, n)[i] == value as int / pow(256, i as nat) % 256,
    decreases n,
{
    reveal(pow);
    if n > 0 {
        let rest = le_bytes(value / 256, (n - 1) as nat);
        law_each_byte_has_its_weight(value / 256, (n - 1) as nat, i - 1);
        if 0 < i < n {
            let w = pow(256, (i - 1) as nat);
            vstd::arithmetic::power::lemma_pow_positive(256, (i - 1) as nat);
            assert(pow(256, i as nat) == 256 * w);
            vstd::arithmetic::div_mod::lemma_div_denominator(value as int, 256, w);
            assert(le_bytes(value, n)[i] == rest[i - 1]);
        }
    }
}

/// Append the `n` lowest bytes of a number, the lowest first.
pub fn push_le(bytes: &mut Vec<u8>, value: u64, n: usize)
    ensures
        final(bytes)@ == old(bytes)@ + le_bytes(value as nat, n as nat),
        final(bytes)@.len() == old(bytes)@.len() + n,
        forall|i: int|
            0 <= i < old(bytes)@.len() ==> #[trigger] final(bytes)@[i] == old(bytes)@[i],
        forall|i: int|
            0 <= i < n ==> #[trigger] final(bytes)@[old(bytes)@.len() + i] == value as int / pow(
                256,
                i as nat,
            ) % 256,
{
    proof {
        assert forall|i: int| 0 <= i < n implies #[trigger] le_bytes(value as nat, n as nat)[i]
            == value as int / pow(256, i as nat) % 256 by {
            law_each_byte_has_its_weight(value as nat, n as nat, i);
        }
        law_each_byte_has_its_weight(value as nat, n as nat, 0);
    }
    let ghost before = bytes@;
    let mut rest: u64 = value;
    let mut i: usize = 0;
    while i < n
        invariant
            i <= n,
            before == old(bytes)@,
            bytes@ + le_bytes(rest as nat, (n - i) as nat) == old(bytes)@ + le_bytes(
                value as nat,
                n as nat,
            ),
        decreases n - i,
    {
        let byte: u8 = (rest % 256) as u8;
        let ghost so_far = bytes@;
        bytes.push(byte);
        proof {
            let left = (n - i) as nat;
            assert(le_bytes(rest as nat, left) == seq![byte] + le_bytes(
                rest as nat / 256,
                (left - 1) as nat,
            ));
            assert(so_far.push(byte) + le_bytes(rest as nat / 256, (left - 1) as nat) =~= so_far + (
            seq![byte] + le_bytes(rest as nat / 256, (left - 1) as nat)));
        }
        rest = rest / 256;
        i = i + 1;
    }
    assert(bytes@ + le_bytes(rest as nat, 0) =~= bytes@);
    assert forall|i: int| 0 <= i < n implies #[trigger] bytes@[before.len() + i] == value as int
        / pow(256, i as nat) % 256 by {
        assert(bytes@[before.len() + i] == le_bytes(value as nat, n as nat)[i]);
    }
}

/// Append all of `more`.
pub fn push_all(bytes: &mut Vec<u8>, more: &[u8])
    ensures
        final(bytes)@ == old(bytes)@ + more@,
{
    let mut i: usize = 0;
    while i < more.len()
        invariant
            i <= more@.len(),
            bytes@ == old(bytes)@ + more@.take(i as int),
        decreases more@.len() - i,
    {
        bytes.push(more[i]);
        i = i + 1;
        assert(more@.take(i as int) =~= more@.take(i - 1).push(more@[i - 1]));
    }
    assert(more@.take(i as int) =~= more@);
}

/// Appending a number appends its lowest bytes, the lowest first, and appending bytes appends all
/// of them in order; what was there before stays.
pub proof fn law_bytes_are_appended(
    bytes: &mut Vec<u8>,
    value: u64,
    n: usize,
    other: &mut Vec<u8>,
    more: &[u8],
    i: int,
)
    requires
        call_ensures(push_le, (bytes, value, n), ()),
        call_ensures(push_all, (other, more), ()),
    ensures
        final(bytes)@.len() == old(bytes)@.len() + n,
        0 <= i < old(bytes)@.len() ==> final(bytes)@[i] == old(bytes)@[i],
        0 <= i < n ==> final(bytes)@[old(bytes)@.len() + i] == value as int / pow(256, i as nat)
            % 256,
        final(other)@.len() == old(other)@.len() + more@.len(),
        0 <= i < old(other)@.len() ==> final(other)@[i] == old(other)@[i],
        0 <= i < more@.len() ==> final(other)@[old(other)@.len() + i] == more@[i],
{
}

} // verus!
