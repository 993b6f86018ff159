//! Rounding of addresses and sizes to multiples of an alignment.

use vstd::arithmetic::power2;
use vstd::prelude::*;

verus! {

/// The smallest multiple of `m` that is at least `x`.
pub open spec fn align_up(x: int, m: int) -> int {
    x + (m - x % m) % m
}

/// The greatest multiple of `m` that is at most `x`.
pub open spec fn align_down(x: int, m: int) -> int {
    x - x % m
}

/// `align_up` yields a multiple of `m` in `[x, x + m)`, and no smaller multiple of `m`
/// reaches `x`.
pub proof fn lemma_align_up(x: int, m: int)
    requires
        0 <= x,
        0 < m,
    ensures
        x <= align_up(x, m) < x + m,
        align_up(x, m) % m == 0,
        forall|y: int| x <= y && #[trigger] (y % m) == 0 ==> align_up(x, m) <= y,
{
    let y0 = align_up(x, m);
    assert(y0 % m == 0 && x <= y0 < x + m) by (nonlinear_arith)
        requires
            0 <= x,
            0 < m,
            y0 == x + (m - x % m) % m,
    {
        let r = x % m;
        let q = x / m;
        assert(x == m * q + r && 0 <= r < m);
        if r == 0 {
            assert((m - r) % m == 0);
            assert(y0 == m * q);
            assert((m * q) % m == 0);
        } else {
            assert((m - r) % m == m - r);
            assert(y0 == m * (q + 1));
            assert((m * (q + 1)) % m == 0);
        }
    }
    assert forall|y: int| x <= y && #[trigger] (y % m) == 0 implies y0 <= y by {
        if y < y0 {
            assert(false) by (nonlinear_arith)
                requires
                    0 < m,
                    y % m == 0,
                    y0 % m == 0,
                    y < y0,
                    y0 < x + m,
                    x <= y,
            {
                let a = y / m;
                let b = y0 / m;
                assert(y == m * a);
                assert(y0 == m * b);
                assert(a < b);
                assert(m * a + m <= m * b);
            }
        }
    }
}

/// `align_down` yields a multiple of `m` in `(x - m, x]`, and no greater multiple of `m` is at
/// most `x`.
pub proof fn lemma_align_down(x: int, m: int)
    requires
        0 <= x,
        0 < m,
    ensures
        0 <= align_down(x, m) <= x,
        x - m < align_down(x, m),
        align_down(x, m) % m == 0,
        forall|y: int| y <= x && #[trigger] (y % m) == 0 ==> y <= align_down(x, m),
{
    let r = x % m;
    let q = x / m;
    assert(0 <= r < m && x == m * q + r && (m * q) % m == 0 && 0 <= q && 0 <= m * q)
        by (nonlinear_arith)
        requires
            0 <= x,
            0 < m,
            r == x % m,
            q == x / m,
    ;
    assert forall|y: int| y <= x && #[trigger] (y % m) == 0 implies y <= m * q by {
        if y > m * q {
            assert(false) by (nonlinear_arith)
                requires
                    0 < m,
                    y % m == 0,
                    m * q < y < m * q + m,
            {
                let a = y / m;
                assert(y == m * a);
                assert(q < a);
                assert(m * q + m <= m * a);
            }
        }
    }
}

/// The smallest multiple of `m` that is at least `x`, if there is one that fits a `usize`.
pub fn checked_next_multiple_of(x: usize, m: usize) -> (r: Option<usize>)
    ensures
        r matches Some(y) ==> m != 0 && y == align_up(x as int, m as int),
        r is None <==> m == 0 || align_up(x as int, m as int) > usize::MAX,
        r matches Some(y) ==> x <= y && y - x < m && y as int % m as int == 0,
        r is None && m != 0 ==> forall|y: int|
            #![trigger y % (m as int)]
            x <= y && y % (m as int) == 0 ==> y > usize::MAX,
{
    if m == 0 {
        return None;
    }
    proof {
        lemma_align_up(x as int, m as int);
    }
    let rem: usize = x % m;
    if rem == 0 {
        assert(align_up(x as int, m as int) == x) by (nonlinear_arith)
            requires
                0 < m,
                x as int % m as int == 0,
                align_up(x as int, m as int) == x + (m - x as int % m as int) % m as int,
        ;
        Some(x)
    } else {
        assert((m - rem) as int % m as int == m - rem) by (nonlinear_arith)
            requires
                0 < rem < m,
        ;
        x.checked_add(m - rem)
    }
}

/// The greatest multiple of `m` that is at most `x`.
pub fn floor_to_multiple(x: usize, m: usize) -> (r: usize)
    requires
        0 < m,
    ensures
        r == align_down(x as int, m as int),
        r <= x && x - r < m && r as int % m as int == 0,
{
    proof {
        lemma_align_down(x as int, m as int);
    }
    x - x % m
}

/// Whether `n` is a power of two.
pub fn is_power_of_two(n: usize) -> (r: bool)
    ensures
        r == power2::is_pow2(n as int),
{
    let mut m: usize = n;
    if m == 0 {
        proof {
            reveal(power2::is_pow2);
        }
        return false;
    }
    while m % 2 == 0
        invariant
            0 < m <= n,
            power2::is_pow2(n as int) == power2::is_pow2(m as int),
        decreases m,
    {
        proof {
            reveal(power2::is_pow2);
        }
        m = m / 2;
    }
    proof {
        reveal(power2::is_pow2);
    }
    m == 1
}

/// A power of two is positive.
pub proof fn lemma_pow2_positive(n: int)
    requires
        power2::is_pow2(n),
    ensures
        0 < n,
{
    reveal(power2::is_pow2);
}

/// A power of two divides every power of two that is not smaller.
pub proof fn lemma_pow2_divides(a: int, b: int)
    requires
        power2::is_pow2(a),
        power2::is_pow2(b),
        a <= b,
    ensures
        b % a == 0,
    decreases a,
{
    reveal(power2::is_pow2);
    if a != 1 {
        lemma_pow2_divides(a / 2, b / 2);
        let (c, d) = (a / 2, b / 2);
        assert((2 * d) % (2 * c) == 0) by (nonlinear_arith)
            requires
                0 < c,
                d % c == 0,
        {
            let q = d / c;
            assert(d == c * q);
            assert(2 * d == (2 * c) * q);
            assert(((2 * c) * q) % (2 * c) == 0);
        }
    }
}

/// A power of two that fits a `usize` divides the size of the address space.
pub proof fn lemma_pow2_divides_address_space(m: int)
    requires
        power2::is_pow2(m),
        m <= usize::MAX,
    ensures
        (usize::MAX + 1) % m == 0,
{
    vstd::layout::unsigned_int_max_values();
    let n = power2::pow2(usize::BITS as nat);
    assert(power2::is_pow2(n as int)) by {
        power2::is_pow2_equiv(n as int);
        power2::lemma_pow2(usize::BITS as nat);
    }
    lemma_pow2_divides(m, n as int);
}

/// Rounding up gives the least multiple that is not below the number, whenever that fits, and
/// rounding down the greatest one that is not above it.
pub proof fn law_rounding_stays_within_one_multiple(
    x: usize,
    m: usize,
    up: Option<usize>,
    down: usize,
    other: int,
)
    requires
        0 < m,
        call_ensures(checked_next_multiple_of, (x, m), up),
        call_ensures(floor_to_multiple, (x, m), down),
        other % m as int == 0,
    ensures
        up matches Some(y) ==> y as int % m as int == 0 && x <= y < x + m && (x <= other ==> y
            <= other),
        up is None && x <= other ==> other > usize::MAX,
        down as int % m as int == 0,
        down <= x < down + m,
        other <= x ==> other <= down,
{
    lemma_align_up(x as int, m as int);
    lemma_align_down(x as int, m as int);
}

/// A number is a power of two if and only if it is said to be one.
pub proof fn law_powers_of_two_are_told(n: usize, r: bool)
    requires
        call_ensures(is_power_of_two, (n,), r),
    ensures
        r <==> exists|k: nat| #[trigger] vstd::arithmetic::power::pow(2, k) == n,
{
    power2::is_pow2_equiv(n as int);
}

} // verus!
