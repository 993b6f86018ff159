//! Sizes and alignments of memory blocks.

use vstd::arithmetic::power2;
use vstd::prelude::*;

use crate::arith;

verus! {

/// Size and alignment of a block of memory.
#[derive(Debug, Clone, Copy, PartialEq, Eq, Structural)]
pub struct Layout {
    pub size: usize,
    pub align: usize,
}

/// The parameters given to [`Layout::from_size_align`] do not make a layout.
#[derive(Debug, Clone, Copy, PartialEq, Eq, Structural)]
pub struct LayoutError;

/// Whether a size and an alignment make a layout: the alignment is a power of two, and the
/// size, rounded up to the alignment, does not exceed `isize::MAX`.
pub open spec fn valid_layout(size: int, align: int) -> bool {
    &&& power2::is_pow2(align)
    &&& 0 <= size
    &&& arith::align_up(size, align) <= isize::MAX
}

impl Layout {
    /// Whether this is a layout that [`Layout::from_size_align`] accepts.
    pub open spec fn valid(self) -> bool {
        valid_layout(self.size as int, self.align as int)
    }

    /// The layout of a type, as `Layout::new` gives it.
    pub open spec fn spec_for<T>() -> Layout {
        Layout {
            size: vstd::layout::size_of::<T>() as usize,
            align: vstd::layout::align_of::<T>() as usize,
        }
    }

    /// The layout of a value of type `T`.
    pub fn new<T>() -> (r: Layout)
        ensures
            r == Self::spec_for::<T>(),
            r.size == vstd::layout::size_of::<T>(),
            r.align == vstd::layout::align_of::<T>(),
            r.valid(),
            r.size as int % r.align as int == 0,
    {
        vstd::layout::layout_for_type_is_valid::<T>();
        let r = Layout { size: core::mem::size_of::<T>(), align: core::mem::align_of::<T>() };
        proof {
            let (s, a) = (r.size as int, r.align as int);
            arith::lemma_pow2_positive(a);
            assert(arith::align_up(s, a) == s) by (nonlinear_arith)
                requires
                    s % a == 0,
                    0 < a,
                    arith::align_up(s, a) == s + (a - s % a) % a,
            ;
            assert(0 <= isize::MAX as int % a) by (nonlinear_arith)
                requires
                    0 < a,
            ;
        }
        r
    }

    /// The layout with the given size and alignment, if they make one.
    pub fn from_size_align(size: usize, align: usize) -> (r: Result<Layout, LayoutError>)
        ensures
            valid_layout(size as int, align as int) ==> r == Ok::<Layout, LayoutError>(
                (Layout { size, align }),
            ),
            !valid_layout(size as int, align as int) ==> r == Err::<Layout, LayoutError>(
                LayoutError,
            ),
            r is Ok <==> power2::is_pow2(align as int) && size <= isize::MAX + 1 - align,
            r matches Ok(layout) ==> layout.size == size && layout.align == align,
    {
        proof {
            if power2::is_pow2(align as int) {
                lemma_greatest_size(size as int, align as int);
            }
        }
        if !arith::is_power_of_two(align) {
            return Err(LayoutError);
        }
        match arith::checked_next_multiple_of(size, align) {
            Some(padded) if padded <= isize::MAX as usize => Ok(Layout { size, align }),
            _ => {
                proof {
                    arith::lemma_pow2_positive(align as int);
                }
                Err(LayoutError)
            },
        }
    }

    /// The size of the block.
    pub fn size(&self) -> (r: usize)
        ensures
            r == self.size,
    {
        self.size
    }

    /// The alignment of the block.
    pub fn align(&self) -> (r: usize)
        ensures
            r == self.align,
    {
        self.align
    }

    /// This layout with its size rounded up to its alignment.
    pub fn pad_to_align(&self) -> (r: Layout)
        requires
            self.valid(),
        ensures
            r.size == arith::align_up(self.size as int, self.align as int),
            r.align == self.align,
            r.valid(),
            self.size <= r.size < self.size + self.align,
            r.size as int % r.align as int == 0,
    {
        proof {
            let (s, a) = (self.size as int, self.align as int);
            arith::lemma_pow2_positive(a);
            arith::lemma_align_up(s, a);
            let p = arith::align_up(s, a);
            arith::lemma_align_up(p, a);
            assert(p % a == 0);
            assert(arith::align_up(p, a) <= p);
        }
        let size: usize = match arith::checked_next_multiple_of(self.size, self.align) {
            Some(size) => size,
            None => self.size,
        };
        Layout { size, align: self.align }
    }
}

/// A size, rounded up to a power of two, does not exceed `isize::MAX` if and only if it is that
/// much below the bound.
pub proof fn lemma_greatest_size(size: int, align: int)
    requires
        0 <= size,
        power2::is_pow2(align),
        align <= usize::MAX,
    ensures
        arith::align_up(size, align) <= isize::MAX <==> size <= isize::MAX + 1 - align,
{
    vstd::layout::unsigned_int_max_values();
    vstd::layout::signed_int_min_max_values();
    let half = isize::MAX + 1;
    let n = (usize::BITS - 1) as nat;
    assert(half == power2::pow2(n));
    power2::is_pow2_equiv(half);
    power2::lemma_pow2(n);
    power2::lemma_pow2_unfold((n + 1) as nat);
    assert(usize::MAX + 1 == 2 * half);
    arith::lemma_pow2_positive(align);
    if align > half {
        arith::lemma_pow2_divides(half, align);
        assert(false) by (nonlinear_arith)
            requires
                align % half == 0,
                half < align < 2 * half,
        {
            assert(align == half * (align / half));
        }
    }
    arith::lemma_pow2_divides(align, half);
    arith::lemma_align_up(size, align);
    let bound = half - align;
    assert(bound % align == 0) by (nonlinear_arith)
        requires
            half % align == 0,
            0 < align,
            bound == half - align,
    {
        let q = half / align;
        assert(half == align * q);
        assert(bound == align * (q - 1));
        assert((align * (q - 1)) % align == 0);
    }
    let up = arith::align_up(size, align);
    if up < half {
        assert(up <= bound) by (nonlinear_arith)
            requires
                up % align == 0,
                half % align == 0,
                up < half,
                0 < align,
                bound == half - align,
        {
            assert(up == align * (up / align));
            assert(half == align * (half / align));
            assert(up / align < half / align);
            assert(align * (up / align) + align <= align * (half / align));
        }
    }
}

/// A size and an alignment make a layout if and only if the alignment is a power of two and the
/// size leaves room for rounding it up below the bound of `isize`; the layout then has that very
/// size and alignment. Padding it gives the least size that is a multiple of the alignment.
pub proof fn law_layouts_are_made_of_any_size_that_fits(
    size: usize,
    align: usize,
    r: Result<Layout, LayoutError>,
    padded: Layout,
)
    requires
        call_ensures(Layout::from_size_align, (size, align), r),
        r matches Ok(layout) ==> call_ensures(Layout::pad_to_align, (&layout,), padded),
    ensures
        r is Ok <==> power2::is_pow2(align as int) && size <= isize::MAX + 1 - align,
        r matches Ok(layout) ==> {
            &&& layout.size == size
            &&& layout.align == align
            &&& padded.align == align
            &&& size <= padded.size < size + align
            &&& padded.size as int % align as int == 0
        },
{
}

/// The layout of a type has the size and the alignment of the type.
pub proof fn law_layout_of_a_type<T>(layout: Layout)
    requires
        call_ensures(Layout::new::<T>, (), layout),
    ensures
        layout.size == vstd::layout::size_of::<T>(),
        layout.align == vstd::layout::align_of::<T>(),
        Layout::spec_for::<T>() == layout,
{
}

/// A layout is valid if and only if its alignment is a power of two and its size leaves room for
/// rounding it up.
pub proof fn law_valid_layouts(layout: Layout)
    ensures
        layout.valid() <==> power2::is_pow2(layout.align as int) && layout.size <= isize::MAX + 1
            - layout.align,
{
    if power2::is_pow2(layout.align as int) {
        lemma_greatest_size(layout.size as int, layout.align as int);
    }
}

/// A layout tells its size and its alignment.
pub proof fn law_layout_tells_its_parts(layout: Layout, size: usize, align: usize)
    requires
        call_ensures(Layout::size, (&layout,), size),
        call_ensures(Layout::align, (&layout,), align),
    ensures
        layout == (Layout { size, align }),
{
}

} // verus!
