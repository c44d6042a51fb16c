//! Where the parts of a task stand in one block of memory.

use vstd::prelude::*;
use vstd::arithmetic::div_mod::lemma_fundamental_div_mod;
use vstd::arithmetic::power2::pow2;

verus! {

/// The size and the alignment of a part.
#[derive(Clone, Copy, Debug, PartialEq, Eq, Structural)]
pub struct Layout {
    pub size: usize,
    pub align: usize,
}

/// Whether a number is a power of two.
pub open spec fn is_power_of_two(n: usize) -> bool {
    exists|e: nat| n == #[trigger] pow2(e)
}

/// `n` rounded up to a multiple of `align`.
pub open spec fn rounded_up(n: int, align: int) -> int {
    if n % align == 0 {
        n
    } else {
        n + align - n % align
    }
}

impl Layout {
    /// A block of memory can have this size and this alignment.
    pub open spec fn wf(self) -> bool {
        &&& is_power_of_two(self.align)
        &&& self.align > 0
        &&& rounded_up(self.size as int, self.align as int) <= isize::MAX
    }
}

/// How many bytes lie between a part and the next multiple of `align`.
pub fn padding_needed_for(layout: Layout, align: usize) -> (r: usize)
    requires
        align > 0,
    ensures
        layout.size + r == rounded_up(layout.size as int, align as int),
        r < align,
{
    let rest: usize = layout.size % align;
    if rest == 0 {
        0
    } else {
        align - rest
    }
}

/// Puts the part `b` behind the part `a`; says what they take together, and where `b` stands.
pub fn extend(a: Layout, b: Layout) -> (r: (Layout, usize))
    requires
        a.wf(),
        b.wf(),
        rounded_up(
            rounded_up(a.size as int, b.align as int) + b.size,
            if a.align < b.align {
                b.align as int
            } else {
                a.align as int
            },
        ) <= isize::MAX,
    ensures
        r.0.wf(),
        r.1 == rounded_up(a.size as int, b.align as int),
        r.0.size == r.1 + b.size,
        r.0.align == (if a.align < b.align {
            b.align
        } else {
            a.align
        }),
{
    let new_align: usize = if a.align < b.align {
        b.align
    } else {
        a.align
    };
    let pad: usize = padding_needed_for(a, b.align);
    let offset: usize = a.size + pad;
    let new_size: usize = offset + b.size;
    (Layout { size: new_size, align: new_align }, offset)
}

/// Rounding up gives the next multiple.
pub proof fn law_rounded_up(n: int, align: int)
    requires
        0 <= n,
        align > 0,
    ensures
        rounded_up(n, align) % align == 0,
        n <= rounded_up(n, align) < n + align,
{
    if n % align != 0 {
        lemma_fundamental_div_mod(n, align);
        let q: int = n / align;
        assert(n + align - n % align == align * (q + 1)) by (nonlinear_arith)
            requires
                n == align * q + n % align,
        ;
        assert((align * (q + 1)) % align == 0) by (nonlinear_arith)
            requires
                align > 0,
        ;
    }
}

} // verus!
