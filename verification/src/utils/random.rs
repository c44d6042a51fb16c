//! Numbers that look random.

use vstd::prelude::*;

verus! {

/// The state after `x`.
pub open spec fn shifted(x: u32) -> u32 {
    let a = x ^ (x << 13u32);
    let b = a ^ (a >> 17u32);
    b ^ (b << 5u32)
}

/// Gives a number below `n`, and moves on.
pub fn random(rng: &mut u32, n: u32) -> (r: u32)
    ensures
        *final(rng) == shifted(*old(rng)),
        r == (*final(rng) * n) / 0x1_0000_0000,
        n > 0 ==> r < n,
        n == 0 ==> r == 0,
{
    let mut x: u32 = *rng;
    x = x ^ (x << 13u32);
    x = x ^ (x >> 17u32);
    x = x ^ (x << 5u32);
    *rng = x;
    assert(0 <= x * n <= 0xffff_ffff * 0xffff_ffff) by (nonlinear_arith)
        requires
            0 <= x <= 0xffff_ffff,
            0 <= n <= 0xffff_ffff,
    ;
    let product: u64 = x as u64 * n as u64;
    assert(product >> 32u64 == product / 0x1_0000_0000) by (bit_vector);
    assert(n > 0 ==> x * n < 0x1_0000_0000 * n) by (nonlinear_arith)
        requires
            0 <= x <= 0xffff_ffff,
            0 <= n <= 0xffff_ffff,
    ;
    (product >> 32u64) as u32
}

/// No state but zero leads to zero, and zero leads nowhere else: from any other state the numbers
/// never stop changing to it.
pub proof fn law_never_zero(x: u32)
    ensures
        shifted(x) == 0 <==> x == 0,
{
    assert(({
        let a = x ^ (x << 13u32);
        let b = a ^ (a >> 17u32);
        b ^ (b << 5u32)
    }) == 0 <==> x == 0) by (bit_vector);
}

} // verus!
