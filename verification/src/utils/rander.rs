//! A small, fast, non-cryptographic random number generator.
//!
//! The generator is a 64-bit linear congruential one whose output is permuted. Everything that it
//! produces is a function of its state alone, so every contract here is exact: it names the value
//! that is drawn and the state that is left behind.

use vstd::prelude::*;
use vstd::arithmetic::div_mod::{
    lemma_fundamental_div_mod, lemma_fundamental_div_mod_converse,
};
use vstd::arithmetic::mul::{
    lemma_mul_is_associative, lemma_mul_is_distributive_add,
    lemma_mul_is_distributive_add_other_way, lemma_mul_is_distributive_sub,
};
use vstd::arithmetic::power2::{lemma2_to64, lemma_pow2_adds, lemma_pow2_unfold, pow2};

verus! {

const MULTIPLIER: u64 = 6364136223846793005;

const INCREMENT: u64 = 1442695040888963407;

/// How many words are drawn at most until one of them is accepted.
pub const ATTEMPTS: u64 = 0xffff_ffff_ffff_ffff;

/// One end of a range of integers.
#[derive(Debug, PartialEq, Eq)]
pub enum Bound<T> {
    /// The end belongs to the range.
    Included(T),
    /// The end does not belong to the range.
    Excluded(T),
    /// The range reaches as far as the integer type does.
    Unbounded,
}

/// A random number generator.
#[derive(Debug)]
pub struct Rander(u64);

impl View for Rander {
    type V = u64;

    closed spec fn view(&self) -> u64 {
        self.0
    }
}

/// The state that follows `s`.
pub open spec fn next_state(s: u64) -> u64 {
    s.wrapping_mul(6364136223846793005).wrapping_add(1442695040888963407)
}

/// The state that `seed` leads to.
pub open spec fn seeded(seed: u64) -> u64 {
    next_state(seed.wrapping_add(1442695040888963407))
}

/// The state `k` steps after `s`.
pub open spec fn steps(s: u64, k: nat) -> u64
    decreases k,
{
    if k == 0 {
        s
    } else {
        steps(next_state(s), (k - 1) as nat)
    }
}

/// What the state `s` puts out: its upper bits, rotated to the right by its top five.
pub open spec fn output(s: u64) -> u32 {
    rotated(((s ^ (s >> 18)) >> 27) as u32, (s >> 59) as u32)
}

/// `x` with its bits rotated to the right by `by` places.
pub open spec fn rotated(x: u32, by: u32) -> u32 {
    (x >> by) | (x << (((32 - by) as u32) & 31))
}

/// One more than the largest number of `k` 32-bit words.
pub open spec fn base(k: nat) -> int {
    if k == 1 {
        0x1_0000_0000
    } else if k == 2 {
        0x1_0000_0000_0000_0000
    } else {
        0x1_0000_0000_0000_0000_0000_0000_0000_0000int
    }
}

/// The number made of the `k` outputs from the state `s` on, the first one on top; `k` is one,
/// two or four.
#[verifier::opaque]
pub open spec fn word(s: u64, k: nat) -> int {
    if k == 1 {
        output(s) as int
    } else if k == 2 {
        output(s) * base(1) + output(next_state(s))
    } else {
        (output(s) * base(1) + output(steps(s, 1))) * base(2) + (output(steps(s, 2)) * base(1)
            + output(steps(s, 3)))
    }
}

/// Whether the word `r` may be scaled down to a number below `n`: for each such number equally
/// many words are accepted.
pub open spec fn accepted(r: int, n: int, k: nat) -> bool {
    (r * n) % base(k) >= (base(k) - n) % n
}

/// The number below `n` to which the word `r` is scaled.
pub open spec fn scaled(r: int, n: int, k: nat) -> int {
    (r * n) / base(k)
}

/// The number below `n` that is drawn from the state `s` on, and the state after that: words of
/// `k` outputs are drawn until one is accepted, `tries` at most, of which the last one is taken as
/// it is.
pub open spec fn draw(s: u64, n: int, k: nat, tries: nat) -> (int, u64)
    decreases tries,
{
    if tries <= 1 || accepted(word(s, k), n, k) {
        (scaled(word(s, k), n, k), steps(s, k))
    } else {
        draw(steps(s, k), n, k, (tries - 1) as nat)
    }
}

/// Whether `r` is what the generator picks from `low..=high` in the state `s`, and `after` the
/// state that it leaves. Of words of one output one is always accepted; with longer ones the states
/// come round before `ATTEMPTS` words were drawn, so where all of them are refused no word would
/// ever be accepted.
pub open spec fn picked(s: u64, after: u64, low: int, high: int, k: nat, r: int) -> bool {
    let (v, state) = draw(s, high - low + 1, k, ATTEMPTS as nat);
    &&& low <= r <= high
    &&& r == low + v
    &&& after == state
}

proof fn lemma_scaled(r: int, n: int, k: nat)
    requires
        0 <= r < base(k),
        n > 0,
    ensures
        0 <= scaled(r, n, k) < n,
{
    let b = base(k);
    assert(0 <= r * n < n * b) by (nonlinear_arith)
        requires
            0 <= r < b,
            n > 0,
    ;
    assert(0 <= (r * n) / b < n) by (nonlinear_arith)
        requires
            0 <= r * n < n * b,
            b > 0,
    ;
}

proof fn lemma_word(s: u64, k: nat)
    requires
        k == 1 || k == 2 || k == 4,
    ensures
        0 <= word(s, k) < base(k),
        word(s, 1) == output(s),
        word(s, 2) == output(s) * base(1) + output(next_state(s)),
        steps(s, 1) == next_state(s),
        steps(s, 2) == next_state(next_state(s)),
        steps(s, 4) == steps(steps(s, 2), 2),
        word(s, 4) == word(s, 2) * base(2) + word(steps(s, 2), 2),
{
    reveal(word);
    reveal_with_fuel(steps, 5);
    let s3 = steps(s, 2);
    assert(steps(s3, 1) == steps(s, 3));
    assert(steps(s, 3) == next_state(s3));
}

/// The upper half of the product of two numbers.
proof fn lemma_halves(a: int, b: int, w: int)
    requires
        0 <= a < w,
        0 <= b < w,
    ensures
        0 <= a * b <= (w - 1) * (w - 1),
        (a * b) / w < w,
{
    assert(0 <= a * b <= (w - 1) * (w - 1)) by (nonlinear_arith)
        requires
            0 <= a < w,
            0 <= b < w,
    ;
    assert((a * b) / w < w) by (nonlinear_arith)
        requires
            0 <= a * b <= (w - 1) * (w - 1),
            w > 0,
    ;
}

fn mul_high_u32(a: u32, b: u32) -> (r: u32)
    ensures
        r == (a * b) / base(1),
{
    proof {
        lemma_halves(a as int, b as int, base(1));
    }
    let p: u64 = (a as u64) * (b as u64);
    assert(p >> 32 == p / 0x1_0000_0000) by (bit_vector);
    (p >> 32) as u32
}

fn mul_high_u64(a: u64, b: u64) -> (r: u64)
    ensures
        r == (a * b) / base(2),
{
    proof {
        lemma_halves(a as int, b as int, base(2));
    }
    let p: u128 = (a as u128) * (b as u128);
    assert(p >> 64 == p / 0x1_0000_0000_0000_0000) by (bit_vector);
    (p >> 64) as u64
}

fn mul_high_u128(a: u128, b: u128) -> (r: u128)
    ensures
        r == (a * b) / base(4),
{
    assert(forall|x: u128| #[trigger] (x >> 64) == x / 0x1_0000_0000_0000_0000) by (bit_vector);
    assert(forall|x: u128|
        #[trigger] (x as u64) as u128 == x % 0x1_0000_0000_0000_0000) by (bit_vector);
    let ghost w: int = base(2);
    let a_lo: u128 = a as u64 as u128;
    let a_hi: u128 = (a >> 64) as u64 as u128;
    let b_lo: u128 = b as u64 as u128;
    let b_hi: u128 = (b >> 64) as u64 as u128;
    proof {
        assert(a_hi == a / 0x1_0000_0000_0000_0000);
        assert(b_hi == b / 0x1_0000_0000_0000_0000);
        lemma_fundamental_div_mod(a as int, w);
        lemma_fundamental_div_mod(b as int, w);
        lemma_halves(a_lo as int, b_lo as int, w);
        lemma_halves(a_hi as int, b_lo as int, w);
        lemma_halves(a_lo as int, b_hi as int, w);
        lemma_halves(a_hi as int, b_hi as int, w);
    }
    let low: u128 = a_lo * b_lo;
    let mid1: u128 = a_hi * b_lo;
    let mid2: u128 = a_lo * b_hi;
    let high: u128 = a_hi * b_hi;
    let ghost sum: int = (mid1 as int) % w + (mid2 as int) % w + (low as int) / w;
    let carry: u128 = low >> 64;
    let carry: u128 = (mid1 as u64 as u128 + mid2 as u64 as u128 + carry) >> 64;
    proof {
        assert(carry == sum / w);
        let top: int = high + (mid1 as int) / w + (mid2 as int) / w + carry;
        let rest: int = (sum % w) * w + (low as int) % w;
        lemma_product(a_hi as int, a_lo as int, b_hi as int, b_lo as int, w);
        assert(w * w == base(4)) by (nonlinear_arith)
            requires
                w == 0x1_0000_0000_0000_0000,
        ;
        assert(a * b == high * (w * w) + (mid1 + mid2) * w + low);
        lemma_carry(mid1 as int, mid2 as int, low as int, sum, w);
        lemma_mul_is_distributive_add_other_way(
            w * w,
            high as int,
            (mid1 as int) / w + (mid2 as int) / w + carry,
        );
        assert(a * b == top * (w * w) + rest);
        assert(0 <= rest < w * w) by (nonlinear_arith)
            requires
                0 <= sum % w < w,
                0 <= (low as int) % w < w,
                rest == (sum % w) * w + (low as int) % w,
        ;
        lemma_fundamental_div_mod_converse(a * b, w * w, top, rest);
        lemma_halves(a as int, b as int, base(4));
    }
    high + (mid1 >> 64) + (mid2 >> 64) + carry
}

proof fn lemma_product(ah: int, al: int, bh: int, bl: int, w: int)
    ensures
        (w * ah + al) * (w * bh + bl) == (ah * bh) * (w * w) + (ah * bl + al * bh) * w + al * bl,
{
    lemma_mul_is_distributive_add(w * ah + al, w * bh, bl);
    lemma_mul_is_distributive_add_other_way(w * bh, w * ah, al);
    lemma_mul_is_distributive_add_other_way(bl, w * ah, al);
    lemma_mul_is_distributive_add_other_way(w, ah * bl, al * bh);
    assert((w * ah) * (w * bh) == (ah * bh) * (w * w)) by (nonlinear_arith);
    assert(al * (w * bh) == (al * bh) * w) by (nonlinear_arith);
    assert((w * ah) * bl == (ah * bl) * w) by (nonlinear_arith);
}

/// Carries what exceeds `w` in the middle of a product over to its upper half.
proof fn lemma_carry(m1: int, m2: int, low: int, sum: int, w: int)
    requires
        w > 0,
        sum == m1 % w + m2 % w + low / w,
    ensures
        (m1 + m2) * w + low == (m1 / w + m2 / w + sum / w) * (w * w) + (sum % w) * w + low % w,
{
    lemma_fundamental_div_mod(m1, w);
    lemma_fundamental_div_mod(m2, w);
    lemma_fundamental_div_mod(low, w);
    lemma_fundamental_div_mod(sum, w);
    let q: int = m1 / w + m2 / w;
    lemma_mul_is_distributive_add(w, m1 / w, m2 / w);
    lemma_mul_is_distributive_add(w, q, sum / w);
    assert(m1 + m2 + low / w == w * (q + sum / w) + sum % w);
    lemma_mul_is_distributive_add_other_way(w, m1 + m2, low / w);
    lemma_mul_is_distributive_add_other_way(w, w * (q + sum / w), sum % w);
    assert((w * (q + sum / w)) * w == (q + sum / w) * (w * w)) by (nonlinear_arith);
    assert((low / w) * w == w * (low / w)) by (nonlinear_arith);
}

impl Rander {
    fn gen_u32(&mut self) -> (r: u32)
        ensures
            r == output(old(self)@),
            r == word(old(self)@, 1),
            final(self)@ == next_state(old(self)@),
            final(self)@ == steps(old(self)@, 1),
    {
        let s: u64 = self.0;
        proof {
            lemma_word(s, 1);
        }
        self.0 = s.wrapping_mul(MULTIPLIER).wrapping_add(INCREMENT);
        let x: u32 = ((s ^ (s >> 18)) >> 27) as u32;
        assert(s >> 59 < 32) by (bit_vector);
        let by: u32 = (s >> 59) as u32;
        assert((((32 - by) as u32) & 31) < 32) by (bit_vector);
        (x >> by) | (x << ((32 - by) & 31))
    }

    fn gen_u64(&mut self) -> (r: u64)
        ensures
            r == word(old(self)@, 2),
            final(self)@ == steps(old(self)@, 2),
    {
        proof {
            lemma_word(self@, 2);
        }
        let hi: u32 = self.gen_u32();
        let lo: u32 = self.gen_u32();
        assert(((hi as u64) << 32) | (lo as u64) == hi * 0x1_0000_0000 + lo) by (bit_vector);
        ((hi as u64) << 32) | (lo as u64)
    }

    fn gen_u128(&mut self) -> (r: u128)
        ensures
            r == word(old(self)@, 4),
            final(self)@ == steps(old(self)@, 4),
    {
        proof {
            lemma_word(self@, 4);
        }
        let hi: u64 = self.gen_u64();
        let lo: u64 = self.gen_u64();
        assert(((hi as u128) << 64) | (lo as u128) == hi * 0x1_0000_0000_0000_0000 + lo)
            by (bit_vector);
        ((hi as u128) << 64) | (lo as u128)
    }

    /// Draws a number below `n`.
    fn gen_mod_u32(&mut self, n: u32) -> (hi: u32)
        requires
            n > 0,
        ensures
            picked(old(self)@, final(self)@, 0, n - 1, 1, hi as int),
    {
        proof {
            lemma_word(self@, 1);
            lemma_scaled(word(self@, 1), n as int, 1);
        }
        let mut r: u32 = self.gen_u32();
        let mut hi: u32 = mul_high_u32(r, n);
        let mut lo: u32 = r.wrapping_mul(n);
        let t: u32 = 0u32.wrapping_sub(n) % n;
        if lo < n {
            let mut left: u64 = ATTEMPTS - 1;
            while lo < t && left > 0
                invariant
                    n > 0,
                    0 <= hi < n,
                    left < ATTEMPTS,
                    t == (base(1) - n) % (n as int),
                    lo == (r * n) % base(1),
                    hi == scaled(r as int, n as int, 1),
                    draw(old(self)@, n as int, 1, ATTEMPTS as nat) == (if left == 0 || accepted(
                        r as int,
                        n as int,
                        1,
                    ) {
                        (hi as int, self@)
                    } else {
                        draw(self@, n as int, 1, left as nat)
                    }),
                decreases left,
            {
                proof {
                    lemma_word(self@, 1);
                    lemma_scaled(word(self@, 1), n as int, 1);
                }
                r = self.gen_u32();
                hi = mul_high_u32(r, n);
                lo = r.wrapping_mul(n);
                left = left - 1;
            }
        }
        hi
    }

    /// Draws a number below `n`.
    fn gen_mod_u64(&mut self, n: u64) -> (hi: u64)
        requires
            n > 0,
        ensures
            picked(old(self)@, final(self)@, 0, n - 1, 2, hi as int),
    {
        proof {
            lemma_word(self@, 2);
            lemma_scaled(word(self@, 2), n as int, 2);
        }
        let mut r: u64 = self.gen_u64();
        let mut hi: u64 = mul_high_u64(r, n);
        let mut lo: u64 = r.wrapping_mul(n);
        let t: u64 = 0u64.wrapping_sub(n) % n;
        if lo < n {
            let mut left: u64 = ATTEMPTS - 1;
            while lo < t && left > 0
                invariant
                    n > 0,
                    0 <= hi < n,
                    left < ATTEMPTS,
                    t == (base(2) - n) % (n as int),
                    lo == (r * n) % base(2),
                    hi == scaled(r as int, n as int, 2),
                    draw(old(self)@, n as int, 2, ATTEMPTS as nat) == (if left == 0 || accepted(
                        r as int,
                        n as int,
                        2,
                    ) {
                        (hi as int, self@)
                    } else {
                        draw(self@, n as int, 2, left as nat)
                    }),
                decreases left,
            {
                proof {
                    lemma_word(self@, 2);
                    lemma_scaled(word(self@, 2), n as int, 2);
                }
                r = self.gen_u64();
                hi = mul_high_u64(r, n);
                lo = r.wrapping_mul(n);
                left = left - 1;
            }
        }
        hi
    }

    /// Draws a number below `n`.
    fn gen_mod_u128(&mut self, n: u128) -> (hi: u128)
        requires
            n > 0,
        ensures
            picked(old(self)@, final(self)@, 0, n - 1, 4, hi as int),
    {
        proof {
            lemma_word(self@, 4);
            lemma_scaled(word(self@, 4), n as int, 4);
        }
        let mut r: u128 = self.gen_u128();
        let mut hi: u128 = mul_high_u128(r, n);
        let mut lo: u128 = r.wrapping_mul(n);
        let t: u128 = 0u128.wrapping_sub(n) % n;
        if lo < n {
            let mut left: u64 = ATTEMPTS - 1;
            while lo < t && left > 0
                invariant
                    n > 0,
                    0 <= hi < n,
                    left < ATTEMPTS,
                    t == (base(4) - n) % (n as int),
                    lo == (r * n) % base(4),
                    hi == scaled(r as int, n as int, 4),
                    draw(old(self)@, n as int, 4, ATTEMPTS as nat) == (if left == 0 || accepted(
                        r as int,
                        n as int,
                        4,
                    ) {
                        (hi as int, self@)
                    } else {
                        draw(self@, n as int, 4, left as nat)
                    }),
                decreases left,
            {
                proof {
                    lemma_word(self@, 4);
                    lemma_scaled(word(self@, 4), n as int, 4);
                }
                r = self.gen_u128();
                hi = mul_high_u128(r, n);
                lo = r.wrapping_mul(n);
                left = left - 1;
            }
        }
        hi
    }

    /// A generator in the state that `seed` leads to.
    pub fn with_seed(seed: u64) -> (r: Self)
        ensures
            r@ == seeded(seed),
    {
        let mut rh = Rander(0);
        rh.seed(seed);
        rh
    }

    /// Starts the generator over from `seed`.
    pub fn seed(&mut self, seed: u64)
        ensures
            final(self)@ == seeded(seed),
    {
        self.0 = seed.wrapping_add(INCREMENT);
        self.gen_u32();
    }

    /// A generator that is seeded with the next number of this one.
    pub fn clone(&mut self) -> (r: Self)
        ensures
            r@ == seeded(word(old(self)@, 2) as u64),
            final(self)@ == steps(old(self)@, 2),
    {
        let seed: u64 = self.gen_u64();
        Rander::with_seed(seed)
    }

    /// A random `u8` between `start` and `end`.
    pub fn u8(&mut self, start: Bound<u8>, end: Bound<u8>) -> (r: u8)
        requires
            lowest_u8(start) <= highest_u8(end),
        ensures
            lowest_u8(start) > u8::MIN || highest_u8(end) < u8::MAX ==> picked(
                old(self)@,
                final(self)@,
                lowest_u8(start),
                highest_u8(end),
                1,
                r as int,
            ),
            lowest_u8(start) == u8::MIN && highest_u8(end) == u8::MAX ==> r == (word(
                old(self)@,
                1,
            ) as u32) as u8 && final(self)@ == steps(old(self)@, 1),
            start matches Bound::Included(x) ==> x <= r,
            start matches Bound::Excluded(x) ==> x < r,
            end matches Bound::Included(x) ==> r <= x,
            end matches Bound::Excluded(x) ==> r < x,
    {
        let low: u8 = match start {
            Bound::Unbounded => u8::MIN,
            Bound::Included(x) => x,
            Bound::Excluded(x) => x + 1,
        };
        let high: u8 = match end {
            Bound::Unbounded => u8::MAX,
            Bound::Included(x) => x,
            Bound::Excluded(x) => x - 1,
        };
        if low == u8::MIN && high == u8::MAX {
            let v: u32 = self.gen_u32();
            v as u8
        } else {
            let len: u32 = (high - low) as u32 + 1;
            let v: u32 = self.gen_mod_u32(len);
            low + v as u8
        }
    }

    /// A random `u16` between `start` and `end`.
    pub fn u16(&mut self, start: Bound<u16>, end: Bound<u16>) -> (r: u16)
        requires
            lowest_u16(start) <= highest_u16(end),
        ensures
            lowest_u16(start) > u16::MIN || highest_u16(end) < u16::MAX ==> picked(
                old(self)@,
                final(self)@,
                lowest_u16(start),
                highest_u16(end),
                1,
                r as int,
            ),
            lowest_u16(start) == u16::MIN && highest_u16(end) == u16::MAX ==> r == (word(
                old(self)@,
                1,
            ) as u32) as u16 && final(self)@ == steps(old(self)@, 1),
            start matches Bound::Included(x) ==> x <= r,
            start matches Bound::Excluded(x) ==> x < r,
            end matches Bound::Included(x) ==> r <= x,
            end matches Bound::Excluded(x) ==> r < x,
    {
        let low: u16 = match start {
            Bound::Unbounded => u16::MIN,
            Bound::Included(x) => x,
            Bound::Excluded(x) => x + 1,
        };
        let high: u16 = match end {
            Bound::Unbounded => u16::MAX,
            Bound::Included(x) => x,
            Bound::Excluded(x) => x - 1,
        };
        if low == u16::MIN && high == u16::MAX {
            let v: u32 = self.gen_u32();
            v as u16
        } else {
            let len: u32 = (high - low) as u32 + 1;
            let v: u32 = self.gen_mod_u32(len);
            low + v as u16
        }
    }

    /// A random `u32` between `start` and `end`.
    pub fn u32(&mut self, start: Bound<u32>, end: Bound<u32>) -> (r: u32)
        requires
            lowest_u32(start) <= highest_u32(end),
        ensures
            lowest_u32(start) > u32::MIN || highest_u32(end) < u32::MAX ==> picked(
                old(self)@,
                final(self)@,
                lowest_u32(start),
                highest_u32(end),
                1,
                r as int,
            ),
            lowest_u32(start) == u32::MIN && highest_u32(end) == u32::MAX ==> r == (word(
                old(self)@,
                1,
            ) as u32) as u32 && final(self)@ == steps(old(self)@, 1),
            start matches Bound::Included(x) ==> x <= r,
            start matches Bound::Excluded(x) ==> x < r,
            end matches Bound::Included(x) ==> r <= x,
            end matches Bound::Excluded(x) ==> r < x,
    {
        let low: u32 = match start {
            Bound::Unbounded => u32::MIN,
            Bound::Included(x) => x,
            Bound::Excluded(x) => x + 1,
        };
        let high: u32 = match end {
            Bound::Unbounded => u32::MAX,
            Bound::Included(x) => x,
            Bound::Excluded(x) => x - 1,
        };
        if low == u32::MIN && high == u32::MAX {
            let v: u32 = self.gen_u32();
            v as u32
        } else {
            let len: u32 = (high - low) as u32 + 1;
            let v: u32 = self.gen_mod_u32(len);
            low + v as u32
        }
    }

    /// A random `u64` between `start` and `end`.
    pub fn u64(&mut self, start: Bound<u64>, end: Bound<u64>) -> (r: u64)
        requires
            lowest_u64(start) <= highest_u64(end),
        ensures
            lowest_u64(start) > u64::MIN || highest_u64(end) < u64::MAX ==> picked(
                old(self)@,
                final(self)@,
                lowest_u64(start),
                highest_u64(end),
                2,
                r as int,
            ),
            lowest_u64(start) == u64::MIN && highest_u64(end) == u64::MAX ==> r == (word(
                old(self)@,
                2,
            ) as u64) as u64 && final(self)@ == steps(old(self)@, 2),
            start matches Bound::Included(x) ==> x <= r,
            start matches Bound::Excluded(x) ==> x < r,
            end matches Bound::Included(x) ==> r <= x,
            end matches Bound::Excluded(x) ==> r < x,
    {
        let low: u64 = match start {
            Bound::Unbounded => u64::MIN,
            Bound::Included(x) => x,
            Bound::Excluded(x) => x + 1,
        };
        let high: u64 = match end {
            Bound::Unbounded => u64::MAX,
            Bound::Included(x) => x,
            Bound::Excluded(x) => x - 1,
        };
        if low == u64::MIN && high == u64::MAX {
            let v: u64 = self.gen_u64();
            v as u64
        } else {
            let len: u64 = (high - low) as u64 + 1;
            let v: u64 = self.gen_mod_u64(len);
            low + v as u64
        }
    }

    /// A random `u128` between `start` and `end`.
    pub fn u128(&mut self, start: Bound<u128>, end: Bound<u128>) -> (r: u128)
        requires
            lowest_u128(start) <= highest_u128(end),
        ensures
            lowest_u128(start) > u128::MIN || highest_u128(end) < u128::MAX ==> picked(
                old(self)@,
                final(self)@,
                lowest_u128(start),
                highest_u128(end),
                4,
                r as int,
            ),
            lowest_u128(start) == u128::MIN && highest_u128(end) == u128::MAX ==> r == (word(
                old(self)@,
                4,
            ) as u128) as u128 && final(self)@ == steps(old(self)@, 4),
            start matches Bound::Included(x) ==> x <= r,
            start matches Bound::Excluded(x) ==> x < r,
            end matches Bound::Included(x) ==> r <= x,
            end matches Bound::Excluded(x) ==> r < x,
    {
        let low: u128 = match start {
            Bound::Unbounded => u128::MIN,
            Bound::Included(x) => x,
            Bound::Excluded(x) => x + 1,
        };
        let high: u128 = match end {
            Bound::Unbounded => u128::MAX,
            Bound::Included(x) => x,
            Bound::Excluded(x) => x - 1,
        };
        if low == u128::MIN && high == u128::MAX {
            self.gen_u128()
        } else {
            let len: u128 = high - low + 1;
            let v: u128 = self.gen_mod_u128(len);
            low + v
        }
    }

    /// A random `usize` between `start` and `end`.
    pub fn usize(&mut self, start: Bound<usize>, end: Bound<usize>) -> (r: usize)
        requires
            lowest_usize(start) <= highest_usize(end),
        ensures
            lowest_usize(start) > usize::MIN || highest_usize(end) < usize::MAX ==> picked(
                old(self)@,
                final(self)@,
                lowest_usize(start),
                highest_usize(end),
                pointer_words(),
                r as int,
            ),
            lowest_usize(start) == usize::MIN && highest_usize(end) == usize::MAX ==> r == (word(
                old(self)@,
                pointer_words(),
            ) as u64) as usize && final(self)@ == steps(old(self)@, pointer_words()),
            start matches Bound::Included(x) ==> x <= r,
            start matches Bound::Excluded(x) ==> x < r,
            end matches Bound::Included(x) ==> r <= x,
            end matches Bound::Excluded(x) ==> r < x,
    {
        let low: usize = match start {
            Bound::Unbounded => usize::MIN,
            Bound::Included(x) => x,
            Bound::Excluded(x) => x + 1,
        };
        let high: usize = match end {
            Bound::Unbounded => usize::MAX,
            Bound::Included(x) => x,
            Bound::Excluded(x) => x - 1,
        };
        if usize::BITS == 32 {
            if low == usize::MIN && high == usize::MAX {
                let v: u32 = self.gen_u32();
                v as usize
            } else {
                let len: u32 = (high - low) as u32 + 1;
                let v: u32 = self.gen_mod_u32(len);
                low + v as usize
            }
        } else {
            if low == usize::MIN && high == usize::MAX {
                let v: u64 = self.gen_u64();
                v as usize
            } else {
                let len: u64 = (high - low) as u64 + 1;
                let v: u64 = self.gen_mod_u64(len);
                low + v as usize
            }
        }
    }

    /// A random `i8` between `start` and `end`.
    pub fn i8(&mut self, start: Bound<i8>, end: Bound<i8>) -> (r: i8)
        requires
            lowest_i8(start) <= highest_i8(end),
        ensures
            lowest_i8(start) > i8::MIN || highest_i8(end) < i8::MAX ==> picked(
                old(self)@,
                final(self)@,
                lowest_i8(start),
                highest_i8(end),
                1,
                r as int,
            ),
            lowest_i8(start) == i8::MIN && highest_i8(end) == i8::MAX ==> r == (word(
                old(self)@,
                1,
            ) as u32) as i8 && final(self)@ == steps(old(self)@, 1),
            start matches Bound::Included(x) ==> x <= r,
            start matches Bound::Excluded(x) ==> x < r,
            end matches Bound::Included(x) ==> r <= x,
            end matches Bound::Excluded(x) ==> r < x,
    {
        let low: i8 = match start {
            Bound::Unbounded => i8::MIN,
            Bound::Included(x) => x,
            Bound::Excluded(x) => x + 1,
        };
        let high: i8 = match end {
            Bound::Unbounded => i8::MAX,
            Bound::Included(x) => x,
            Bound::Excluded(x) => x - 1,
        };
        if low == i8::MIN && high == i8::MAX {
            let v: u32 = self.gen_u32();
            v as i8
        } else {
            let len: u32 = (high as i64 - low as i64 + 1) as u32;
            let v: u32 = self.gen_mod_u32(len);
            (low as i64 + v as i64) as i8
        }
    }

    /// A random `i16` between `start` and `end`.
    pub fn i16(&mut self, start: Bound<i16>, end: Bound<i16>) -> (r: i16)
        requires
            lowest_i16(start) <= highest_i16(end),
        ensures
            lowest_i16(start) > i16::MIN || highest_i16(end) < i16::MAX ==> picked(
                old(self)@,
                final(self)@,
                lowest_i16(start),
                highest_i16(end),
                1,
                r as int,
            ),
            lowest_i16(start) == i16::MIN && highest_i16(end) == i16::MAX ==> r == (word(
                old(self)@,
                1,
            ) as u32) as i16 && final(self)@ == steps(old(self)@, 1),
            start matches Bound::Included(x) ==> x <= r,
            start matches Bound::Excluded(x) ==> x < r,
            end matches Bound::Included(x) ==> r <= x,
            end matches Bound::Excluded(x) ==> r < x,
    {
        let low: i16 = match start {
            Bound::Unbounded => i16::MIN,
            Bound::Included(x) => x,
            Bound::Excluded(x) => x + 1,
        };
        let high: i16 = match end {
            Bound::Unbounded => i16::MAX,
            Bound::Included(x) => x,
            Bound::Excluded(x) => x - 1,
        };
        if low == i16::MIN && high == i16::MAX {
            let v: u32 = self.gen_u32();
            v as i16
        } else {
            let len: u32 = (high as i64 - low as i64 + 1) as u32;
            let v: u32 = self.gen_mod_u32(len);
            (low as i64 + v as i64) as i16
        }
    }

    /// A random `i32` between `start` and `end`.
    pub fn i32(&mut self, start: Bound<i32>, end: Bound<i32>) -> (r: i32)
        requires
            lowest_i32(start) <= highest_i32(end),
        ensures
            lowest_i32(start) > i32::MIN || highest_i32(end) < i32::MAX ==> picked(
                old(self)@,
                final(self)@,
                lowest_i32(start),
                highest_i32(end),
                1,
                r as int,
            ),
            lowest_i32(start) == i32::MIN && highest_i32(end) == i32::MAX ==> r == (word(
                old(self)@,
                1,
            ) as u32) as i32 && final(self)@ == steps(old(self)@, 1),
            start matches Bound::Included(x) ==> x <= r,
            start matches Bound::Excluded(x) ==> x < r,
            end matches Bound::Included(x) ==> r <= x,
            end matches Bound::Excluded(x) ==> r < x,
    {
        let low: i32 = match start {
            Bound::Unbounded => i32::MIN,
            Bound::Included(x) => x,
            Bound::Excluded(x) => x + 1,
        };
        let high: i32 = match end {
            Bound::Unbounded => i32::MAX,
            Bound::Included(x) => x,
            Bound::Excluded(x) => x - 1,
        };
        if low == i32::MIN && high == i32::MAX {
            let v: u32 = self.gen_u32();
            v as i32
        } else {
            let len: u32 = (high as i64 - low as i64 + 1) as u32;
            let v: u32 = self.gen_mod_u32(len);
            (low as i64 + v as i64) as i32
        }
    }

    /// A random `i64` between `start` and `end`.
    pub fn i64(&mut self, start: Bound<i64>, end: Bound<i64>) -> (r: i64)
        requires
            lowest_i64(start) <= highest_i64(end),
        ensures
            lowest_i64(start) > i64::MIN || highest_i64(end) < i64::MAX ==> picked(
                old(self)@,
                final(self)@,
                lowest_i64(start),
                highest_i64(end),
                2,
                r as int,
            ),
            lowest_i64(start) == i64::MIN && highest_i64(end) == i64::MAX ==> r == (word(
                old(self)@,
                2,
            ) as u64) as i64 && final(self)@ == steps(old(self)@, 2),
            start matches Bound::Included(x) ==> x <= r,
            start matches Bound::Excluded(x) ==> x < r,
            end matches Bound::Included(x) ==> r <= x,
            end matches Bound::Excluded(x) ==> r < x,
    {
        let low: i64 = match start {
            Bound::Unbounded => i64::MIN,
            Bound::Included(x) => x,
            Bound::Excluded(x) => x + 1,
        };
        let high: i64 = match end {
            Bound::Unbounded => i64::MAX,
            Bound::Included(x) => x,
            Bound::Excluded(x) => x - 1,
        };
        if low == i64::MIN && high == i64::MAX {
            let v: u64 = self.gen_u64();
            v as i64
        } else {
            let len: u64 = (high as i128 - low as i128 + 1) as u64;
            let v: u64 = self.gen_mod_u64(len);
            (low as i128 + v as i128) as i64
        }
    }

    /// A random `i128` between `start` and `end`.
    pub fn i128(&mut self, start: Bound<i128>, end: Bound<i128>) -> (r: i128)
        requires
            lowest_i128(start) <= highest_i128(end),
        ensures
            lowest_i128(start) > i128::MIN || highest_i128(end) < i128::MAX ==> picked(
                old(self)@,
                final(self)@,
                lowest_i128(start),
                highest_i128(end),
                4,
                r as int,
            ),
            lowest_i128(start) == i128::MIN && highest_i128(end) == i128::MAX ==> r == (word(
                old(self)@,
                4,
            ) as u128) as i128 && final(self)@ == steps(old(self)@, 4),
            start matches Bound::Included(x) ==> x <= r,
            start matches Bound::Excluded(x) ==> x < r,
            end matches Bound::Included(x) ==> r <= x,
            end matches Bound::Excluded(x) ==> r < x,
    {
        let low: i128 = match start {
            Bound::Unbounded => i128::MIN,
            Bound::Included(x) => x,
            Bound::Excluded(x) => x + 1,
        };
        let high: i128 = match end {
            Bound::Unbounded => i128::MAX,
            Bound::Included(x) => x,
            Bound::Excluded(x) => x - 1,
        };
        if low == i128::MIN && high == i128::MAX {
            let v: u128 = self.gen_u128();
            v as i128
        } else {
            proof {
                lemma_to_unsigned(low);
                lemma_to_unsigned(high);
            }
            let len: u128 = (high as u128).wrapping_sub(low as u128) + 1;
            let v: u128 = self.gen_mod_u128(len);
            proof {
                lemma_to_signed((low as u128).wrapping_add(v));
            }
            (low as u128).wrapping_add(v) as i128
        }
    }

    /// A random `isize` between `start` and `end`.
    pub fn isize(&mut self, start: Bound<isize>, end: Bound<isize>) -> (r: isize)
        requires
            lowest_isize(start) <= highest_isize(end),
        ensures
            lowest_isize(start) > isize::MIN || highest_isize(end) < isize::MAX ==> picked(
                old(self)@,
                final(self)@,
                lowest_isize(start),
                highest_isize(end),
                pointer_words(),
                r as int,
            ),
            lowest_isize(start) == isize::MIN && highest_isize(end) == isize::MAX ==> r == (word(
                old(self)@,
                pointer_words(),
            ) as u64) as isize && final(self)@ == steps(old(self)@, pointer_words()),
            start matches Bound::Included(x) ==> x <= r,
            start matches Bound::Excluded(x) ==> x < r,
            end matches Bound::Included(x) ==> r <= x,
            end matches Bound::Excluded(x) ==> r < x,
    {
        let low: isize = match start {
            Bound::Unbounded => isize::MIN,
            Bound::Included(x) => x,
            Bound::Excluded(x) => x + 1,
        };
        let high: isize = match end {
            Bound::Unbounded => isize::MAX,
            Bound::Included(x) => x,
            Bound::Excluded(x) => x - 1,
        };
        if usize::BITS == 32 {
            if low == isize::MIN && high == isize::MAX {
                let v: u32 = self.gen_u32();
                v as isize
            } else {
                let len: u32 = (high as i64 - low as i64 + 1) as u32;
                let v: u32 = self.gen_mod_u32(len);
                (low as i64 + v as i64) as isize
            }
        } else {
            if low == isize::MIN && high == isize::MAX {
                let v: u64 = self.gen_u64();
                v as isize
            } else {
                let len: u64 = (high as i128 - low as i128 + 1) as u64;
                let v: u64 = self.gen_mod_u64(len);
                (low as i128 + v as i128) as isize
            }
        }
    }

}

/// The least `u8` from `start` on.
pub open spec fn lowest_u8(start: Bound<u8>) -> int {
    match start {
        Bound::Unbounded => u8::MIN as int,
        Bound::Included(x) => x as int,
        Bound::Excluded(x) => x + 1,
    }
}

/// The greatest `u8` up to `end`.
pub open spec fn highest_u8(end: Bound<u8>) -> int {
    match end {
        Bound::Unbounded => u8::MAX as int,
        Bound::Included(x) => x as int,
        Bound::Excluded(x) => x - 1,
    }
}

/// The least `u16` from `start` on.
pub open spec fn lowest_u16(start: Bound<u16>) -> int {
    match start {
        Bound::Unbounded => u16::MIN as int,
        Bound::Included(x) => x as int,
        Bound::Excluded(x) => x + 1,
    }
}

/// The greatest `u16` up to `end`.
pub open spec fn highest_u16(end: Bound<u16>) -> int {
    match end {
        Bound::Unbounded => u16::MAX as int,
        Bound::Included(x) => x as int,
        Bound::Excluded(x) => x - 1,
    }
}

/// The least `u32` from `start` on.
pub open spec fn lowest_u32(start: Bound<u32>) -> int {
    match start {
        Bound::Unbounded => u32::MIN as int,
        Bound::Included(x) => x as int,
        Bound::Excluded(x) => x + 1,
    }
}

/// The greatest `u32` up to `end`.
pub open spec fn highest_u32(end: Bound<u32>) -> int {
    match end {
        Bound::Unbounded => u32::MAX as int,
        Bound::Included(x) => x as int,
        Bound::Excluded(x) => x - 1,
    }
}

/// The least `u64` from `start` on.
pub open spec fn lowest_u64(start: Bound<u64>) -> int {
    match start {
        Bound::Unbounded => u64::MIN as int,
        Bound::Included(x) => x as int,
        Bound::Excluded(x) => x + 1,
    }
}

/// The greatest `u64` up to `end`.
pub open spec fn highest_u64(end: Bound<u64>) -> int {
    match end {
        Bound::Unbounded => u64::MAX as int,
        Bound::Included(x) => x as int,
        Bound::Excluded(x) => x - 1,
    }
}

/// The least `u128` from `start` on.
pub open spec fn lowest_u128(start: Bound<u128>) -> int {
    match start {
        Bound::Unbounded => u128::MIN as int,
        Bound::Included(x) => x as int,
        Bound::Excluded(x) => x + 1,
    }
}

/// The greatest `u128` up to `end`.
pub open spec fn highest_u128(end: Bound<u128>) -> int {
    match end {
        Bound::Unbounded => u128::MAX as int,
        Bound::Included(x) => x as int,
        Bound::Excluded(x) => x - 1,
    }
}

/// The least `usize` from `start` on.
pub open spec fn lowest_usize(start: Bound<usize>) -> int {
    match start {
        Bound::Unbounded => usize::MIN as int,
        Bound::Included(x) => x as int,
        Bound::Excluded(x) => x + 1,
    }
}

/// The greatest `usize` up to `end`.
pub open spec fn highest_usize(end: Bound<usize>) -> int {
    match end {
        Bound::Unbounded => usize::MAX as int,
        Bound::Included(x) => x as int,
        Bound::Excluded(x) => x - 1,
    }
}

/// The least `i8` from `start` on.
pub open spec fn lowest_i8(start: Bound<i8>) -> int {
    match start {
        Bound::Unbounded => i8::MIN as int,
        Bound::Included(x) => x as int,
        Bound::Excluded(x) => x + 1,
    }
}

/// The greatest `i8` up to `end`.
pub open spec fn highest_i8(end: Bound<i8>) -> int {
    match end {
        Bound::Unbounded => i8::MAX as int,
        Bound::Included(x) => x as int,
        Bound::Excluded(x) => x - 1,
    }
}

/// The least `i16` from `start` on.
pub open spec fn lowest_i16(start: Bound<i16>) -> int {
    match start {
        Bound::Unbounded => i16::MIN as int,
        Bound::Included(x) => x as int,
        Bound::Excluded(x) => x + 1,
    }
}

/// The greatest `i16` up to `end`.
pub open spec fn highest_i16(end: Bound<i16>) -> int {
    match end {
        Bound::Unbounded => i16::MAX as int,
        Bound::Included(x) => x as int,
        Bound::Excluded(x) => x - 1,
    }
}

/// The least `i32` from `start` on.
pub open spec fn lowest_i32(start: Bound<i32>) -> int {
    match start {
        Bound::Unbounded => i32::MIN as int,
        Bound::Included(x) => x as int,
        Bound::Excluded(x) => x + 1,
    }
}

/// The greatest `i32` up to `end`.
pub open spec fn highest_i32(end: Bound<i32>) -> int {
    match end {
        Bound::Unbounded => i32::MAX as int,
        Bound::Included(x) => x as int,
        Bound::Excluded(x) => x - 1,
    }
}

/// The least `i64` from `start` on.
pub open spec fn lowest_i64(start: Bound<i64>) -> int {
    match start {
        Bound::Unbounded => i64::MIN as int,
        Bound::Included(x) => x as int,
        Bound::Excluded(x) => x + 1,
    }
}

/// The greatest `i64` up to `end`.
pub open spec fn highest_i64(end: Bound<i64>) -> int {
    match end {
        Bound::Unbounded => i64::MAX as int,
        Bound::Included(x) => x as int,
        Bound::Excluded(x) => x - 1,
    }
}

/// The least `i128` from `start` on.
pub open spec fn lowest_i128(start: Bound<i128>) -> int {
    match start {
        Bound::Unbounded => i128::MIN as int,
        Bound::Included(x) => x as int,
        Bound::Excluded(x) => x + 1,
    }
}

/// The greatest `i128` up to `end`.
pub open spec fn highest_i128(end: Bound<i128>) -> int {
    match end {
        Bound::Unbounded => i128::MAX as int,
        Bound::Included(x) => x as int,
        Bound::Excluded(x) => x - 1,
    }
}

/// The least `isize` from `start` on.
pub open spec fn lowest_isize(start: Bound<isize>) -> int {
    match start {
        Bound::Unbounded => isize::MIN as int,
        Bound::Included(x) => x as int,
        Bound::Excluded(x) => x + 1,
    }
}

/// The greatest `isize` up to `end`.
pub open spec fn highest_isize(end: Bound<isize>) -> int {
    match end {
        Bound::Unbounded => isize::MAX as int,
        Bound::Included(x) => x as int,
        Bound::Excluded(x) => x - 1,
    }
}

/// How many 32-bit words a pointer-sized number is made of.
pub open spec fn pointer_words() -> nat {
    if usize::BITS == 32 {
        1
    } else {
        2
    }
}

proof fn lemma_to_unsigned(x: i128)
    by (bit_vector)
    ensures
        x >= 0 ==> x as u128 == x,
        x < 0 ==> (x as u128) - u128::MAX - 1 == x,
{
}

proof fn lemma_to_signed(v: u128)
    by (bit_vector)
    ensures
        v <= 0x7fff_ffff_ffff_ffff_ffff_ffff_ffff_ffff ==> v as i128 == v,
        v > 0x7fff_ffff_ffff_ffff_ffff_ffff_ffff_ffff ==> v as i128 == v - u128::MAX - 1,
{
}

/// The `i`-th letter of the alphabet, capital letters first.
pub open spec fn letter(i: int) -> int {
    if i < 26 {
        'A' as int + i
    } else {
        'a' as int + i - 26
    }
}

/// The `i`-th digit of a number system: the ten digits, then small letters.
pub open spec fn numeral(i: int) -> int {
    if i < 10 {
        '0' as int + i
    } else {
        'a' as int + i - 10
    }
}

/// `items` with the items at `i` and `j` exchanged.
pub open spec fn exchanged<T>(items: Seq<T>, i: int, j: int) -> Seq<T> {
    items.update(i, items[j]).update(j, items[i])
}

/// Whether a generator that went from the state `s` to `now` has brought `before` to `current` by
/// giving each of the first `n` items a place among those up to it, one after the other.
pub open spec fn shuffled<T>(s: u64, now: u64, before: Seq<T>, current: Seq<T>, n: nat) -> bool
    decreases n,
{
    if n <= 1 {
        s == now && before == current
    } else {
        exists|mid: u64, prev: Seq<T>, j: int|
            {
                &&& shuffled(s, mid, before, prev, (n - 1) as nat)
                &&& #[trigger] picked(mid, now, 0, n - 1, pointer_words(), j)
                &&& current == #[trigger] exchanged(prev, n - 1, j)
            }
    }
}

proof fn lemma_multiset_update<T>(s: Seq<T>, i: int, x: T)
    requires
        0 <= i < s.len(),
    ensures
        s.update(i, x).to_multiset() == s.to_multiset().remove(s[i]).insert(x),
{
    let u = s.update(i, x);
    assert(u.len() == s.len());
    assert(u[i] == x);
    assert(u.remove(i) =~= s.remove(i));
    vstd::seq_lib::to_multiset_remove(s, i);
    vstd::seq_lib::to_multiset_remove(u, i);
    u.to_multiset_ensures();
    assert(u.contains(x));
    assert(u.to_multiset().count(x) > 0);
    assert(u.to_multiset().remove(x).insert(x) =~= u.to_multiset());
}

proof fn lemma_multiset_exchanged<T>(s: Seq<T>, i: int, j: int)
    requires
        0 <= i < s.len(),
        0 <= j < s.len(),
    ensures
        exchanged(s, i, j).to_multiset() == s.to_multiset(),
{
    s.to_multiset_ensures();
    lemma_multiset_update(s, i, s[j]);
    lemma_multiset_update(s.update(i, s[j]), j, s[i]);
    let m = s.to_multiset();
    assert(s.contains(s[i]) && s.contains(s[j]));
    if i == j {
        assert(exchanged(s, i, j) =~= s);
    } else {
        assert(s.update(i, s[j])[j] == s[j]);
        assert(m.remove(s[i]).insert(s[j]).remove(s[j]).insert(s[i]) =~= m);
    }
}

fn exchange<T>(items: &mut [T], low: usize, high: usize)
    requires
        low <= high < old(items)@.len(),
    ensures
        final(items)@ == exchanged(old(items)@, high as int, low as int),
{
    if low < high {
        let (l, r) = items.split_at_mut(high);
        core::mem::swap(&mut l[low], &mut r[0]);
    }
}

fn to_letter(i: u8) -> (r: char)
    requires
        i < 52,
    ensures
        r as int == letter(i as int),
{
    if i < 26 {
        (65 + i) as char
    } else {
        (97 + (i - 26)) as char
    }
}

impl Rander {
    /// A random letter, of either case.
    pub fn alphabetic(&mut self) -> (r: char)
        ensures
            exists|i: int|
                #[trigger] picked(old(self)@, final(self)@, 0, 51, 1, i) && r as int == letter(i),
            'a' <= r <= 'z' || 'A' <= r <= 'Z',
    {
        let i: u8 = self.u8(Bound::Unbounded, Bound::Excluded(52));
        to_letter(i)
    }

    /// A random letter or digit.
    pub fn alphanumeric(&mut self) -> (r: char)
        ensures
            exists|i: int| #[trigger]
                picked(old(self)@, final(self)@, 0, 61, 1, i) && r as int == (if i < 52 {
                    letter(i)
                } else {
                    '0' as int + i - 52
                }),
            'a' <= r <= 'z' || 'A' <= r <= 'Z' || '0' <= r <= '9',
    {
        let i: u8 = self.u8(Bound::Unbounded, Bound::Excluded(62));
        if i < 52 {
            to_letter(i)
        } else {
            (48u8 + (i - 52)) as char
        }
    }

    /// A random truth value: whether the next output is even.
    pub fn bool(&mut self) -> (r: bool)
        ensures
            r == (output(old(self)@) as u8 % 2 == 0),
            final(self)@ == next_state(old(self)@),
    {
        proof {
            lemma_word(self@, 1);
        }
        self.u8(Bound::Unbounded, Bound::Unbounded) % 2 == 0
    }

    /// A random digit of the number system with the given base.
    pub fn digit(&mut self, base: u32) -> (r: char)
        requires
            0 < base <= 36,
        ensures
            exists|i: int| #[trigger]
                picked(old(self)@, final(self)@, 0, base - 1, 1, i) && r as int == numeral(i),
            '0' <= r <= '9' || 'a' <= r <= 'z',
            base <= 10 ==> '0' <= r < '0' as int + base,
            base > 10 && r > '9' ==> 'a' <= r < 'a' as int + base - 10,
    {
        let num: u8 = self.u8(Bound::Unbounded, Bound::Excluded(base as u8));
        if num < 10 {
            (48u8 + num) as char
        } else {
            (97u8 + (num - 10)) as char
        }
    }

    /// A random small letter.
    pub fn lowercase(&mut self) -> (r: char)
        ensures
            exists|i: int| #[trigger]
                picked(old(self)@, final(self)@, 0, 25, 1, i) && r as int == 'a' as int + i,
            'a' <= r <= 'z',
    {
        let i: u8 = self.u8(Bound::Unbounded, Bound::Excluded(26));
        (97u8 + i) as char
    }

    /// A random capital letter.
    pub fn uppercase(&mut self) -> (r: char)
        ensures
            exists|i: int| #[trigger]
                picked(old(self)@, final(self)@, 0, 25, 1, i) && r as int == 'A' as int + i,
            'A' <= r <= 'Z',
    {
        let i: u8 = self.u8(Bound::Unbounded, Bound::Excluded(26));
        (65u8 + i) as char
    }

    /// Brings the items of `slice` into a random order.
    pub fn shuffle<T>(&mut self, slice: &mut [T])
        ensures
            shuffled(old(self)@, final(self)@, old(slice)@, final(slice)@, old(slice)@.len()),
            final(slice)@.to_multiset() == old(slice)@.to_multiset(),
    {
        let len: usize = slice.len();
        let mut i: usize = 1;
        while i < len
            invariant
                len == old(slice)@.len(),
                slice@.len() == len,
                1 <= i,
                i <= len || len == 0 && i == 1,
                shuffled(old(self)@, self@, old(slice)@, slice@, i as nat),
                slice@.to_multiset() == old(slice)@.to_multiset(),
            decreases len - i,
        {
            let ghost mid: u64 = self@;
            let ghost prev: Seq<T> = slice@;
            let j: usize = self.usize(Bound::Unbounded, Bound::Included(i));
            exchange(slice, j, i);
            proof {
                lemma_multiset_exchanged(prev, i as int, j as int);
                assert(picked(mid, self@, 0, (i + 1) - 1, pointer_words(), j as int));
                assert(slice@ == exchanged(prev, (i + 1) - 1, j as int));
            }
            i = i + 1;
        }
    }
}

/// The number that the multiplier is raised to by `k` steps.
spec fn power(k: nat) -> int
    decreases k,
{
    if k == 0 {
        1
    } else {
        power((k - 1) as nat) * MULTIPLIER
    }
}

/// How often the increment is in the state after `k` steps.
spec fn series(k: nat) -> int
    decreases k,
{
    if k == 0 {
        0
    } else {
        series((k - 1) as nat) + power((k - 1) as nat)
    }
}

/// That `a` and `b` have the same lower `m` bits.
spec fn congruent(a: int, b: int, m: nat) -> bool {
    exists|q: int| #[trigger] (q * pow2(m)) == a - b
}

proof fn lemma_next_state(s: u64)
    ensures
        exists|q: int|
            next_state(s) == MULTIPLIER * s + INCREMENT - #[trigger] (q
                * 0x1_0000_0000_0000_0000),
{
    let p: int = s * MULTIPLIER;
    lemma_fundamental_div_mod(p, 0x1_0000_0000_0000_0000);
    let m: int = s.wrapping_mul(MULTIPLIER) as int;
    assert(m == p % 0x1_0000_0000_0000_0000);
    let q: int = p / 0x1_0000_0000_0000_0000;
    assert(p == MULTIPLIER * s) by (nonlinear_arith)
        requires
            p == s * MULTIPLIER,
    ;
    if m + INCREMENT >= 0x1_0000_0000_0000_0000 {
        assert(next_state(s) == MULTIPLIER * s + INCREMENT - (q + 1) * 0x1_0000_0000_0000_0000);
    } else {
        assert(next_state(s) == MULTIPLIER * s + INCREMENT - q * 0x1_0000_0000_0000_0000);
    }
}

/// Where `k` steps lead: a multiple of the state plus a multiple of the increment.
proof fn lemma_steps(s: u64, k: nat)
    ensures
        exists|q: int|
            steps(s, k) == power(k) * s + series(k) * INCREMENT - #[trigger] (q
                * 0x1_0000_0000_0000_0000),
    decreases k,
{
    if k == 0 {
        assert(steps(s, k) == power(k) * s + series(k) * INCREMENT - 0 * 0x1_0000_0000_0000_0000);
    } else {
        let j = (k - 1) as nat;
        let n = next_state(s);
        lemma_next_state(s);
        lemma_steps(n, j);
        let q1 = choose|q: int|
            next_state(s) == MULTIPLIER * s + INCREMENT - #[trigger] (q * 0x1_0000_0000_0000_0000);
        let q2 = choose|q: int|
            steps(n, j) == power(j) * n + series(j) * INCREMENT - #[trigger] (q
                * 0x1_0000_0000_0000_0000);
        let p = power(j);
        let e = series(j);
        let w: int = 0x1_0000_0000_0000_0000;
        let a: int = MULTIPLIER as int;
        let c: int = INCREMENT as int;
        let x: int = s as int;
        lemma_mul_is_distributive_add(p, a * x, c - q1 * w);
        lemma_mul_is_distributive_sub(p, c, q1 * w);
        lemma_mul_is_associative(p, a, x);
        lemma_mul_is_associative(p, q1, w);
        lemma_mul_is_distributive_add_other_way(c, e, p);
        lemma_mul_is_distributive_add_other_way(w, p * q1, q2);
        assert(steps(s, k) == power(k) * s + series(k) * INCREMENT - (p * q1 + q2)
            * 0x1_0000_0000_0000_0000);
    }
}

proof fn lemma_sums(k: nat, j: nat)
    ensures
        power(k + j) == power(k) * power(j),
        series(k + j) == series(k) + power(k) * series(j),
    decreases j,
{
    if j > 0 {
        let i = (j - 1) as nat;
        lemma_sums(k, i);
        assert((k + j - 1) as nat == k + i);
        let p = power(k);
        let pi = power(i);
        let ei = series(i);
        let a: int = MULTIPLIER as int;
        assert((p * pi) * a == p * (pi * a)) by (nonlinear_arith);
        assert(p * ei + p * pi == p * (ei + pi)) by (nonlinear_arith);
    } else {
        assert(power(k) * 1 == power(k));
        assert(power(k) * 0 == 0);
    }
}

/// After a power of two of steps, the multiplier has come back to one in all lower bits, and the
/// increment has been added an odd multiple of that power of times.
proof fn lemma_doubling(m: nat)
    ensures
        exists|q: int| power(pow2(m)) == 1 + #[trigger] (q * pow2(m + 2)),
        exists|u: int| series(pow2(m)) == pow2(m) * #[trigger] (2 * u + 1),
    decreases m,
{
    lemma_pow2_unfold(m + 2);
    lemma_pow2_unfold(m + 1);
    if m == 0 {
        lemma2_to64();
        reveal_with_fuel(power, 3);
        reveal_with_fuel(series, 3);
        assert(power(pow2(m)) == 1 + 1591034055961698251 * pow2(m + 2));
        assert(series(pow2(m)) == pow2(m) * (2 * 0 + 1));
    } else {
        let i = (m - 1) as nat;
        lemma_doubling(i);
        lemma_pow2_unfold(m);
        lemma_sums(pow2(i), pow2(i));
        assert(pow2(m) == pow2(i) + pow2(i));
        let q = choose|q: int| power(pow2(i)) == 1 + #[trigger] (q * pow2(i + 2));
        let u = choose|u: int| series(pow2(i)) == pow2(i) * #[trigger] (2 * u + 1);
        let w: int = pow2(i) as int;
        assert(i + 2 == m + 1);
        assert(pow2(m + 1) == 4 * w && pow2(m + 2) == 8 * w);
        let x: int = q * (4 * w);
        assert((1 + x) * (1 + x) == 1 + (q + 2 * w * q * q) * (8 * w)) by (nonlinear_arith)
            requires
                x == q * (4 * w),
        ;
        assert(power(pow2(m)) == 1 + (q + 2 * w * q * q) * pow2(m + 2));
        let v: int = u + (2 * u + 1) * q * w;
        let y: int = w * (2 * u + 1);
        assert(y + (1 + x) * y == (2 * w) * (2 * v + 1)) by (nonlinear_arith)
            requires
                x == q * (4 * w),
                y == w * (2 * u + 1),
                v == u + (2 * u + 1) * q * w,
        ;
        assert(series(pow2(m)) == pow2(m) * (2 * v + 1));
    }
}

/// A power of two of steps flips the bit of that power and keeps those below.
proof fn lemma_flip(s: u64, m: nat)
    requires
        m < 64,
    ensures
        congruent(steps(s, pow2(m)) as int, s + pow2(m), m + 1),
{
    lemma_doubling(m);
    lemma_steps(s, pow2(m));
    let q = choose|q: int| power(pow2(m)) == 1 + #[trigger] (q * pow2(m + 2));
    let u = choose|u: int| series(pow2(m)) == pow2(m) * #[trigger] (2 * u + 1);
    let r = choose|r: int|
        steps(s, pow2(m)) == power(pow2(m)) * s + series(pow2(m)) * INCREMENT - #[trigger] (r
            * 0x1_0000_0000_0000_0000);
    lemma_pow2_unfold(m + 2);
    lemma_pow2_unfold(m + 1);
    lemma2_to64();
    lemma_pow2_adds(m + 1, (63 - m) as nat);
    let w: int = pow2(m) as int;
    let h: int = pow2((63 - m) as nat) as int;
    let x: int = s as int;
    let c: int = INCREMENT as int;
    let d: int = 721347520444481703;
    assert(c == 2 * d + 1);
    assert((2 * w) * h == 0x1_0000_0000_0000_0000);
    let o: int = 2 * (u * d) + u + d;
    let t: int = 2 * (q * x) + o - r * h;
    assert((1 + q * (4 * w)) * x == x + (2 * (q * x)) * (2 * w)) by (nonlinear_arith);
    assert((2 * u + 1) * c == 2 * o + 1) by (nonlinear_arith)
        requires
            c == 2 * d + 1,
            o == 2 * (u * d) + u + d,
    ;
    lemma_mul_is_associative(w, 2 * u + 1, c);
    assert(w * (2 * o + 1) == o * (2 * w) + w) by (nonlinear_arith);
    assert(r * ((2 * w) * h) == (r * h) * (2 * w)) by (nonlinear_arith);
    assert(t * (2 * w) == (2 * (q * x)) * (2 * w) + o * (2 * w) - (r * h) * (2 * w))
        by (nonlinear_arith)
        requires
            t == 2 * (q * x) + o - r * h,
    ;
    assert(t * pow2(m + 1) == steps(s, pow2(m)) - (s + pow2(m)));
}

proof fn lemma_steps_add(s: u64, k: nat, j: nat)
    ensures
        steps(s, k + j) == steps(steps(s, k), j),
    decreases k,
{
    if k > 0 {
        lemma_steps_add(next_state(s), (k - 1) as nat, j);
        assert((k + j - 1) as nat == (k - 1) as nat + j);
    }
}

proof fn lemma_reach(s: u64, z: u64, m: nat)
    requires
        m <= 64,
    ensures
        exists|k: nat| k < pow2(m) && #[trigger] congruent(steps(s, k) as int, z as int, m),
    decreases m,
{
    lemma2_to64();
    if m == 0 {
        assert((s - z) * pow2(0) == s - z);
        assert(congruent(steps(s, 0) as int, z as int, 0));
    } else {
        let i = (m - 1) as nat;
        lemma_pow2_unfold(m);
        lemma_reach(s, z, i);
        let k = choose|k: nat|
            k < pow2(i) && #[trigger] congruent(steps(s, k) as int, z as int, i);
        let x = steps(s, k);
        let q = choose|q: int| #[trigger] (q * pow2(i)) == x - z;
        let w: int = pow2(i) as int;
        if q % 2 == 0 {
            assert((q / 2) * (2 * w) == q * w) by (nonlinear_arith)
                requires
                    q % 2 == 0,
            ;
            assert((q / 2) * pow2(m) == x - z);
            assert(congruent(steps(s, k) as int, z as int, m));
        } else {
            lemma_flip(x, i);
            lemma_steps_add(s, k, pow2(i));
            let y = steps(x, pow2(i));
            assert(i + 1 == m);
            let t = choose|t: int| #[trigger] (t * pow2(m)) == y - (x + pow2(i));
            let h: int = (q + 1) / 2;
            assert(q + 1 == 2 * h);
            assert(t * (2 * w) + (q * w + w) == (t + h) * (2 * w)) by (nonlinear_arith)
                requires
                    q + 1 == 2 * h,
            ;
            assert((t + h) * pow2(m) == y - z);
            assert(congruent(steps(s, k + pow2(i)) as int, z as int, m));
        }
    }
}

/// The generator runs through all of its states: from each of them it comes to each other within
/// as many steps as there are states.
pub proof fn law_full_period(s: u64, z: u64)
    ensures
        exists|k: nat| k < 0x1_0000_0000_0000_0000 && #[trigger] steps(s, k) == z,
{
    lemma2_to64();
    lemma_reach(s, z, 64);
    let k = choose|k: nat| k < pow2(64) && #[trigger] congruent(steps(s, k) as int, z as int, 64);
    let q = choose|q: int| #[trigger] (q * pow2(64)) == steps(s, k) - z;
    assert(q == 0) by (nonlinear_arith)
        requires
            -0x1_0000_0000_0000_0000 < q * 0x1_0000_0000_0000_0000 < 0x1_0000_0000_0000_0000,
    ;
}

/// A draw of a number below `n` from 32-bit words always comes to an accepted word.
pub proof fn law_draw_succeeds(s: u64, n: int)
    requires
        0 < n < 0x1_0000_0000,
    ensures
        exists|i: nat|
            i < ATTEMPTS && accepted(word(#[trigger] steps(s, i), 1), n, 1),
{
    let y: u64 = 0x800_0000;
    let z: u64 = 0x800_0001;
    law_full_period(s, y);
    law_full_period(s, z);
    let i = choose|k: nat| k < 0x1_0000_0000_0000_0000 && #[trigger] steps(s, k) == y;
    let j = choose|k: nat| k < 0x1_0000_0000_0000_0000 && #[trigger] steps(s, k) == z;
    lemma_word(y, 1);
    lemma_word(z, 1);
    assert(output(0x800_0000) == 1 && output(0x800_0001) == 1) by (bit_vector);
    assert((1 * n) % base(1) == n) by {
        vstd::arithmetic::div_mod::lemma_small_mod(n as nat, base(1) as nat);
    }
    assert((base(1) - n) % n < n);
    assert(accepted(word(steps(s, i), 1), n, 1));
    assert(accepted(word(steps(s, j), 1), n, 1));
}

/// Something that a generator is asked for.
pub enum Request {
    /// A number from the first up to the second, drawn from words of so many outputs. The letters
    /// and digits are such numbers too.
    Between(int, int, nat),
    /// A word of so many outputs: a number of the whole range of its type is one, and so is what a
    /// truth value and the seed of a clone are made of.
    Word(nat),
    /// An order of so many items, each of which is given a place among those up to it.
    Order(nat),
}

/// What a request is answered with.
pub enum Answer {
    Number(int),
    /// Where the items of the order were before.
    Places(Seq<int>),
}

/// Whether a generator in the state `s` answers the request so and goes on to the state `after`.
pub open spec fn answers(s: u64, request: Request, answer: Answer, after: u64) -> bool {
    match (request, answer) {
        (Request::Between(low, high, k), Answer::Number(r)) => picked(s, after, low, high, k, r),
        (Request::Word(k), Answer::Number(r)) => r == word(s, k) && after == steps(s, k),
        (Request::Order(n), Answer::Places(places)) => shuffled(
            s,
            after,
            Seq::new(n, |i: int| i),
            places,
            n,
        ),
        _ => false,
    }
}

/// Whether a generator in the state `s` answers the requests so, one after the other, and goes on
/// to the state `after`.
pub open spec fn answers_all(
    s: u64,
    requests: Seq<Request>,
    given: Seq<Answer>,
    after: u64,
) -> bool
    decreases requests.len(),
{
    &&& requests.len() == given.len()
    &&& if requests.len() == 0 {
        after == s
    } else {
        exists|mid: u64|
            {
                &&& answers_all(s, requests.drop_last(), given.drop_last(), mid)
                &&& #[trigger] answers(mid, requests.last(), given.last(), after)
            }
    }
}

/// From the same state on the same items come into the same order.
pub proof fn law_same_order<T>(
    s: u64,
    before: Seq<T>,
    n: nat,
    first: Seq<T>,
    first_after: u64,
    second: Seq<T>,
    second_after: u64,
)
    requires
        shuffled(s, first_after, before, first, n),
        shuffled(s, second_after, before, second, n),
    ensures
        first == second,
        first_after == second_after,
    decreases n,
{
    if n > 1 {
        let (mid1, prev1, j1) = choose|mid: u64, prev: Seq<T>, j: int|
            {
                &&& shuffled(s, mid, before, prev, (n - 1) as nat)
                &&& #[trigger] picked(mid, first_after, 0, n - 1, pointer_words(), j)
                &&& first == #[trigger] exchanged(prev, n - 1, j)
            };
        let (mid2, prev2, j2) = choose|mid: u64, prev: Seq<T>, j: int|
            {
                &&& shuffled(s, mid, before, prev, (n - 1) as nat)
                &&& #[trigger] picked(mid, second_after, 0, n - 1, pointer_words(), j)
                &&& second == #[trigger] exchanged(prev, n - 1, j)
            };
        law_same_order(s, before, (n - 1) as nat, prev1, mid1, prev2, mid2);
    }
}

/// Two generators in the same state give the same answers to the same requests, however many, and
/// are in the same state afterwards.
pub proof fn law_same_answers(
    s: u64,
    requests: Seq<Request>,
    first: Seq<Answer>,
    first_after: u64,
    second: Seq<Answer>,
    second_after: u64,
)
    requires
        answers_all(s, requests, first, first_after),
        answers_all(s, requests, second, second_after),
    ensures
        first == second,
        first_after == second_after,
    decreases requests.len(),
{
    if requests.len() == 0 {
        assert(first =~= second);
    } else {
        let mid1 = choose|mid: u64|
            {
                &&& answers_all(s, requests.drop_last(), first.drop_last(), mid)
                &&& #[trigger] answers(mid, requests.last(), first.last(), first_after)
            };
        let mid2 = choose|mid: u64|
            {
                &&& answers_all(s, requests.drop_last(), second.drop_last(), mid)
                &&& #[trigger] answers(mid, requests.last(), second.last(), second_after)
            };
        law_same_answers(
            s,
            requests.drop_last(),
            first.drop_last(),
            mid1,
            second.drop_last(),
            mid2,
        );
        if let (Request::Order(n), Answer::Places(one), Answer::Places(two)) = (
            requests.last(),
            first.last(),
            second.last(),
        ) {
            law_same_order(
                mid1,
                Seq::new(n, |i: int| i),
                n,
                one,
                first_after,
                two,
                second_after,
            );
        }
        assert(first =~= first.drop_last().push(first.last()));
        assert(second =~= second.drop_last().push(second.last()));
    }
}

/// A generator that is seeded gives the same answers as any other one with the same seed, whether
/// it was made with the seed or was started over with it, and whatever it gave before.
pub proof fn law_same_seed(
    made: Rander,
    started_over: Rander,
    seed: u64,
    requests: Seq<Request>,
    first: Seq<Answer>,
    first_after: u64,
    second: Seq<Answer>,
    second_after: u64,
)
    requires
        made@ == seeded(seed),
        started_over@ == seeded(seed),
        answers_all(made@, requests, first, first_after),
        answers_all(started_over@, requests, second, second_after),
    ensures
        first == second,
        first_after == second_after,
{
    law_same_answers(seeded(seed), requests, first, first_after, second, second_after);
}

proof fn lemma_multiple_at_least(r: int, n: int, x: int)
    requires
        n > 0,
    ensures
        r * n >= x <==> r >= (x + n - 1) / n,
{
    let c: int = (x + n - 1) / n;
    lemma_fundamental_div_mod(x + n - 1, n);
    let d: int = (x + n - 1) % n;
    if r >= c {
        assert(r * n >= n * c) by (nonlinear_arith)
            requires
                r >= c,
                n > 0,
        ;
    } else {
        assert(r * n <= n * c - n) by (nonlinear_arith)
            requires
                r <= c - 1,
                n > 0,
        ;
    }
}

/// That the words that are accepted and scaled to `v` are those from `start` on, as many as `n`
/// goes into the number of words.
pub open spec fn is_run(start: int, n: int, k: nat, v: int) -> bool {
    forall|r: int| #[trigger] scales_to(r, n, k, v) <==> start <= r < start + base(k) / n
}

/// Whether the word `r` is accepted and scaled to `v`.
pub open spec fn scales_to(r: int, n: int, k: nat, v: int) -> bool {
    accepted(r, n, k) && scaled(r, n, k) == v
}

/// The words that are accepted and scaled to a number `v` below `n` are a run of as many words
/// for each `v`: every number is equally likely to be drawn.
pub proof fn law_uniform(n: int, k: nat, v: int)
    requires
        0 < n < base(k),
        0 <= v < n,
    ensures
        exists|start: int| #[trigger] is_run(start, n, k, v),
{
    let b: int = base(k);
    let t: int = (b - n) % n;
    let q: int = b / n;
    let x: int = v * b + t;
    let start: int = (x + n - 1) / n;
    lemma_fundamental_div_mod(b, n);
    vstd::arithmetic::div_mod::lemma_mod_sub_multiples_vanish(b, n);
    assert(b % n == t);
    assert forall|r: int| #[trigger] scales_to(r, n, k, v) <==> start <= r < start + base(k) / n by {
        let p: int = r * n;
        lemma_fundamental_div_mod(p, b);
        lemma_multiple_at_least(r, n, x);
        lemma_multiple_at_least(r - q, n, x);
        assert((r - q) * n == p - n * q) by (nonlinear_arith)
            requires
                p == r * n,
        ;
        assert((v + 1) * b == v * b + b) by (nonlinear_arith);
        assert(b * v == v * b) by (nonlinear_arith);
        if v * b + t <= p < v * b + b {
            lemma_fundamental_div_mod_converse(p, b, v, p - v * b);
        }
    }
    assert(is_run(start, n, k, v));
}

/// A `u8` lies between two bounds exactly if it lies between the least and the greatest number that
/// they allow.
pub proof fn law_bounds_u8(start: Bound<u8>, end: Bound<u8>, x: u8)
    ensures
        (lowest_u8(start) <= x) == (match start {
            Bound::Unbounded => true,
            Bound::Included(least) => least <= x,
            Bound::Excluded(below) => below < x,
        }),
        (x <= highest_u8(end)) == (match end {
            Bound::Unbounded => true,
            Bound::Included(most) => x <= most,
            Bound::Excluded(above) => x < above,
        }),
{
}

/// A `u16` lies between two bounds exactly if it lies between the least and the greatest number that
/// they allow.
pub proof fn law_bounds_u16(start: Bound<u16>, end: Bound<u16>, x: u16)
    ensures
        (lowest_u16(start) <= x) == (match start {
            Bound::Unbounded => true,
            Bound::Included(least) => least <= x,
            Bound::Excluded(below) => below < x,
        }),
        (x <= highest_u16(end)) == (match end {
            Bound::Unbounded => true,
            Bound::Included(most) => x <= most,
            Bound::Excluded(above) => x < above,
        }),
{
}

/// A `u32` lies between two bounds exactly if it lies between the least and the greatest number that
/// they allow.
pub proof fn law_bounds_u32(start: Bound<u32>, end: Bound<u32>, x: u32)
    ensures
        (lowest_u32(start) <= x) == (match start {
            Bound::Unbounded => true,
            Bound::Included(least) => least <= x,
            Bound::Excluded(below) => below < x,
        }),
        (x <= highest_u32(end)) == (match end {
            Bound::Unbounded => true,
            Bound::Included(most) => x <= most,
            Bound::Excluded(above) => x < above,
        }),
{
}

/// A `u64` lies between two bounds exactly if it lies between the least and the greatest number that
/// they allow.
pub proof fn law_bounds_u64(start: Bound<u64>, end: Bound<u64>, x: u64)
    ensures
        (lowest_u64(start) <= x) == (match start {
            Bound::Unbounded => true,
            Bound::Included(least) => least <= x,
            Bound::Excluded(below) => below < x,
        }),
        (x <= highest_u64(end)) == (match end {
            Bound::Unbounded => true,
            Bound::Included(most) => x <= most,
            Bound::Excluded(above) => x < above,
        }),
{
}

/// A `u128` lies between two bounds exactly if it lies between the least and the greatest number that
/// they allow.
pub proof fn law_bounds_u128(start: Bound<u128>, end: Bound<u128>, x: u128)
    ensures
        (lowest_u128(start) <= x) == (match start {
            Bound::Unbounded => true,
            Bound::Included(least) => least <= x,
            Bound::Excluded(below) => below < x,
        }),
        (x <= highest_u128(end)) == (match end {
            Bound::Unbounded => true,
            Bound::Included(most) => x <= most,
            Bound::Excluded(above) => x < above,
        }),
{
}

/// A `usize` lies between two bounds exactly if it lies between the least and the greatest number that
/// they allow.
pub proof fn law_bounds_usize(start: Bound<usize>, end: Bound<usize>, x: usize)
    ensures
        (lowest_usize(start) <= x) == (match start {
            Bound::Unbounded => true,
            Bound::Included(least) => least <= x,
            Bound::Excluded(below) => below < x,
        }),
        (x <= highest_usize(end)) == (match end {
            Bound::Unbounded => true,
            Bound::Included(most) => x <= most,
            Bound::Excluded(above) => x < above,
        }),
{
}

/// An `i8` lies between two bounds exactly if it lies between the least and the greatest number that
/// they allow.
pub proof fn law_bounds_i8(start: Bound<i8>, end: Bound<i8>, x: i8)
    ensures
        (lowest_i8(start) <= x) == (match start {
            Bound::Unbounded => true,
            Bound::Included(least) => least <= x,
            Bound::Excluded(below) => below < x,
        }),
        (x <= highest_i8(end)) == (match end {
            Bound::Unbounded => true,
            Bound::Included(most) => x <= most,
            Bound::Excluded(above) => x < above,
        }),
{
}

/// An `i16` lies between two bounds exactly if it lies between the least and the greatest number that
/// they allow.
pub proof fn law_bounds_i16(start: Bound<i16>, end: Bound<i16>, x: i16)
    ensures
        (lowest_i16(start) <= x) == (match start {
            Bound::Unbounded => true,
            Bound::Included(least) => least <= x,
            Bound::Excluded(below) => below < x,
        }),
        (x <= highest_i16(end)) == (match end {
            Bound::Unbounded => true,
            Bound::Included(most) => x <= most,
            Bound::Excluded(above) => x < above,
        }),
{
}

/// An `i32` lies between two bounds exactly if it lies between the least and the greatest number that
/// they allow.
pub proof fn law_bounds_i32(start: Bound<i32>, end: Bound<i32>, x: i32)
    ensures
        (lowest_i32(start) <= x) == (match start {
            Bound::Unbounded => true,
            Bound::Included(least) => least <= x,
            Bound::Excluded(below) => below < x,
        }),
        (x <= highest_i32(end)) == (match end {
            Bound::Unbounded => true,
            Bound::Included(most) => x <= most,
            Bound::Excluded(above) => x < above,
        }),
{
}

/// An `i64` lies between two bounds exactly if it lies between the least and the greatest number that
/// they allow.
pub proof fn law_bounds_i64(start: Bound<i64>, end: Bound<i64>, x: i64)
    ensures
        (lowest_i64(start) <= x) == (match start {
            Bound::Unbounded => true,
            Bound::Included(least) => least <= x,
            Bound::Excluded(below) => below < x,
        }),
        (x <= highest_i64(end)) == (match end {
            Bound::Unbounded => true,
            Bound::Included(most) => x <= most,
            Bound::Excluded(above) => x < above,
        }),
{
}

/// An `i128` lies between two bounds exactly if it lies between the least and the greatest number that
/// they allow.
pub proof fn law_bounds_i128(start: Bound<i128>, end: Bound<i128>, x: i128)
    ensures
        (lowest_i128(start) <= x) == (match start {
            Bound::Unbounded => true,
            Bound::Included(least) => least <= x,
            Bound::Excluded(below) => below < x,
        }),
        (x <= highest_i128(end)) == (match end {
            Bound::Unbounded => true,
            Bound::Included(most) => x <= most,
            Bound::Excluded(above) => x < above,
        }),
{
}

/// An `isize` lies between two bounds exactly if it lies between the least and the greatest number that
/// they allow.
pub proof fn law_bounds_isize(start: Bound<isize>, end: Bound<isize>, x: isize)
    ensures
        (lowest_isize(start) <= x) == (match start {
            Bound::Unbounded => true,
            Bound::Included(least) => least <= x,
            Bound::Excluded(below) => below < x,
        }),
        (x <= highest_isize(end)) == (match end {
            Bound::Unbounded => true,
            Bound::Included(most) => x <= most,
            Bound::Excluded(above) => x < above,
        }),
{
}

/// There are fifty-two letters: one for each capital and each small letter from the first to the
/// last.
pub proof fn law_letters(i: int, j: int)
    requires
        0 <= i < 52,
        0 <= j < 52,
    ensures
        'A' as int <= letter(i) <= 'Z' as int || 'a' as int <= letter(i) <= 'z' as int,
        letter(i) == letter(j) ==> i == j,
        i < j ==> letter(i) < letter(j),
{
}

/// The digits of a number system stand for their values: first those of the decimal system, and then
/// the small letters.
pub proof fn law_numerals(i: int, j: int)
    requires
        0 <= i < 36,
        0 <= j < 36,
    ensures
        '0' as int <= numeral(i) <= '9' as int || 'a' as int <= numeral(i) <= 'z' as int,
        i < 10 ==> numeral(i) - '0' as int == i,
        i >= 10 ==> numeral(i) - 'a' as int + 10 == i,
        i < j ==> numeral(i) < numeral(j),
{
}

/// A number that is drawn below `n` is below `n`, however many words had to be refused.
pub proof fn law_drawn_below(s: u64, n: int, k: nat, tries: nat)
    requires
        k == 1 || k == 2 || k == 4,
        n > 0,
    ensures
        0 <= draw(s, n, k, tries).0 < n,
    decreases tries,
{
    lemma_word(s, k);
    lemma_scaled(word(s, k), n, k);
    if tries > 1 && !accepted(word(s, k), n, k) {
        law_drawn_below(steps(s, k), n, k, (tries - 1) as nat);
    }
}

/// Items that are brought into a random order are the same items, each as often as before.
pub proof fn law_items_kept<T>(s: u64, after: u64, before: Seq<T>, now: Seq<T>, n: nat)
    requires
        n <= before.len() <= usize::MAX,
        shuffled(s, after, before, now, n),
    ensures
        now.len() == before.len(),
        now.to_multiset() == before.to_multiset(),
        forall|i: int| n <= i < before.len() ==> now[i] == before[i],
    decreases n,
{
    if n > 1 {
        let (mid, prev, j) = choose|mid: u64, prev: Seq<T>, j: int|
            {
                &&& shuffled(s, mid, before, prev, (n - 1) as nat)
                &&& #[trigger] picked(mid, after, 0, n - 1, pointer_words(), j)
                &&& now == #[trigger] exchanged(prev, n - 1, j)
            };
        law_items_kept(s, mid, before, prev, (n - 1) as nat);
        lemma_multiset_exchanged(prev, n - 1, j);
    }
}

} // verus!
