//! `CGGeometry.h`: numbers, points and rectangles.
//!
//! A `CGFloat` is carried as the 32 bits of its IEEE 754 encoding. Comparing
//! two of them and converting an integer to one are done on those bits; sums
//! and products are left to whoever draws.
use vstd::arithmetic::power2::{lemma_pow2_adds, lemma_pow2_pos, lemma2_to64, pow2};
use vstd::prelude::*;

verus! {

/// The bits of a single-precision number.
pub type CGFloat = u32;

pub const ZERO: CGFloat = 0;

/// One.
pub const ONE: CGFloat = 0x3f80_0000;

/// A third, rounded to the nearest number.
pub const ONE_THIRD: CGFloat = 0x3eaa_aaab;

#[derive(Clone, Copy, Debug, PartialEq, Eq, Structural)]
pub struct CGPoint {
    pub x: CGFloat,
    pub y: CGFloat,
}

#[derive(Clone, Copy, Debug, PartialEq, Eq, Structural)]
pub struct CGSize {
    pub width: CGFloat,
    pub height: CGFloat,
}

#[derive(Clone, Copy, Debug, PartialEq, Eq, Structural)]
pub struct CGRect {
    pub origin: CGPoint,
    pub size: CGSize,
}

#[derive(Clone, Copy, Debug, PartialEq, Eq, Structural)]
pub struct CGAffineTransform {
    pub a: CGFloat,
    pub b: CGFloat,
    pub c: CGFloat,
    pub d: CGFloat,
    pub tx: CGFloat,
    pub ty: CGFloat,
}

/// The transform that changes nothing.
pub open spec fn identity_transform() -> CGAffineTransform {
    CGAffineTransform { a: ONE, b: ZERO, c: ZERO, d: ONE, tx: ZERO, ty: ZERO }
}

pub fn make_identity() -> (r: CGAffineTransform)
    ensures
        r == identity_transform(),
{
    CGAffineTransform { a: ONE, b: ZERO, c: ZERO, d: ONE, tx: ZERO, ty: ZERO }
}

/// The bits are not those of a number.
pub open spec fn is_nan(f: CGFloat) -> bool {
    f as int % 0x8000_0000 > 0x7f80_0000
}

/// A number that grows as the encoded one does. The two zeros share it.
pub open spec fn float_rank(f: CGFloat) -> int {
    if f < 0x8000_0000 {
        f as int
    } else {
        0x8000_0000 - f
    }
}

/// `a < b`, which is false of what is not a number.
pub open spec fn float_lt(a: CGFloat, b: CGFloat) -> bool {
    !is_nan(a) && !is_nan(b) && float_rank(a) < float_rank(b)
}

/// `a == b`, which is false of what is not a number.
pub open spec fn float_eq(a: CGFloat, b: CGFloat) -> bool {
    !is_nan(a) && !is_nan(b) && float_rank(a) == float_rank(b)
}

pub open spec fn size_eq(a: CGSize, b: CGSize) -> bool {
    float_eq(a.width, b.width) && float_eq(a.height, b.height)
}

/// `f` brought between zero and one; what is not a number stays as it is.
pub open spec fn clamp_unit(f: CGFloat) -> CGFloat {
    if float_lt(f, ZERO) {
        ZERO
    } else if float_lt(ONE, f) {
        ONE
    } else {
        f
    }
}

fn rank(f: CGFloat) -> (r: i64)
    ensures
        r == float_rank(f),
{
    if f < 0x8000_0000 {
        f as i64
    } else {
        0x8000_0000i64 - f as i64
    }
}

fn nan(f: CGFloat) -> (r: bool)
    ensures
        r == is_nan(f),
{
    f % 0x8000_0000 > 0x7f80_0000
}

pub fn less(a: CGFloat, b: CGFloat) -> (r: bool)
    ensures
        r == float_lt(a, b),
{
    !nan(a) && !nan(b) && rank(a) < rank(b)
}

pub fn equal(a: CGFloat, b: CGFloat) -> (r: bool)
    ensures
        r == float_eq(a, b),
{
    !nan(a) && !nan(b) && rank(a) == rank(b)
}

pub fn equal_size(a: CGSize, b: CGSize) -> (r: bool)
    ensures
        r == size_eq(a, b),
{
    equal(a.width, b.width) && equal(a.height, b.height)
}

pub fn clamped(f: CGFloat) -> (r: CGFloat)
    ensures
        r == clamp_unit(f),
{
    if less(f, ZERO) {
        ZERO
    } else if less(ONE, f) {
        ONE
    } else {
        f
    }
}

/// Where the highest bit of `n` stands.
pub open spec fn top_bit(n: int) -> nat
    decreases n,
{
    if n <= 1 {
        0
    } else {
        1 + top_bit(n / 2)
    }
}

/// The 24 leading bits of `n`, whose highest bit is bit `e`: what is cut off
/// is rounded to the nearest, and from the middle to the even.
pub open spec fn leading_bits(n: int, e: nat) -> int {
    if e <= 23 {
        n * pow2((23 - e) as nat)
    } else {
        let d = pow2((e - 23) as nat) as int;
        let q = n / d;
        let r = n % d;
        if 2 * r > d || (2 * r == d && q % 2 == 1) {
            q + 1
        } else {
            q
        }
    }
}

/// The number nearest to the integer `n`.
pub open spec fn float_of(n: int) -> int {
    if n == 0 {
        0
    } else {
        (126 + top_bit(n)) * 0x80_0000 + leading_bits(n, top_bit(n))
    }
}

proof fn lemma_top_bit(n: int)
    requires
        n >= 1,
    ensures
        pow2(top_bit(n)) <= n < pow2(top_bit(n) + 1),
    decreases n,
{
    lemma2_to64();
    if n > 1 {
        lemma_top_bit(n / 2);
        let e = top_bit(n / 2);
        lemma_pow2_adds(1, e);
        lemma_pow2_adds(1, e + 1);
        assert(pow2(e + 1) == 2 * pow2(e));
        assert(pow2(e + 2) == 2 * pow2(e + 1));
    }
}

/// Two to the power of `k`.
fn power(k: u32) -> (r: u64)
    requires
        k <= 31,
    ensures
        r == pow2(k as nat),
        r <= 0x8000_0000,
{
    let mut p: u64 = 1;
    let mut i: u32 = 0;
    proof {
        lemma2_to64();
    }
    while i < k
        invariant
            i <= k <= 31,
            p == pow2(i as nat),
            p <= 0x8000_0000,
        decreases k - i,
    {
        proof {
            lemma2_to64();
            lemma_pow2_adds(1, i as nat);
            lemma_pow2_adds((i + 1) as nat, (31 - i - 1) as nat);
            lemma_pow2_pos((31 - i - 1) as nat);
            let a = pow2((i + 1) as nat) as int;
            let b = pow2((31 - i - 1) as nat) as int;
            assert(a <= a * b) by (nonlinear_arith)
                requires
                    a >= 0,
                    b >= 1,
            ;
        }
        p = p * 2;
        i = i + 1;
    }
    p
}

/// Converts an integer.
pub fn float_of_u32(n: u32) -> (r: CGFloat)
    ensures
        r == float_of(n as int),
{
    if n == 0 {
        return 0;
    }
    let mut e: u32 = 0;
    let mut m: u32 = n;
    while m > 1
        invariant
            1 <= m,
            n >= 1,
            e + top_bit(m as int) == top_bit(n as int),
            e + m <= n,
        decreases m,
    {
        m = m / 2;
        e = e + 1;
    }
    proof {
        lemma_top_bit(n as int);
        lemma2_to64();
        if e >= 32 {
            lemma_pow2_adds(32, (e - 32) as nat);
            lemma_pow2_pos((e - 32) as nat);
            let b = pow2((e - 32) as nat) as int;
            assert(0x1_0000_0000 <= 0x1_0000_0000 * b) by (nonlinear_arith)
                requires
                    b >= 1,
            ;
        }
    }
    let base: u64 = (126 + e as u64) * 0x80_0000;
    if e <= 23 {
        let d: u64 = power(23 - e);
        proof {
            lemma_pow2_adds((e + 1) as nat, (23 - e) as nat);
            let a = pow2((e + 1) as nat) as int;
            assert(n * d < a * d) by (nonlinear_arith)
                requires
                    n < a,
                    d >= 1,
            ;
        }
        (base + n as u64 * d) as u32
    } else {
        let d: u64 = power(e - 23);
        proof {
            lemma_pow2_adds(24, (e - 23) as nat);
            lemma_pow2_pos((e - 23) as nat);
            vstd::arithmetic::div_mod::lemma_fundamental_div_mod(n as int, d as int);
            let q = n as int / d as int;
            let rest = n as int % d as int;
            assert(q < 0x100_0000) by (nonlinear_arith)
                requires
                    n == d * q + rest,
                    0 <= rest < d,
                    n < 0x100_0000 * d,
            ;
        }
        let q: u64 = n as u64 / d;
        let rest: u64 = n as u64 % d;
        if 2 * rest > d || (2 * rest == d && q % 2 == 1) {
            (base + q + 1) as u32
        } else {
            (base + q) as u32
        }
    }
}

} // verus!
