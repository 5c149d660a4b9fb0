//! Division, as `div` and the compiler's run-time support do it: towards zero,
//! and wrapping where the quotient does not fit.
use vstd::prelude::*;

use crate::environment::Environment;
use crate::mem::{le_bytes, to_signed32, to_signed64, unsigned32, MutPtr};

verus! {

/// The absolute value.
pub open spec fn magnitude(a: int) -> int {
    if a < 0 {
        -a
    } else {
        a
    }
}

/// The quotient, rounded towards zero.
pub open spec fn quotient(a: int, b: int) -> int {
    let q = magnitude(a) / magnitude(b);
    if (a < 0) == (b < 0) {
        q
    } else {
        -q
    }
}

/// What is left, with the sign of `a`.
pub open spec fn remainder(a: int, b: int) -> int {
    let r = magnitude(a) % magnitude(b);
    if a < 0 {
        -r
    } else {
        r
    }
}

/// The two's complement 32-bit value of a quotient.
pub open spec fn wrapped32(q: int) -> int {
    if q > i32::MAX {
        q - 0x1_0000_0000
    } else {
        q
    }
}

/// The two's complement 64-bit value of a quotient.
pub open spec fn wrapped64(q: int) -> int {
    if q > i64::MAX {
        q - 0x1_0000_0000_0000_0000
    } else {
        q
    }
}

/// Quotient and remainder make up what was divided, and the remainder is
/// smaller than the divisor and has the sign of what was divided.
pub proof fn law_division(a: int, b: int)
    requires
        b != 0,
    ensures
        a == quotient(a, b) * b + remainder(a, b),
        magnitude(remainder(a, b)) < magnitude(b),
        remainder(a, b) == 0 || (remainder(a, b) < 0) == (a < 0),
{
    let m = magnitude(a);
    let n = magnitude(b);
    let q = m / n;
    let r = m % n;
    vstd::arithmetic::div_mod::lemma_fundamental_div_mod(m, n);
    vstd::arithmetic::div_mod::lemma_mod_bound(m, n);
    assert(m == n * q + r);
    assert((-q) * (-n) == q * n) by (nonlinear_arith);
    assert((-q) * n == -(q * n)) by (nonlinear_arith);
    assert(q * (-n) == -(q * n)) by (nonlinear_arith);
    assert(n * q == q * n) by (nonlinear_arith);
}

proof fn lemma_quotient_bounds(m: int, n: int)
    requires
        0 <= m,
        0 < n,
    ensures
        0 <= m / n <= m,
        0 <= m % n < n,
        m % n <= m,
{
    vstd::arithmetic::div_mod::lemma_fundamental_div_mod(m, n);
    vstd::arithmetic::div_mod::lemma_mod_bound(m, n);
    vstd::arithmetic::div_mod::lemma_div_is_ordered_by_denominator(m, 1, n);
    vstd::arithmetic::div_mod::lemma_div_pos_is_pos(m, n);
    assert(n * (m / n) >= 0) by (nonlinear_arith)
        requires
            n > 0,
            m / n >= 0,
    ;
}

fn div_i32(a: i32, b: i32) -> (r: i32)
    requires
        b != 0,
    ensures
        r == wrapped32(quotient(a as int, b as int)),
{
    let m: i64 = if a < 0 {
        -(a as i64)
    } else {
        a as i64
    };
    let n: i64 = if b < 0 {
        -(b as i64)
    } else {
        b as i64
    };
    let q: u64 = m as u64 / n as u64;
    proof {
        lemma_quotient_bounds(m as int, n as int);
    }
    if (a < 0) == (b < 0) {
        to_signed32(q as u32)
    } else {
        (-(q as i64)) as i32
    }
}

fn rem_i32(a: i32, b: i32) -> (r: i32)
    requires
        b != 0,
    ensures
        r == remainder(a as int, b as int),
{
    let m: i64 = if a < 0 {
        -(a as i64)
    } else {
        a as i64
    };
    let n: i64 = if b < 0 {
        -(b as i64)
    } else {
        b as i64
    };
    let rest: u64 = m as u64 % n as u64;
    proof {
        lemma_quotient_bounds(m as int, n as int);
    }
    if a < 0 {
        (-(rest as i64)) as i32
    } else {
        rest as i32
    }
}

fn div_i64(a: i64, b: i64) -> (r: i64)
    requires
        b != 0,
    ensures
        r == wrapped64(quotient(a as int, b as int)),
{
    let m: i128 = if a < 0 {
        -(a as i128)
    } else {
        a as i128
    };
    let n: i128 = if b < 0 {
        -(b as i128)
    } else {
        b as i128
    };
    let q: u128 = m as u128 / n as u128;
    proof {
        lemma_quotient_bounds(m as int, n as int);
    }
    if (a < 0) == (b < 0) {
        to_signed64(q as u64)
    } else {
        (-(q as i128)) as i64
    }
}

fn rem_i64(a: i64, b: i64) -> (r: i64)
    requires
        b != 0,
    ensures
        r == remainder(a as int, b as int),
{
    let m: i128 = if a < 0 {
        -(a as i128)
    } else {
        a as i128
    };
    let n: i128 = if b < 0 {
        -(b as i128)
    } else {
        b as i128
    };
    let rest: u128 = m as u128 % n as u128;
    proof {
        lemma_quotient_bounds(m as int, n as int);
    }
    if a < 0 {
        (-(rest as i128)) as i64
    } else {
        rest as i64
    }
}

#[derive(Clone, Copy, Debug, PartialEq, Eq, Structural)]
pub struct div_t {
    pub quot: i32,
    pub rem: i32,
}

/// `ldiv_t`, the return type of `ldiv`. On the guest `long` is 32 bits, so the
/// layout matches `div_t`.
#[derive(Clone, Copy, Debug, PartialEq, Eq, Structural)]
pub struct ldiv_t {
    pub quot: i32,
    pub rem: i32,
}

/// `div_t div(int numer, int denom);`
pub fn div(env: &mut Environment, numer: i32, denom: i32) -> (r: div_t)
    requires
        denom != 0,
    ensures
        *final(env) == *old(env),
        r.quot == wrapped32(quotient(numer as int, denom as int)),
        r.rem == remainder(numer as int, denom as int),
{
    div_t { quot: div_i32(numer, denom), rem: rem_i32(numer, denom) }
}

/// `ldiv_t ldiv(long numer, long denom)`: both the quotient and remainder of
/// dividing `numer` by `denom`. Behaviour is identical to `div`.
pub fn ldiv(env: &mut Environment, numer: i32, denom: i32) -> (r: ldiv_t)
    requires
        denom != 0,
    ensures
        *final(env) == *old(env),
        r.quot == wrapped32(quotient(numer as int, denom as int)),
        r.rem == remainder(numer as int, denom as int),
{
    ldiv_t { quot: div_i32(numer, denom), rem: rem_i32(numer, denom) }
}

/// A division by zero gives zero.
pub open spec fn or_zero(b: int, value: int) -> int {
    if b == 0 {
        0
    } else {
        value
    }
}

pub fn __umodsi3(env: &mut Environment, a: u32, b: u32) -> (r: u32)
    ensures
        *final(env) == *old(env),
        r == or_zero(b as int, a as int % b as int),
{
    if b == 0 {
        0
    } else {
        a % b
    }
}

pub fn __udivsi3(env: &mut Environment, a: u32, b: u32) -> (r: u32)
    ensures
        *final(env) == *old(env),
        r == or_zero(b as int, a as int / b as int),
{
    if b == 0 {
        0
    } else {
        a / b
    }
}

/// A remainder was stored, where there is a place for it.
pub open spec fn remainder_stored(
    before: Environment,
    after: Environment,
    ptr: int,
    value: int,
) -> bool {
    if ptr == 0 {
        after == before
    } else {
        &&& after == before.with_mem(after.mem)
        &&& after.mem.stored(before.mem, ptr, le_bytes(value, 4))
    }
}

pub fn __udivmodsi4(env: &mut Environment, a: u32, b: u32, rem: MutPtr) -> (r: u32)
    requires
        old(env).wf(),
        rem != 0 ==> old(env).mem.valid(rem as int, 4),
    ensures
        final(env).wf(),
        r == or_zero(b as int, a as int / b as int),
        remainder_stored(
            *old(env),
            *final(env),
            rem as int,
            or_zero(b as int, a as int % b as int),
        ),
{
    let (quot, rest): (u32, u32) = if b == 0 {
        (0, 0)
    } else {
        (a / b, a % b)
    };
    if rem != 0 {
        env.mem.write_u32(rem, rest);
    }
    quot
}

pub fn __divmodsi4(env: &mut Environment, a: i32, b: i32, rem: MutPtr) -> (r: i32)
    requires
        old(env).wf(),
        rem != 0 ==> old(env).mem.valid(rem as int, 4),
    ensures
        final(env).wf(),
        r == or_zero(b as int, wrapped32(quotient(a as int, b as int))),
        remainder_stored(
            *old(env),
            *final(env),
            rem as int,
            unsigned32(or_zero(b as int, remainder(a as int, b as int))),
        ),
{
    let (quot, rest): (i32, i32) = if b == 0 {
        (0, 0)
    } else {
        (div_i32(a, b), rem_i32(a, b))
    };
    if rem != 0 {
        env.mem.write_i32(rem, rest);
    }
    quot
}

pub fn __modsi3(env: &mut Environment, a: i32, b: i32) -> (r: i32)
    ensures
        *final(env) == *old(env),
        r == or_zero(b as int, remainder(a as int, b as int)),
{
    if b == 0 {
        0
    } else {
        rem_i32(a, b)
    }
}

pub fn __divsi3(env: &mut Environment, a: i32, b: i32) -> (r: i32)
    ensures
        *final(env) == *old(env),
        r == or_zero(b as int, wrapped32(quotient(a as int, b as int))),
{
    if b == 0 {
        0
    } else {
        div_i32(a, b)
    }
}

pub fn __muldi3(env: &mut Environment, a: u64, b: u64) -> (r: u64)
    ensures
        *final(env) == *old(env),
        r == (a * b) % 0x1_0000_0000_0000_0000,
{
    assert(0 <= a * b <= 0xffff_ffff_ffff_ffff * 0xffff_ffff_ffff_ffff) by (nonlinear_arith)
        requires
            0 <= a <= 0xffff_ffff_ffff_ffff,
            0 <= b <= 0xffff_ffff_ffff_ffff,
    ;
    ((a as u128 * b as u128) % 0x1_0000_0000_0000_0000) as u64
}

pub fn __divdi3(env: &mut Environment, a: i64, b: i64) -> (r: i64)
    ensures
        *final(env) == *old(env),
        r == or_zero(b as int, wrapped64(quotient(a as int, b as int))),
{
    if b == 0 {
        0
    } else {
        div_i64(a, b)
    }
}

pub fn __udivdi3(env: &mut Environment, a: u64, b: u64) -> (r: u64)
    ensures
        *final(env) == *old(env),
        r == or_zero(b as int, a as int / b as int),
{
    if b == 0 {
        0
    } else {
        a / b
    }
}

pub fn __moddi3(env: &mut Environment, a: i64, b: i64) -> (r: i64)
    ensures
        *final(env) == *old(env),
        r == or_zero(b as int, remainder(a as int, b as int)),
{
    if b == 0 {
        0
    } else {
        rem_i64(a, b)
    }
}

pub fn __umoddi3(env: &mut Environment, a: u64, b: u64) -> (r: u64)
    ensures
        *final(env) == *old(env),
        r == or_zero(b as int, a as int % b as int),
{
    if b == 0 {
        0
    } else {
        a % b
    }
}

} // verus!
