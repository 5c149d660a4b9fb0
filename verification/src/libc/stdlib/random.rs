//! Pseudo-random numbers: `rand`, `random`, `arc4random` and the `drand48`
//! family.
use vstd::prelude::*;

use crate::environment::Environment;
use crate::libc;
use crate::libc::errno::set_errno;
use crate::mem::{
    le_bytes, le_u16, lemma_le_bytes_2, overlay, signed32, to_signed32, to_unsigned32, unsigned32,
    ConstPtr, Mem, MutPtr,
};

verus! {

pub const RAND_MAX: i32 = i32::MAX;

/// One step of the 32-bit generator behind `rand`, `random` and `arc4random`:
/// shift left, shift right, shift left, each time mixed into the state. The
/// state zero, which would stay zero, counts as one.
pub open spec fn next_random(state: u32) -> u32 {
    let s = if state == 0 {
        1
    } else {
        state
    };
    let a = s ^ (s << 13u32);
    let b = a ^ (a >> 17u32);
    b ^ (b << 5u32)
}

/// The state after `n` steps.
pub open spec fn random_after(state: u32, n: nat) -> u32
    decreases n,
{
    if n == 0 {
        state
    } else {
        next_random(random_after(state, (n - 1) as nat))
    }
}

/// A step never leads to zero.
pub proof fn law_random_not_zero(state: u32)
    ensures
        next_random(state) != 0,
{
    let s = if state == 0 {
        1u32
    } else {
        state
    };
    let a = s ^ (s << 13u32);
    let b = a ^ (a >> 17u32);
    assert(a != 0) by (bit_vector)
        requires
            s != 0u32,
            a == s ^ (s << 13u32),
    ;
    assert(b != 0) by (bit_vector)
        requires
            a != 0u32,
            b == a ^ (a >> 17u32),
    ;
    assert(b ^ (b << 5u32) != 0) by (bit_vector)
        requires
            b != 0u32,
    ;
}

/// A step takes no two states but zero and one to the same state.
pub proof fn law_random_injective(s: u32, t: u32)
    requires
        s != 0,
        t != 0,
        next_random(s) == next_random(t),
    ensures
        s == t,
{
    let a = s ^ (s << 13u32);
    let b = a ^ (a >> 17u32);
    let c = t ^ (t << 13u32);
    let d = c ^ (c >> 17u32);
    assert(b == d) by (bit_vector)
        requires
            b ^ (b << 5u32) == d ^ (d << 5u32),
    ;
    assert(a == c) by (bit_vector)
        requires
            a ^ (a >> 17u32) == c ^ (c >> 17u32),
    ;
    assert(s == t) by (bit_vector)
        requires
            s ^ (s << 13u32) == t ^ (t << 13u32),
    ;
}

pub fn prng(state: u32) -> (r: u32)
    ensures
        r == next_random(state),
{
    let s: u32 = if state == 0 {
        1
    } else {
        state
    };
    let a: u32 = s ^ (s << 13u32);
    let b: u32 = a ^ (a >> 17u32);
    b ^ (b << 5u32)
}

/// The low 31 bits of a state.
pub open spec fn low_31(state: u32) -> int {
    (state % 0x8000_0000) as int
}

/// `void srand(unsigned seed);`
pub fn srand(env: &mut Environment, seed: u32)
    ensures
        *final(env) == old(env).with_stdlib(
            (libc::stdlib::State { rand: seed, ..old(env).libc_state.stdlib }),
        ),
{
    env.libc_state.stdlib.rand = seed;
}

/// `int rand(void);`
pub fn rand(env: &mut Environment) -> (r: i32)
    ensures
        *final(env) == old(env).with_stdlib(
            (libc::stdlib::State {
                rand: next_random(old(env).libc_state.stdlib.rand),
                ..old(env).libc_state.stdlib
            }),
        ),
        r == low_31(next_random(old(env).libc_state.stdlib.rand)),
        0 <= r <= RAND_MAX,
{
    let next: u32 = prng(env.libc_state.stdlib.rand);
    env.libc_state.stdlib.rand = next;
    (next % 0x8000_0000) as i32
}

/// `void srandom(unsigned seed);`
pub fn srandom(env: &mut Environment, seed: u32)
    ensures
        *final(env) == old(env).with_errno(0).with_stdlib(
            (libc::stdlib::State { random: seed, ..old(env).libc_state.stdlib }),
        ),
{
    set_errno(env, 0);
    env.libc_state.stdlib.random = seed;
}

/// `long random(void);`
pub fn random(env: &mut Environment) -> (r: i32)
    ensures
        *final(env) == old(env).with_errno(0).with_stdlib(
            (libc::stdlib::State {
                random: next_random(old(env).libc_state.stdlib.random),
                ..old(env).libc_state.stdlib
            }),
        ),
        r == low_31(next_random(old(env).libc_state.stdlib.random)),
        0 <= r <= RAND_MAX,
{
    set_errno(env, 0);
    let next: u32 = prng(env.libc_state.stdlib.random);
    env.libc_state.stdlib.random = next;
    (next % 0x8000_0000) as i32
}

/// The environment after `arc4random` took `n` steps.
pub open spec fn arc4_after(env: Environment, n: nat) -> Environment {
    env.with_stdlib(
        libc::stdlib::State {
            arc4random: random_after(env.libc_state.stdlib.arc4random, n),
            ..env.libc_state.stdlib
        },
    )
}

/// `u_int32_t arc4random(void);`
pub fn arc4random(env: &mut Environment) -> (r: u32)
    ensures
        *final(env) == arc4_after(*old(env), 1),
        r == next_random(old(env).libc_state.stdlib.arc4random),
{
    let next: u32 = prng(env.libc_state.stdlib.arc4random);
    env.libc_state.stdlib.arc4random = next;
    proof {
        reveal_with_fuel(random_after, 2);
    }
    next
}

/// `void arc4random_stir(void);`: takes a step like `arc4random`.
pub fn arc4random_stir(env: &mut Environment) -> (r: u32)
    ensures
        *final(env) == arc4_after(*old(env), 1),
        r == next_random(old(env).libc_state.stdlib.arc4random),
{
    arc4random(env)
}

/// `void arc4random_addrandom(...);`: takes a step like `arc4random`.
pub fn arc4random_addrandom(env: &mut Environment) -> (r: u32)
    ensures
        *final(env) == arc4_after(*old(env), 1),
        r == next_random(old(env).libc_state.stdlib.arc4random),
{
    arc4random(env)
}

/// `void sranddev(void);`: seeds `rand` with a value of `arc4random`.
pub fn sranddev(env: &mut Environment)
    ensures
        ({
            let seed = next_random(old(env).libc_state.stdlib.arc4random);
            *final(env) == old(env).with_stdlib(
                (libc::stdlib::State {
                    arc4random: seed,
                    rand: seed,
                    ..old(env).libc_state.stdlib
                }),
            )
        }),
{
    let seed: u32 = arc4random(env);
    env.libc_state.stdlib.rand = seed;
    proof {
        reveal_with_fuel(random_after, 2);
    }
}

/// The largest multiple of `bound` that is not above the largest `u32`.
pub open spec fn uniform_limit(bound: u32) -> u32 {
    (u32::MAX - u32::MAX % bound) as u32
}

/// The first of the states that follow `state`, from the `n`th on, that is
/// below the limit for `bound`.
pub open spec fn first_below(state: u32, bound: u32, n: nat, fuel: nat) -> nat
    decreases fuel,
{
    if fuel == 0 || random_after(state, n) < uniform_limit(bound) {
        n
    } else {
        first_below(state, bound, n + 1, (fuel - 1) as nat)
    }
}

/// How many steps `arc4random_uniform` takes: up to the first state below the
/// limit, which comes within 33.
pub open spec fn uniform_steps(state: u32, bound: u32) -> nat {
    first_below(state, bound, 1, 33)
}

/// The first half of a step.
pub open spec fn half_step(s: u32) -> u32 {
    s ^ (s << 13u32)
}

/// The first two thirds of a step.
pub open spec fn most_step(s: u32) -> u32 {
    half_step(s) ^ (half_step(s) >> 17u32)
}

/// Of 33 states in a row, one has its top bit clear.
proof fn lemma_top_bit(state: u32, n: nat)
    requires
        n > 0,
    ensures
        exists|i: nat| i <= 32 && #[trigger] random_after(state, n + i) < 0x8000_0000,
{
    assert forall|i: nat| #[trigger] random_after(state, n + i) != 0 by {
        law_random_not_zero(random_after(state, (n + i - 1) as nat));
    }
    let s0 = random_after(state, n + 0);
    let s1 = random_after(state, n + 1);
    let s2 = random_after(state, n + 2);
    let s3 = random_after(state, n + 3);
    let s4 = random_after(state, n + 4);
    let s5 = random_after(state, n + 5);
    let s6 = random_after(state, n + 6);
    let s7 = random_after(state, n + 7);
    let s8 = random_after(state, n + 8);
    let s9 = random_after(state, n + 9);
    let s10 = random_after(state, n + 10);
    let s11 = random_after(state, n + 11);
    let s12 = random_after(state, n + 12);
    let s13 = random_after(state, n + 13);
    let s14 = random_after(state, n + 14);
    let s15 = random_after(state, n + 15);
    let s16 = random_after(state, n + 16);
    let s17 = random_after(state, n + 17);
    let s18 = random_after(state, n + 18);
    let s19 = random_after(state, n + 19);
    let s20 = random_after(state, n + 20);
    let s21 = random_after(state, n + 21);
    let s22 = random_after(state, n + 22);
    let s23 = random_after(state, n + 23);
    let s24 = random_after(state, n + 24);
    let s25 = random_after(state, n + 25);
    let s26 = random_after(state, n + 26);
    let s27 = random_after(state, n + 27);
    let s28 = random_after(state, n + 28);
    let s29 = random_after(state, n + 29);
    let s30 = random_after(state, n + 30);
    let s31 = random_after(state, n + 31);
    let s32 = random_after(state, n + 32);
    assert(s1 == next_random(s0) && s0 != 0);
    assert(s2 == next_random(s1) && s1 != 0);
    assert(s3 == next_random(s2) && s2 != 0);
    assert(s4 == next_random(s3) && s3 != 0);
    assert(s5 == next_random(s4) && s4 != 0);
    assert(s6 == next_random(s5) && s5 != 0);
    assert(s7 == next_random(s6) && s6 != 0);
    assert(s8 == next_random(s7) && s7 != 0);
    assert(s9 == next_random(s8) && s8 != 0);
    assert(s10 == next_random(s9) && s9 != 0);
    assert(s11 == next_random(s10) && s10 != 0);
    assert(s12 == next_random(s11) && s11 != 0);
    assert(s13 == next_random(s12) && s12 != 0);
    assert(s14 == next_random(s13) && s13 != 0);
    assert(s15 == next_random(s14) && s14 != 0);
    assert(s16 == next_random(s15) && s15 != 0);
    assert(s17 == next_random(s16) && s16 != 0);
    assert(s18 == next_random(s17) && s17 != 0);
    assert(s19 == next_random(s18) && s18 != 0);
    assert(s20 == next_random(s19) && s19 != 0);
    assert(s21 == next_random(s20) && s20 != 0);
    assert(s22 == next_random(s21) && s21 != 0);
    assert(s23 == next_random(s22) && s22 != 0);
    assert(s24 == next_random(s23) && s23 != 0);
    assert(s25 == next_random(s24) && s24 != 0);
    assert(s26 == next_random(s25) && s25 != 0);
    assert(s27 == next_random(s26) && s26 != 0);
    assert(s28 == next_random(s27) && s27 != 0);
    assert(s29 == next_random(s28) && s28 != 0);
    assert(s30 == next_random(s29) && s29 != 0);
    assert(s31 == next_random(s30) && s30 != 0);
    assert(s32 == next_random(s31) && s31 != 0);
    let a1 = half_step(s0);
    let b1 = most_step(s0);
    let a2 = half_step(s1);
    let b2 = most_step(s1);
    let a3 = half_step(s2);
    let b3 = most_step(s2);
    let a4 = half_step(s3);
    let b4 = most_step(s3);
    let a5 = half_step(s4);
    let b5 = most_step(s4);
    let a6 = half_step(s5);
    let b6 = most_step(s5);
    let a7 = half_step(s6);
    let b7 = most_step(s6);
    let a8 = half_step(s7);
    let b8 = most_step(s7);
    let a9 = half_step(s8);
    let b9 = most_step(s8);
    let a10 = half_step(s9);
    let b10 = most_step(s9);
    let a11 = half_step(s10);
    let b11 = most_step(s10);
    let a12 = half_step(s11);
    let b12 = most_step(s11);
    let a13 = half_step(s12);
    let b13 = most_step(s12);
    let a14 = half_step(s13);
    let b14 = most_step(s13);
    let a15 = half_step(s14);
    let b15 = most_step(s14);
    let a16 = half_step(s15);
    let b16 = most_step(s15);
    let a17 = half_step(s16);
    let b17 = most_step(s16);
    let a18 = half_step(s17);
    let b18 = most_step(s17);
    let a19 = half_step(s18);
    let b19 = most_step(s18);
    let a20 = half_step(s19);
    let b20 = most_step(s19);
    let a21 = half_step(s20);
    let b21 = most_step(s20);
    let a22 = half_step(s21);
    let b22 = most_step(s21);
    let a23 = half_step(s22);
    let b23 = most_step(s22);
    let a24 = half_step(s23);
    let b24 = most_step(s23);
    let a25 = half_step(s24);
    let b25 = most_step(s24);
    let a26 = half_step(s25);
    let b26 = most_step(s25);
    let a27 = half_step(s26);
    let b27 = most_step(s26);
    let a28 = half_step(s27);
    let b28 = most_step(s27);
    let a29 = half_step(s28);
    let b29 = most_step(s28);
    let a30 = half_step(s29);
    let b30 = most_step(s29);
    let a31 = half_step(s30);
    let b31 = most_step(s30);
    let a32 = half_step(s31);
    let b32 = most_step(s31);
    // The states are not independent: some of them, an odd number, cancel out.
    assert(s32 ^ s21 ^ s20 ^ s19 ^ s18 ^ s17 ^ s15 ^ s14 ^ s9 ^ s6 ^ s0 == 0u32) by (bit_vector)
        requires
            a1 == s0 ^ (s0 << 13u32),
            b1 == a1 ^ (a1 >> 17u32),
            s1 == b1 ^ (b1 << 5u32),
            a2 == s1 ^ (s1 << 13u32),
            b2 == a2 ^ (a2 >> 17u32),
            s2 == b2 ^ (b2 << 5u32),
            a3 == s2 ^ (s2 << 13u32),
            b3 == a3 ^ (a3 >> 17u32),
            s3 == b3 ^ (b3 << 5u32),
            a4 == s3 ^ (s3 << 13u32),
            b4 == a4 ^ (a4 >> 17u32),
            s4 == b4 ^ (b4 << 5u32),
            a5 == s4 ^ (s4 << 13u32),
            b5 == a5 ^ (a5 >> 17u32),
            s5 == b5 ^ (b5 << 5u32),
            a6 == s5 ^ (s5 << 13u32),
            b6 == a6 ^ (a6 >> 17u32),
            s6 == b6 ^ (b6 << 5u32),
            a7 == s6 ^ (s6 << 13u32),
            b7 == a7 ^ (a7 >> 17u32),
            s7 == b7 ^ (b7 << 5u32),
            a8 == s7 ^ (s7 << 13u32),
            b8 == a8 ^ (a8 >> 17u32),
            s8 == b8 ^ (b8 << 5u32),
            a9 == s8 ^ (s8 << 13u32),
            b9 == a9 ^ (a9 >> 17u32),
            s9 == b9 ^ (b9 << 5u32),
            a10 == s9 ^ (s9 << 13u32),
            b10 == a10 ^ (a10 >> 17u32),
            s10 == b10 ^ (b10 << 5u32),
            a11 == s10 ^ (s10 << 13u32),
            b11 == a11 ^ (a11 >> 17u32),
            s11 == b11 ^ (b11 << 5u32),
            a12 == s11 ^ (s11 << 13u32),
            b12 == a12 ^ (a12 >> 17u32),
            s12 == b12 ^ (b12 << 5u32),
            a13 == s12 ^ (s12 << 13u32),
            b13 == a13 ^ (a13 >> 17u32),
            s13 == b13 ^ (b13 << 5u32),
            a14 == s13 ^ (s13 << 13u32),
            b14 == a14 ^ (a14 >> 17u32),
            s14 == b14 ^ (b14 << 5u32),
            a15 == s14 ^ (s14 << 13u32),
            b15 == a15 ^ (a15 >> 17u32),
            s15 == b15 ^ (b15 << 5u32),
            a16 == s15 ^ (s15 << 13u32),
            b16 == a16 ^ (a16 >> 17u32),
            s16 == b16 ^ (b16 << 5u32),
            a17 == s16 ^ (s16 << 13u32),
            b17 == a17 ^ (a17 >> 17u32),
            s17 == b17 ^ (b17 << 5u32),
            a18 == s17 ^ (s17 << 13u32),
            b18 == a18 ^ (a18 >> 17u32),
            s18 == b18 ^ (b18 << 5u32),
            a19 == s18 ^ (s18 << 13u32),
            b19 == a19 ^ (a19 >> 17u32),
            s19 == b19 ^ (b19 << 5u32),
            a20 == s19 ^ (s19 << 13u32),
            b20 == a20 ^ (a20 >> 17u32),
            s20 == b20 ^ (b20 << 5u32),
            a21 == s20 ^ (s20 << 13u32),
            b21 == a21 ^ (a21 >> 17u32),
            s21 == b21 ^ (b21 << 5u32),
            a22 == s21 ^ (s21 << 13u32),
            b22 == a22 ^ (a22 >> 17u32),
            s22 == b22 ^ (b22 << 5u32),
            a23 == s22 ^ (s22 << 13u32),
            b23 == a23 ^ (a23 >> 17u32),
            s23 == b23 ^ (b23 << 5u32),
            a24 == s23 ^ (s23 << 13u32),
            b24 == a24 ^ (a24 >> 17u32),
            s24 == b24 ^ (b24 << 5u32),
            a25 == s24 ^ (s24 << 13u32),
            b25 == a25 ^ (a25 >> 17u32),
            s25 == b25 ^ (b25 << 5u32),
            a26 == s25 ^ (s25 << 13u32),
            b26 == a26 ^ (a26 >> 17u32),
            s26 == b26 ^ (b26 << 5u32),
            a27 == s26 ^ (s26 << 13u32),
            b27 == a27 ^ (a27 >> 17u32),
            s27 == b27 ^ (b27 << 5u32),
            a28 == s27 ^ (s27 << 13u32),
            b28 == a28 ^ (a28 >> 17u32),
            s28 == b28 ^ (b28 << 5u32),
            a29 == s28 ^ (s28 << 13u32),
            b29 == a29 ^ (a29 >> 17u32),
            s29 == b29 ^ (b29 << 5u32),
            a30 == s29 ^ (s29 << 13u32),
            b30 == a30 ^ (a30 >> 17u32),
            s30 == b30 ^ (b30 << 5u32),
            a31 == s30 ^ (s30 << 13u32),
            b31 == a31 ^ (a31 >> 17u32),
            s31 == b31 ^ (b31 << 5u32),
            a32 == s31 ^ (s31 << 13u32),
            b32 == a32 ^ (a32 >> 17u32),
            s32 == b32 ^ (b32 << 5u32),
    ;
    if s32 >= 0x8000_0000u32 && s21 >= 0x8000_0000u32 && s20 >= 0x8000_0000u32
        && s19 >= 0x8000_0000u32 && s18 >= 0x8000_0000u32 && s17 >= 0x8000_0000u32
        && s15 >= 0x8000_0000u32 && s14 >= 0x8000_0000u32 && s9 >= 0x8000_0000u32
        && s6 >= 0x8000_0000u32 && s0 >= 0x8000_0000u32 {
        assert(false) by (bit_vector)
            requires
                s32 ^ s21 ^ s20 ^ s19 ^ s18 ^ s17 ^ s15 ^ s14 ^ s9 ^ s6 ^ s0 == 0u32,
                s32 >= 0x8000_0000u32,
                s21 >= 0x8000_0000u32,
                s20 >= 0x8000_0000u32,
                s19 >= 0x8000_0000u32,
                s18 >= 0x8000_0000u32,
                s17 >= 0x8000_0000u32,
                s15 >= 0x8000_0000u32,
                s14 >= 0x8000_0000u32,
                s9 >= 0x8000_0000u32,
                s6 >= 0x8000_0000u32,
                s0 >= 0x8000_0000u32,
        ;
    }
    if s32 < 0x8000_0000 {
        assert(random_after(state, n + 32) < 0x8000_0000);
    }
    if s21 < 0x8000_0000 {
        assert(random_after(state, n + 21) < 0x8000_0000);
    }
    if s20 < 0x8000_0000 {
        assert(random_after(state, n + 20) < 0x8000_0000);
    }
    if s19 < 0x8000_0000 {
        assert(random_after(state, n + 19) < 0x8000_0000);
    }
    if s18 < 0x8000_0000 {
        assert(random_after(state, n + 18) < 0x8000_0000);
    }
    if s17 < 0x8000_0000 {
        assert(random_after(state, n + 17) < 0x8000_0000);
    }
    if s15 < 0x8000_0000 {
        assert(random_after(state, n + 15) < 0x8000_0000);
    }
    if s14 < 0x8000_0000 {
        assert(random_after(state, n + 14) < 0x8000_0000);
    }
    if s9 < 0x8000_0000 {
        assert(random_after(state, n + 9) < 0x8000_0000);
    }
    if s6 < 0x8000_0000 {
        assert(random_after(state, n + 6) < 0x8000_0000);
    }
    if s0 < 0x8000_0000 {
        assert(random_after(state, n + 0) < 0x8000_0000);
    }
}


proof fn lemma_first_below(state: u32, bound: u32, n: nat, fuel: nat, k: nat)
    requires
        n <= k <= n + fuel,
        random_after(state, k) < uniform_limit(bound),
    ensures
        n <= first_below(state, bound, n, fuel) <= k,
        random_after(state, first_below(state, bound, n, fuel)) < uniform_limit(bound),
        forall|i: nat|
            n <= i < first_below(state, bound, n, fuel) ==> #[trigger] random_after(state, i)
                >= uniform_limit(bound),
    decreases fuel,
{
    if fuel > 0 && random_after(state, n) >= uniform_limit(bound) {
        assert(n < k);
        lemma_first_below(state, bound, n + 1, (fuel - 1) as nat, k);
    }
}

/// `arc4random_uniform` stops: at the first state below the limit, and not
/// after more than 33 steps.
pub proof fn law_uniform_stops(state: u32, bound: u32)
    requires
        bound > 0,
    ensures
        1 <= uniform_steps(state, bound) <= 33,
        random_after(state, uniform_steps(state, bound)) < uniform_limit(bound),
        forall|i: nat|
            1 <= i < uniform_steps(state, bound) ==> #[trigger] random_after(state, i)
                >= uniform_limit(bound),
{
    lemma_top_bit(state, 1);
    let i = choose|i: nat| i <= 32 && #[trigger] random_after(state, 1 + i) < 0x8000_0000;
    assert(uniform_limit(bound) >= 0x8000_0000) by {
        if bound <= 0x8000_0000 {
            assert(u32::MAX % bound < bound);
        } else {
            assert(u32::MAX % bound == u32::MAX - bound) by (nonlinear_arith)
                requires
                    0x8000_0000 < bound <= u32::MAX,
            ;
        }
    }
    lemma_first_below(state, bound, 1, 33, 1 + i);
}

/// `arc4random_uniform(upper_bound)`: returns a uniformly distributed
/// random number less than `upper_bound`.
pub fn arc4random_uniform(env: &mut Environment, upper_bound: u32) -> (r: u32)
    ensures
        if upper_bound == 0 {
            r == 0 && *final(env) == *old(env)
        } else {
            let state = old(env).libc_state.stdlib.arc4random;
            let n = uniform_steps(state, upper_bound);
            &&& *final(env) == arc4_after(*old(env), n)
            &&& r == random_after(state, n) % upper_bound
            &&& r < upper_bound
        },
{
    if upper_bound == 0 {
        return 0;
    }
    let ghost state = env.libc_state.stdlib.arc4random;
    let ghost n = uniform_steps(state, upper_bound);
    let ghost mut i: nat = 0;
    proof {
        law_uniform_stops(state, upper_bound);
    }
    // Rejection sampling to eliminate modulo bias.
    let limit: u32 = u32::MAX - (u32::MAX % upper_bound);
    loop
        invariant
            upper_bound > 0,
            limit == uniform_limit(upper_bound),
            i < n,
            *env == arc4_after(*old(env), i),
            state == old(env).libc_state.stdlib.arc4random,
            n == uniform_steps(state, upper_bound),
            random_after(state, n) < uniform_limit(upper_bound),
            forall|k: nat|
                1 <= k < n ==> #[trigger] random_after(state, k) >= uniform_limit(upper_bound),
        decreases n - i,
    {
        let r: u32 = arc4random(env);
        proof {
            i = i + 1;
            reveal_with_fuel(random_after, 2);
            assert(r == random_after(state, i));
        }
        if r < limit {
            return r % upper_bound;
        }
    }
}

/// Two to the 48th.
pub open spec fn two_48() -> int {
    0x1_0000_0000_0000
}

/// State for the POSIX `drand48`/`lrand48`/`mrand48` family: a 48-bit state
/// plus the multiplier `a` and addend `c` (modifiable via `lcong48`).
#[derive(Copy, Clone, Debug, PartialEq, Eq, Structural)]
pub struct Drand48State {
    /// 48-bit `X_n`, stored in the low 48 bits of a `u64`.
    pub state: u64,
    /// 48-bit multiplier `a` (default `0x5DEECE66D`).
    pub a: u64,
    /// 48-bit addend `c` (default `0xB`).
    pub c: u64,
}

/// The default multiplier.
pub const DRAND48_A: u64 = 0x5_deec_e66d;

/// The default addend.
pub const DRAND48_C: u64 = 0xb;

impl Default for Drand48State {
    fn default() -> (r: Drand48State)
        ensures
            r == (Drand48State { state: 0x1234_abcd_330e, a: DRAND48_A, c: DRAND48_C }),
    {
        Drand48State { state: 0x1234_abcd_330e, a: DRAND48_A, c: DRAND48_C }
    }
}

impl Drand48State {
    /// `X_{n+1} = (a * X_n + c) mod 2^48`
    pub open spec fn next(&self) -> int {
        (self.a * self.state + self.c) % two_48()
    }

    /// The state after a step.
    pub open spec fn stepped(self) -> Drand48State {
        Drand48State { state: self.next() as u64, ..self }
    }

    /// Advance `X_n` and return the new 48-bit value.
    pub fn step(&mut self) -> (r: u64)
        ensures
            *final(self) == old(self).stepped(),
            r == old(self).next(),
            r < two_48(),
    {
        assert(0 <= self.a * self.state <= 0xffff_ffff_ffff_ffff * 0xffff_ffff_ffff_ffff)
            by (nonlinear_arith)
            requires
                0 <= self.a <= 0xffff_ffff_ffff_ffff,
                0 <= self.state <= 0xffff_ffff_ffff_ffff,
        ;
        let product: u128 = self.a as u128 * self.state as u128;
        self.state = ((product + self.c as u128) % 0x1_0000_0000_0000) as u64;
        self.state
    }
}

/// The 48-bit number of three 16-bit limbs at `xsubi`, the lowest first.
pub open spec fn xsubi_at(mem: Mem, xsubi: int) -> int {
    le_u16(mem@, xsubi) + 0x1_0000 * le_u16(mem@, xsubi + 2) + 0x1_0000_0000 * le_u16(
        mem@,
        xsubi + 4,
    )
}

/// Pack three 16-bit limbs (little-endian, i.e. the first is the lowest 16
/// bits) into a 48-bit integer.
pub fn pack_xsubi(env: &Environment, xsubi: ConstPtr) -> (r: u64)
    requires
        env.wf(),
        env.mem.valid(xsubi as int, 6),
    ensures
        r == xsubi_at(env.mem, xsubi as int),
        r < two_48(),
{
    let lo: u64 = env.mem.read_u16(xsubi) as u64;
    let mid: u64 = env.mem.read_u16(xsubi + 2) as u64;
    let hi: u64 = env.mem.read_u16(xsubi + 4) as u64;
    lo + mid * 0x1_0000 + hi * 0x1_0000_0000
}

/// Store a 48-bit integer as three limbs.
pub fn write_xsubi(env: &mut Environment, xsubi: MutPtr, value: u64)
    requires
        old(env).wf(),
        old(env).mem.valid(xsubi as int, 6),
    ensures
        final(env).wf(),
        *final(env) == old(env).with_mem(final(env).mem),
        final(env).mem.stored(old(env).mem, xsubi as int, le_bytes(value as int % two_48(), 6)),
{
    let lo: u16 = (value % 0x1_0000) as u16;
    let mid: u16 = (value / 0x1_0000 % 0x1_0000) as u16;
    let hi: u16 = (value / 0x1_0000_0000 % 0x1_0000) as u16;
    env.mem.write_u16(xsubi, lo);
    env.mem.write_u16(xsubi + 2, mid);
    env.mem.write_u16(xsubi + 4, hi);
    proof {
        let v = value as int % two_48();
        lemma_le_bytes_2(lo as int);
        lemma_le_bytes_2(mid as int);
        lemma_le_bytes_2(hi as int);
        lemma_le_bytes_6(v);
        lemma_limbs(value as int);
        assert(env.mem@ =~= overlay(old(env).mem@, xsubi as int, le_bytes(v, 6)));
    }
}

/// The three low limbs of a number are those of its low 48 bits.
proof fn lemma_limbs(value: int)
    requires
        0 <= value <= u64::MAX,
    ensures
        ({
            let v = value % two_48();
            &&& v % 0x1_0000 == value % 0x1_0000
            &&& v / 0x1_0000 % 0x1_0000 == value / 0x1_0000 % 0x1_0000
            &&& v / 0x1_0000_0000 == value / 0x1_0000_0000 % 0x1_0000
        }),
{
    let q = value / two_48();
    let v = value % two_48();
    assert(value == v + 0x1_0000_0000_0000 * q);
    let q1 = 0x1_0000_0000 * q;
    let q2 = 0x1_0000 * q;
    vstd::arithmetic::div_mod::lemma_hoist_over_denominator(v, q1, 0x1_0000);
    vstd::arithmetic::div_mod::lemma_hoist_over_denominator(v, q2, 0x1_0000_0000);
    assert(value / 0x1_0000 == v / 0x1_0000 + q1);
    assert(value / 0x1_0000_0000 == v / 0x1_0000_0000 + q2);
    vstd::arithmetic::div_mod::lemma_mod_multiples_vanish(q1, v, 0x1_0000);
    vstd::arithmetic::div_mod::lemma_mod_multiples_vanish(q2, v / 0x1_0000, 0x1_0000);
    vstd::arithmetic::div_mod::lemma_mod_multiples_vanish(q, v / 0x1_0000_0000, 0x1_0000);
    vstd::arithmetic::div_mod::lemma_small_mod((v / 0x1_0000_0000) as nat, 0x1_0000);
}

/// The two low bytes of a number.
proof fn lemma_low_bytes(v: int)
    requires
        0 <= v,
    ensures
        v / 0x100 / 0x100 == v / 0x1_0000,
        (v % 0x1_0000) % 0x100 == v % 0x100,
        (v % 0x1_0000) / 0x100 == v / 0x100 % 0x100,
{
    vstd::arithmetic::div_mod::lemma_div_denominator(v, 0x100, 0x100);
    vstd::arithmetic::div_mod::lemma_mod_mod(v, 0x100, 0x100);
    vstd::arithmetic::div_mod::lemma_mod_breakdown(v, 0x100, 0x100);
}

/// The low two of some little-endian bytes.
proof fn lemma_le_bytes_low(v: int, n: nat)
    requires
        0 <= v,
    ensures
        le_bytes(v, 2 + n) == le_bytes(v % 0x1_0000, 2) + le_bytes(v / 0x1_0000, n),
{
    let low = v % 0x1_0000;
    lemma_low_bytes(v);
    lemma_le_bytes_2(low);
    assert(le_bytes(v / 0x100, 1 + n) == seq![(v / 0x100 % 0x100) as u8] + le_bytes(
        v / 0x1_0000,
        n,
    ));
    assert(le_bytes(v, 2 + n) == seq![(v % 0x100) as u8] + le_bytes(v / 0x100, 1 + n));
    assert(le_bytes(v, 2 + n) =~= le_bytes(low, 2) + le_bytes(v / 0x1_0000, n));
}

/// Six little-endian bytes are three limbs of two.
pub proof fn lemma_le_bytes_6(v: int)
    requires
        0 <= v < two_48(),
    ensures
        le_bytes(v, 6) == le_bytes(v % 0x1_0000, 2) + le_bytes(v / 0x1_0000 % 0x1_0000, 2)
            + le_bytes(v / 0x1_0000_0000, 2),
{
    let middle = v / 0x1_0000;
    lemma_le_bytes_low(v, 4);
    lemma_le_bytes_low(middle, 2);
    vstd::arithmetic::div_mod::lemma_div_denominator(v, 0x1_0000, 0x1_0000);
    assert(le_bytes(v, 6) =~= le_bytes(v % 0x1_0000, 2) + le_bytes(middle % 0x1_0000, 2)
        + le_bytes(v / 0x1_0000_0000, 2));
}

/// A number that was stored as limbs is read back from them.
pub proof fn law_xsubi_roundtrip(before: Mem, after: Mem, xsubi: int, v: int)
    requires
        0 <= v < two_48(),
        0 <= xsubi,
        xsubi + 6 <= before@.len(),
        after.stored(before, xsubi, le_bytes(v, 6)),
    ensures
        xsubi_at(after, xsubi) == v,
{
    lemma_le_bytes_6(v);
    lemma_le_bytes_2(v % 0x1_0000);
    lemma_le_bytes_2(v / 0x1_0000 % 0x1_0000);
    lemma_le_bytes_2(v / 0x1_0000_0000);
    crate::mem::lemma_le_bytes_len(v, 6);
    let d = le_bytes(v, 6);
    assert(after@[xsubi] == d[0]);
    assert(after@[xsubi + 1] == d[1]);
    assert(after@[xsubi + 2] == d[2]);
    assert(after@[xsubi + 3] == d[3]);
    assert(after@[xsubi + 4] == d[4]);
    assert(after@[xsubi + 5] == d[5]);
}

/// The environment with another state of the 48-bit generator.
pub open spec fn with_drand48(env: Environment, drand48: Drand48State) -> Environment {
    env.with_stdlib(libc::stdlib::State { drand48, ..env.libc_state.stdlib })
}

/// The non-negative 31-bit number that a 48-bit one gives.
pub open spec fn high_31(next: int) -> int {
    next / 0x2_0000
}

/// The signed 32-bit number that a 48-bit one gives.
pub open spec fn high_32(next: int) -> int {
    signed32(next / 0x1_0000)
}

/// `double drand48(void);`, as a multiple of two to the power of -48.
pub fn drand48_bits(env: &mut Environment) -> (r: u64)
    ensures
        *final(env) == with_drand48(*old(env), old(env).libc_state.stdlib.drand48.stepped()),
        r == old(env).libc_state.stdlib.drand48.next(),
        r < two_48(),
{
    env.libc_state.stdlib.drand48.step()
}

/// `long lrand48(void);`
pub fn lrand48(env: &mut Environment) -> (r: i32)
    ensures
        *final(env) == with_drand48(*old(env), old(env).libc_state.stdlib.drand48.stepped()),
        r == high_31(old(env).libc_state.stdlib.drand48.next()),
        0 <= r,
{
    let next: u64 = env.libc_state.stdlib.drand48.step();
    (next / 0x2_0000) as i32
}

/// `long mrand48(void);`
pub fn mrand48(env: &mut Environment) -> (r: i32)
    ensures
        *final(env) == with_drand48(*old(env), old(env).libc_state.stdlib.drand48.stepped()),
        r == high_32(old(env).libc_state.stdlib.drand48.next()),
{
    let next: u64 = env.libc_state.stdlib.drand48.step();
    to_signed32((next / 0x1_0000) as u32)
}

/// The 48-bit number that follows the one at `xsubi`.
pub open spec fn next_xsubi(env: Environment, xsubi: int) -> int {
    (env.libc_state.stdlib.drand48.a * xsubi_at(env.mem, xsubi)
        + env.libc_state.stdlib.drand48.c) % two_48()
}

/// The generator whose state is at `xsubi` took a step.
pub open spec fn xsubi_stepped(before: Environment, after: Environment, xsubi: int) -> bool {
    &&& after == before.with_mem(after.mem)
    &&& after.mem.stored(before.mem, xsubi, le_bytes(next_xsubi(before, xsubi), 6))
}

/// `double erand48(unsigned short xsubi[3]);`, as a multiple of two to the
/// power of -48.
pub fn erand48_bits(env: &mut Environment, xsubi: MutPtr) -> (r: u64)
    requires
        old(env).wf(),
        old(env).mem.valid(xsubi as int, 6),
    ensures
        final(env).wf(),
        xsubi_stepped(*old(env), *final(env), xsubi as int),
        r == next_xsubi(*old(env), xsubi as int),
        r < two_48(),
{
    let mut local: Drand48State = Drand48State {
        state: pack_xsubi(env, xsubi),
        a: env.libc_state.stdlib.drand48.a,
        c: env.libc_state.stdlib.drand48.c,
    };
    let next: u64 = local.step();
    write_xsubi(env, xsubi, next);
    assert(next as int % two_48() == next);
    next
}

/// `long nrand48(unsigned short xsubi[3]);`
pub fn nrand48(env: &mut Environment, xsubi: MutPtr) -> (r: i32)
    requires
        old(env).wf(),
        old(env).mem.valid(xsubi as int, 6),
    ensures
        final(env).wf(),
        xsubi_stepped(*old(env), *final(env), xsubi as int),
        r == high_31(next_xsubi(*old(env), xsubi as int)),
        0 <= r,
{
    (erand48_bits(env, xsubi) / 0x2_0000) as i32
}

/// `long jrand48(unsigned short xsubi[3]);`
pub fn jrand48(env: &mut Environment, xsubi: MutPtr) -> (r: i32)
    requires
        old(env).wf(),
        old(env).mem.valid(xsubi as int, 6),
    ensures
        final(env).wf(),
        xsubi_stepped(*old(env), *final(env), xsubi as int),
        r == high_32(next_xsubi(*old(env), xsubi as int)),
{
    to_signed32((erand48_bits(env, xsubi) / 0x1_0000) as u32)
}

/// `void srand48(long seedval);`: the seed becomes the high 32 bits of the
/// state, and the multiplier and addend are the default ones.
pub fn srand48(env: &mut Environment, seedval: i32)
    ensures
        *final(env) == with_drand48(
            *old(env),
            (Drand48State {
                state: (unsigned32(seedval as int) * 0x1_0000 + 0x330e) as u64,
                a: DRAND48_A,
                c: DRAND48_C,
            }),
        ),
        final(env).libc_state.stdlib.drand48.state < two_48(),
{
    let seed: u64 = to_unsigned32(seedval) as u64;
    env.libc_state.stdlib.drand48 = Drand48State {
        state: seed * 0x1_0000 + 0x330e,
        a: DRAND48_A,
        c: DRAND48_C,
    };
}

/// `unsigned short *seed48(unsigned short xsubi[3]);`: sets the state, and
/// gives the previous one in a new buffer.
pub fn seed48(env: &mut Environment, xsubi: MutPtr) -> (r: MutPtr)
    requires
        old(env).wf(),
        old(env).mem.valid(xsubi as int, 6),
        old(env).mem.has_room(6),
    ensures
        final(env).wf(),
        *final(env) == with_drand48(
            *old(env),
            (Drand48State {
                state: xsubi_at(old(env).mem, xsubi as int) as u64,
                a: DRAND48_A,
                c: DRAND48_C,
            }),
        ).with_mem(final(env).mem),
        final(env).mem.placed(
            old(env).mem,
            r,
            le_bytes(old(env).libc_state.stdlib.drand48.state as int % two_48(), 6),
        ),
{
    let previous: u64 = env.libc_state.stdlib.drand48.state;
    let state: u64 = pack_xsubi(env, xsubi);
    env.libc_state.stdlib.drand48 = Drand48State { state, a: DRAND48_A, c: DRAND48_C };
    let buf: u32 = env.mem.allocate(6);
    write_xsubi(env, buf, previous);
    proof {
        crate::mem::lemma_le_bytes_len(previous as int % two_48(), 6);
    }
    buf
}

/// `void lcong48(unsigned short param[7]);`: the first three limbs are the
/// state, the next three the multiplier and the last one the addend.
pub fn lcong48(env: &mut Environment, param: MutPtr)
    requires
        old(env).wf(),
        old(env).mem.valid(param as int, 14),
    ensures
        *final(env) == with_drand48(
            *old(env),
            (Drand48State {
                state: xsubi_at(old(env).mem, param as int) as u64,
                a: xsubi_at(old(env).mem, param + 6) as u64,
                c: le_u16(old(env).mem@, param + 12) as u64,
            }),
        ),
{
    let state: u64 = pack_xsubi(env, param);
    let a: u64 = pack_xsubi(env, param + 6);
    let c: u64 = env.mem.read_u16(param + 12) as u64;
    env.libc_state.stdlib.drand48 = Drand48State { state, a, c };
}

/// The 48-bit generator stays below two to the 48th, and what it gives is in
/// the documented ranges.
pub proof fn law_drand48_ranges(s: Drand48State)
    ensures
        s.stepped().state < two_48(),
        0 <= high_31(s.next()) < 0x8000_0000,
        -0x8000_0000 <= high_32(s.next()) < 0x8000_0000,
{
    let v = s.a * s.state + s.c;
    assert(0 <= v % two_48() < two_48());
}

} // verus!
