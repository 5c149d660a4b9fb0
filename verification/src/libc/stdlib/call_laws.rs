//! What the calls of the standard library come to: where chunks lie and what they
//! hold, which words a command has, and how random numbers go on.
use vstd::prelude::*;

use crate::environment::{EnvVar, Environment};
use crate::heap::lemma_chunk_added;
use crate::libc::stdlib::allocation::{
    align_up, free_done, malloc_done, memalign_done, plain_malloc_done, resize_done,
};
use crate::libc::stdlib::arith::{magnitude, quotient, remainder, wrapped32, wrapped64};
use crate::libc::stdlib::files::{
    command_done, first_argument, is_white, scan_words, words_of,
};
use crate::libc::stdlib::program::{
    block_call, frame_returns, lookup_var, returning_frame, search_step, unwound, var,
    SearchRange, SearchStep, UNWIND_FRAMES,
};
use crate::libc::stdlib::random::{
    first_below, high_31, high_32, low_31, next_random, next_xsubi, random_after, uniform_limit,
    uniform_steps, xsubi_at, Drand48State,
};
use crate::mem::{heap_size, le_u32, overlay, Chunk, Mem};

verus! {

/// The bytes from `p` on, `n` of them, are in no chunk.
pub open spec fn unused(mem: Mem, p: int, n: int) -> bool {
    forall|c: Chunk| #[trigger] mem.chunks@.contains(c) ==> p + n <= c.base || c.base + c.size <= p
}

/// Some chunk starts at `p` and has at least `n` bytes.
pub open spec fn chunk_from(mem: Mem, p: int, n: int) -> bool {
    exists|c: Chunk| #[trigger] mem.chunks@.contains(c) && c.base == p && c.size >= n
}

proof fn lemma_taken(before: Mem, after: Mem, ptr: u32, size: int)
    requires
        before.wf(),
        0 < size,
        after.taken(before, ptr, size),
    ensures
        unused(before, ptr as int, size),
        chunk_from(after, ptr as int, size),
        ptr % 16 == 0,
        ptr + size <= before@.len(),
        after@ == before@,
{
    lemma_chunk_added(before, after, ptr, size);
    let n = heap_size(size);
    assert(n >= size);
    assert(n <= before@.len());
    let c = Chunk { base: ptr, size: n as u32 };
    assert(after.chunks@.contains(c) && c.base == ptr && c.size >= size);
    assert forall|c: Chunk| #[trigger] before.chunks@.contains(c) implies ptr + size <= c.base
        || c.base + c.size <= ptr by {
        let i = choose|i: int| 0 <= i < before.chunks@.len() && before.chunks@[i] == c;
        assert(before.chunks@[i] == c);
    }
}

/// What `malloc` gives has room for what was asked for, lies in no chunk that was
/// there before, and starts at a multiple of 16. More than half a gigabyte, or
/// more than there is room for, is refused with `ENOMEM` (12).
pub proof fn law_malloc(before: Environment, after: Environment, size: int, r: int)
    requires
        before.wf(),
        0 <= r <= 0xffff_ffff,
        0 <= size <= 0xf000_0000,
        malloc_done(before, after, size, r),
    ensures
        r != 0 ==> {
            &&& unused(before.mem, r, size)
            &&& chunk_from(after.mem, r, size)
            &&& r % 16 == 0
            &&& after.mem@ == before.mem@
            &&& after.libc_state.errno.value == 0
            &&& size <= 0x2000_0000
        },
        size > 0x2000_0000 ==> r == 0,
        r == 0 ==> after.mem == before.mem && after.libc_state.errno.value == 12,
        r == 0 && size > 0 ==> size > 0x2000_0000 || !before.mem.has_room(size),
        r == 0 && size == 0 ==> !before.mem.has_room(1),
{
    if r != 0 {
        lemma_taken(
            before.mem,
            after.mem,
            r as u32,
            if size == 0 {
                1
            } else {
                size
            },
        );
    }
}

/// Memory of a zone is given as by `malloc`, without its limit and without
/// setting `errno`.
pub proof fn law_zone_malloc(before: Environment, after: Environment, size: int, r: int)
    requires
        before.wf(),
        0 <= r <= 0xffff_ffff,
        0 <= size,
        plain_malloc_done(before, after, size, r),
    ensures
        r != 0 ==> {
            &&& unused(before.mem, r, size)
            &&& chunk_from(after.mem, r, size)
            &&& r % 16 == 0
        },
        after.mem@ == before.mem@,
        after.libc_state == before.libc_state,
        r == 0 ==> after.mem == before.mem,
{
    if r != 0 {
        lemma_taken(
            before.mem,
            after.mem,
            r as u32,
            if size == 0 {
                1
            } else {
                size
            },
        );
    }
}

/// A chunk that is resized keeps its contents: where it stays, nothing changes;
/// where it moves, all of it is found at its new address.
pub proof fn law_resize_keeps(before: Mem, after: Mem, ptr: u32, size: int, r: u32, c: Chunk)
    requires
        before.wf(),
        0 < size,
        before.chunks@.contains(c),
        c.base == ptr,
        forall|d: Chunk| #[trigger] before.chunks@.contains(d) && d.base == ptr ==> d == c,
        resize_done(before, after, ptr, size, r),
        r != 0,
    ensures
        forall|i: int|
            0 <= i < c.size && (c.size < size ==> r + c.size <= before@.len())
                ==> #[trigger] after@[r + i] == before@[ptr + i],
        c.size >= size ==> r == ptr && after == before,
        c.size < size ==> unused(before, r as int, size),
{
    let old_size = choose|old_size: u32| #[trigger]
        before.chunks@.contains((Chunk { base: ptr, size: old_size })) && (if old_size >= size {
            r == ptr && after == before
        } else if !before.has_room(size) {
            r == 0 && after == before
        } else {
            &&& before.fits(r as int, size)
            &&& forall|a: int| #[trigger] before.fits(a, size) ==> r <= a
            &&& after@ == overlay(
                before@,
                r as int,
                before@.subrange(ptr as int, ptr + old_size),
            )
            &&& exists|mid: Mem|
                #![trigger mid.chunk_added(before, r, size)]
                mid.chunk_added(before, r, size) && after.chunk_removed(mid, ptr)
        });
    assert(old_size == c.size);
    let k = choose|k: int| 0 <= k < before.chunks@.len() && before.chunks@[k] == c;
    assert(before.chunks@[k] == c);
    assert(heap_size(size) >= size);
    assert forall|d: Chunk| #[trigger] before.chunks@.contains(d) && c.size < size implies r + size
        <= d.base || d.base + d.size <= r by {
        let i = choose|i: int| 0 <= i < before.chunks@.len() && before.chunks@[i] == d;
        assert(before.chunks@[i] == d);
    }
    if c.size < size {
        let data = before@.subrange(ptr as int, ptr + c.size);
        assert forall|i: int| 0 <= i < c.size && r + c.size <= before@.len() implies (
        #[trigger] after@[r + i]) == before@[ptr + i] by {
            assert(data[i] == before@[ptr + i]);
        }
    }
}

/// Freeing gives back the chunk at the address, and no byte changes. The lowest
/// page and the highest addresses are never freed.
pub proof fn law_free(before: Mem, after: Mem, ptr: u32)
    requires
        free_done(before, after, ptr),
    ensures
        after@ == before@,
        ptr < 0x1000 || ptr >= 0xfff0_0000 ==> after == before,
        before.allocated(ptr as int) && 0x1000 <= ptr < 0xfff0_0000 ==> after.chunks@.len()
            == before.chunks@.len() - 1,
{
}

/// Rounding up gives the lowest multiple that is not below the number.
pub proof fn law_align_up(n: int, alignment: int)
    requires
        0 < alignment,
    ensures
        align_up(n, alignment) % alignment == 0,
        n <= align_up(n, alignment) < n + alignment,
{
    let q = (n + alignment - 1) / alignment;
    vstd::arithmetic::div_mod::lemma_fundamental_div_mod(n + alignment - 1, alignment);
    vstd::arithmetic::div_mod::lemma_mod_multiples_basic(q, alignment);
    vstd::arithmetic::mul::lemma_mul_is_commutative(q, alignment);
    vstd::arithmetic::div_mod::lemma_mod_bound(n + alignment - 1, alignment);
}

/// An alignment below 4, or an address for the result that is null, is refused
/// with `EINVAL` (22), and nothing changes.
pub proof fn law_memalign_refused(
    before: Environment,
    after: Environment,
    memptr: int,
    alignment: int,
    size: int,
    r: int,
)
    requires
        memalign_done(before, after, memptr, alignment, size, r),
    ensures
        memptr == 0 || alignment < 4 ==> r == 22 && after == before,
        r == 0 || r == 12 || r == 22,
        r != 0 ==> after == before,
{
}

/// Division goes towards zero: the quotient times the divisor and the remainder
/// make up the dividend, the remainder is smaller than the divisor, and it has
/// the sign of the dividend. The one quotient that does not fit is the least
/// number.
pub proof fn law_division_rounds(a: int, b: int)
    requires
        b != 0,
    ensures
        a == b * quotient(a, b) + remainder(a, b),
        -magnitude(b) < remainder(a, b) < magnitude(b),
        a >= 0 ==> remainder(a, b) >= 0,
        a <= 0 ==> remainder(a, b) <= 0,
        -0x8000_0000 <= a <= 0x7fff_ffff ==> wrapped32(a) == a,
        wrapped32(0x8000_0000) == -0x8000_0000,
        -0x8000_0000_0000_0000 <= a <= 0x7fff_ffff_ffff_ffff ==> wrapped64(a) == a,
        wrapped64(0x8000_0000_0000_0000) == -0x8000_0000_0000_0000,
        magnitude(b) == b || magnitude(b) == -b,
        magnitude(b) > 0,
{
    let x = magnitude(a);
    let y = magnitude(b);
    vstd::arithmetic::div_mod::lemma_fundamental_div_mod(x, y);
    vstd::arithmetic::div_mod::lemma_mod_bound(x, y);
    let q = x / y;
    assert(b * q == y * q || b * q == -(y * q)) by (nonlinear_arith)
        requires
            y == b || y == -b,
    ;
    assert(b * (-q) == -(b * q)) by (nonlinear_arith);
    assert((b > 0 ==> b * q == y * q) && (b < 0 ==> b * q == -(y * q))) by (nonlinear_arith)
        requires
            y == (if b < 0 {
                -b
            } else {
                b
            }),
    ;
}

/// The character counts as white: the tab and the four behind it, the space, and
/// the other spaces and line ends of Unicode.
pub open spec fn blank(c: char) -> bool {
    let v = c as u32;
    (9 <= v <= 13) || v == 32 || v == 133 || v == 160 || v == 5760 || (8192 <= v <= 8202) || v
        == 8232 || v == 8233 || v == 8239 || v == 8287 || v == 12288
}

/// No character is white.
pub open spec fn solid(w: Seq<char>) -> bool {
    forall|i: int| 0 <= i < w.len() ==> !blank(#[trigger] w[i])
}

proof fn lemma_scan_solid(s: Seq<char>, w: Seq<char>)
    requires
        solid(w),
    ensures
        scan_words(s + w) == (scan_words(s).0, scan_words(s).1 + w),
    decreases w.len(),
{
    if w.len() == 0 {
        assert(s + w =~= s);
        assert(scan_words(s).1 + w =~= scan_words(s).1);
    } else {
        let front = w.drop_last();
        assert(!blank(w[w.len() - 1]));
        assert forall|i: int| 0 <= i < front.len() implies !blank(#[trigger] front[i]) by {
            assert(front[i] == w[i]);
        }
        lemma_scan_solid(s, front);
        assert((s + w).drop_last() =~= s + front);
        assert((s + w).last() == w.last());
        assert((scan_words(s).1 + front).push(w.last()) =~= scan_words(s).1 + w);
    }
}

/// The words of a command stand between white characters: a word behind a text
/// that ends white is one word more, one white character more changes nothing,
/// and nothing has no words.
pub proof fn law_words(s: Seq<char>, c: char, w: Seq<char>)
    requires
        blank(c),
        solid(w),
        w.len() > 0,
    ensures
        words_of(Seq::empty()).len() == 0,
        words_of(w) == seq![w],
        words_of(s.push(c)) == words_of(s),
        words_of(s.push(c) + w) == words_of(s).push(w),
{
    let t = s.push(c);
    assert(t.drop_last() =~= s);
    assert(is_white(c));
    assert(scan_words(t).1 =~= Seq::empty());
    lemma_scan_solid(t, w);
    assert(scan_words(t).1 + w =~= w);
    lemma_scan_solid(Seq::empty(), w);
    assert(Seq::<char>::empty() + w =~= w);
    assert(words_of(w) =~= seq![w]);
}

/// The word does not start with a dash.
pub open spec fn no_dash(w: Seq<char>) -> bool {
    w.len() == 0 || w[0] != '-'
}

/// The argument of a command is its first word, behind the command itself, that
/// does not start with a dash.
pub proof fn law_first_argument(words: Seq<Seq<char>>, from: int, i: int)
    requires
        0 <= from <= i <= words.len(),
        i < words.len() ==> no_dash(words[i]),
        forall|j: int| from <= j < i ==> !no_dash(#[trigger] words[j]),
    ensures
        first_argument(words, from) == if i < words.len() {
            Some(words[i])
        } else {
            None
        },
    decreases i - from,
{
    if from < i {
        assert(!no_dash(words[from]));
        law_first_argument(words, from + 1, i);
    }
}

/// Only `mkdir` is carried out; every other command does nothing and succeeds,
/// and `mkdir` without a directory fails.
pub proof fn law_commands(before: Environment, after: Environment, words: Seq<Seq<char>>, r: int)
    requires
        command_done(before, after, words, r),
    ensures
        words.len() == 0 ==> r == 0 && after == before,
        words.len() > 0 && words[0] != seq!['m', 'k', 'd', 'i', 'r'] ==> r == 0 && after == before,
        words.len() == 1 && words[0] == seq!['m', 'k', 'd', 'i', 'r'] ==> r == 1 && after == before,
        after.mem == before.mem,
{
}

/// The bit number `j` of a word.
pub open spec fn bit(x: u32, j: u32) -> bool {
    (x >> j) & 1 == 1
}

/// Each bit of the next random number is a sum of bits of the state, without
/// carry: first each bit takes that 13 places below it, then each that 17 places
/// above it, and then each that 5 places below it. A state of zero counts as one.
pub proof fn law_random_bits(s: u32, a: u32, b: u32, j: u32)
    requires
        s != 0,
        j < 32,
        forall|i: u32|
            i < 32 ==> #[trigger] bit(a, i) == (bit(s, i) != (i >= 13 && bit(s, (i - 13) as u32))),
        forall|i: u32|
            i < 32 ==> #[trigger] bit(b, i) == (bit(a, i) != (i < 15 && bit(a, (i + 17) as u32))),
    ensures
        bit(next_random(s), j) == (bit(b, j) != (j >= 5 && bit(b, (j - 5) as u32))),
        next_random(0) == next_random(1),
{
    let a1 = s ^ (s << 13u32);
    let b1 = a1 ^ (a1 >> 17u32);
    let c1 = b1 ^ (b1 << 5u32);
    assert forall|i: u32| i < 32 implies #[trigger] bit(a, i) == bit(a1, i) by {
        let k = if i >= 13 {
            (i - 13) as u32
        } else {
            0
        };
        assert(((a1 >> i) & 1 == 1) == (((s >> i) & 1 == 1) != (i >= 13 && ((s >> k) & 1 == 1))))
            by (bit_vector)
            requires
                i < 32,
                a1 == s ^ (s << 13u32),
                i >= 13 ==> k == i - 13,
        ;
        assert(bit(a, i) == (bit(s, i) != (i >= 13 && bit(s, (i - 13) as u32))));
    }
    lemma_same_bits(a, a1);
    assert forall|i: u32| i < 32 implies #[trigger] bit(b, i) == bit(b1, i) by {
        let k = if i < 15 {
            (i + 17) as u32
        } else {
            0
        };
        assert(((b1 >> i) & 1 == 1) == (((a1 >> i) & 1 == 1) != (i < 15 && ((a1 >> k) & 1 == 1))))
            by (bit_vector)
            requires
                i < 32,
                b1 == a1 ^ (a1 >> 17u32),
                i < 15 ==> k == i + 17,
        ;
        assert(bit(b, i) == (bit(a, i) != (i < 15 && bit(a, (i + 17) as u32))));
    }
    lemma_same_bits(b, b1);
    let k = if j >= 5 {
        (j - 5) as u32
    } else {
        0
    };
    assert(((c1 >> j) & 1 == 1) == (((b1 >> j) & 1 == 1) != (j >= 5 && ((b1 >> k) & 1 == 1))))
        by (bit_vector)
        requires
            j < 32,
            c1 == b1 ^ (b1 << 5u32),
            j >= 5 ==> k == j - 5,
    ;
}

proof fn lemma_same_bits(x: u32, y: u32)
    requires
        forall|i: u32| i < 32 ==> #[trigger] bit(x, i) == bit(y, i),
    ensures
        x == y,
{
    assert(bit(x, 0) == bit(y, 0) && bit(x, 1) == bit(y, 1) && bit(x, 2) == bit(y, 2) && bit(x, 3)
        == bit(y, 3) && bit(x, 4) == bit(y, 4) && bit(x, 5) == bit(y, 5) && bit(x, 6) == bit(y, 6)
        && bit(x, 7) == bit(y, 7) && bit(x, 8) == bit(y, 8) && bit(x, 9) == bit(y, 9) && bit(x, 10)
        == bit(y, 10) && bit(x, 11) == bit(y, 11) && bit(x, 12) == bit(y, 12) && bit(x, 13) == bit(
        y,
        13,
    ) && bit(x, 14) == bit(y, 14) && bit(x, 15) == bit(y, 15) && bit(x, 16) == bit(y, 16) && bit(
        x,
        17,
    ) == bit(y, 17) && bit(x, 18) == bit(y, 18) && bit(x, 19) == bit(y, 19) && bit(x, 20) == bit(
        y,
        20,
    ) && bit(x, 21) == bit(y, 21) && bit(x, 22) == bit(y, 22) && bit(x, 23) == bit(y, 23) && bit(
        x,
        24,
    ) == bit(y, 24) && bit(x, 25) == bit(y, 25) && bit(x, 26) == bit(y, 26) && bit(x, 27) == bit(
        y,
        27,
    ) && bit(x, 28) == bit(y, 28) && bit(x, 29) == bit(y, 29) && bit(x, 30) == bit(y, 30) && bit(
        x,
        31,
    ) == bit(y, 31));
    assert(x == y) by (bit_vector)
        requires
            ((x >> 0u32) & 1 == 1) == ((y >> 0u32) & 1 == 1),
            ((x >> 1u32) & 1 == 1) == ((y >> 1u32) & 1 == 1),
            ((x >> 2u32) & 1 == 1) == ((y >> 2u32) & 1 == 1),
            ((x >> 3u32) & 1 == 1) == ((y >> 3u32) & 1 == 1),
            ((x >> 4u32) & 1 == 1) == ((y >> 4u32) & 1 == 1),
            ((x >> 5u32) & 1 == 1) == ((y >> 5u32) & 1 == 1),
            ((x >> 6u32) & 1 == 1) == ((y >> 6u32) & 1 == 1),
            ((x >> 7u32) & 1 == 1) == ((y >> 7u32) & 1 == 1),
            ((x >> 8u32) & 1 == 1) == ((y >> 8u32) & 1 == 1),
            ((x >> 9u32) & 1 == 1) == ((y >> 9u32) & 1 == 1),
            ((x >> 10u32) & 1 == 1) == ((y >> 10u32) & 1 == 1),
            ((x >> 11u32) & 1 == 1) == ((y >> 11u32) & 1 == 1),
            ((x >> 12u32) & 1 == 1) == ((y >> 12u32) & 1 == 1),
            ((x >> 13u32) & 1 == 1) == ((y >> 13u32) & 1 == 1),
            ((x >> 14u32) & 1 == 1) == ((y >> 14u32) & 1 == 1),
            ((x >> 15u32) & 1 == 1) == ((y >> 15u32) & 1 == 1),
            ((x >> 16u32) & 1 == 1) == ((y >> 16u32) & 1 == 1),
            ((x >> 17u32) & 1 == 1) == ((y >> 17u32) & 1 == 1),
            ((x >> 18u32) & 1 == 1) == ((y >> 18u32) & 1 == 1),
            ((x >> 19u32) & 1 == 1) == ((y >> 19u32) & 1 == 1),
            ((x >> 20u32) & 1 == 1) == ((y >> 20u32) & 1 == 1),
            ((x >> 21u32) & 1 == 1) == ((y >> 21u32) & 1 == 1),
            ((x >> 22u32) & 1 == 1) == ((y >> 22u32) & 1 == 1),
            ((x >> 23u32) & 1 == 1) == ((y >> 23u32) & 1 == 1),
            ((x >> 24u32) & 1 == 1) == ((y >> 24u32) & 1 == 1),
            ((x >> 25u32) & 1 == 1) == ((y >> 25u32) & 1 == 1),
            ((x >> 26u32) & 1 == 1) == ((y >> 26u32) & 1 == 1),
            ((x >> 27u32) & 1 == 1) == ((y >> 27u32) & 1 == 1),
            ((x >> 28u32) & 1 == 1) == ((y >> 28u32) & 1 == 1),
            ((x >> 29u32) & 1 == 1) == ((y >> 29u32) & 1 == 1),
            ((x >> 30u32) & 1 == 1) == ((y >> 30u32) & 1 == 1),
            ((x >> 31u32) & 1 == 1) == ((y >> 31u32) & 1 == 1),
    ;
}

/// The number that is handed out is the state without its highest bit.
pub proof fn law_low_bits(state: u32)
    ensures
        state < 0x8000_0000 ==> low_31(state) == state,
        state >= 0x8000_0000 ==> low_31(state) == state - 0x8000_0000,
{
}

/// A number below a bound is drawn from the first of the coming random numbers,
/// of no more than 33, that lies below the highest multiple of the bound, so that
/// every remainder is as likely as another.
pub proof fn law_uniform(state: u32, bound: u32, m: nat)
    requires
        bound > 0,
        1 <= m < uniform_steps(state, bound),
    ensures
        uniform_limit(bound) % bound == 0,
        uniform_limit(bound) + bound > 0xffff_ffff,
        random_after(state, m) >= uniform_limit(bound),
{
    law_uniform_limit(bound);
    lemma_first_below(state, bound, 1, 33, m);
}

/// The limit for a bound is its highest multiple among the words.
pub proof fn law_uniform_limit(bound: u32)
    requires
        bound > 0,
    ensures
        uniform_limit(bound) % bound == 0,
        uniform_limit(bound) + bound > 0xffff_ffff,
        0 < uniform_limit(bound),
{
    let b = bound as int;
    let m = u32::MAX as int;
    vstd::arithmetic::div_mod::lemma_fundamental_div_mod(m, b);
    vstd::arithmetic::div_mod::lemma_mod_bound(m, b);
    let q = m / b;
    assert(uniform_limit(bound) == b * q);
    vstd::arithmetic::mul::lemma_mul_is_commutative(q, b);
    vstd::arithmetic::div_mod::lemma_mod_multiples_basic(q, b);
    assert(b * q + b > m);
    if q == 0 {
        assert(b * 0 == 0);
    }
    assert(0 < b * q) by (nonlinear_arith)
        requires
            b * q == m - m % b,
            m % b < b,
            b <= m,
            0 < b,
    ;
}

proof fn lemma_first_below(state: u32, bound: u32, n: nat, fuel: nat, m: nat)
    requires
        n <= m < first_below(state, bound, n, fuel),
    ensures
        random_after(state, m) >= uniform_limit(bound),
    decreases fuel,
{
    if n < m {
        lemma_first_below(state, bound, n + 1, (fuel - 1) as nat, m);
    }
}

/// The state of the 48-bit numbers goes on by the multiplier and the addend,
/// counted round at two to the 48; the numbers that are handed out are the
/// highest 31 or 32 bits of it, the latter with a sign.
pub proof fn law_drand48(s: Drand48State, next: int)
    requires
        next == s.next(),
    ensures
        0 <= next < 0x1_0000_0000_0000,
        exists|k: int| #[trigger] (k * 0x1_0000_0000_0000) + next == s.a * s.state + s.c,
        s.stepped().state == next,
        s.stepped().a == s.a,
        s.stepped().c == s.c,
        0x2_0000 * high_31(next) <= next < 0x2_0000 * (high_31(next) + 1),
        ({
            let h = high_32(next);
            let u = if h < 0 {
                h + 0x1_0000_0000
            } else {
                h
            };
            0x1_0000 * u <= next < 0x1_0000 * (u + 1) && -0x8000_0000 <= h < 0x8000_0000
        }),
{
    let x = s.a * s.state + s.c;
    vstd::arithmetic::div_mod::lemma_fundamental_div_mod(x, 0x1_0000_0000_0000);
    vstd::arithmetic::div_mod::lemma_mod_bound(x, 0x1_0000_0000_0000);
    let k = x / 0x1_0000_0000_0000;
    assert((k * 0x1_0000_0000_0000) + next == x);
}

/// The 48-bit number in memory, in three parts of 16 bits with the lowest first,
/// goes on in the same way.
pub proof fn law_xsubi(env: Environment, xsubi: int)
    ensures
        ({
            let m = env.mem@;
            let x = m[xsubi] + 0x100 * m[xsubi + 1] + 0x1_0000 * m[xsubi + 2] + 0x100_0000 * m[xsubi
                + 3] + 0x1_0000_0000 * m[xsubi + 4] + 0x100_0000_0000 * m[xsubi + 5];
            let d = env.libc_state.stdlib.drand48;
            &&& next_xsubi(env, xsubi) == (d.a * x + d.c) % 0x1_0000_0000_0000
        }),
{
    let m = env.mem@;
    let x = m[xsubi] + 0x100 * m[xsubi + 1] + 0x1_0000 * m[xsubi + 2] + 0x100_0000 * m[xsubi + 3]
        + 0x1_0000_0000 * m[xsubi + 4] + 0x100_0000_0000 * m[xsubi + 5];
    assert(xsubi_at(env.mem, xsubi) == x);
}

/// Without a step the generator stays where it is, and each step leads on from
/// where the steps before it led.
pub proof fn law_steps(state: u32, n: nat)
    ensures
        random_after(state, 0) == state,
        random_after(state, 1) == next_random(state),
        random_after(state, n + 1) == next_random(random_after(state, n)),
{
    reveal_with_fuel(random_after, 2);
}

/// A variable is found by its name, the first of that name.
pub proof fn law_lookup(vars: Seq<EnvVar>, name: Seq<u8>, from: int, i: int)
    requires
        0 <= from <= i <= vars.len(),
        i < vars.len() ==> vars[i].name@ == name,
        forall|j: int| from <= j < i ==> (#[trigger] vars[j]).name@ != name,
    ensures
        lookup_var(vars, name, from) == if i < vars.len() {
            Some(vars[i].value)
        } else {
            None
        },
    decreases i - from,
{
    if from < i {
        law_lookup(vars, name, from + 1, i);
    }
}

/// The variables of a program are those of its list.
pub proof fn law_var(env: Environment, name: Seq<u8>, i: int)
    requires
        0 <= i < env.env_vars@.len(),
        env.env_vars@[i].name@ == name,
        forall|j: int| 0 <= j < i ==> (#[trigger] env.env_vars@[j]).name@ != name,
    ensures
        var(env, name) == Some(env.env_vars@[i].value),
{
    law_lookup(env.env_vars@, name, 0, i);
}

/// A search compares the key with an item of the range that is left, and each
/// comparison leaves the items on the side where the key is: those behind the
/// item, where the key comes behind it, and those before it otherwise.
pub proof fn law_search_narrows(items: int, item_size: int, range: SearchRange, order: int)
    requires
        range.low + range.len <= 0xffff_ffff,
        0 <= items,
        0 <= item_size,
        items + item_size * (range.low + range.len) <= 0xffff_ffff,
    ensures
        range.len == 0 ==> search_step(items, item_size, range) is NotFound,
        range.len > 0 ==> {
            let m = range.middle();
            let next = range.narrowed(order);
            &&& range.low <= m < range.low + range.len
            &&& search_step(items, item_size, range) == SearchStep::Compare(
                (items + item_size * m) as u32,
            )
            &&& order > 0 ==> next.low == m + 1 && next.low + next.len == range.low + range.len
            &&& order <= 0 ==> next.low == range.low && next.low + next.len == m
        },
{
}

/// The function of a block is its fourth word.
pub proof fn law_block(mem: Mem, block: u32)
    ensures
        block_call(mem, block).func == le_u32(mem@, block + 12),
        block_call(mem, block).block == block,
{
    assert(0 <= le_u32(mem@, block + 12) < 0x1_0000_0000);
}

/// The frame at `fp` cannot be returned to: its return address is null or too
/// high.
pub open spec fn dead_frame(mem: Mem, fp: int) -> bool {
    le_u32(mem@, fp + 4) == 0 || le_u32(mem@, fp + 4) >= 0x1000_0000
}

/// The frame that an exception goes back to: the current one where it can be
/// returned to, or else that of the caller, and so on.
pub proof fn law_frames(mem: Mem, fp: int, n: int)
    requires
        n > 0,
        fp != 0,
    ensures
        !dead_frame(mem, fp) ==> returning_frame(mem, fp, n) == Some(fp),
        dead_frame(mem, fp) ==> returning_frame(mem, fp, n) == returning_frame(
            mem,
            le_u32(mem@, fp),
            n - 1,
        ),
        returning_frame(mem, 0, n) is None,
        returning_frame(mem, fp, 0) is None,
{
    assert(frame_returns(mem, fp) == !dead_frame(mem, fp));
}

/// Going back to a frame takes up its caller's registers: the frame pointer that
/// it saved, the stack behind it, a zero result, and its return address.
pub proof fn law_unwound(before: Environment, after: Environment, fp: int)
    requires
        before.cpu.regs@.len() == 16,
        before.cpu.regs@[7] == fp,
        fp != 0,
        0 <= fp <= 0xffff_fff7,
        !dead_frame(before.mem, fp),
        unwound(before, after),
    ensures
        after.cpu.regs@[7] == le_u32(before.mem@, fp),
        after.cpu.regs@[13] == fp + 8,
        after.cpu.regs@[0] == 0,
        after.cpu.branch_to matches Some(a) && a == le_u32(before.mem@, fp + 4),
        forall|i: int|
            0 <= i < 16 && i != 0 && i != 7 && i != 13 ==> #[trigger] after.cpu.regs@[i]
                == before.cpu.regs@[i],
        after.mem == before.mem,
{
    law_frames(
        before.mem,
        fp,
        UNWIND_FRAMES as int,
    );
    assert(0 <= le_u32(before.mem@, fp) < 0x1_0000_0000);
    assert(0 <= le_u32(before.mem@, fp + 4) < 0x1_0000_0000);
}

} // verus!
