//! How numbers, texts and chunks lie in guest memory, byte by byte.
use vstd::prelude::*;

use crate::libc::stdlib::stubs::{property_at, shown, stack_line, stack_lines};
use crate::mem::{
    cstr, cstr_len, heap_size, le_bytes, le_u16, le_u32, le_u64, lemma_cstr_len_is,
    lemma_le_bytes_2, lemma_le_bytes_4, overlay, signed16, signed32, signed64, unsigned32, unsigned64, Mem,
};
use crate::objc::{answer_from, GuestAnswer};
use crate::text::{decimal, hex8, hex_digits, low_hex_digit};

verus! {

/// The bytes of a word, the lowest first, and the word that they make up again.
pub proof fn law_word_bytes(v: u32)
    ensures
        ({
            let b = le_bytes(v as int, 4);
            &&& b.len() == 4
            &&& b[0] == v % 0x100
            &&& b[1] == v / 0x100 % 0x100
            &&& b[2] == v / 0x1_0000 % 0x100
            &&& b[3] == v / 0x100_0000
            &&& le_u32(b, 0) == v
        }),
{
    lemma_le_bytes_4(v as int);
}

/// The bytes of a half word, and those of a pair of words.
pub proof fn law_other_numbers(s: Seq<u8>, at: int, v: u16)
    ensures
        ({
            let b = le_bytes(v as int, 2);
            b.len() == 2 && b[0] == v % 0x100 && b[1] == v / 0x100 && le_u16(b, 0) == v
        }),
        le_u16(s, at) == le_u32(s, at) % 0x1_0000,
        le_u64(s, at) % 0x1_0000_0000 == le_u32(s, at),
        le_u64(s, at) / 0x1_0000_0000 == le_u32(s, at + 4),
{
    lemma_le_bytes_2(v as int);
}

/// A pattern read with a sign is the same number but for a multiple of its range,
/// and lies around zero; the pattern of a number with a sign is the other way
/// round.
pub proof fn law_signs(v: int, n: int)
    ensures
        0 <= v < 0x1_0000 ==> -0x8000 <= signed16(v) < 0x8000 && (signed16(v) == v || signed16(v)
            == v - 0x1_0000),
        0 <= v < 0x1_0000_0000 ==> -0x8000_0000 <= signed32(v) < 0x8000_0000 && (signed32(v) == v
            || signed32(v) == v - 0x1_0000_0000) && unsigned32(signed32(v)) == v,
        0 <= v < 0x1_0000_0000_0000_0000 ==> -0x8000_0000_0000_0000 <= signed64(v)
            < 0x8000_0000_0000_0000 && (signed64(v) == v || signed64(v) == v
            - 0x1_0000_0000_0000_0000) && unsigned64(signed64(v)) == v,
        -0x8000_0000 <= n < 0x8000_0000 ==> 0 <= unsigned32(n) < 0x1_0000_0000 && signed32(
            unsigned32(n),
        ) == n,
        -0x8000_0000_0000_0000 <= n < 0x8000_0000_0000_0000 ==> 0 <= unsigned64(n)
            < 0x1_0000_0000_0000_0000 && signed64(unsigned64(n)) == n,
{
}

/// A C string is what stands before the first zero.
pub proof fn law_cstr(s: Seq<u8>, at: int, n: int)
    requires
        0 <= at,
        0 <= n,
        at + n < s.len(),
        s[at + n] == 0,
        forall|i: int| at <= i < at + n ==> #[trigger] s[i] != 0,
    ensures
        cstr_len(s, at) == n,
        cstr(s, at) == s.subrange(at, at + n),
{
    lemma_cstr_len_is(s, at, n as nat);
}

/// What is stored is read at its place, and nothing else changes.
pub proof fn law_overlay(s: Seq<u8>, at: int, data: Seq<u8>, i: int)
    requires
        0 <= i < s.len(),
    ensures
        overlay(s, at, data).len() == s.len(),
        at <= i < at + data.len() ==> overlay(s, at, data)[i] == data[i - at],
        i < at || at + data.len() <= i ==> overlay(s, at, data)[i] == s[i],
{
}

/// A request is rounded up to the next multiple of 16, and nothing takes 16
/// bytes.
pub proof fn law_heap_size(size: int)
    ensures
        heap_size(size) % 16 == 0,
        size > 0 ==> size <= heap_size(size) < size + 16,
        size <= 0 ==> heap_size(size) == 16,
{
}

/// What a guest function answered is found by the function and its arguments, the
/// first answer of all.
pub proof fn law_answers(
    answers: Seq<GuestAnswer>,
    func: u32,
    arg0: u32,
    arg1: u32,
    from: int,
    k: int,
)
    requires
        0 <= from <= k <= answers.len(),
        k < answers.len() ==> answers[k].func == func && answers[k].arg0 == arg0 && answers[k].arg1
            == arg1,
        forall|j: int|
            from <= j < k ==> (#[trigger] answers[j]).func != func || answers[j].arg0 != arg0
                || answers[j].arg1 != arg1,
    ensures
        answer_from(answers, func, arg0, arg1, from) == if k < answers.len() {
            Some(answers[k].ret)
        } else {
            None
        },
    decreases k - from,
{
    if from < k {
        law_answers(answers, func, arg0, arg1, from + 1, k);
    }
}

/// A number is written in decimal digits: ten times a number and a digit more is
/// the number with that digit behind it.
pub proof fn law_decimal(n: nat, d: nat)
    requires
        d < 10,
    ensures
        decimal(d) == seq![(0x30 + d) as u8],
        n > 0 ==> decimal(10 * n + d) == decimal(n).push((0x30 + d) as u8),
{
    assert((10 * n + d) / 10 == n);
    assert((10 * n + d) % 10 == d);
}

/// The value of a digit in lower case.
pub open spec fn hex_value(c: u8) -> int {
    if 0x30 <= c <= 0x39 {
        c - 0x30
    } else if 0x61 <= c <= 0x66 {
        c - 0x61 + 10
    } else {
        -1
    }
}

/// The number that hexadecimal digits write.
pub open spec fn hex_number(s: Seq<u8>) -> int
    decreases s.len(),
{
    if s.len() == 0 {
        0
    } else {
        16 * hex_number(s.drop_last()) + hex_value(s.last())
    }
}

/// Sixteen to the power of `n`.
spec fn sixteens(n: nat) -> int
    decreases n,
{
    if n == 0 {
        1
    } else {
        16 * sixteens((n - 1) as nat)
    }
}

proof fn lemma_hex(v: int, n: nat)
    requires
        0 <= v,
    ensures
        hex_digits(v, n).len() == n,
        forall|i: int| 0 <= i < n ==> 0 <= hex_value(#[trigger] hex_digits(v, n)[i]) < 16,
        v < sixteens(n) ==> hex_number(hex_digits(v, n)) == v,
    decreases n,
{
    if n > 0 {
        let m = (n - 1) as nat;
        lemma_hex(v / 16, m);
        let front = hex_digits(v / 16, m);
        let all = hex_digits(v, n);
        assert(all.drop_last() =~= front);
        assert(hex_value(low_hex_digit(v % 16)) == v % 16);
        assert forall|i: int| 0 <= i < n implies 0 <= hex_value(#[trigger] all[i]) < 16 by {
            if i < m {
                assert(all[i] == front[i]);
            }
        }
    }
}

/// A word is written in eight hexadecimal digits in lower case, which stand for
/// it.
pub proof fn law_hex8(v: u32)
    ensures
        hex8(v).len() == 8,
        hex_number(hex8(v)) == v,
        forall|i: int| 0 <= i < 8 ==> 0 <= hex_value(#[trigger] hex8(v)[i]) < 16,
{
    lemma_hex(v as int, 8);
    reveal_with_fuel(sixteens, 9);
    assert(sixteens(8) == 0x1_0000_0000);
}

/// A byte that can be printed is shown as itself, and any other as a point.
pub proof fn law_shown(b: u8)
    ensures
        0x20 <= b < 0x7f ==> shown(b) == b,
        b < 0x20 || b >= 0x7f ==> shown(b) == 0x2e,
{
}

/// A stack is shown in lines of four bytes each, from the lowest address on.
pub proof fn law_stack_lines(mem: Mem, from: int, end: int)
    ensures
        from > end ==> stack_lines(mem, from, end).len() == 0,
        from <= end ==> stack_lines(mem, from, end) == stack_line(mem, from) + stack_lines(
            mem,
            from + 4,
            end,
        ),
{
}

/// A property lies at its offset from the object, counted round at the end of
/// the addresses.
pub proof fn law_property_at(object: int, offset: int)
    requires
        0 <= object < 0x1_0000_0000,
        -0x8000_0000 <= offset < 0x8000_0000,
        -0x8000_0000 <= signed32(object) + offset < 0x8000_0000,
    ensures
        0 <= property_at(object, offset) < 0x1_0000_0000,
        property_at(object, offset) == object + offset || property_at(object, offset) == object
            + offset + 0x1_0000_0000 || property_at(object, offset) == object + offset
            - 0x1_0000_0000,
{
}

} // verus!
