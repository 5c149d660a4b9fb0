//! What the names are made of that are made up: of temporary files and of
//! identifiers.
use vstd::prelude::*;

use crate::environment::Environment;
use crate::libc::stdlib::random::random_after;
use crate::libc::stdlib::temp::{
    mkdtemp_done, mkstemp_done, mktemp_char, suffix_filled, suffix_of, template_fill,
    template_ready,
};
use crate::libc::stdlib::uuid::{byte_of, hex_digit, uuid_bytes, uuid_text};

verus! {

/// The character for a random number: one of the 62 letters and digits, the
/// capital letters first and the digits last, each for one remainder.
pub proof fn law_template_character(r: u32)
    ensures
        ({
            let k = r % 62;
            let c = mktemp_char(r);
            &&& k < 26 ==> c == 'A' as u8 + k
            &&& 26 <= k < 52 ==> c == 'a' as u8 + (k - 26)
            &&& 52 <= k ==> c == '0' as u8 + (k - 52)
        }),
{
}

/// A template is filled with six characters, for the next six random numbers in
/// order.
pub proof fn law_template_filled(before: Environment, after: Environment, at: int, i: int)
    requires
        0 <= at,
        at + 6 <= before.mem@.len(),
        0 <= i < 6,
        suffix_filled(before, after, at),
    ensures
        after.mem@[at + i] == mktemp_char(
            random_after(before.libc_state.stdlib.arc4random, (i + 1) as nat),
        ),
        after.libc_state.stdlib.arc4random == random_after(
            before.libc_state.stdlib.arc4random,
            6,
        ),
        forall|j: int|
            0 <= j < before.mem@.len() && !(at <= j < at + 6) ==> #[trigger] after.mem@[j]
                == before.mem@[j],
{
    let fill = template_fill(before.libc_state.stdlib.arc4random);
    assert(fill.len() == 6);
    assert(after.mem@[at + i] == fill[i]);
}

/// A template ends in six capital `X`, which are what is filled; anything else is
/// refused with `EINVAL` (22), and nothing else changes.
pub proof fn law_template(before: Environment, after: Environment, template: int, r: int)
    requires
        mkstemp_done(before, after, template, r) || mkdtemp_done(before, after, template, r),
    ensures
        ({
            let s = before.mem.cstr(template);
            let marked = s.len() >= 6 && s[s.len() - 1] == 'X' as u8 && s[s.len() - 2] == 'X' as u8
                && s[s.len() - 3] == 'X' as u8 && s[s.len() - 4] == 'X' as u8 && s[s.len() - 5]
                == 'X' as u8 && s[s.len() - 6] == 'X' as u8;
            !marked ==> {
                &&& r == -1 || r == 0
                &&& after.libc_state.errno.value == 22
                &&& after.mem == before.mem
                &&& after.fs == before.fs
            }
        }),
        before.mem.valid_cstr(template) ==> suffix_of(before.mem, template) + 6 == template
            + before.mem.cstr(template).len(),
{
    let s = before.mem.cstr(template);
    if template_ready(before.mem, template) {
        assert(s[s.len() - 1] == 0x58 && s[s.len() - 2] == 0x58 && s[s.len() - 3] == 0x58 && s[
        s.len() - 4] == 0x58 && s[s.len() - 5] == 0x58 && s[s.len() - 6] == 0x58);
    }
}

/// The bytes of a word, the lowest first, make it up.
pub proof fn law_bytes_of(v: u32)
    ensures
        byte_of(v, 0) + 0x100 * byte_of(v, 1) + 0x1_0000 * byte_of(v, 2) + 0x100_0000 * byte_of(
            v,
            3,
        ) == v,
{
}

/// The bytes of an identifier are those of the next four random numbers, but
/// that the seventh says version 4 in its high half and the ninth has the two
/// high bits 1 and 0.
pub proof fn law_identifier_bytes(state: u32, i: int)
    requires
        0 <= i < 16,
    ensures
        ({
            let b = uuid_bytes(state);
            let word = random_after(state, (i / 4 + 1) as nat);
            &&& b.len() == 16
            &&& i != 6 && i != 8 ==> b[i] == byte_of(word, i % 4)
            &&& i == 6 ==> b[i] / 16 == 4 && b[i] % 16 == byte_of(word, 2) % 16
            &&& i == 8 ==> b[i] / 64 == 2 && b[i] % 64 == byte_of(word, 0) % 64
        }),
{
}

/// The value of a hexadecimal digit.
pub open spec fn digit(c: u8) -> int {
    if 0x30 <= c <= 0x39 {
        c - 0x30
    } else if 0x41 <= c <= 0x46 {
        c - 0x41 + 10
    } else {
        -1
    }
}

/// Where the first digit of the byte number `i` stands in an identifier: behind
/// two digits for each byte before it, and the dashes behind the fourth, sixth,
/// eighth and tenth byte.
pub open spec fn digit_place(i: int) -> int {
    2 * i + (if i >= 4 {
        1int
    } else {
        0
    }) + (if i >= 6 {
        1int
    } else {
        0
    }) + (if i >= 8 {
        1int
    } else {
        0
    }) + (if i >= 10 {
        1int
    } else {
        0
    })
}

/// An identifier is written in 36 characters: two capital hexadecimal digits for
/// each byte, the high half first, in groups of 8, 4, 4, 4 and 12 with dashes
/// between them.
pub proof fn law_identifier_text(bytes: Seq<u8>, i: int)
    requires
        bytes.len() == 16,
        0 <= i < 16,
    ensures
        ({
            let t = uuid_text(bytes, 16);
            &&& t.len() == 36
            &&& 16 * digit(t[digit_place(i)]) + digit(t[digit_place(i) + 1]) == bytes[i]
            &&& 0 <= digit(t[digit_place(i) + 1]) < 16
            &&& t[8] == 0x2d && t[13] == 0x2d && t[18] == 0x2d && t[23] == 0x2d
        }),
{
    lemma_text(bytes, 16, i);
    lemma_dashes(bytes, 16);
}

proof fn lemma_text(bytes: Seq<u8>, n: int, i: int)
    requires
        bytes.len() == 16,
        0 <= i < n <= 16,
    ensures
        uuid_text(bytes, n).len() == digit_place(n - 1) + 2,
        uuid_text(bytes, n)[digit_place(i)] == hex_digit(bytes[i] as int / 16),
        uuid_text(bytes, n)[digit_place(i) + 1] == hex_digit(bytes[i] as int % 16),
        16 * digit(hex_digit(bytes[i] as int / 16)) + digit(hex_digit(bytes[i] as int % 16))
            == bytes[i],
    decreases n,
{
    if n > 1 {
        lemma_text(bytes, n - 1, if i < n - 1 {
            i
        } else {
            0
        });
    } else {
        assert(uuid_text(bytes, 0) =~= Seq::empty());
    }
}

proof fn lemma_dashes(bytes: Seq<u8>, n: int)
    requires
        bytes.len() == 16,
        1 <= n <= 16,
    ensures
        uuid_text(bytes, n).len() == digit_place(n - 1) + 2,
        n > 4 ==> uuid_text(bytes, n)[8] == 0x2d,
        n > 6 ==> uuid_text(bytes, n)[13] == 0x2d,
        n > 8 ==> uuid_text(bytes, n)[18] == 0x2d,
        n > 10 ==> uuid_text(bytes, n)[23] == 0x2d,
    decreases n,
{
    if n > 1 {
        lemma_dashes(bytes, n - 1);
    } else {
        assert(uuid_text(bytes, 0) =~= Seq::empty());
    }
}

} // verus!
