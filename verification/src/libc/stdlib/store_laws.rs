//! What calls of the standard library leave in memory, byte by byte, and what
//! they take the text of the guest for.
use vstd::prelude::*;
use vstd::utf8::{decode_utf8, encode_utf8, valid_utf8};

use crate::environment::Environment;
use crate::heap::lemma_chunk_added;
use crate::libc::stdlib::allocation::{align_up, base_noted, memalign_done, valloc_done};
use crate::libc::stdlib::arith::{or_zero, remainder_stored};
use crate::libc::stdlib::call_laws::{law_align_up, unused};
use crate::libc::stdlib::convert::{is_wide_text, wcstoul_done, wide_at};
use crate::libc::stdlib::files::{
    command_text, list_cleared, message_text, path_and_size_stored,
};
use crate::libc::stdlib::ints::parse_done;
use crate::libc::stdlib::ints_laws::{
    all_blank, base_fits, ends_number, is_sign, law_strtoul, text_reads, writes,
};
use crate::libc::stdlib::numbers::{if_negative, word_stored};
use crate::libc::stdlib::random::{law_xsubi_roundtrip, next_xsubi, xsubi_at, xsubi_stepped};
use crate::mem::{
    heap_size, law_store_load_cstr, le_bytes, le_u32, lemma_le_bytes_4, signed32, Chunk, Mem,
};

verus! {

/// The bytes outside of the `n` at `p` are what they were.
pub open spec fn kept_outside(before: Mem, after: Mem, p: int, n: int) -> bool {
    forall|i: int|
        0 <= i < before@.len() && !(p <= i < p + n) ==> #[trigger] after@[i] == before@[i]
}

proof fn lemma_word(before: Mem, after: Mem, p: int, v: int)
    requires
        0 <= v <= 0xffff_ffff,
        0 <= p,
        p + 4 <= before@.len(),
        after.stored(before, p, le_bytes(v, 4)),
    ensures
        le_u32(after@, p) == v,
        kept_outside(before, after, p, 4),
        after@.len() == before@.len(),
{
    lemma_le_bytes_4(v);
}

/// A remainder is stored in a word of its own, and nowhere where there is no
/// place for it.
pub proof fn law_remainder_stored(before: Environment, after: Environment, ptr: int, value: int)
    requires
        0 <= value <= 0xffff_ffff,
        ptr != 0 ==> before.mem.valid(ptr, 4),
        remainder_stored(before, after, ptr, value),
    ensures
        ptr == 0 ==> after == before,
        ptr != 0 ==> le_u32(after.mem@, ptr) == value && kept_outside(
            before.mem,
            after.mem,
            ptr,
            4,
        ),
        after.libc_state == before.libc_state,
{
    if ptr != 0 {
        lemma_word(before.mem, after.mem, ptr, value);
    }
}

/// What is divided by zero is zero, and what is divided by anything else is what
/// it is.
pub proof fn law_or_zero(b: int, value: int)
    ensures
        or_zero(0, value) == 0,
        b != 0 ==> or_zero(b, value) == value,
{
}

/// A number with a sign is stored in a word of its own, and nowhere where there is
/// no place for it. A sign counts as one.
pub proof fn law_word_stored(before: Mem, after: Mem, ptr: int, value: int)
    requires
        -0x8000_0000 <= value < 0x8000_0000,
        ptr != 0 ==> before.valid(ptr, 4),
        word_stored(before, after, ptr, value),
    ensures
        ptr == 0 ==> after == before,
        ptr != 0 ==> signed32(le_u32(after@, ptr)) == value && kept_outside(before, after, ptr, 4),
        if_negative(true) == 1,
        if_negative(false) == 0,
{
    if ptr != 0 {
        let v = if value < 0 {
            value + 0x1_0000_0000
        } else {
            value
        };
        lemma_word(before, after, ptr, v);
    }
}

/// A path is stored with a zero behind it, and then how many bytes that makes.
pub proof fn law_path_and_size(before: Mem, after: Mem, buf: int, size: int, path: Seq<u8>)
    requires
        before.valid(buf, path.len() as int + 1),
        before.valid(size, 4),
        size + 4 <= buf || buf + path.len() + 1 <= size,
        path.len() < 0xffff_ffff,
        path_and_size_stored(before, after, buf, size, path),
    ensures
        le_u32(after@, size) == path.len() + 1,
        forall|i: int| 0 <= i < path.len() ==> after@[buf + i] == #[trigger] path[i],
        after@[buf + path.len()] == 0,
        forall|i: int|
            0 <= i < before@.len() && !(buf <= i < buf + path.len() + 1) && !(size <= i < size + 4)
                ==> #[trigger] after@[i] == before@[i],
{
    let mid = choose|mid: Mem| #[trigger]
        mid.stored(before, buf, path.push(0)) && after.stored(
            mid,
            size,
            le_bytes(path.len() as int + 1, 4),
        );
    lemma_word(mid, after, size, path.len() as int + 1);
    assert forall|i: int| 0 <= i < path.len() implies after@[buf + i] == #[trigger] path[i] by {
        assert(mid@[buf + i] == path.push(0)[i]);
        assert(after@[buf + i] == mid@[buf + i]);
    }
    assert(mid@[buf + path.len()] == path.push(0)[path.len() as int]);
    assert(after@[buf + path.len()] == mid@[buf + path.len()]);
}

/// A list without entries is one zero byte, where there is room for it.
pub proof fn law_list_cleared(before: Environment, after: Environment, namebuf: int, size: int)
    requires
        namebuf != 0 && size > 0 ==> before.mem.valid(namebuf, 1),
        list_cleared(before, after, namebuf, size),
    ensures
        namebuf == 0 || size <= 0 ==> after == before,
        namebuf != 0 && size > 0 ==> after.mem@[namebuf] == 0 && kept_outside(
            before.mem,
            after.mem,
            namebuf,
            1,
        ),
{
}

/// What a message says of a C string: the text, `(null)` where there is none, and
/// `(invalid utf-8)` where it is no text. A command that is no text counts as
/// empty.
pub proof fn law_message_text(mem: Mem, ptr: int)
    ensures
        ptr == 0 ==> message_text(mem, ptr) == seq!['(', 'n', 'u', 'l', 'l', ')'],
        ptr != 0 && valid_utf8(mem.cstr(ptr)) ==> message_text(mem, ptr) == decode_utf8(
            mem.cstr(ptr),
        ),
        ptr != 0 && !valid_utf8(mem.cstr(ptr)) ==> message_text(mem, ptr) == seq![
            '(',
            'i',
            'n',
            'v',
            'a',
            'l',
            'i',
            'd',
            ' ',
            'u',
            't',
            'f',
            '-',
            '8',
            ')',
        ],
        valid_utf8(mem.cstr(ptr)) ==> command_text(mem, ptr) == decode_utf8(mem.cstr(ptr)),
        !valid_utf8(mem.cstr(ptr)) ==> command_text(mem, ptr).len() == 0,
{
    reveal_strlit("(null)");
    reveal_strlit("(invalid utf-8)");
    assert("(null)"@ =~= seq!['(', 'n', 'u', 'l', 'l', ')']);
    assert("(invalid utf-8)"@ =~= seq![
        '(',
        'i',
        'n',
        'v',
        'a',
        'l',
        'i',
        'd',
        ' ',
        'u',
        't',
        'f',
        '-',
        '8',
        ')',
    ]);
}

/// The generator whose 48 bits lie in memory has its next number there afterwards,
/// and so has the one that takes the second step.
pub proof fn law_xsubi_steps(before: Environment, after: Environment, xsubi: int)
    requires
        before.mem.valid(xsubi, 6),
        xsubi_stepped(before, after, xsubi),
    ensures
        ({
            let b = before.mem@;
            let a = after.mem@;
            let x = b[xsubi] + 0x100 * b[xsubi + 1] + 0x1_0000 * b[xsubi + 2] + 0x100_0000
                * b[xsubi + 3] + 0x1_0000_0000 * b[xsubi + 4] + 0x100_0000_0000 * b[xsubi + 5];
            let y = a[xsubi] + 0x100 * a[xsubi + 1] + 0x1_0000 * a[xsubi + 2] + 0x100_0000
                * a[xsubi + 3] + 0x1_0000_0000 * a[xsubi + 4] + 0x100_0000_0000 * a[xsubi + 5];
            let d = before.libc_state.stdlib.drand48;
            y == (d.a * x + d.c) % 0x1_0000_0000_0000
        }),
        kept_outside(before.mem, after.mem, xsubi, 6),
        after.libc_state == before.libc_state,
{
    let b = before.mem@;
    let x = b[xsubi] + 0x100 * b[xsubi + 1] + 0x1_0000 * b[xsubi + 2] + 0x100_0000 * b[xsubi + 3]
        + 0x1_0000_0000 * b[xsubi + 4] + 0x100_0000_0000 * b[xsubi + 5];
    assert(xsubi_at(before.mem, xsubi) == x);
    let next = next_xsubi(before, xsubi);
    law_xsubi_roundtrip(before.mem, after.mem, xsubi, next);
    crate::mem::lemma_le_bytes_len(next, 6);
}

/// A larger alignment than every chunk has: the address that is stored is a
/// multiple of it, what was asked for fits behind it, and none of it was in use.
pub proof fn law_memalign_large(
    before: Environment,
    after: Environment,
    memptr: int,
    alignment: int,
    size: int,
    r: int,
)
    requires
        before.mem@.len() <= 0xffff_ffff,
        16 < alignment,
        0 <= size,
        0 < memptr,
        memptr + 4 <= before.mem@.len(),
        memalign_done(before, after, memptr, alignment, size, r),
        r == 0,
    ensures
        ({
            let p = le_u32(after.mem@, memptr);
            &&& p % alignment == 0
            &&& p > 0
            &&& p + size <= before.mem@.len()
            &&& unused(before.mem, p, size)
            &&& memptr + 4 <= p - 4 || p <= memptr ==> after.mem.allocated(
                le_u32(after.mem@, p - 4),
            )
        }),
{
    let (raw, allocated, marked) = choose|raw: u32, allocated: Mem, marked: Mem|
        {
            &&& r == 0
            &&& after == before.with_mem(after.mem)
            &&& #[trigger] allocated.taken(before.mem, raw, size + alignment + 4)
            &&& #[trigger] base_noted(allocated, marked, raw, alignment)
            &&& after.mem.stored(marked, memptr, le_bytes(align_up(raw + 4, alignment), 4))
        };
    let n = size + alignment + 4;
    let p = align_up(raw + 4, alignment);
    law_align_up(raw + 4, alignment);
    lemma_chunk_added(before.mem, allocated, raw, n);
    let whole = heap_size(n);
    assert(whole >= n);
    let len = before.mem.bytes.len();
    assert(before.mem@.len() == len);
    assert(raw + n <= before.mem@.len());
    assert(0 <= p - 4 && p + size <= raw + n);
    lemma_word(allocated, marked, p - 4, raw as int);
    lemma_word(marked, after.mem, memptr, p);
    assert forall|c: Chunk| #[trigger] before.mem.chunks@.contains(c) implies p + size <= c.base
        || c.base + c.size <= p by {
        let i = choose|i: int| 0 <= i < before.mem.chunks@.len() && before.mem.chunks@[i] == c;
        assert(before.mem.chunks@[i] == c);
    }
    if memptr + 4 <= p - 4 || p <= memptr {
        assert(le_u32(after.mem@, p - 4) == le_u32(marked@, p - 4));
        assert(after.mem.chunks == allocated.chunks);
        let k = choose|k: int|
            0 <= k < allocated.chunks@.len() && allocated.chunks@[k] == (Chunk {
                base: raw,
                size: heap_size(n) as u32,
            });
        assert(after.mem.chunks@[k].base == raw);
    }
}

/// What `valloc` gives is null or the start of a page of 4096 bytes.
pub proof fn law_valloc(before: Environment, after: Environment, size: int, r: int)
    requires
        before.wf(),
        0 <= size,
        valloc_done(before, after, size, r),
    ensures
        r % 0x1000 == 0,
        !before.mem.has_room(4) ==> r == 0 && after == before,
{
    if before.mem.has_room(4) {
        let (held, done, out, rc) = choose|
            held: Environment,
            done: Environment,
            out: u32,
            rc: int,
        |
            {
                &&& held == before.with_mem(held.mem)
                &&& #[trigger] held.mem.taken(before.mem, out, 4)
                &&& #[trigger] memalign_done(held, done, out as int, 0x1000, size, rc)
                &&& after == done.with_mem(after.mem)
                &&& after.mem.released(done.mem, out)
                &&& r == if rc == 0 {
                    le_u32(done.mem@, out as int)
                } else {
                    0
                }
            };
        if rc == 0 {
            assert(heap_size(4) >= 4);
            assert(0 < out && out + 4 <= before.mem@.len());
            law_memalign_large(held, done, out as int, 0x1000, size, rc);
        }
    }
}

/// The wide text at an address: each character in a word of its own, and a zero
/// behind them.
pub proof fn law_wide_words(mem: Mem, ptr: int, text: Seq<char>)
    requires
        is_wide_text(mem, ptr, text),
    ensures
        forall|i: int|
            0 <= i < text.len() ==> le_u32(mem@, ptr + 4 * i) == (#[trigger] text[i]) as u32
                && text[i] as u32 != 0,
        le_u32(mem@, ptr + 4 * text.len()) == 0,
{
    assert forall|i: int| 0 <= i < text.len() implies le_u32(mem@, ptr + 4 * i) == (
    #[trigger] text[i]) as u32 && text[i] as u32 != 0 by {
        assert(text[i] as u32 == wide_at(mem, ptr, i));
    }
    assert(wide_at(mem, ptr, text.len() as int) == 0);
}

/// `wcstoul` reads the number that a wide text starts with, as `strtoul` reads it
/// of the same text in bytes.
pub proof fn law_wcstoul(
    before: Environment,
    after: Environment,
    text: Seq<char>,
    blanks: Seq<u8>,
    sign: Seq<u8>,
    prefix: Seq<u8>,
    t: Seq<u8>,
    rest: Seq<u8>,
    asked: int,
    base: int,
    n: int,
    r: u32,
)
    requires
        before.wf(),
        wcstoul_done(before, after, text, asked, r),
        encode_utf8(text) == blanks + sign + prefix + t + rest,
        forall|i: int| 0 <= i < encode_utf8(text).len() ==> #[trigger] encode_utf8(text)[i] != 0,
        all_blank(blanks),
        is_sign(sign),
        2 <= base <= 36,
        base_fits(asked, base, prefix, t, rest.push(0)),
        writes(t, n, base),
        ends_number(rest.push(0), base),
    ensures
        r == (if sign == seq![0x2du8] && n > 0 {
            0x1_0000_0000 - if n > 0xffff_ffff {
                0xffff_ffff
            } else {
                n
            }
        } else if n > 0xffff_ffff {
            0xffff_ffff
        } else {
            n
        }),
        after.mem@.len() == before.mem@.len(),
{
    let bytes = encode_utf8(text);
    let (copied, parsed, ptr) = choose|copied: Environment, parsed: Environment, ptr: u32|
        {
            &&& copied == before.with_mem(copied.mem)
            &&& #[trigger] copied.mem.placed(before.mem, ptr, bytes.push(0))
            &&& #[trigger] parse_done::<u32>(copied, parsed, ptr as int, 0, asked, r)
            &&& after == parsed.with_mem(after.mem)
            &&& after.mem.released(parsed.mem, ptr)
        };
    assert(heap_size(bytes.len() as int + 1) >= bytes.len() + 1);
    assert(ptr > 0 && ptr + bytes.len() + 1 <= before.mem@.len());
    law_store_load_cstr(before.mem@, ptr as int, bytes);
    assert(text_reads(copied, ptr as int, blanks, sign, prefix, t, rest, asked, base, n));
    law_strtoul(copied, parsed, ptr as int, 0, blanks, sign, prefix, t, rest, asked, base, n, r);
}

} // verus!
