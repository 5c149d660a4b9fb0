//! Multibyte and wide characters.
use vstd::prelude::*;
use vstd::utf8::{encode_scalar, encode_utf8, is_scalar};

use crate::environment::Environment;
use crate::libc::errno::set_errno;
use crate::libc::stdlib::ints::{parse_done, strtoul};
use crate::mem::{
    le_bytes, le_u32, lemma_le_bytes_len, overlay, ConstPtr, ConstVoidPtr, GuestUSize, Mem, MutPtr,
};
use crate::text::{char_of, utf8_bytes};

verus! {

/// How many bytes follow a first byte that is not ASCII.
pub open spec fn extra_bytes(first: u8) -> Option<int> {
    if 0xc0 <= first <= 0xdf {
        Some(1)
    } else if 0xe0 <= first <= 0xef {
        Some(2)
    } else if 0xf0 <= first <= 0xf7 {
        Some(3)
    } else {
        None
    }
}

/// The bits that the first byte holds of a character.
pub open spec fn first_bits(first: u8) -> int {
    if first <= 0xdf {
        first - 0xc0
    } else if first <= 0xef {
        first - 0xe0
    } else {
        first - 0xf0
    }
}

pub open spec fn is_continuation(b: u8) -> bool {
    0x80 <= b <= 0xbf
}

/// The character of a first byte and `k` bytes that follow it.
pub open spec fn joined_bits(s: Seq<u8>, k: int) -> int
    decreases k,
{
    if k <= 0 {
        first_bits(s[0])
    } else {
        joined_bits(s, k - 1) * 64 + (s[k] - 0x80)
    }
}

/// The character that `s` starts with, and how many bytes it takes; a NUL takes
/// none.
pub open spec fn multibyte(s: Seq<u8>) -> Option<(int, int)> {
    if s.len() == 0 {
        None
    } else if s[0] == 0 {
        Some((0, 0))
    } else if s[0] < 0x80 {
        Some((s[0] as int, 1))
    } else {
        match extra_bytes(s[0]) {
            None => None,
            Some(k) => if s.len() < k + 1 || !(forall|i: int|
                1 <= i <= k ==> is_continuation(#[trigger] s[i])) {
                None
            } else {
                Some((joined_bits(s, k), k + 1))
            },
        }
    }
}

/// What UTF-8 encodes a character as is read as that character.
pub proof fn law_multibyte_reads_utf8(c: char)
    requires
        (c as u32) != 0,
    ensures
        multibyte(encode_scalar(c as u32)) == Some(
            ((c as u32) as int, encode_scalar(c as u32).len() as int),
        ),
{
    let v = c as u32;
    let s = encode_scalar(v);
    vstd::utf8::char_is_scalar(c);
    reveal_with_fuel(joined_bits, 4);
    if v <= 0x7f {
        assert((v & 0x7f) as u8 == v as u8) by (bit_vector)
            requires
                v <= 0x7f,
        ;
    } else if v <= 0x7ff {
        let a = 0xc0u8 | ((v >> 6u32) & 0x1f) as u8;
        let b = 0x80u8 | (v & 0x3f) as u8;
        assert(s[0] == a && s[1] == b);
        assert(0xc0 <= a <= 0xdf && 0x80 <= b <= 0xbf && v == ((a - 0xc0) as u32) * 64 + (b - 0x80))
            by (bit_vector)
            requires
                0x80 <= v <= 0x7ff,
                a == 0xc0u8 | ((v >> 6u32) & 0x1f) as u8,
                b == 0x80u8 | (v & 0x3f) as u8,
        ;
        assert(forall|i: int| 1 <= i <= 1 ==> is_continuation(#[trigger] s[i]));
    } else if v <= 0xffff {
        let a = 0xe0u8 | ((v >> 12u32) & 0xf) as u8;
        let b = 0x80u8 | ((v >> 6u32) & 0x3f) as u8;
        let d = 0x80u8 | (v & 0x3f) as u8;
        assert(s[0] == a && s[1] == b && s[2] == d);
        assert(0xe0 <= a <= 0xef && 0x80 <= b <= 0xbf && 0x80 <= d <= 0xbf && v == ((a
            - 0xe0) as u32) * 4096 + ((b - 0x80) as u32) * 64 + (d - 0x80)) by (bit_vector)
            requires
                0x800 <= v <= 0xffff,
                a == 0xe0u8 | ((v >> 12u32) & 0xf) as u8,
                b == 0x80u8 | ((v >> 6u32) & 0x3f) as u8,
                d == 0x80u8 | (v & 0x3f) as u8,
        ;
        assert(forall|i: int| 1 <= i <= 2 ==> is_continuation(#[trigger] s[i]));
    } else {
        let a = 0xf0u8 | ((v >> 18u32) & 0x7) as u8;
        let b = 0x80u8 | ((v >> 12u32) & 0x3f) as u8;
        let d = 0x80u8 | ((v >> 6u32) & 0x3f) as u8;
        let e = 0x80u8 | (v & 0x3f) as u8;
        assert(s[0] == a && s[1] == b && s[2] == d && s[3] == e);
        assert(0xf0 <= a <= 0xf7 && 0x80 <= b <= 0xbf && 0x80 <= d <= 0xbf && 0x80 <= e <= 0xbf && v
            == ((a - 0xf0) as u32) * 262144 + ((b - 0x80) as u32) * 4096 + ((d - 0x80) as u32) * 64
            + (e - 0x80)) by (bit_vector)
            requires
                0x1_0000 <= v <= 0x10_ffff,
                a == 0xf0u8 | ((v >> 18u32) & 0x7) as u8,
                b == 0x80u8 | ((v >> 12u32) & 0x3f) as u8,
                d == 0x80u8 | ((v >> 6u32) & 0x3f) as u8,
                e == 0x80u8 | (v & 0x3f) as u8,
        ;
        assert(forall|i: int| 1 <= i <= 3 ==> is_continuation(#[trigger] s[i]));
    }
}

/// How many bytes `mbtowc_l` looks at when `n` may be looked at.
pub open spec fn multibyte_window(mem: Mem, s: int, n: int) -> int {
    let first = mem@[s];
    match extra_bytes(first) {
        Some(k) => if first >= 0x80 && n >= k + 1 {
            k + 1
        } else {
            1
        },
        None => 1,
    }
}

/// What `mbtowc_l` does.
pub open spec fn mbtowc_done(
    before: Environment,
    after: Environment,
    pwc: int,
    s: int,
    n: int,
    r: int,
) -> bool {
    if s == 0 {
        r == 0 && after == before
    } else if n == 0 {
        r == -1 && after == before
    } else {
        match multibyte(before.mem@.subrange(s, s + multibyte_window(before.mem, s, n))) {
            None => r == -1 && after == before,
            Some((code, len)) => {
                &&& r == len
                &&& if pwc == 0 {
                    after == before
                } else {
                    &&& after == before.with_mem(after.mem)
                    &&& after.mem.stored(before.mem, pwc, le_bytes(code, 4))
                }
            },
        }
    }
}

/// The character at `s`, of which `window` bytes are looked at.
fn read_multibyte(mem: &Mem, s: ConstPtr, n: GuestUSize) -> (r: Option<(u32, i32)>)
    requires
        mem.wf(),
        n > 0,
        mem.valid(s as int, 1),
        mem.valid(s as int, multibyte_window(*mem, s as int, n as int)),
    ensures
        match multibyte(mem@.subrange(s as int, s + multibyte_window(*mem, s as int, n as int))) {
            None => r is None,
            Some((code, len)) => r matches Some((c, l)) && c == code && l == len,
        },
{
    let ghost window = multibyte_window(*mem, s as int, n as int);
    let ghost bytes = mem@.subrange(s as int, s + window);
    let first: u8 = mem.read_u8(s);
    assert(bytes[0] == first);
    if first == 0 {
        return Some((0, 0));
    }
    if first < 0x80 {
        return Some((first as u32, 1));
    }
    let (bits, extra): (u32, u32) = if 0xc0 <= first && first <= 0xdf {
        ((first - 0xc0) as u32, 1)
    } else if 0xe0 <= first && first <= 0xef {
        ((first - 0xe0) as u32, 2)
    } else if 0xf0 <= first && first <= 0xf7 {
        ((first - 0xf0) as u32, 3)
    } else {
        return None;
    };
    if n < extra + 1 {
        return None;
    }
    let mut code: u32 = bits;
    let mut i: u32 = 1;
    while i <= extra
        invariant
            1 <= i <= extra + 1,
            extra <= 3,
            window == extra + 1,
            mem.wf(),
            mem.valid(s as int, window),
            bytes == mem@.subrange(s as int, s + window),
            bytes[0] >= 0x80,
            extra_bytes(bytes[0]) == Some(extra as int),
            code == joined_bits(bytes, i - 1),
            i == 1 ==> code <= 0x1f,
            i == 2 ==> code <= 0x7ff,
            i == 3 ==> code <= 0x1_ffff,
            i == 4 ==> code <= 0x7f_ffff,
            forall|k: int| 1 <= k < i ==> is_continuation(#[trigger] bytes[k]),
        decreases extra + 1 - i,
    {
        let next: u8 = mem.read_u8(s + i);
        assert(bytes[i as int] == next);
        if next < 0x80 || next > 0xbf {
            return None;
        }
        code = code * 64 + (next - 0x80) as u32;
        i = i + 1;
    }
    Some((code, (extra + 1) as i32))
}

/// `int mbtowc_l(wchar_t *pwc, const char *s, size_t n, locale_t loc);`
pub fn mbtowc_l(
    env: &mut Environment,
    pwc: MutPtr,
    s: ConstVoidPtr,
    n: GuestUSize,
    _loc: ConstVoidPtr,
) -> (r: i32)
    requires
        old(env).wf(),
        s != 0 && n > 0 ==> {
            &&& old(env).mem.valid(s as int, 1)
            &&& old(env).mem.valid(s as int, multibyte_window(old(env).mem, s as int, n as int))
        },
        pwc != 0 ==> old(env).mem.valid(pwc as int, 4),
    ensures
        final(env).wf(),
        mbtowc_done(*old(env), *final(env), pwc as int, s as int, n as int, r as int),
{
    if s == 0 {
        return 0;
    }
    if n == 0 {
        return -1;
    }
    match read_multibyte(&env.mem, s, n) {
        Some((code, len)) => {
            if pwc != 0 {
                env.mem.write_u32(pwc, code);
            }
            len
        },
        None => -1,
    }
}

/// The bytes of `s`, each as a 32-bit wide character.
pub open spec fn widened(s: Seq<u8>) -> Seq<u8>
    decreases s.len(),
{
    if s.len() == 0 {
        Seq::empty()
    } else {
        widened(s.drop_last()) + le_bytes(s.last() as int, 4)
    }
}

/// What `mbstowcs` stores: up to `n` wide characters, and a NUL where there is
/// room for one.
pub open spec fn wide_text(s: Seq<u8>, n: int) -> Seq<u8> {
    if s.len() < n {
        widened(s.push(0))
    } else {
        widened(s.take(n))
    }
}

proof fn lemma_widened_len(s: Seq<u8>)
    ensures
        widened(s).len() == 4 * s.len(),
    decreases s.len(),
{
    if s.len() > 0 {
        lemma_widened_len(s.drop_last());
        lemma_le_bytes_len(s.last() as int, 4);
    }
}

/// Memory after the first `k` bytes of the string at `s` were copied to wide
/// characters at `pwcs`, one after the other: each is read only when it is
/// copied.
pub open spec fn copied_wide(m: Seq<u8>, pwcs: int, s: int, k: int) -> Seq<u8>
    decreases k,
{
    if k <= 0 {
        m
    } else {
        let before = copied_wide(m, pwcs, s, k - 1);
        overlay(before, pwcs + 4 * (k - 1), le_bytes(before[s + k - 1] as int, 4))
    }
}

/// How many characters `mbstowcs` copies.
pub open spec fn wide_count(text: Seq<u8>, n: int) -> int {
    if text.len() < n {
        text.len() as int
    } else {
        n
    }
}

/// Memory after `mbstowcs`: the characters are copied, and a NUL is stored where
/// there is room for one.
pub open spec fn mbstowcs_memory(m: Seq<u8>, pwcs: int, s: int, text: Seq<u8>, n: int) -> Seq<u8> {
    let k = wide_count(text, n);
    let copied = copied_wide(m, pwcs, s, k);
    if k < n {
        overlay(copied, pwcs + 4 * k, le_bytes(0, 4))
    } else {
        copied
    }
}

/// Where the wide characters do not overlap the string, they are those of the
/// string as it was.
pub proof fn law_mbstowcs_apart(m: Seq<u8>, pwcs: int, s: int, text: Seq<u8>, n: int)
    requires
        0 <= s,
        0 < pwcs,
        s + text.len() <= m.len(),
        text == m.subrange(s, s + text.len()),
        0 <= n,
        n > 0 ==> pwcs + wide_text(text, n).len() <= m.len(),
        pwcs + wide_text(text, n).len() <= s || s + text.len() <= pwcs,
    ensures
        mbstowcs_memory(m, pwcs, s, text, n) == overlay(m, pwcs, wide_text(text, n)),
{
    let k = wide_count(text, n);
    lemma_widened_len(text.push(0));
    lemma_widened_len(text.take(k));
    lemma_copied_apart(m, pwcs, s, text, k);
    let copied = copied_wide(m, pwcs, s, k);
    if k < n {
        assert(text.take(k) =~= text);
        assert(text.push(0).drop_last() =~= text);
        lemma_le_bytes_len(0, 4);
        assert(overlay(copied, pwcs + 4 * k, le_bytes(0, 4)) =~= overlay(
            m,
            pwcs,
            widened(text.push(0)),
        ));
    }
}

proof fn lemma_copied_apart(m: Seq<u8>, pwcs: int, s: int, text: Seq<u8>, k: int)
    requires
        0 <= s,
        0 < pwcs,
        s + text.len() <= m.len(),
        text == m.subrange(s, s + text.len()),
        0 <= k <= text.len(),
        k > 0 ==> pwcs + 4 * k <= m.len(),
        pwcs + 4 * k <= s || s + text.len() <= pwcs,
    ensures
        copied_wide(m, pwcs, s, k) == overlay(m, pwcs, widened(text.take(k))),
    decreases k,
{
    lemma_widened_len(text.take(k));
    if k == 0 {
        assert(overlay(m, pwcs, widened(text.take(0))) =~= m);
    } else {
        lemma_copied_apart(m, pwcs, s, text, k - 1);
        lemma_widened_len(text.take(k - 1));
        let before = copied_wide(m, pwcs, s, k - 1);
        assert(before[s + k - 1] == text[k - 1]);
        assert(text.take(k).drop_last() =~= text.take(k - 1));
        lemma_le_bytes_len(text[k - 1] as int, 4);
        assert(copied_wide(m, pwcs, s, k) =~= overlay(m, pwcs, widened(text.take(k))));
    }
}

/// `size_t mbstowcs(wchar_t *pwcs, const char *s, size_t n);`
pub fn mbstowcs(env: &mut Environment, pwcs: MutPtr, s: ConstPtr, n: GuestUSize) -> (r: GuestUSize)
    requires
        old(env).wf(),
        old(env).libc_state.clocale.is_c(),
        old(env).mem.valid(s as int, 0),
        n > 0 ==> old(env).mem.valid(
            pwcs as int,
            wide_text(old(env).mem.cstr(s as int), n as int).len() as int,
        ),
    ensures
        final(env).wf(),
        ({
            let text = old(env).mem.cstr(s as int);
            &&& *final(env) == old(env).with_errno(0).with_mem(final(env).mem)
            &&& final(env).mem@ == mbstowcs_memory(
                old(env).mem@,
                pwcs as int,
                s as int,
                text,
                n as int,
            )
            &&& final(env).mem.chunks == old(env).mem.chunks
            &&& r == wide_count(text, n as int)
        }),
{
    set_errno(env, 0);
    let size: u32 = env.mem.cstr_len_at(s);
    let to_write: u32 = if size < n {
        size
    } else {
        n
    };
    let ghost m = env.mem@;
    let ghost text = env.mem.cstr(s as int);
    proof {
        lemma_widened_len(text.push(0));
        lemma_widened_len(text.take(wide_count(text, n as int)));
    }
    let mut i: u32 = 0;
    while i < to_write
        invariant
            i <= to_write <= n,
            to_write <= size,
            s + size <= m.len(),
            0 < s,
            to_write > 0 ==> 0 < pwcs && pwcs + 4 * to_write <= m.len() <= u32::MAX,
            env.wf(),
            *env == old(env).with_errno(0).with_mem(env.mem),
            env.mem.chunks == old(env).mem.chunks,
            env.mem@.len() == m.len(),
            env.mem@ == copied_wide(m, pwcs as int, s as int, i as int),
        decreases to_write - i,
    {
        let c: u8 = env.mem.read_u8(s + i);
        env.mem.write_u32(pwcs + 4 * i, c as u32);
        i = i + 1;
    }
    if to_write < n {
        env.mem.write_u32(pwcs + 4 * to_write, 0);
    }
    to_write
}

/// The wide character number `i` of the string at `ptr`.
pub open spec fn wide_at(mem: Mem, ptr: int, i: int) -> int {
    le_u32(mem@, ptr + 4 * i)
}

/// The wide string at `ptr` has `n` characters, each of which is one, and a
/// NUL behind them.
pub open spec fn wide_string(mem: Mem, ptr: int, n: int) -> bool {
    &&& 0 <= n
    &&& mem.valid(ptr, 4 * (n + 1))
    &&& wide_at(mem, ptr, n) == 0
    &&& forall|i: int|
        #![trigger wide_at(mem, ptr, i)]
        0 <= i < n ==> wide_at(mem, ptr, i) != 0 && is_scalar(wide_at(mem, ptr, i) as u32)
}

/// `text` is the wide string at `ptr`.
pub open spec fn is_wide_text(mem: Mem, ptr: int, text: Seq<char>) -> bool {
    &&& wide_string(mem, ptr, text.len() as int)
    &&& forall|i: int|
        0 <= i < text.len() ==> (#[trigger] text[i]) as u32 == wide_at(mem, ptr, i)
}

/// There is one wide string at `ptr`.
pub proof fn lemma_wide_text_unique(mem: Mem, ptr: int, a: Seq<char>, b: Seq<char>)
    requires
        is_wide_text(mem, ptr, a),
        is_wide_text(mem, ptr, b),
    ensures
        a == b,
{
    if a.len() < b.len() {
        assert(wide_at(mem, ptr, a.len() as int) != 0);
    } else if b.len() < a.len() {
        assert(wide_at(mem, ptr, b.len() as int) != 0);
    }
    assert forall|i: int| 0 <= i < a.len() implies a[i] == b[i] by {
        assert(a[i] as u32 == b[i] as u32);
        vstd::utf8::char_u32_cast(a[i], a[i] as u32);
        vstd::utf8::char_u32_cast(b[i], b[i] as u32);
    }
    assert(a =~= b);
}

/// The wide string at `ptr`.
pub fn wcstr_at(mem: &Mem, ptr: ConstPtr) -> (r: Vec<char>)
    requires
        mem.wf(),
        exists|n: int| #[trigger] wide_string(*mem, ptr as int, n),
    ensures
        is_wide_text(*mem, ptr as int, r@),
{
    let ghost n = choose|n: int| #[trigger] wide_string(*mem, ptr as int, n);
    let mut r: Vec<char> = Vec::new();
    let mut i: u32 = 0;
    loop
        invariant
            mem.wf(),
            wide_string(*mem, ptr as int, n),
            0 <= i <= n,
            r@.len() == i,
            forall|k: int|
                0 <= k < i ==> (#[trigger] r@[k]) as u32 == wide_at(*mem, ptr as int, k),
        ensures
            i == n,
        decreases n - i,
    {
        let code: u32 = mem.read_u32(ptr + 4 * i);
        assert(code == wide_at(*mem, ptr as int, i as int));
        if code == 0 {
            break;
        }
        match char_of(code) {
            Some(c) => {
                r.push(c);
            },
            None => {},
        }
        i = i + 1;
    }
    r
}

/// What `wcstombs` stores: the text in UTF-8, and a NUL where there is room.
pub open spec fn narrow_text(text: Seq<char>, n: int) -> Seq<u8> {
    let bytes = encode_utf8(text);
    if bytes.len() < n {
        bytes.push(0)
    } else {
        bytes
    }
}

/// `size_t wcstombs(char *s, const wchar_t *pwcs, size_t n);`, of a text that
/// takes no more than `n` bytes.
pub fn wcstombs(env: &mut Environment, s: MutPtr, pwcs: ConstPtr, n: GuestUSize) -> (r: GuestUSize)
    requires
        old(env).wf(),
        old(env).libc_state.clocale.is_c(),
        n > 0 ==> exists|text: Seq<char>|
            {
                &&& #[trigger] is_wide_text(old(env).mem, pwcs as int, text)
                &&& encode_utf8(text).len() <= n
                &&& old(env).mem.valid(s as int, narrow_text(text, n as int).len() as int)
            },
    ensures
        final(env).wf(),
        if n == 0 {
            r == 0 && *final(env) == *old(env)
        } else {
            exists|text: Seq<char>|
                {
                    &&& #[trigger] is_wide_text(old(env).mem, pwcs as int, text)
                    &&& r == encode_utf8(text).len()
                    &&& *final(env) == old(env).with_mem(final(env).mem)
                    &&& final(env).mem.stored(
                        old(env).mem,
                        s as int,
                        narrow_text(text, n as int),
                    )
                }
        },
{
    if n == 0 {
        return 0;
    }
    let ghost text = choose|text: Seq<char>|
        {
            &&& #[trigger] is_wide_text(old(env).mem, pwcs as int, text)
            &&& encode_utf8(text).len() <= n
            &&& old(env).mem.valid(s as int, narrow_text(text, n as int).len() as int)
        };
    assert(wide_string(env.mem, pwcs as int, text.len() as int));
    let chars: Vec<char> = wcstr_at(&env.mem, pwcs);
    proof {
        lemma_wide_text_unique(env.mem, pwcs as int, text, chars@);
    }
    let mut bytes: Vec<u8> = utf8_bytes(&chars);
    let len: u32 = bytes.len() as u32;
    if len < n {
        bytes.push(0);
    }
    assert(bytes@ =~= narrow_text(text, n as int));
    env.mem.write_bytes(s, &bytes);
    len
}

/// What `wcstoul` does: the text is put into a chunk of its own, which is
/// parsed and freed.
pub open spec fn wcstoul_done(
    before: Environment,
    after: Environment,
    text: Seq<char>,
    base: int,
    r: u32,
) -> bool {
    exists|copied: Environment, parsed: Environment, ptr: u32|
        {
            &&& copied == before.with_mem(copied.mem)
            &&& #[trigger] copied.mem.placed(before.mem, ptr, encode_utf8(text).push(0))
            &&& #[trigger] parse_done::<u32>(copied, parsed, ptr as int, 0, base, r)
            &&& after == parsed.with_mem(after.mem)
            &&& after.mem.released(parsed.mem, ptr)
        }
}

/// `unsigned long wcstoul(const wchar_t *nptr, wchar_t **endptr, int base);`,
/// of an ASCII text and without an end pointer.
pub fn wcstoul(env: &mut Environment, nptr: ConstPtr, endptr: MutPtr, base: i32) -> (r: u32)
    requires
        old(env).wf(),
        old(env).libc_state.clocale.is_c(),
        endptr == 0,
        base == 0 || 2 <= base <= 36,
        exists|text: Seq<char>|
            {
                &&& #[trigger] is_wide_text(old(env).mem, nptr as int, text)
                &&& forall|i: int| 0 <= i < text.len() ==> (#[trigger] text[i]) as u32 <= 0x7f
                &&& old(env).mem.has_room(encode_utf8(text).len() as int + 1)
                &&& encode_utf8(text).len() < u32::MAX
            },
    ensures
        final(env).wf(),
        exists|text: Seq<char>| #[trigger]
            is_wide_text(old(env).mem, nptr as int, text) && wcstoul_done(
                *old(env),
                *final(env),
                text,
                base as int,
                r,
            ),
{
    let ghost text = choose|text: Seq<char>|
        {
            &&& #[trigger] is_wide_text(old(env).mem, nptr as int, text)
            &&& forall|i: int| 0 <= i < text.len() ==> (#[trigger] text[i]) as u32 <= 0x7f
            &&& old(env).mem.has_room(encode_utf8(text).len() as int + 1)
            &&& encode_utf8(text).len() < u32::MAX
        };
    assert(wide_string(env.mem, nptr as int, text.len() as int));
    let chars: Vec<char> = wcstr_at(&env.mem, nptr);
    proof {
        lemma_wide_text_unique(env.mem, nptr as int, text, chars@);
    }
    let bytes: Vec<u8> = utf8_bytes(&chars);
    let ptr: u32 = env.mem.alloc_and_write_cstr(&bytes);
    let ghost copied = *env;
    proof {
        lemma_terminated(copied.mem@, ptr as int, ptr + bytes@.len());
        assert(copied.mem@[ptr + bytes@.len()] == 0);
        assert(copied.mem.valid_cstr(ptr as int));
    }
    let r: u32 = strtoul(env, ptr, 0, base);
    let ghost parsed = *env;
    env.mem.free(ptr);
    assert(copied.mem.placed(old(env).mem, ptr, encode_utf8(text).push(0)));
    assert(parse_done::<u32>(copied, parsed, ptr as int, 0, base as int, r));
    r
}

/// A C string ends at the first NUL.
proof fn lemma_terminated(s: Seq<u8>, at: int, nul: int)
    requires
        0 <= at <= nul < s.len(),
    ensures
        s[nul] == 0 ==> at + crate::mem::cstr_len(s, at) <= nul,
    decreases nul - at,
{
    if at < nul && s[at] != 0 {
        lemma_terminated(s, at + 1, nul);
    }
}

} // verus!
