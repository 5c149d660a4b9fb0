//! What characters and numbers are converted to and from, in terms of the bytes
//! of their texts.
use vstd::prelude::*;
use vstd::utf8::{encode_scalar, encode_utf8};

use crate::environment::Environment;
use crate::libc::stdlib::convert::{
    extra_bytes, is_continuation, law_multibyte_reads_utf8, mbtowc_done, multibyte,
    multibyte_window, narrow_text, wide_text, widened,
};
use crate::libc::stdlib::numbers::{
    drops_zero, fcvt_digits, fcvt_point, last_point, number_end, point_place, run_end,
    signed_run_end, without_points,
};
use crate::mem::{le_bytes, le_u32, lemma_le_bytes_4};

verus! {

/// A character in memory, as UTF-8 writes it, is read as its number and its
/// length, where all of it may be looked at, and is refused where less of it may
/// be.
pub proof fn law_mbtowc(
    before: Environment,
    after: Environment,
    pwc: int,
    s: int,
    n: int,
    c: char,
    r: int,
)
    requires
        (c as u32) != 0,
        s > 0,
        n > 0,
        s + encode_scalar(c as u32).len() <= before.mem@.len(),
        before.mem@.subrange(s, s + encode_scalar(c as u32).len()) == encode_scalar(c as u32),
        pwc != 0 ==> before.mem.valid(pwc, 4),
        mbtowc_done(before, after, pwc, s, n, r),
    ensures
        ({
            let len = encode_scalar(c as u32).len();
            if n >= len {
                &&& r == len
                &&& pwc == 0 ==> after == before
                &&& pwc != 0 ==> le_u32(after.mem@, pwc) == c as u32 && forall|i: int|
                    0 <= i < before.mem@.len() && !(pwc <= i < pwc + 4) ==> #[trigger] after.mem@[i]
                        == before.mem@[i]
            } else {
                r == -1 && after == before
            }
        }),
{
    let text = encode_scalar(c as u32);
    law_multibyte_reads_utf8(c);
    lemma_le_bytes_4((c as u32) as int);
    assert(text[0] == before.mem@[s]);
    let w = multibyte_window(before.mem, s, n);
    let seen = before.mem@.subrange(s, s + w);
    assert(seen[0] == text[0]);
    if n >= text.len() {
        assert(w == text.len());
        assert(seen =~= text);
    } else {
        assert(w == 1);
        assert(extra_bytes(text[0]) is Some);
    }
}

/// A null address is no character, and nothing that may be looked at holds none.
/// What does not start a character is refused: a byte that goes on with one, and
/// one above those of UTF-8. So is a start that is not gone on with.
pub proof fn law_mbtowc_refuses(
    before: Environment,
    after: Environment,
    pwc: int,
    s: int,
    n: int,
    r: int,
)
    requires
        mbtowc_done(before, after, pwc, s, n, r),
    ensures
        s == 0 ==> r == 0 && after == before,
        s != 0 && n == 0 ==> r == -1 && after == before,
        s > 0 && n > 0 && s < before.mem@.len() && (0x80 <= before.mem@[s] < 0xc0
            || before.mem@[s] >= 0xf8) ==> r == -1 && after == before,
        s > 0 && n >= 2 && s + 2 <= before.mem@.len() && 0xc0 <= before.mem@[s] < 0xe0 && !(0x80
            <= before.mem@[s + 1] < 0xc0) ==> r == -1 && after == before,
        s > 0 && n >= 3 && s + 3 <= before.mem@.len() && 0xe0 <= before.mem@[s] < 0xf0 && !(0x80
            <= before.mem@[s + 1] < 0xc0 && 0x80 <= before.mem@[s + 2] < 0xc0) ==> r == -1 && after
            == before,
        s > 0 && n >= 4 && s + 4 <= before.mem@.len() && 0xf0 <= before.mem@[s] < 0xf8 && !(0x80
            <= before.mem@[s + 1] < 0xc0 && 0x80 <= before.mem@[s + 2] < 0xc0 && 0x80
            <= before.mem@[s + 3] < 0xc0) ==> r == -1 && after == before,
        s > 0 && n > 0 && s < before.mem@.len() && before.mem@[s] == 0 ==> r == 0,
{
    if s > 0 && n > 0 && s < before.mem@.len() {
        let w = multibyte_window(before.mem, s, n);
        if s + w <= before.mem@.len() {
            let seen = before.mem@.subrange(s, s + w);
            assert(seen[0] == before.mem@[s]);
            if multibyte(seen) is Some && seen[0] >= 0x80 {
                let k = extra_bytes(seen[0])->0;
                assert forall|i: int| 1 <= i <= k implies 0x80 <= #[trigger] before.mem@[s + i]
                    < 0xc0 by {
                    assert(seen[i] == before.mem@[s + i]);
                    assert(is_continuation(seen[i]));
                }
                assert(k >= 1 ==> 0x80 <= before.mem@[s + 1] < 0xc0);
                assert(k >= 2 ==> 0x80 <= before.mem@[s + 2] < 0xc0);
                assert(k >= 3 ==> 0x80 <= before.mem@[s + 3] < 0xc0);
            }
        }
    }
}

/// Bytes are widened to words, each with its own value; where there is room, a
/// zero word ends them.
pub proof fn law_wide_text(s: Seq<u8>, n: int, i: int)
    requires
        0 <= n,
        0 <= i < s.len(),
        i < n,
    ensures
        wide_text(s, n).len() == 4 * if s.len() < n {
            s.len() as int + 1
        } else {
            n
        },
        le_u32(wide_text(s, n), 4 * i) == s[i],
        s.len() < n ==> le_u32(wide_text(s, n), 4 * s.len() as int) == 0,
{
    let t = if s.len() < n {
        s.push(0)
    } else {
        s.take(n)
    };
    lemma_widened(t, i);
    if s.len() < n {
        lemma_widened(t, s.len() as int);
    }
}

proof fn lemma_widened(s: Seq<u8>, i: int)
    requires
        0 <= i < s.len(),
    ensures
        widened(s).len() == 4 * s.len(),
        le_u32(widened(s), 4 * i) == s[i],
    decreases s.len(),
{
    let front = s.drop_last();
    lemma_le_bytes_4(s.last() as int);
    if front.len() == 0 {
        assert(widened(front) =~= Seq::empty());
        assert(widened(s) =~= le_bytes(s.last() as int, 4));
    } else {
        lemma_widened(front, 0);
        if i < front.len() {
            lemma_widened(front, i);
            assert(front[i] == s[i]);
        }
    }
}

/// A text is narrowed to its UTF-8, with a zero behind it where there is room.
pub proof fn law_narrow_text(text: Seq<char>, n: int)
    ensures
        ({
            let bytes = encode_utf8(text);
            let r = narrow_text(text, n);
            &&& forall|i: int| 0 <= i < bytes.len() ==> #[trigger] r[i] == bytes[i]
            &&& bytes.len() < n ==> r.len() == bytes.len() + 1 && r[bytes.len() as int] == 0
            &&& bytes.len() >= n ==> r.len() == bytes.len()
        }),
{
}

/// The bytes from `from` to `to` are decimal digits, and none follows them.
pub open spec fn digits_between(input: Seq<u8>, from: int, to: int) -> bool {
    &&& 0 <= from <= to <= input.len()
    &&& forall|i: int| from <= i < to ==> 0x30 <= #[trigger] input[i] <= 0x39
    &&& to < input.len() ==> !(0x30 <= input[to] <= 0x39)
}

/// Behind an optional sign at `from` the digits from `start` to `to` follow.
pub open spec fn signed_digits(input: Seq<u8>, from: int, start: int, to: int) -> bool {
    &&& 0 <= from <= input.len()
    &&& if from < input.len() && (input[from] == 0x2b || input[from] == 0x2d) {
        start == from + 1
    } else {
        start == from
    }
    &&& digits_between(input, start, to)
}

proof fn lemma_digits(input: Seq<u8>, from: int, to: int)
    requires
        digits_between(input, from, to),
    ensures
        run_end(input, from) == to,
    decreases to - from,
{
    if from < to {
        lemma_digits(input, from + 1, to);
    }
}

proof fn lemma_signed_digits(input: Seq<u8>, from: int, start: int, to: int)
    requires
        signed_digits(input, from, start, to),
    ensures
        signed_run_end(input, from) == to,
{
    lemma_digits(input, start, to);
    if start == from && from < to {
        lemma_digits(input, from + 1, to);
    }
}

/// How far the text of a number goes: an optional sign, digits up to `a`; where a
/// point follows, it and the digits behind it up to `b`; where an `e` or an `E`
/// follows that, it, an optional sign and digits up to `c`.
pub proof fn law_number_extent(
    input: Seq<u8>,
    from: int,
    first: int,
    a: int,
    b: int,
    exponent: int,
    c: int,
)
    requires
        signed_digits(input, from, first, a),
        if a < input.len() && input[a] == 0x2e {
            digits_between(input, a + 1, b)
        } else {
            b == a
        },
        if b < input.len() && (input[b] == 0x65 || input[b] == 0x45) {
            signed_digits(input, b + 1, exponent, c)
        } else {
            c == b
        },
    ensures
        number_end(input, from) == c,
{
    lemma_signed_digits(input, from, first, a);
    if a < input.len() && input[a] == 0x2e {
        lemma_digits(input, a + 1, b);
    }
    if b < input.len() && (input[b] == 0x65 || input[b] == 0x45) {
        lemma_signed_digits(input, b + 1, exponent, c);
    }
}

/// No byte is a point.
pub open spec fn pointless(s: Seq<u8>) -> bool {
    forall|i: int| 0 <= i < s.len() ==> #[trigger] s[i] != 0x2e
}

proof fn lemma_pointless(s: Seq<u8>)
    requires
        pointless(s),
    ensures
        without_points(s) == s,
        last_point(s) is None,
    decreases s.len(),
{
    if s.len() > 0 {
        let front = s.drop_last();
        assert(s[s.len() - 1] != 0x2e);
        assert forall|i: int| 0 <= i < front.len() implies #[trigger] front[i] != 0x2e by {
            assert(front[i] == s[i]);
        }
        lemma_pointless(front);
        assert(front.push(s.last()) =~= s);
    } else {
        assert(without_points(s) =~= s);
    }
}

proof fn lemma_one_point(whole: Seq<u8>, part: Seq<u8>)
    requires
        pointless(whole),
        pointless(part),
    ensures
        without_points(whole.push(0x2e) + part) == whole + part,
        last_point(whole.push(0x2e) + part) == Some(whole.len() as int),
    decreases part.len(),
{
    let s = whole.push(0x2e) + part;
    if part.len() == 0 {
        assert(s =~= whole.push(0x2e));
        assert(s.drop_last() =~= whole);
        lemma_pointless(whole);
        assert(whole + part =~= whole);
    } else {
        let front = part.drop_last();
        assert(part[part.len() - 1] != 0x2e);
        assert forall|i: int| 0 <= i < front.len() implies #[trigger] front[i] != 0x2e by {
            assert(front[i] == part[i]);
        }
        lemma_one_point(whole, front);
        assert(s.drop_last() =~= whole.push(0x2e) + front);
        assert(s.last() == part.last());
        assert((whole + front).push(part.last()) =~= whole + part);
    }
}

/// The digits of a number that is written with a point: those before it and
/// those behind it, and the point stands behind as many as were before it. A lone
/// zero before the point is left out where digits follow, and the point then
/// stands before all. Without a point all digits stand before it.
pub proof fn law_fcvt(whole: Seq<u8>, part: Seq<u8>)
    requires
        pointless(whole),
        pointless(part),
    ensures
        ({
            let s = whole.push(0x2e) + part;
            let lone_zero = whole.len() == 1 && whole[0] == 0x30 && part.len() > 0;
            &&& lone_zero ==> fcvt_digits(s) == part && fcvt_point(s) == 0
            &&& !lone_zero && whole.len() > 0 ==> fcvt_digits(s) == whole + part && fcvt_point(s)
                == whole.len()
            &&& whole.len() != 1 ==> fcvt_digits(whole) == whole && fcvt_point(whole)
                == whole.len()
        }),
{
    let s = whole.push(0x2e) + part;
    lemma_one_point(whole, part);
    lemma_pointless(whole);
    let digits = whole + part;
    if whole.len() > 0 {
        assert(digits[0] == whole[0]);
    }
    if whole.len() == 1 {
        assert(digits.skip(1) =~= part);
    }
    assert(point_place(s) == whole.len());
    assert(drops_zero(s) == (digits.len() > 1 && digits[0] == 0x30 && whole.len() == 1));
}

} // verus!
