//! What numbers in text stand for, in terms of how numbers are written.
use vstd::prelude::*;

use crate::environment::Environment;
use crate::libc::stdlib::ints::{
    digit_value, digits_end, digits_value, is_space, parse_done, parsed, scan_digits, scan_end, scan_int,
    scanned_value, space_end, ParsedInt,
};
use crate::mem::{le_bytes, le_u32, lemma_le_bytes_4};

verus! {

/// The figure for a value below 36: a decimal digit, or a letter of either case
/// from ten on.
pub open spec fn figure(v: int, capital: bool) -> u8 {
    if v < 10 {
        (0x30 + v) as u8
    } else if capital {
        (0x41 + v - 10) as u8
    } else {
        (0x61 + v - 10) as u8
    }
}

/// `c` is a figure for `v`, in either case.
pub open spec fn is_figure(c: u8, v: int) -> bool {
    c == figure(v, false) || c == figure(v, true)
}

/// `t` writes the number `n` in the given base, with figures of either case, the
/// most significant one first. There may be zeros in front.
pub open spec fn writes(t: Seq<u8>, n: int, base: int) -> bool
    decreases t.len(),
{
    &&& t.len() > 0
    &&& n >= 0
    &&& is_figure(t.last(), n % base)
    &&& if t.len() == 1 {
        n < base
    } else {
        writes(t.drop_last(), n / base, base)
    }
}

/// No figure of the base stands at the start of `tail`.
pub open spec fn ends_number(tail: Seq<u8>, base: int) -> bool {
    tail.len() > 0 ==> forall|v: int| 0 <= v < base ==> !#[trigger] is_figure(tail[0], v)
}

/// Blanks, tabs, line feeds, vertical tabs, form feeds and carriage returns.
pub open spec fn all_blank(s: Seq<u8>) -> bool {
    forall|i: int|
        0 <= i < s.len() ==> #[trigger] s[i] == 0x20 || s[i] == 0x09 || s[i] == 0x0a || s[i] == 0x0b
            || s[i] == 0x0c || s[i] == 0x0d
}

/// Nothing, a plus sign or a minus sign.
pub open spec fn is_sign(s: Seq<u8>) -> bool {
    s.len() == 0 || s == seq![0x2bu8] || s == seq![0x2du8]
}

/// `0x` or `0X`.
pub open spec fn is_hex_prefix(s: Seq<u8>) -> bool {
    s == seq![0x30u8, 0x78u8] || s == seq![0x30u8, 0x58u8]
}

/// A number that is asked for in base `asked`, zero where the text tells, and is
/// written in base `base`: with what stands between the sign and the figures,
/// `t` being the figures and `tail` what follows.
pub open spec fn base_fits(
    asked: int,
    base: int,
    prefix: Seq<u8>,
    t: Seq<u8>,
    tail: Seq<u8>,
) -> bool {
    ||| is_hex_prefix(prefix) && base == 16 && (asked == 16 || asked == 0)
    ||| {
        &&& prefix.len() == 0
        &&& asked == base
        &&& 2 <= base <= 36
        &&& base == 16 ==> t.len() > 1 || t[0] != 0x30
    }
    ||| {
        &&& prefix.len() == 0
        &&& asked == 0
        &&& if base == 10 {
            t.len() > 0 && t[0] != 0x30
        } else {
            &&& base == 8
            &&& t.len() > 0
            &&& t[0] == 0x30
            &&& t.len() == 1 ==> tail.len() > 0 && tail[0] != 0x78 && tail[0] != 0x58
        }
    }
}

/// Each value below the base has its figure, from ten on a letter of either
/// case, and nothing else is a digit of the base.
pub proof fn law_figures(c: u8, v: int, base: int)
    requires
        2 <= base <= 36,
        0 <= v < base,
    ensures
        digit_value(figure(v, false)) == v,
        digit_value(figure(v, true)) == v,
        digit_value(c) < base <==> exists|w: int| 0 <= w < base && #[trigger] is_figure(c, w),
        digit_value(c) == v <==> is_figure(c, v),
{
    if digit_value(c) < base {
        assert(is_figure(c, digit_value(c)));
    }
}

proof fn lemma_writes(t: Seq<u8>, n: int, base: int)
    requires
        2 <= base <= 36,
        writes(t, n, base),
    ensures
        digits_value(t, base) == n,
        forall|i: int| 0 <= i < t.len() ==> digit_value(#[trigger] t[i]) < base,
    decreases t.len(),
{
    let v = n % base;
    assert(0 <= v < base && n == n / base * base + v && n / base >= 0) by (nonlinear_arith)
        requires
            n >= 0,
            base >= 2,
            v == n % base,
    ;
    law_figures(t.last(), v, base);
    let front = t.drop_last();
    if t.len() == 1 {
        assert(front =~= Seq::empty());
        assert(digits_value(front, base) == 0);
        assert(n / base == 0) by (nonlinear_arith)
            requires
                0 <= n < base,
        ;
        assert(n / base * base == 0) by (nonlinear_arith)
            requires
                n / base == 0,
        ;
    } else {
        lemma_writes(front, n / base, base);
    }
    assert forall|i: int| 0 <= i < t.len() implies digit_value(#[trigger] t[i]) < base by {
        if i < t.len() - 1 {
            assert(t[i] == front[i]);
        }
    }
}

/// A zero in front changes nothing.
proof fn lemma_leading_zero(t: Seq<u8>, base: int)
    requires
        t.len() > 0,
        t[0] == 0x30,
    ensures
        digits_value(t.skip(1), base) == digits_value(t, base),
    decreases t.len(),
{
    let rest = t.skip(1);
    if t.len() == 1 {
        assert(rest =~= Seq::empty());
        assert(t.drop_last() =~= Seq::empty());
        assert(digits_value(t.drop_last(), base) == 0);
        assert(0 * base == 0);
    } else {
        assert(rest.drop_last() =~= t.drop_last().skip(1));
        lemma_leading_zero(t.drop_last(), base);
    }
}

proof fn lemma_run(input: Seq<u8>, base: int, from: int, to: int, end: int)
    requires
        0 <= from <= to <= input.len(),
        to <= end,
        forall|i: int| from <= i < to ==> digit_value(#[trigger] input[i]) < base,
        to < input.len() ==> to == end || digit_value(input[to]) >= base,
    ensures
        digits_end(input, base, from, end) == to,
    decreases to - from,
{
    if from < to {
        lemma_run(input, base, from + 1, to, end);
    }
}

proof fn lemma_blanks(input: Seq<u8>, from: int, to: int)
    requires
        0 <= from <= to <= input.len(),
        forall|i: int| from <= i < to ==> is_space(#[trigger] input[i]),
        to < input.len() ==> !is_space(input[to]),
    ensures
        space_end(input, from) == to,
    decreases to - from,
{
    if from < to {
        lemma_blanks(input, from + 1, to);
    }
}

/// The number that a text starts with: white space, a sign, and figures of a
/// base, with a prefix where the base is 16 or the text is to tell the base. It
/// ends at the first character that is no figure of the base, or where `max`
/// characters after the white space are taken, and its length counts everything
/// up to there. A stream is left at its end; where base 8 has a zero in front,
/// the length counts that zero twice.
pub proof fn law_scan_written<Q: ParsedInt>(
    blanks: Seq<u8>,
    sign: Seq<u8>,
    prefix: Seq<u8>,
    t: Seq<u8>,
    tail: Seq<u8>,
    asked: int,
    base: int,
    n: int,
    max: int,
)
    requires
        Q::of_magnitude(0).negated() == Q::of_magnitude(0),
        all_blank(blanks),
        is_sign(sign),
        2 <= base <= 36,
        base_fits(asked, base, prefix, t, tail),
        writes(t, n, base),
        ends_number(tail, base) || max == sign.len() + prefix.len() + t.len(),
        max == 0 || max >= sign.len() + prefix.len() + t.len(),
        max == sign.len() + prefix.len() + t.len() ==> t.len() > 1 || t[0] != 0x30,
        sign.len() + prefix.len() + t.len() < u32::MAX,
    ensures
        ({
            let input = blanks + sign + prefix + t + tail;
            let magnitude = Q::of_magnitude(n);
            let len = blanks.len() + sign.len() + prefix.len() + t.len();
            let value = if sign == seq![0x2du8] {
                magnitude.negated()
            } else {
                magnitude
            };
            let twice = base == 8 && t[0] == 0x30;
            &&& scanned_value::<Q>(scan_int(input, asked, max, false)) == Ok::<(Q, int), ()>(
                (value, len as int),
            )
            &&& max == 0 || !twice ==> scan_int(input, asked, max, true).taken == len
            &&& !twice ==> scanned_value::<Q>(scan_int(input, asked, max, true)) == Ok::<
                (Q, int),
                (),
            >((value, len as int))
            &&& twice && max == 0 ==> scanned_value::<Q>(scan_int(input, asked, max, true)) == Ok::<
                (Q, int),
                (),
            >((value, len as int + 1))
        }),
{
    let input = blanks + sign + prefix + t + tail;
    let a = blanks.len() as int;
    let b = a + sign.len();
    let c = b + prefix.len();
    let d = c + t.len();
    let negative = sign == seq![0x2du8];
    lemma_writes(t, n, base);
    assert forall|i: int| c <= i < d implies digit_value(#[trigger] input[i]) < base by {
        assert(input[i] == t[i - c]);
    }
    assert(input[c] == t[0]);
    assert(t.len() > 1 ==> input[c + 1] == t[1]);
    assert(prefix.len() > 0 ==> input[b] == prefix[0] && input[b + 1] == prefix[1]);
    assert(sign.len() > 0 ==> input[a] == sign[0]);
    assert forall|i: int| 0 <= i < a implies is_space(#[trigger] input[i]) by {
        assert(input[i] == blanks[i]);
    }
    lemma_blanks(input, 0, a);
    if d < input.len() && ends_number(tail, base) {
        assert(input[d] == tail[0]);
        law_figures(tail[0], 0, base);
        assert(digit_value(input[d]) >= base);
    }
    assert(input.subrange(c, d) =~= t);
    lemma_shape(input, a, b, c, d, asked, base, max);
    lemma_value::<Q>(input, a, b, c, d, asked, base, n, max);
    lemma_stream_value::<Q>(input, a, b, c, d, asked, base, n, max);
}

/// What a scan with a known shape stands for.
proof fn lemma_value<Q: ParsedInt>(
    input: Seq<u8>,
    a: int,
    b: int,
    c: int,
    d: int,
    asked: int,
    base: int,
    n: int,
    max: int,
)
    requires
        Q::of_magnitude(0).negated() == Q::of_magnitude(0),
        0 <= a <= b <= c < d <= input.len(),
        2 <= base <= 36,
        max == 0 || max >= d - a,
        d - a <= u32::MAX,
        forall|i: int| c <= i < d ==> digit_value(#[trigger] input[i]) < base,
        d < input.len() ==> max == d - a || digit_value(input[d]) >= base,
        digits_value(input.subrange(c, d), base) == n,
        c == b && base == 16 ==> d > c + 1 || input[c] != 0x30,
        scan_int(input, asked, max, false) == scan_digits(
            input,
            a,
            if c == b && (base == 8 || base == 16) && input[c] == 0x30 {
                c - a + 1
            } else {
                c - a
            },
            0,
            b == a + 1 && input[a] == 0x2d,
            base,
            max,
        ),
    ensures
        scanned_value::<Q>(scan_int(input, asked, max, false)) == Ok::<(Q, int), ()>(
            (
                if b == a + 1 && input[a] == 0x2d {
                    Q::of_magnitude(n).negated()
                } else {
                    Q::of_magnitude(n)
                },
                d,
            ),
        ),
{
    let end = scan_end(a, max);
    let zero = c == b && (base == 8 || base == 16) && input[c] == 0x30;
    let from = if zero {
        c + 1
    } else {
        c
    };
    lemma_run(input, base, from, d, end);
    if zero {
        let t = input.subrange(c, d);
        assert(input.subrange(from, d) =~= t.skip(1));
        lemma_leading_zero(t, base);
        if d == c + 1 {
            assert(t.skip(1) =~= Seq::empty());
        }
    }
}

/// What a scan of a stream with a known shape stands for.
proof fn lemma_stream_value<Q: ParsedInt>(
    input: Seq<u8>,
    a: int,
    b: int,
    c: int,
    d: int,
    asked: int,
    base: int,
    n: int,
    max: int,
)
    requires
        0 <= a <= b <= c < d <= input.len(),
        2 <= base <= 36,
        max == 0 || max >= d - a,
        d - a < u32::MAX,
        forall|i: int| c <= i < d ==> digit_value(#[trigger] input[i]) < base,
        d < input.len() ==> max == d - a || digit_value(input[d]) >= base,
        digits_value(input.subrange(c, d), base) == n,
        base == 8 ==> c == b,
        scanned_value::<Q>(scan_int(input, asked, max, false)) == Ok::<(Q, int), ()>(
            (
                if b == a + 1 && input[a] == 0x2d {
                    Q::of_magnitude(n).negated()
                } else {
                    Q::of_magnitude(n)
                },
                d,
            ),
        ),
        scan_int(input, asked, max, false) == scan_digits(
            input,
            a,
            if c == b && (base == 8 || base == 16) && input[c] == 0x30 {
                c - a + 1
            } else {
                c - a
            },
            0,
            b == a + 1 && input[a] == 0x2d,
            base,
            max,
        ),
        if base == 8 && input[c] == 0x30 {
            scan_int(input, asked, max, true) == scan_digits(
                input,
                a,
                c - a + 1,
                1,
                b == a + 1 && input[a] == 0x2d,
                base,
                max,
            )
        } else {
            scan_int(input, asked, max, true) == scan_int(input, asked, max, false)
        },
    ensures
        ({
            let twice = base == 8 && input[c] == 0x30;
            let value = if b == a + 1 && input[a] == 0x2d {
                Q::of_magnitude(n).negated()
            } else {
                Q::of_magnitude(n)
            };
            &&& max == 0 || !twice ==> scan_int(input, asked, max, true).taken == d
            &&& !twice ==> scanned_value::<Q>(scan_int(input, asked, max, true)) == Ok::<
                (Q, int),
                (),
            >((value, d))
            &&& twice && max == 0 ==> scanned_value::<Q>(scan_int(input, asked, max, true)) == Ok::<
                (Q, int),
                (),
            >((value, d + 1))
        }),
{
    if base == 8 && input[c] == 0x30 {
        if max == 0 {
            lemma_run(input, 8, c, d, scan_end(a - 1, 0));
        }
    } else if base == 16 && c == b && input[c] == 0x30 {
        lemma_run(input, base, c + 1, d, scan_end(a, max));
    } else {
        lemma_run(input, base, c, d, scan_end(a, max));
    }
}

/// What a scan looks at before the figures, by where the parts of the text end.
proof fn lemma_shape(
    input: Seq<u8>,
    a: int,
    b: int,
    c: int,
    d: int,
    asked: int,
    base: int,
    max: int,
)
    requires
        0 <= a <= b <= c < d <= input.len(),
        space_end(input, 0) == a,
        2 <= base <= 36,
        b == a || b == a + 1,
        (b == a + 1) == (input[a] == 0x2b || input[a] == 0x2d),
        max == 0 || max >= d - a,
        max == d - a ==> d > c + 1 || input[c] != 0x30,
        digit_value(input[c]) < base,
        d > c + 1 ==> digit_value(input[c + 1]) < base,
        if c == b {
            if asked == 0 {
                if base == 10 {
                    input[c] != 0x30
                } else {
                    &&& base == 8
                    &&& input[c] == 0x30
                    &&& c + 1 < input.len()
                    &&& input[c + 1] != 0x78
                    &&& input[c + 1] != 0x58
                }
            } else {
                asked == base && (base == 16 ==> d > c + 1 || input[c] != 0x30)
            }
        } else {
            &&& c == b + 2
            &&& base == 16
            &&& asked == 16 || asked == 0
            &&& input[b] == 0x30
            &&& input[b + 1] == 0x78 || input[b + 1] == 0x58
        },
    ensures
        scan_int(input, asked, max, false) == scan_digits(
            input,
            a,
            if c == b && (base == 8 || base == 16) && input[c] == 0x30 {
                c - a + 1
            } else {
                c - a
            },
            0,
            b == a + 1 && input[a] == 0x2d,
            base,
            max,
        ),
        if base == 8 && input[c] == 0x30 {
            scan_int(input, asked, max, true) == scan_digits(
                input,
                a,
                c - a + 1,
                1,
                b == a + 1 && input[a] == 0x2d,
                base,
                max,
            )
        } else {
            scan_int(input, asked, max, true) == scan_int(input, asked, max, false)
        },
{
}

/// The C string at `str` is white space, a sign, a prefix, the figures of `n` in
/// `base`, and something that does not start with a figure.
pub open spec fn text_reads(
    env: Environment,
    str: int,
    blanks: Seq<u8>,
    sign: Seq<u8>,
    prefix: Seq<u8>,
    t: Seq<u8>,
    rest: Seq<u8>,
    asked: int,
    base: int,
    n: int,
) -> bool {
    &&& env.mem.cstr(str) == blanks + sign + prefix + t + rest
    &&& env.mem.cstr(str).len() < u32::MAX
    &&& all_blank(blanks)
    &&& is_sign(sign)
    &&& 2 <= base <= 36
    &&& base_fits(asked, base, prefix, t, rest.push(0))
    &&& writes(t, n, base)
    &&& ends_number(rest.push(0), base)
}

/// The address `n` behind `str` was stored, where it is wanted, and nothing
/// else in memory changed.
pub open spec fn end_stored(
    before: Environment,
    after: Environment,
    str: int,
    endptr: int,
    n: nat,
) -> bool {
    &&& endptr == 0 ==> after.mem == before.mem
    &&& endptr != 0 && before.mem.valid(endptr, 4) && 0 <= str + n <= u32::MAX ==> le_u32(
        after.mem@,
        endptr,
    ) == str + n
    &&& forall|i: int|
        0 <= i < before.mem@.len() && !(endptr <= i < endptr + 4) ==> #[trigger] after.mem@[i]
            == before.mem@[i]
}

proof fn lemma_text_reads<Q: ParsedInt>(
    env: Environment,
    str: int,
    blanks: Seq<u8>,
    sign: Seq<u8>,
    prefix: Seq<u8>,
    t: Seq<u8>,
    rest: Seq<u8>,
    asked: int,
    base: int,
    n: int,
)
    requires
        text_reads(env, str, blanks, sign, prefix, t, rest, asked, base, n),
        Q::of_magnitude(0).negated() == Q::of_magnitude(0),
    ensures
        n >= 0,
        parsed::<Q>(env.mem, str, asked) == Ok::<(Q, int), ()>(
            (
                if sign == seq![0x2du8] {
                    Q::of_magnitude(n).negated()
                } else {
                    Q::of_magnitude(n)
                },
                (blanks.len() + sign.len() + prefix.len() + t.len()) as int,
            ),
        ),
{
    let tail = rest.push(0);
    assert(env.mem.cstr(str).push(0) =~= blanks + sign + prefix + t + tail);
    law_scan_written::<Q>(blanks, sign, prefix, t, tail, asked, base, n, u32::MAX as int);
}

proof fn lemma_end_stored(
    before: Environment,
    after: Environment,
    str: int,
    endptr: int,
    n: int,
)
    requires
        n >= 0,
        if endptr == 0 {
            after == before.with_errno(0)
        } else {
            after.mem.stored(before.mem, endptr, le_bytes(str + n, 4))
        },
    ensures
        end_stored(before, after, str, endptr, n as nat),
{
    lemma_le_bytes_4(str + n);
    if endptr != 0 && before.mem.valid(endptr, 4) && 0 <= str + n <= u32::MAX {
        let b = le_bytes(str + n, 4);
        assert(after.mem@[endptr] == b[0] && after.mem@[endptr + 1] == b[1] && after.mem@[endptr
            + 2] == b[2] && after.mem@[endptr + 3] == b[3]);
    }
}

/// `strtol` reads the number that a text starts with, and stores where it ends:
/// a value beyond the largest one becomes that, and a minus sign negates.
pub proof fn law_strtol(
    before: Environment,
    after: Environment,
    str: int,
    endptr: int,
    blanks: Seq<u8>,
    sign: Seq<u8>,
    prefix: Seq<u8>,
    t: Seq<u8>,
    rest: Seq<u8>,
    asked: int,
    base: int,
    n: int,
    r: i32,
)
    requires
        parse_done::<i32>(before, after, str, endptr, asked, r),
        text_reads(before, str, blanks, sign, prefix, t, rest, asked, base, n),
    ensures
        sign != seq![0x2du8] && n <= 0x7fff_ffff ==> r == n,
        sign != seq![0x2du8] && n > 0x7fff_ffff ==> r == 0x7fff_ffff,
        sign == seq![0x2du8] && n <= 0x7fff_ffff ==> r == -n,
        sign == seq![0x2du8] && n > 0x7fff_ffff ==> r == -0x7fff_ffff,
        end_stored(before, after, str, endptr, blanks.len() + sign.len() + prefix.len() + t.len()),
        after.errno() == 0,
{
    lemma_text_reads::<i32>(before, str, blanks, sign, prefix, t, rest, asked, base, n);
    lemma_end_stored(
        before,
        after,
        str,
        endptr,
        (blanks.len() + sign.len() + prefix.len() + t.len()) as int,
    );
}

/// `strtoul` reads the number that a text starts with, and stores where it ends:
/// a value beyond the largest one becomes that, and a minus sign wraps around.
pub proof fn law_strtoul(
    before: Environment,
    after: Environment,
    str: int,
    endptr: int,
    blanks: Seq<u8>,
    sign: Seq<u8>,
    prefix: Seq<u8>,
    t: Seq<u8>,
    rest: Seq<u8>,
    asked: int,
    base: int,
    n: int,
    r: u32,
)
    requires
        parse_done::<u32>(before, after, str, endptr, asked, r),
        text_reads(before, str, blanks, sign, prefix, t, rest, asked, base, n),
    ensures
        r == (if sign == seq![0x2du8] && n > 0 {
            0x1_0000_0000 - if n > 0xffff_ffff {
                0xffff_ffff
            } else {
                n
            }
        } else if n > 0xffff_ffff {
            0xffff_ffff
        } else {
            n
        }),
        end_stored(before, after, str, endptr, blanks.len() + sign.len() + prefix.len() + t.len()),
        after.errno() == 0,
{
    lemma_text_reads::<u32>(before, str, blanks, sign, prefix, t, rest, asked, base, n);
    lemma_end_stored(
        before,
        after,
        str,
        endptr,
        (blanks.len() + sign.len() + prefix.len() + t.len()) as int,
    );
}

/// `strtoull` reads the number that a text starts with, and stores where it ends:
/// a value beyond the largest one becomes that, and a minus sign wraps around.
pub proof fn law_strtoull(
    before: Environment,
    after: Environment,
    str: int,
    endptr: int,
    blanks: Seq<u8>,
    sign: Seq<u8>,
    prefix: Seq<u8>,
    t: Seq<u8>,
    rest: Seq<u8>,
    asked: int,
    base: int,
    n: int,
    r: u64,
)
    requires
        parse_done::<u64>(before, after, str, endptr, asked, r),
        text_reads(before, str, blanks, sign, prefix, t, rest, asked, base, n),
    ensures
        r == (if sign == seq![0x2du8] && n > 0 {
            0x1_0000_0000_0000_0000 - if n > 0xffff_ffff_ffff_ffff {
                0xffff_ffff_ffff_ffff
            } else {
                n
            }
        } else if n > 0xffff_ffff_ffff_ffff {
            0xffff_ffff_ffff_ffff
        } else {
            n
        }),
        end_stored(before, after, str, endptr, blanks.len() + sign.len() + prefix.len() + t.len()),
        after.errno() == 0,
{
    lemma_text_reads::<u64>(before, str, blanks, sign, prefix, t, rest, asked, base, n);
    lemma_end_stored(
        before,
        after,
        str,
        endptr,
        (blanks.len() + sign.len() + prefix.len() + t.len()) as int,
    );
}

/// Where no figure of the base follows white space and a sign, the value is zero
/// and the end is the start of the text.
pub proof fn law_no_number<Q: ParsedInt>(
    before: Environment,
    after: Environment,
    str: int,
    endptr: int,
    blanks: Seq<u8>,
    sign: Seq<u8>,
    rest: Seq<u8>,
    base: int,
    r: Q,
)
    requires
        parse_done::<Q>(before, after, str, endptr, base, r),
        before.mem.cstr(str) == blanks + sign + rest,
        all_blank(blanks),
        is_sign(sign),
        2 <= base <= 36,
        base == 8 ==> sign.len() == 0,
        ends_number(rest.push(0), base),
        sign.len() == 0 && rest.len() > 0 ==> rest[0] != 0x2b && rest[0] != 0x2d && !all_blank(
            seq![rest[0]],
        ),
    ensures
        r == Q::of_magnitude(0),
        end_stored(before, after, str, endptr, 0),
{
    let input = before.mem.cstr(str).push(0);
    let tail = rest.push(0);
    let a = blanks.len() as int;
    let b = a + sign.len();
    assert(input =~= blanks + sign + tail);
    assert(input[b] == tail[0]);
    assert(rest.len() > 0 ==> seq![rest[0]][0] == tail[0]);
    if is_space(tail[0]) {
        assert(all_blank(seq![rest[0]]));
    }
    assert(sign.len() > 0 ==> input[a] == sign[0]);
    assert forall|i: int| 0 <= i < a implies is_space(#[trigger] input[i]) by {
        assert(input[i] == blanks[i]);
    }
    lemma_blanks(input, 0, a);
    law_figures(tail[0], 0, base);
    assert(digit_value(tail[0]) >= base);
    assert(tail[0] != 0x30) by {
        assert(is_figure(0x30, 0));
    }
    let scan = scan_int(input, base, u32::MAX as int, false);
    lemma_run(input, base, b, b, scan_end(a, u32::MAX as int));
    assert(scan.len == scan.prefix);
    lemma_end_stored(before, after, str, endptr, 0);
}

/// A number that was written in a base is read back as that number: what is
/// written with capital letters, with small ones or with both reads the same.
pub proof fn law_cases_agree(t: Seq<u8>, u: Seq<u8>, n: int, m: int, base: int)
    requires
        2 <= base <= 36,
        writes(t, n, base),
        writes(u, m, base),
        t.len() == u.len(),
        forall|i: int|
            0 <= i < t.len() ==> (#[trigger] t[i]) == u[i] || (0x61 <= t[i] <= 0x7a && u[i] == t[i]
                - 0x20),
    ensures
        n == m,
        digits_value(t, base) == digits_value(u, base),
    decreases t.len(),
{
    lemma_writes(t, n, base);
    lemma_writes(u, m, base);
    lemma_same_value(t, u, base);
}

proof fn lemma_same_value(t: Seq<u8>, u: Seq<u8>, base: int)
    requires
        t.len() == u.len(),
        forall|i: int| 0 <= i < t.len() ==> digit_value(#[trigger] t[i]) == digit_value(u[i]),
    ensures
        digits_value(t, base) == digits_value(u, base),
    decreases t.len(),
{
    if t.len() > 0 {
        assert(forall|i: int|
            0 <= i < t.len() - 1 ==> digit_value(#[trigger] t.drop_last()[i]) == digit_value(
                t[i],
            ));
        assert forall|i: int| 0 <= i < t.drop_last().len() implies digit_value(
            #[trigger] t.drop_last()[i],
        ) == digit_value(u.drop_last()[i]) by {
            assert(digit_value(t[i]) == digit_value(u[i]));
        }
        lemma_same_value(t.drop_last(), u.drop_last(), base);
    }
}

} // verus!
