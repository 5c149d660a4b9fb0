//! Integers in text: `strtol` and its relatives.
use vstd::prelude::*;

use crate::environment::Environment;
use crate::libc::errno::set_errno;
use crate::mem::{le_bytes, ConstPtr, GuestUSize, Mem, MutPtr};

verus! {

/// White space, as C's `isspace` knows it.
pub open spec fn is_space(c: u8) -> bool {
    c == 0x20 || 0x09 <= c <= 0x0d
}

/// The value of `c` as a digit, letters being digits from ten on, or 36 where
/// it is none.
pub open spec fn digit_value(c: u8) -> int {
    if 0x30 <= c <= 0x39 {
        c - 0x30
    } else if 0x41 <= c <= 0x5a {
        c - 0x41 + 10
    } else if 0x61 <= c <= 0x7a {
        c - 0x61 + 10
    } else {
        36
    }
}

/// Where the white space that starts at `from` ends.
pub open spec fn space_end(input: Seq<u8>, from: int) -> int
    decreases input.len() - from,
{
    if 0 <= from < input.len() && is_space(input[from]) {
        space_end(input, from + 1)
    } else {
        from
    }
}

/// Where the digits that start at `from` end, taking no more than up to `end`.
pub open spec fn digits_end(input: Seq<u8>, base: int, from: int, end: int) -> int
    decreases end - from,
{
    if 0 <= from < end && from < input.len() && digit_value(input[from]) < base {
        digits_end(input, base, from + 1, end)
    } else {
        from
    }
}

/// The number that `digits` stand for.
pub open spec fn digits_value(digits: Seq<u8>, base: int) -> int
    decreases digits.len(),
{
    if digits.len() == 0 {
        0
    } else {
        digits_value(digits.drop_last(), base) * base + digit_value(digits.last())
    }
}

/// Where a scan reads its characters, up to where there are no more.
pub struct TextSource {
    pub chars: Vec<u8>,
    /// How many of the characters are gone.
    pub at: u32,
    /// Characters are read by their index, as in guest memory, and stay there.
    /// Otherwise each is gone once it was read, as with a stream, unless it is
    /// pushed back.
    pub indexed: bool,
}

impl TextSource {
    pub open spec fn wf(&self) -> bool {
        self.at <= self.chars@.len() < u32::MAX
    }

    /// What a scan from `offset` on can read. A stream is read from where it is.
    pub open spec fn input(&self, offset: int) -> Seq<u8> {
        if self.indexed {
            self.chars@.skip(offset)
        } else {
            self.chars@.skip(self.at as int)
        }
    }

    /// The source once `n` characters were consumed, and each that was looked
    /// at behind them was pushed back.
    pub open spec fn consumed(self, n: int) -> TextSource {
        if self.indexed {
            self
        } else {
            TextSource { at: (self.at + n) as u32, ..self }
        }
    }

    /// What a scan from `offset` on can read.
    pub fn rest(&self, offset: u32) -> (r: Vec<u8>)
        requires
            self.wf(),
            self.indexed ==> offset <= self.chars@.len(),
        ensures
            r@ == self.input(offset as int),
            r@.len() < u32::MAX,
            !self.indexed ==> self.at + r@.len() == self.chars@.len(),
    {
        let start: usize = if self.indexed {
            offset as usize
        } else {
            self.at as usize
        };
        let n: usize = self.chars.len();
        let mut r: Vec<u8> = Vec::new();
        let mut i: usize = start;
        while i < n
            invariant
                start <= i <= n == self.chars@.len(),
                r@ =~= self.chars@.subrange(start as int, i as int),
            decreases n - i,
        {
            r.push(self.chars[i]);
            i = i + 1;
        }
        r
    }

    /// Consumes `n` characters.
    pub fn consume(&mut self, n: u32)
        requires
            old(self).wf(),
            !old(self).indexed ==> old(self).at + n <= old(self).chars@.len(),
        ensures
            final(self).wf(),
            *final(self) == old(self).consumed(n as int),
    {
        if !self.indexed {
            self.at = self.at + n;
        }
    }
}

/// What a scan for an integer found. Indices count from the end of the white
/// space.
pub ghost struct IntScan {
    /// How much white space stands first.
    pub spaces: int,
    /// How much was taken of what follows.
    pub len: int,
    /// How much of that is a sign and a prefix.
    pub prefix: int,
    pub negative: bool,
    pub base: int,
    pub digits: Seq<u8>,
    /// How many characters are gone from a stream, white space included.
    pub taken: int,
}

/// No integer of more than `max` characters is looked for; zero is no limit.
pub open spec fn scan_end(spaces: int, max: int) -> int {
    if max == 0 {
        spaces + 0x1_0000_0000
    } else {
        spaces + max
    }
}

/// The digits of an integer, after a sign and a prefix of `len` characters. The
/// last `again` of these, one at most, were pushed back, and are read again as
/// digits.
pub open spec fn scan_digits(
    input: Seq<u8>,
    spaces: int,
    len: int,
    again: int,
    negative: bool,
    base: int,
    max: int,
) -> IntScan {
    let from = spaces + len - again;
    let end = digits_end(input, base, from, scan_end(spaces - again, max));
    IntScan {
        spaces,
        len: end - spaces + again,
        prefix: len,
        negative,
        base,
        digits: if from <= end <= input.len() {
            input.subrange(from, end)
        } else {
            Seq::empty()
        },
        taken: end,
    }
}

/// A scan that stopped before any digit.
pub open spec fn no_digits(
    spaces: int,
    len: int,
    prefix: int,
    negative: bool,
    base: int,
) -> IntScan {
    IntScan { spaces, len, prefix, negative, base, digits: Seq::empty(), taken: spaces + len }
}

/// The prefix and the digits of an integer of a known base, after a sign of
/// `len` characters. `0` is a prefix of base 8, and so is `0`, with or without
/// an `x`, of base 16. The prefix of base 8 is pushed back to a stream.
pub open spec fn scan_prefixed(
    input: Seq<u8>,
    spaces: int,
    len: int,
    negative: bool,
    base: int,
    max: int,
    stream: bool,
) -> IntScan {
    let at = spaces + len;
    if (base == 8 || base == 16) && at < input.len() && input[at] == 0x30 {
        if len + 1 == max {
            no_digits(spaces, len + 1, len, negative, base)
        } else if base == 8 && stream {
            scan_digits(input, spaces, len + 1, 1, negative, base, max)
        } else if base == 16 && at + 1 < input.len() && (input[at + 1] == 0x78 || input[at + 1]
            == 0x58) {
            if len + 2 == max {
                no_digits(spaces, len + 2, len + 1, negative, base)
            } else {
                scan_digits(input, spaces, len + 2, 0, negative, base, max)
            }
        } else {
            scan_digits(input, spaces, len + 1, 0, negative, base, max)
        }
    } else {
        scan_digits(input, spaces, len, 0, negative, base, max)
    }
}

/// The base that the characters at `at` suggest, or zero where there are too
/// few.
pub open spec fn suggested_base(input: Seq<u8>, at: int) -> int {
    if at >= input.len() {
        0
    } else if input[at] != 0x30 {
        10
    } else if at + 1 >= input.len() {
        0
    } else if input[at + 1] == 0x78 || input[at + 1] == 0x58 {
        16
    } else {
        8
    }
}

/// The integer that `input` starts with: white space, a sign, a prefix and
/// digits. It is read from a stream, or by index.
pub open spec fn scan_int(input: Seq<u8>, base: int, max: int, stream: bool) -> IntScan {
    let spaces = space_end(input, 0);
    let has_sign = spaces < input.len() && (input[spaces] == 0x2b || input[spaces] == 0x2d);
    let negative = has_sign && input[spaces] == 0x2d;
    let len = if has_sign {
        1int
    } else {
        0
    };
    if spaces >= input.len() || (has_sign && max == 1) {
        no_digits(spaces, len, len, negative, base)
    } else {
        let known = if base == 0 {
            suggested_base(input, spaces + len)
        } else {
            base
        };
        if known == 0 {
            no_digits(spaces, len, len, negative, 0)
        } else {
            scan_prefixed(input, spaces, len, negative, known, max, stream)
        }
    }
}

/// The integer types that text is turned into.
pub trait ParsedInt: Sized {
    /// The value of this type for a magnitude, the largest where it is too
    /// large.
    spec fn of_magnitude(m: int) -> Self;

    /// The value for a minus sign before the text.
    spec fn negated(self) -> Self;

    /// The largest value.
    spec fn largest() -> Self;

    fn from_digits(digits: &Vec<u8>, base: u32) -> (r: Self)
        requires
            2 <= base <= 36,
            forall|i: int| 0 <= i < digits@.len() ==> digit_value(#[trigger] digits@[i]) < base,
        ensures
            r == Self::of_magnitude(digits_value(digits@, base as int)),
    ;

    fn largest_value() -> (r: Self)
        ensures
            r == Self::largest(),
    ;

    fn zero() -> (r: Self)
        ensures
            r == Self::of_magnitude(0),
    ;

    fn negate(self) -> (r: Self)
        ensures
            r == self.negated(),
    ;
}

/// Digits in order, each below the base.
proof fn lemma_digits_value_bounds(digits: Seq<u8>, base: int)
    requires
        2 <= base <= 36,
    ensures
        digits_value(digits, base) >= 0,
        forall|i: int|
            0 <= i <= digits.len() ==> digits_value(#[trigger] digits.take(i), base)
                <= digits_value(digits, base),
    decreases digits.len(),
{
    if digits.len() > 0 {
        let front = digits.drop_last();
        lemma_digits_value_bounds(front, base);
        let v = digits_value(front, base);
        assert(v * base >= v) by (nonlinear_arith)
            requires
                v >= 0,
                base >= 2,
        ;
        assert forall|i: int| 0 <= i <= digits.len() implies digits_value(
            #[trigger] digits.take(i),
            base,
        ) <= digits_value(digits, base) by {
            if i == digits.len() {
                assert(digits.take(i) =~= digits);
            } else {
                assert(digits.take(i) =~= front.take(i));
            }
        }
    } else {
        assert forall|i: int| 0 <= i <= digits.len() implies digits_value(
            #[trigger] digits.take(i),
            base,
        ) <= digits_value(digits, base) by {
            assert(digits.take(i) =~= digits);
        }
    }
}

fn digit_of(c: u8) -> (r: u32)
    ensures
        r == digit_value(c),
        r <= 36,
{
    if 0x30 <= c && c <= 0x39 {
        (c - 0x30) as u32
    } else if 0x41 <= c && c <= 0x5a {
        (c - 0x41) as u32 + 10
    } else if 0x61 <= c && c <= 0x7a {
        (c - 0x61) as u32 + 10
    } else {
        36
    }
}

/// The value of `digits`, or `max` where it is larger.
fn saturating_value(digits: &Vec<u8>, base: u32, max: u64) -> (r: u64)
    requires
        2 <= base <= 36,
        forall|i: int| 0 <= i < digits@.len() ==> digit_value(#[trigger] digits@[i]) < base,
    ensures
        r == if digits_value(digits@, base as int) > max {
            max as int
        } else {
            digits_value(digits@, base as int)
        },
{
    let n: usize = digits.len();
    let mut value: u64 = 0;
    let mut i: usize = 0;
    proof {
        lemma_digits_value_bounds(digits@, base as int);
    }
    while i < n
        invariant
            i <= n == digits@.len(),
            2 <= base <= 36,
            forall|k: int| 0 <= k < digits@.len() ==> digit_value(#[trigger] digits@[k]) < base,
            value == digits_value(digits@.take(i as int), base as int),
            value <= max,
            forall|k: int|
                0 <= k <= digits@.len() ==> digits_value(#[trigger] digits@.take(k), base as int)
                    <= digits_value(digits@, base as int),
        decreases n - i,
    {
        let d: u32 = digit_of(digits[i]);
        let ghost next = digits@.take(i + 1);
        proof {
            assert(next.drop_last() =~= digits@.take(i as int));
            assert(digits_value(next, base as int) == value * base + d);
        }
        assert(0 <= value * base <= 0xffff_ffff_ffff_ffff * 36) by (nonlinear_arith)
            requires
                0 <= value <= 0xffff_ffff_ffff_ffff,
                2 <= base <= 36,
        ;
        let wide: u128 = value as u128 * base as u128 + d as u128;
        if wide > max as u128 {
            return max;
        }
        value = wide as u64;
        i = i + 1;
    }
    assert(digits@.take(n as int) =~= digits@);
    value
}

impl ParsedInt for i32 {
    open spec fn of_magnitude(m: int) -> i32 {
        if m > i32::MAX {
            i32::MAX
        } else {
            m as i32
        }
    }

    open spec fn negated(self) -> i32 {
        if self == i32::MIN {
            i32::MIN
        } else {
            (-self) as i32
        }
    }

    open spec fn largest() -> i32 {
        i32::MAX
    }

    fn from_digits(digits: &Vec<u8>, base: u32) -> (r: i32) {
        proof {
            lemma_digits_value_bounds(digits@, base as int);
        }
        saturating_value(digits, base, 0x7fff_ffff) as i32
    }

    fn largest_value() -> (r: i32) {
        i32::MAX
    }

    fn zero() -> (r: i32) {
        0
    }

    fn negate(self) -> (r: i32) {
        if self == i32::MIN {
            i32::MIN
        } else {
            -self
        }
    }
}

impl ParsedInt for u32 {
    open spec fn of_magnitude(m: int) -> u32 {
        if m > u32::MAX {
            u32::MAX
        } else {
            m as u32
        }
    }

    open spec fn negated(self) -> u32 {
        if self == 0 {
            0
        } else {
            (0x1_0000_0000 - self) as u32
        }
    }

    open spec fn largest() -> u32 {
        u32::MAX
    }

    fn from_digits(digits: &Vec<u8>, base: u32) -> (r: u32) {
        proof {
            lemma_digits_value_bounds(digits@, base as int);
        }
        saturating_value(digits, base, 0xffff_ffff) as u32
    }

    fn largest_value() -> (r: u32) {
        u32::MAX
    }

    fn zero() -> (r: u32) {
        0
    }

    fn negate(self) -> (r: u32) {
        if self == 0 {
            0
        } else {
            u32::MAX - self + 1
        }
    }
}

impl ParsedInt for u64 {
    open spec fn of_magnitude(m: int) -> u64 {
        if m > u64::MAX {
            u64::MAX
        } else {
            m as u64
        }
    }

    open spec fn negated(self) -> u64 {
        if self == 0 {
            0
        } else {
            (0x1_0000_0000_0000_0000 - self) as u64
        }
    }

    open spec fn largest() -> u64 {
        u64::MAX
    }

    fn from_digits(digits: &Vec<u8>, base: u32) -> (r: u64) {
        proof {
            lemma_digits_value_bounds(digits@, base as int);
        }
        saturating_value(digits, base, 0xffff_ffff_ffff_ffff)
    }

    fn largest_value() -> (r: u64) {
        u64::MAX
    }

    fn zero() -> (r: u64) {
        0
    }

    fn negate(self) -> (r: u64) {
        if self == 0 {
            0
        } else {
            u64::MAX - self + 1
        }
    }
}

/// What is made of a scan: the value and how much was taken, or nothing where
/// there were no digits. A lone prefix of base 8 is a zero.
pub open spec fn scanned_value<Q: ParsedInt>(scan: IntScan) -> Result<(Q, int), ()> {
    if scan.len > scan.prefix {
        let magnitude = if scan.digits.len() == 0 {
            Q::largest()
        } else {
            Q::of_magnitude(digits_value(scan.digits, scan.base))
        };
        Ok(
            (
                if scan.negative {
                    magnitude.negated()
                } else {
                    magnitude
                },
                scan.spaces + scan.len,
            ),
        )
    } else if scan.base == 8 && scan.prefix > 0 {
        Ok((Q::of_magnitude(0), scan.spaces + scan.prefix))
    } else {
        Err(())
    }
}

/// The base is one that digits can be of, and can be told where it is not
/// given.
pub open spec fn base_known(input: Seq<u8>, base: int, max: int) -> bool {
    &&& base == 0 || 2 <= base <= 36
    &&& scan_int(input, base, max, false).base != 0
}

/// `r` is what `scanned` says, with the count as a machine integer.
pub open spec fn same_outcome<Q>(r: Result<(Q, u32), ()>, scanned: Result<(Q, int), ()>) -> bool {
    match scanned {
        Ok((value, len)) => r == Ok::<(Q, u32), ()>((value, len as u32)) && 0 <= len <= u32::MAX,
        Err(_) => r is Err,
    }
}

proof fn lemma_space_end(input: Seq<u8>, from: int)
    requires
        0 <= from <= input.len(),
    ensures
        from <= space_end(input, from) <= input.len(),
    decreases input.len() - from,
{
    if from < input.len() && is_space(input[from]) {
        lemma_space_end(input, from + 1);
    }
}

/// How much white space `input` has from `offset` on: `Ok` where something
/// follows it, `Err` where the input ends with it.
pub fn count_spaces(input: &Vec<u8>, offset: GuestUSize) -> (r: Result<
    GuestUSize,
    GuestUSize,
>)
    requires
        offset <= input@.len() <= u32::MAX,
    ensures
        ({
            let end = space_end(input@, offset as int);
            if end < input@.len() {
                r == Ok::<u32, u32>((end - offset) as u32)
            } else {
                r == Err::<u32, u32>((end - offset) as u32)
            }
        }),
        offset <= space_end(input@, offset as int) <= input@.len(),
{
    let mut count: u32 = offset;
    while (count as usize) < input.len()
        invariant
            offset <= count <= input@.len() <= u32::MAX,
            space_end(input@, offset as int) == space_end(input@, count as int),
        decreases input@.len() - count,
    {
        let c: u8 = input[count as usize];
        if c == 0x20 || (0x09 <= c && c <= 0x0d) {
            count = count + 1;
        } else {
            return Ok(count - offset);
        }
    }
    Err(count - offset)
}

/// How much white space a source has next: `Ok` where something follows it,
/// `Err` where the source ends with it. The white space is consumed, and what
/// follows it is not.
pub fn count_whitespace_generic(source: &mut TextSource, offset: GuestUSize) -> (r: Result<
    GuestUSize,
    GuestUSize,
>)
    requires
        old(source).wf(),
        old(source).indexed ==> offset <= old(source).chars@.len(),
    ensures
        final(source).wf(),
        ({
            let input = old(source).input(offset as int);
            let end = space_end(input, 0);
            &&& r == if end < input.len() {
                Ok::<u32, u32>(end as u32)
            } else {
                Err::<u32, u32>(end as u32)
            }
            &&& *final(source) == old(source).consumed(end)
        }),
{
    let input: Vec<u8> = source.rest(offset);
    let r: Result<u32, u32> = count_spaces(&input, 0);
    let count: u32 = match r {
        Ok(count) => count,
        Err(count) => count,
    };
    source.consume(count);
    r
}

/// The integer that a source gives next, in the given base (zero where its
/// prefix tells), among its first `max_length` characters after white space.
/// All that the integer is made of is consumed, also where that is a sign or a
/// prefix without digits, and what was looked at behind it is pushed back.
pub fn str_to_int_inner_generic<Q: ParsedInt>(
    source: &mut TextSource,
    offset: GuestUSize,
    base: u32,
    max_length: GuestUSize,
) -> (r: Result<(Q, u32), ()>)
    requires
        old(source).wf(),
        old(source).indexed ==> offset <= old(source).chars@.len(),
        base_known(old(source).input(offset as int), base as int, max_length as int),
    ensures
        final(source).wf(),
        ({
            let scan = scan_int(
                old(source).input(offset as int),
                base as int,
                max_length as int,
                !old(source).indexed,
            );
            &&& same_outcome(r, scanned_value::<Q>(scan))
            &&& *final(source) == old(source).consumed(scan.taken)
        }),
{
    let input: Vec<u8> = source.rest(offset);
    let stream: bool = !source.indexed;
    let (r, taken) = scan_text::<Q>(&input, base, max_length, stream);
    source.consume(taken);
    r
}

/// The integer that `input` starts with, and how many characters of a stream
/// are gone with it.
fn scan_text<Q: ParsedInt>(
    input: &Vec<u8>,
    base: u32,
    max_length: GuestUSize,
    stream: bool,
) -> (r: (Result<(Q, u32), ()>, u32))
    requires
        input@.len() < u32::MAX,
        base_known(input@, base as int, max_length as int),
    ensures
        ({
            let scan = scan_int(input@, base as int, max_length as int, stream);
            &&& same_outcome(r.0, scanned_value::<Q>(scan))
            &&& r.1 == scan.taken
            &&& r.1 <= input@.len()
        }),
{
    let ghost scan = scan_int(input@, base as int, max_length as int, stream);
    let n: u32 = input.len() as u32;
    let spaces: u32 = match count_spaces(input, 0) {
        Ok(count) => count,
        Err(count) => {
            return (Err(()), count);
        },
    };
    let mut base: u32 = base;
    let mut len: u32 = 0;
    // Whether a zero that counts as the prefix is read again as a digit.
    let mut again: u32 = 0;
    let c: u8 = input[spaces as usize];
    let negative: bool = c == 0x2d;
    if c == 0x2b || c == 0x2d {
        len = 1;
        if max_length == 1 {
            return (
                if base == 8 {
                    Ok((Q::zero(), spaces + 1))
                } else {
                    Err(())
                },
                spaces + 1,
            );
        }
    }
    if base == 0 {
        let first: u8 = input[(spaces + len) as usize];
        base = if first == 0x30 {
            let next: u8 = input[(spaces + len + 1) as usize];
            if next == 0x78 || next == 0x58 {
                16
            } else {
                8
            }
        } else {
            10
        };
    }
    if (base == 8 || base == 16) && spaces + len < n && input[(spaces + len) as usize] == 0x30 {
        len = len + 1;
        if len == max_length {
            return (Ok((bare_prefix::<Q>(negative), spaces + len)), spaces + len);
        }
        if base == 8 && stream {
            again = 1;
        }
        if base == 16 && spaces + len < n && (input[(spaces + len) as usize] == 0x78
            || input[(spaces + len) as usize] == 0x58) {
            len = len + 1;
            if len == max_length {
                return (Ok((bare_prefix::<Q>(negative), spaces + len)), spaces + len);
            }
        }
    }
    scan_magnitude(input, spaces, len, again, negative, base, max_length)
}

/// The digits that follow a sign and a prefix, and what they stand for.
fn scan_magnitude<Q: ParsedInt>(
    input: &Vec<u8>,
    spaces: u32,
    prefix: u32,
    again: u32,
    negative: bool,
    base: u32,
    max_length: GuestUSize,
) -> (r: (Result<(Q, u32), ()>, u32))
    requires
        input@.len() < u32::MAX,
        again <= 1,
        again <= prefix,
        spaces + prefix - again <= input@.len(),
        max_length != 0 ==> prefix <= max_length,
        2 <= base <= 36,
    ensures
        ({
            let scan = scan_digits(
                input@,
                spaces as int,
                prefix as int,
                again as int,
                negative,
                base as int,
                max_length as int,
            );
            &&& same_outcome(r.0, scanned_value::<Q>(scan))
            &&& r.1 == scan.taken
            &&& r.1 <= input@.len()
        }),
{
    let n: u32 = input.len() as u32;
    let mut len: u32 = prefix;
    let ghost from = spaces + prefix - again;
    let ghost end = scan_end(spaces - again, max_length as int);
    let mut digits: Vec<u8> = Vec::new();
    while (max_length == 0 || len < max_length) && spaces + len - again < n && digit_of(
        input[(spaces + len - again) as usize],
    ) < base
        invariant
            n == input@.len() < u32::MAX,
            again <= 1,
            again <= prefix <= len,
            spaces + len - again <= n,
            max_length != 0 ==> len <= max_length,
            2 <= base <= 36,
            from == spaces + prefix - again,
            end == scan_end(spaces - again, max_length as int),
            digits@ =~= input@.subrange(from, spaces + len - again),
            forall|k: int| 0 <= k < digits@.len() ==> digit_value(#[trigger] digits@[k]) < base,
            digits_end(input@, base as int, from, end) == digits_end(
                input@,
                base as int,
                spaces + len - again,
                end,
            ),
        decreases n + again - len,
    {
        digits.push(input[(spaces + len - again) as usize]);
        len = len + 1;
    }
    let taken: u32 = spaces + len - again;
    assert(digits_end(input@, base as int, from, end) == taken);
    let r: Result<(Q, u32), ()> = if len > prefix {
        let v: Q = Q::from_digits(&digits, base);
        Ok(
            (
                if negative {
                    v.negate()
                } else {
                    v
                },
                spaces + len,
            ),
        )
    } else if base == 8 && prefix > 0 {
        Ok((Q::zero(), spaces + prefix))
    } else {
        Err(())
    };
    (r, taken)
}

/// What a prefix stands for that is cut off before any digit.
fn bare_prefix<Q: ParsedInt>(negative: bool) -> (r: Q)
    ensures
        r == if negative {
            Q::largest().negated()
        } else {
            Q::largest()
        },
{
    let v: Q = Q::largest_value();
    if negative {
        v.negate()
    } else {
        v
    }
}

/// The text of the C string at `str`, with a NUL behind it: what a scan reads.
pub open spec fn text_at(mem: Mem, str: int) -> Seq<u8> {
    mem.cstr(str).push(0)
}

pub fn read_text(mem: &Mem, str: ConstPtr) -> (r: Vec<u8>)
    requires
        mem.wf(),
        mem.valid(str as int, 0),
        mem.cstr(str as int).len() + 1 < u32::MAX,
    ensures
        r@ == text_at(*mem, str as int),
        r@.len() < u32::MAX,
{
    let mut text: Vec<u8> = mem.cstr_at(str);
    text.push(0);
    text
}

/// In a C string the base can always be told.
proof fn lemma_cstr_base_known(text: Seq<u8>, base: int)
    requires
        base == 0 || 2 <= base <= 36,
        forall|i: int| 0 <= i < text.len() ==> text[i] != 0,
    ensures
        base_known(text.push(0), base, u32::MAX as int),
        base_known(text.push(0), base, 0),
{
    let input = text.push(0);
    lemma_space_stops(text, 0);
    let spaces = space_end(input, 0);
    assert(spaces < input.len());
}

proof fn lemma_space_stops(text: Seq<u8>, from: int)
    requires
        0 <= from <= text.len(),
    ensures
        from <= space_end(text.push(0), from) <= text.len(),
    decreases text.len() - from,
{
    if from < text.len() && is_space(text[from]) {
        lemma_space_stops(text, from + 1);
    }
}

/// What a C string that is scanned in a given base stands for.
pub open spec fn parsed<Q: ParsedInt>(mem: Mem, str: int, base: int) -> Result<(Q, int), ()> {
    scanned_value::<Q>(scan_int(text_at(mem, str), base, u32::MAX as int, false))
}

/// What a scan in a given base reads at `str` is guest memory: a NUL ends the
/// text there, or the scan stops at a character before the end of memory.
pub open spec fn scan_readable(mem: Mem, str: int, base: int) -> bool {
    mem.valid_cstr(str) || {
        let scan = scan_int(text_at(mem, str), base, u32::MAX as int, false);
        &&& mem.valid(str, 0)
        &&& scan.spaces + scan.len < mem.cstr(str).len() < u32::MAX - 1
    }
}

fn parse_at<Q: ParsedInt>(mem: &Mem, str: ConstPtr, base: u32) -> (r: Result<(Q, u32), ()>)
    requires
        mem.wf(),
        scan_readable(*mem, str as int, base as int),
        base == 0 || 2 <= base <= 36,
    ensures
        same_outcome(r, parsed::<Q>(*mem, str as int, base as int)),
        r matches Ok((_, len)) ==> str + len <= u32::MAX,
{
    proof {
        lemma_cstr_within(mem@, str as int);
    }
    let text: Vec<u8> = read_text(mem, str);
    proof {
        lemma_nul_free(*mem, str as int);
        lemma_cstr_base_known(mem.cstr(str as int), base as int);
        lemma_scan_within(text@, base as int, u32::MAX as int);
    }
    assert(text@.skip(0) =~= text@);
    let mut source: TextSource = TextSource { chars: text, at: 0, indexed: true };
    str_to_int_inner_generic(&mut source, 0, base, u32::MAX)
}

/// A C string ends in memory, or with it.
pub proof fn lemma_cstr_within(s: Seq<u8>, at: int)
    requires
        0 <= at <= s.len(),
    ensures
        at + crate::mem::cstr_len(s, at) <= s.len(),
    decreases s.len() - at,
{
    if at < s.len() && s[at] != 0 {
        lemma_cstr_within(s, at + 1);
    }
}

proof fn lemma_nul_free(mem: Mem, str: int)
    requires
        mem.valid(str, 0),
    ensures
        forall|i: int| 0 <= i < mem.cstr(str).len() ==> mem.cstr(str)[i] != 0,
{
    lemma_cstr_nonzero(mem@, str);
    lemma_cstr_within(mem@, str);
}

proof fn lemma_cstr_nonzero(s: Seq<u8>, at: int)
    requires
        0 <= at,
    ensures
        forall|i: int| at <= i < at + crate::mem::cstr_len(s, at) ==> s[i] != 0,
    decreases s.len() - at,
{
    if at < s.len() && s[at] != 0 {
        lemma_cstr_nonzero(s, at + 1);
    }
}

proof fn lemma_digits_end(input: Seq<u8>, base: int, from: int, end: int)
    requires
        0 <= from <= input.len(),
    ensures
        from <= digits_end(input, base, from, end) <= input.len(),
    decreases end - from,
{
    if from < end && from < input.len() && digit_value(input[from]) < base {
        lemma_digits_end(input, base, from + 1, end);
    }
}

/// A scan takes no more than there is.
pub proof fn lemma_scan_within(input: Seq<u8>, base: int, max: int)
    ensures
        ({
            let s = scan_int(input, base, max, false);
            &&& 0 <= s.spaces
            &&& 0 <= s.prefix
            &&& 0 <= s.len
            &&& s.spaces + s.len <= input.len()
            &&& s.spaces + s.prefix <= input.len()
        }),
{
    let spaces = space_end(input, 0);
    lemma_space_end(input, 0);
    let end = scan_end(spaces, max);
    let s = scan_int(input, base, max, false);
    if spaces < input.len() {
        lemma_digits_end(input, s.base, spaces, end);
        lemma_digits_end(input, s.base, spaces + 1, end);
        if spaces + 2 <= input.len() {
            lemma_digits_end(input, s.base, spaces + 2, end);
        }
        if spaces + 3 <= input.len() {
            lemma_digits_end(input, s.base, spaces + 3, end);
        }
    }
}

/// What `strtol` and its relatives do: the value, with the place where the
/// text ends stored at `endptr`.
pub open spec fn parse_done<Q: ParsedInt>(
    before: Environment,
    after: Environment,
    str: int,
    endptr: int,
    base: int,
    r: Q,
) -> bool {
    let (value, end) = match parsed::<Q>(before.mem, str, base) {
        Ok((value, len)) => (value, str + len),
        Err(_) => (Q::of_magnitude(0), str),
    };
    &&& r == value
    &&& if endptr == 0 {
        after == before.with_errno(0)
    } else {
        &&& after == before.with_errno(0).with_mem(after.mem)
        &&& after.mem.stored(before.mem, endptr, le_bytes(end, 4))
    }
}

/// The text and the place for its end are guest memory, and the base is one
/// that digits can be of.
pub open spec fn parse_ready(env: Environment, str: int, endptr: int, base: int) -> bool {
    &&& env.wf()
    &&& scan_readable(env.mem, str, base)
    &&& endptr != 0 ==> env.mem.valid(endptr, 4)
    &&& base == 0 || 2 <= base <= 36
}

fn parse_and_store<Q: ParsedInt>(
    env: &mut Environment,
    str: ConstPtr,
    endptr: MutPtr,
    base: i32,
) -> (r: Q)
    requires
        parse_ready(*old(env), str as int, endptr as int, base as int),
    ensures
        final(env).wf(),
        parse_done::<Q>(*old(env), *final(env), str as int, endptr as int, base as int, r),
{
    set_errno(env, 0);
    let (value, end): (Q, u32) = match parse_at::<Q>(&env.mem, str, base as u32) {
        Ok((value, len)) => (value, str + len),
        Err(_) => (Q::zero(), str),
    };
    if endptr != 0 {
        env.mem.write_u32(endptr, end);
    }
    value
}

/// `unsigned long strtoul(const char *str, char **endptr, int base);`
pub fn strtoul(env: &mut Environment, str: ConstPtr, endptr: MutPtr, base: i32) -> (r: u32)
    requires
        parse_ready(*old(env), str as int, endptr as int, base as int),
    ensures
        final(env).wf(),
        parse_done::<u32>(*old(env), *final(env), str as int, endptr as int, base as int, r),
{
    parse_and_store::<u32>(env, str, endptr, base)
}

/// `unsigned long long strtoull(const char *str, char **endptr, int base);`
pub fn strtoull(env: &mut Environment, str: ConstPtr, endptr: MutPtr, base: i32) -> (r: u64)
    requires
        parse_ready(*old(env), str as int, endptr as int, base as int),
    ensures
        final(env).wf(),
        parse_done::<u64>(*old(env), *final(env), str as int, endptr as int, base as int, r),
{
    parse_and_store::<u64>(env, str, endptr, base)
}

/// `long strtol(const char *str, char **endptr, int base);`
pub fn strtol(env: &mut Environment, str: ConstPtr, endptr: MutPtr, base: i32) -> (r: i32)
    requires
        parse_ready(*old(env), str as int, endptr as int, base as int),
    ensures
        final(env).wf(),
        parse_done::<i32>(*old(env), *final(env), str as int, endptr as int, base as int, r),
{
    parse_and_store::<i32>(env, str, endptr, base)
}

/// The value of a C string, and how much of it was taken.
pub fn strtol_inner(env: &mut Environment, str: ConstPtr, base: u32) -> (r: Result<(i32, u32), ()>)
    requires
        parse_ready(*old(env), str as int, 0, base as int),
    ensures
        *final(env) == *old(env),
        same_outcome(r, parsed::<i32>(old(env).mem, str as int, base as int)),
{
    parse_at::<i32>(&env.mem, str, base)
}

/// `int atoi(const char *s);`
pub fn atoi(env: &mut Environment, s: ConstPtr) -> (r: i32)
    requires
        parse_ready(*old(env), s as int, 0, 10),
    ensures
        final(env).wf(),
        parse_done::<i32>(*old(env), *final(env), s as int, 0, 10, r),
{
    set_errno(env, 0);
    match strtol_inner(env, s, 10) {
        Ok((value, _)) => value,
        Err(_) => 0,
    }
}

/// `long atol(const char *s);`
pub fn atol(env: &mut Environment, s: ConstPtr) -> (r: i32)
    requires
        parse_ready(*old(env), s as int, 0, 10),
    ensures
        final(env).wf(),
        parse_done::<i32>(*old(env), *final(env), s as int, 0, 10, r),
{
    atoi(env, s)
}

/// Decimal digits that fit are read as the number they write.
pub proof fn law_decimal_digits(digits: Seq<u8>)
    requires
        0 < digits.len() <= u32::MAX,
        forall|i: int| 0 <= i < digits.len() ==> 0x30 <= #[trigger] digits[i] <= 0x39,
        digits_value(digits, 10) <= i32::MAX,
    ensures
        scanned_value::<i32>(scan_int(digits.push(0), 10, 0, false)) == Ok::<(i32, int), ()>(
            (digits_value(digits, 10) as i32, digits.len() as int),
        ),
{
    let input = digits.push(0);
    assert(input[0] == digits[0]);
    assert(space_end(input, 0) == 0);
    lemma_digits_run(digits, 0, scan_end(0, 0));
    assert(input.subrange(0, digits.len() as int) =~= digits);
}

proof fn lemma_digits_run(digits: Seq<u8>, from: int, end: int)
    requires
        0 <= from <= digits.len() <= end,
        forall|i: int| 0 <= i < digits.len() ==> 0x30 <= #[trigger] digits[i] <= 0x39,
    ensures
        digits_end(digits.push(0), 10, from, end) == digits.len(),
    decreases digits.len() - from,
{
    if from < digits.len() {
        assert(digits.push(0)[from] == digits[from]);
        lemma_digits_run(digits, from + 1, end);
    }
}

} // verus!
