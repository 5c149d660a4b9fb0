//! Floating-point numbers as text: which characters make up a number, and
//! where the text of one goes. The value of a number is not looked at here.
use vstd::prelude::*;

use crate::environment::Environment;
use crate::libc::errno::set_errno;
use crate::libc::stdlib::ints::{
    count_spaces, is_space, lemma_cstr_within, read_text, space_end, text_at, TextSource,
};
use crate::mem::{le_bytes, unsigned32, ConstPtr, Mem, MutPtr};

verus! {

pub open spec fn is_digit(c: u8) -> bool {
    0x30 <= c <= 0x39
}

/// A sign or a digit: what a number or an exponent may start with.
pub open spec fn starts_number(c: u8) -> bool {
    c == 0x2b || c == 0x2d || is_digit(c)
}

/// Where the digits that start at `from` end.
pub open spec fn run_end(input: Seq<u8>, from: int) -> int
    decreases input.len() - from,
{
    if 0 <= from < input.len() && is_digit(input[from]) {
        run_end(input, from + 1)
    } else {
        from
    }
}

/// Where a sign or a digit and the digits after it end.
pub open spec fn signed_run_end(input: Seq<u8>, from: int) -> int {
    if 0 <= from < input.len() && starts_number(input[from]) {
        run_end(input, from + 1)
    } else {
        run_end(input, from)
    }
}

/// Where digits after a point end, if there is one.
pub open spec fn fraction_end(input: Seq<u8>, from: int) -> int {
    if 0 <= from < input.len() && input[from] == 0x2e {
        run_end(input, from + 1)
    } else {
        from
    }
}

/// Where an exponent ends, if there is one.
pub open spec fn exponent_end(input: Seq<u8>, from: int) -> int {
    if 0 <= from < input.len() && (input[from] == 0x65 || input[from] == 0x45) {
        signed_run_end(input, from + 1)
    } else {
        from
    }
}

/// Where the number that starts at `from` ends: a sign, digits, a point with
/// more digits, and an exponent, each of which may be missing.
pub open spec fn number_end(input: Seq<u8>, from: int) -> int {
    exponent_end(input, fraction_end(input, signed_run_end(input, from)))
}

/// The text of a number, and how much white space stands before it.
pub struct NumberText {
    pub spaces: u32,
    pub text: Vec<u8>,
}

proof fn lemma_run_end(input: Seq<u8>, from: int)
    requires
        0 <= from <= input.len(),
    ensures
        from <= run_end(input, from) <= input.len(),
    decreases input.len() - from,
{
    if from < input.len() && is_digit(input[from]) {
        lemma_run_end(input, from + 1);
    }
}

fn skip_digits(input: &Vec<u8>, from: usize) -> (r: usize)
    requires
        from <= input@.len(),
    ensures
        r == run_end(input@, from as int),
        from <= r <= input@.len(),
{
    let mut i: usize = from;
    while i < input.len() && 0x30 <= input[i] && input[i] <= 0x39
        invariant
            from <= i <= input@.len(),
            run_end(input@, from as int) == run_end(input@, i as int),
        decreases input@.len() - i,
    {
        i = i + 1;
    }
    i
}

fn skip_signed(input: &Vec<u8>, from: usize) -> (r: usize)
    requires
        from <= input@.len(),
    ensures
        r == signed_run_end(input@, from as int),
        from <= r <= input@.len(),
{
    if from < input.len() && (input[from] == 0x2b || input[from] == 0x2d || (0x30 <= input[from]
        && input[from] <= 0x39)) {
        skip_digits(input, from + 1)
    } else {
        skip_digits(input, from)
    }
}

/// The text of the number that a source gives next. White space and the text are
/// consumed, and what was looked at behind them is pushed back.
pub fn number_text(source: &mut TextSource, offset: u32) -> (r: NumberText)
    requires
        old(source).wf(),
        old(source).indexed ==> offset <= old(source).chars@.len(),
    ensures
        final(source).wf(),
        ({
            let input = old(source).input(offset as int);
            let end = number_end(input, space_end(input, 0));
            &&& r.spaces == space_end(input, 0)
            &&& r.text@ == input.subrange(space_end(input, 0), end)
            &&& r.spaces + r.text@.len() == end <= input.len()
            &&& *final(source) == old(source).consumed(end)
        }),
{
    let input: Vec<u8> = source.rest(offset);
    let r: NumberText = first_number(&input);
    let taken: u32 = r.spaces + r.text.len() as u32;
    source.consume(taken);
    r
}

/// The text of the number that `input` starts with.
fn first_number(input: &Vec<u8>) -> (r: NumberText)
    requires
        input@.len() <= u32::MAX,
    ensures
        r.spaces == space_end(input@, 0),
        r.text@ == input@.subrange(
            space_end(input@, 0),
            number_end(input@, space_end(input@, 0)),
        ),
        r.spaces + r.text@.len() == number_end(input@, space_end(input@, 0)),
        r.spaces + r.text@.len() <= input@.len(),
{
    let spaces: u32 = match count_spaces(input, 0) {
        Ok(count) => count,
        Err(count) => count,
    };
    let start: usize = spaces as usize;
    let mut end: usize = skip_signed(input, start);
    if end < input.len() && input[end] == 0x2e {
        end = skip_digits(input, end + 1);
    }
    if end < input.len() && (input[end] == 0x65 || input[end] == 0x45) {
        end = skip_signed(input, end + 1);
    }
    let mut text: Vec<u8> = Vec::new();
    let mut i: usize = start;
    while i < end
        invariant
            start <= i <= end <= input@.len(),
            text@ =~= input@.subrange(start as int, i as int),
        decreases end - i,
    {
        text.push(input[i]);
        i = i + 1;
    }
    NumberText { spaces, text }
}

/// The text of a number is all digits, signs, points and exponent letters.
pub proof fn law_number_characters(input: Seq<u8>, i: int)
    requires
        space_end(input, 0) <= i < number_end(input, space_end(input, 0)),
        0 <= space_end(input, 0) <= input.len(),
    ensures
        i < input.len(),
        starts_number(input[i]) || input[i] == 0x2e || input[i] == 0x65 || input[i] == 0x45,
{
    let a = space_end(input, 0);
    let b = signed_run_end(input, a);
    let c = fraction_end(input, b);
    let from = if a < input.len() && starts_number(input[a]) {
        a + 1
    } else {
        a
    };
    lemma_run_end(input, from);
    lemma_run_digits(input, from);
    if b < input.len() && input[b] == 0x2e {
        lemma_run_end(input, b + 1);
        lemma_run_digits(input, b + 1);
    }
    if c < input.len() && (input[c] == 0x65 || input[c] == 0x45) {
        let e = if c + 1 < input.len() && starts_number(input[c + 1]) {
            c + 2
        } else {
            c + 1
        };
        lemma_run_end(input, e);
        lemma_run_digits(input, e);
    }
}

proof fn lemma_run_digits(input: Seq<u8>, from: int)
    requires
        0 <= from <= input.len(),
    ensures
        forall|k: int| from <= k < run_end(input, from) ==> is_digit(#[trigger] input[k]),
    decreases input.len() - from,
{
    if from < input.len() && is_digit(input[from]) {
        lemma_run_digits(input, from + 1);
    }
}

/// What a scan for a number reads at `s` is guest memory: a NUL ends the text
/// there, or the number ends before the end of memory.
pub open spec fn number_readable(mem: Mem, s: int) -> bool {
    mem.valid_cstr(s) || {
        let input = text_at(mem, s);
        &&& mem.valid(s, 0)
        &&& number_end(input, space_end(input, 0)) < mem.cstr(s).len() < u32::MAX - 1
    }
}

/// The text of the number in the C string at `s`.
pub fn number_text_at(env: &Environment, s: ConstPtr) -> (r: NumberText)
    requires
        env.wf(),
        number_readable(env.mem, s as int),
    ensures
        ({
            let input = text_at(env.mem, s as int);
            &&& r.spaces == space_end(input, 0)
            &&& r.text@ == input.subrange(space_end(input, 0), number_end(input, space_end(input, 0)))
        }),
        s + r.spaces + r.text@.len() <= u32::MAX,
{
    proof {
        lemma_cstr_within(env.mem@, s as int);
    }
    let input: Vec<u8> = read_text(&env.mem, s);
    assert(input@.skip(0) =~= input@);
    let mut source: TextSource = TextSource { chars: input, at: 0, indexed: true };
    let r: NumberText = number_text(&mut source, 0);
    proof {
        lemma_number_before_nul(env.mem.cstr(s as int));
    }
    r
}

/// A number ends before the NUL of its C string.
proof fn lemma_number_before_nul(text: Seq<u8>)
    ensures
        ({
            let input = text.push(0);
            0 <= space_end(input, 0) <= number_end(input, space_end(input, 0)) <= text.len()
        }),
{
    let input = text.push(0);
    lemma_spaces_before_nul(text, 0);
    let a = space_end(input, 0);
    let b = signed_run_end(input, a);
    if starts_number(input[a]) {
        lemma_run_before_nul(text, a + 1);
    } else {
        lemma_run_before_nul(text, a);
    }
    let c = fraction_end(input, b);
    if input[b] == 0x2e {
        lemma_run_before_nul(text, b + 1);
    }
    if input[c] == 0x65 || input[c] == 0x45 {
        lemma_run_before_nul(text, c + 1);
        if starts_number(input[c + 1]) {
            lemma_run_before_nul(text, c + 2);
        }
    }
}

proof fn lemma_spaces_before_nul(text: Seq<u8>, from: int)
    requires
        0 <= from <= text.len(),
    ensures
        from <= space_end(text.push(0), from) <= text.len(),
    decreases text.len() - from,
{
    if from < text.len() && is_space(text[from]) {
        lemma_spaces_before_nul(text, from + 1);
    }
}

proof fn lemma_run_before_nul(text: Seq<u8>, from: int)
    requires
        0 <= from <= text.len(),
    ensures
        from <= run_end(text.push(0), from) <= text.len(),
    decreases text.len() - from,
{
    if from < text.len() && is_digit(text[from]) {
        lemma_run_before_nul(text, from + 1);
    }
}

/// What `strtod` and `strtof` store: where the number ends, or its start where
/// the text is no number.
pub fn store_number_end(
    env: &mut Environment,
    nptr: ConstPtr,
    endptr: MutPtr,
    number: &NumberText,
    is_number: bool,
)
    requires
        old(env).wf(),
        endptr != 0 ==> old(env).mem.valid(endptr as int, 4),
        nptr + number.spaces + number.text@.len() <= u32::MAX,
    ensures
        final(env).wf(),
        ({
            let end = if is_number {
                nptr + number.spaces + number.text@.len()
            } else {
                nptr as int
            };
            if endptr == 0 {
                *final(env) == old(env).with_errno(0)
            } else {
                &&& *final(env) == old(env).with_errno(0).with_mem(final(env).mem)
                &&& final(env).mem.stored(old(env).mem, endptr as int, le_bytes(end, 4))
            }
        }),
{
    set_errno(env, 0);
    if endptr != 0 {
        let end: u32 = if is_number {
            nptr + number.spaces + number.text.len() as u32
        } else {
            nptr
        };
        env.mem.write_u32(endptr, end);
    }
}

/// `s` without its points.
pub open spec fn without_points(s: Seq<u8>) -> Seq<u8>
    decreases s.len(),
{
    if s.len() == 0 {
        Seq::empty()
    } else if s.last() == 0x2e {
        without_points(s.drop_last())
    } else {
        without_points(s.drop_last()).push(s.last())
    }
}

/// Where the last point of `s` stands.
pub open spec fn last_point(s: Seq<u8>) -> Option<int>
    decreases s.len(),
{
    if s.len() == 0 {
        None
    } else if s.last() == 0x2e {
        Some(s.len() - 1)
    } else {
        last_point(s.drop_last())
    }
}

/// The place of the decimal point before a leading zero is taken off.
pub open spec fn point_place(s: Seq<u8>) -> int {
    match last_point(s) {
        Some(i) => i,
        None => without_points(s).len() as int,
    }
}

/// A number below one is written without the zero before its point.
pub open spec fn drops_zero(s: Seq<u8>) -> bool {
    let digits = without_points(s);
    digits.len() > 1 && digits[0] == 0x30 && point_place(s) == 1
}

/// The digits that `_fcvt` gives for a number that is written `s`.
pub open spec fn fcvt_digits(s: Seq<u8>) -> Seq<u8> {
    if drops_zero(s) {
        without_points(s).skip(1)
    } else {
        without_points(s)
    }
}

/// The place of the decimal point that `_fcvt` gives.
pub open spec fn fcvt_point(s: Seq<u8>) -> int {
    if drops_zero(s) {
        0
    } else {
        point_place(s)
    }
}

proof fn lemma_without_points_len(s: Seq<u8>)
    ensures
        without_points(s).len() <= s.len(),
        last_point(s) matches Some(i) ==> 0 <= i < s.len(),
    decreases s.len(),
{
    if s.len() > 0 {
        lemma_without_points_len(s.drop_last());
    }
}

/// Splits a number that is written with a point into its digits and the place
/// of the point.
pub fn split_digits(formatted: &Vec<u8>) -> (r: (Vec<u8>, i32))
    requires
        formatted@.len() <= i32::MAX,
    ensures
        r.0@ == fcvt_digits(formatted@),
        r.1 == fcvt_point(formatted@),
        r.0@.len() <= formatted@.len(),
{
    let n: usize = formatted.len();
    let mut digits: Vec<u8> = Vec::new();
    let mut point: Option<usize> = None;
    let mut i: usize = 0;
    assert(formatted@.take(0) =~= Seq::empty());
    while i < n
        invariant
            i <= n == formatted@.len(),
            digits@ == without_points(formatted@.take(i as int)),
            match last_point(formatted@.take(i as int)) {
                Some(k) => point == Some(k as usize) && 0 <= k < i,
                None => point is None,
            },
        decreases n - i,
    {
        assert(formatted@.take(i + 1).drop_last() =~= formatted@.take(i as int));
        if formatted[i] == 0x2e {
            point = Some(i);
        } else {
            digits.push(formatted[i]);
        }
        i = i + 1;
    }
    assert(formatted@.take(n as int) =~= formatted@);
    proof {
        lemma_without_points_len(formatted@);
    }
    let place: usize = match point {
        Some(k) => k,
        None => digits.len(),
    };
    if digits.len() > 1 && digits[0] == 0x30 && place == 1 {
        let _ = digits.remove(0);
        assert(digits@ =~= fcvt_digits(formatted@));
        return (digits, 0);
    }
    (digits, place as i32)
}

/// A word was stored, where there is a place for it.
pub open spec fn word_stored(before: Mem, after: Mem, ptr: int, value: int) -> bool {
    if ptr == 0 {
        after == before
    } else {
        after.stored(before, ptr, le_bytes(unsigned32(value), 4))
    }
}

/// `char *_fcvt(double value, int ndigits, int *decpt, int *sign);`, for a value
/// whose absolute value is written `formatted`.
pub fn _fcvt(
    env: &mut Environment,
    formatted: &Vec<u8>,
    is_negative: bool,
    decpt: MutPtr,
    sign: MutPtr,
) -> (r: MutPtr)
    requires
        old(env).wf(),
        formatted@.len() <= i32::MAX,
        decpt != 0 ==> old(env).mem.valid(decpt as int, 4),
        sign != 0 ==> old(env).mem.valid(sign as int, 4),
        old(env).mem.has_room(fcvt_digits(formatted@).len() as int + 1),
    ensures
        final(env).wf(),
        *final(env) == old(env).with_errno(0).with_mem(final(env).mem),
        exists|pointed: Mem, signed: Mem|
            {
                &&& #[trigger] word_stored(
                    old(env).mem,
                    pointed,
                    decpt as int,
                    fcvt_point(formatted@),
                )
                &&& #[trigger] word_stored(
                    pointed,
                    signed,
                    sign as int,
                    if_negative(is_negative),
                )
                &&& final(env).mem.placed(signed, r, fcvt_digits(formatted@).push(0))
            },
{
    set_errno(env, 0);
    let (digits, point): (Vec<u8>, i32) = split_digits(formatted);
    let ghost n = digits@.len() as int + 1;
    let ghost a = choose|a: int| #[trigger] env.mem.fits(a, n);
    if decpt != 0 {
        env.mem.write_i32(decpt, point);
    }
    let ghost pointed = env.mem;
    if sign != 0 {
        let value: i32 = if is_negative {
            1
        } else {
            0
        };
        env.mem.write_i32(sign, value);
    }
    let ghost signed = env.mem;
    proof {
        assert(old(env).mem.fits(a, n));
        assert(signed.fits(a, n));
        assert(word_stored(old(env).mem, pointed, decpt as int, fcvt_point(formatted@)));
        assert(word_stored(pointed, signed, sign as int, if_negative(is_negative)));
    }
    env.mem.alloc_and_write_cstr(&digits)
}

/// What stands for a sign.
pub open spec fn if_negative(is_negative: bool) -> int {
    if is_negative {
        1
    } else {
        0
    }
}

/// `char *_gcvt(double value, int ndigit, char *buf);`, for a value that is
/// written `formatted`.
pub fn _gcvt(env: &mut Environment, formatted: &Vec<u8>, buf: MutPtr) -> (r: MutPtr)
    requires
        old(env).wf(),
        buf != 0 ==> old(env).mem.valid(buf as int, formatted@.len() as int + 1),
    ensures
        final(env).wf(),
        r == buf,
        if buf == 0 {
            *final(env) == old(env).with_errno(0)
        } else {
            &&& *final(env) == old(env).with_errno(0).with_mem(final(env).mem)
            &&& final(env).mem.stored(old(env).mem, buf as int, formatted@.push(0))
        },
{
    set_errno(env, 0);
    if buf != 0 {
        env.mem.write_cstr(buf, formatted);
    }
    buf
}

} // verus!
