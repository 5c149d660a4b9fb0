//! How numbers compare, and what data providers are made of and give.
use vstd::arithmetic::power2::{
    lemma2_to64, lemma_pow2_adds, lemma_pow2_pos, lemma_pow2_unfold, pow2,
};
use vstd::prelude::*;

use crate::environment::Environment;
use crate::frameworks::core_graphics::cg_context::coverage;
use crate::frameworks::core_graphics::cg_data_provider::{
    copy_data_done, dealloc_actions, direct_started, guest_size, provider_bytes, sequential_taken,
    CGDataProviderHostObject, DataCopy, DirectStep, SequentialRead,
};
use crate::frameworks::core_graphics::cg_geometry::{
    clamp_unit, float_eq, float_lt, float_of, leading_bits, top_bit,
};
use crate::mem::{heap_size, le_u32};
use crate::objc::{id, Action};

verus! {

/// How the encodings of numbers compare: those without a sign as they are
/// written, those with one the other way round, and a number below zero is less
/// than one above it. The two zeros are equal, and what is no number is neither
/// less than nor equal to anything.
pub proof fn law_float_order(a: u32, b: u32)
    ensures
        a <= 0x7f800000 && b <= 0x7f800000 ==> float_lt(a, b) == (a < b) && float_eq(a, b) == (a
            == b),
        0x80000000 <= a <= 0xff800000 && 0x80000000 <= b <= 0xff800000 ==> float_lt(a, b) == (b < a)
            && float_eq(a, b) == (a == b),
        0x80000000 < a <= 0xff800000 && b <= 0x7f800000 ==> float_lt(a, b) && !float_lt(b, a),
        float_eq(0, 0x80000000) && !float_lt(0x80000000, 0) && !float_lt(0, 0x80000000),
        0x7f800000 < a < 0x80000000 || 0xff800000 < a ==> !float_lt(a, b) && !float_lt(b, a)
            && !float_eq(a, b),
{
}

/// What is clamped lies between zero and one; what lies there stays, and so does
/// what is no number. What is less than zero is zero, and what is more than one
/// is one.
pub proof fn law_clamp(f: u32)
    ensures
        !float_lt(clamp_unit(f), 0) && !float_lt(0x3f800000, clamp_unit(f)),
        !float_lt(f, 0) && !float_lt(0x3f800000, f) ==> clamp_unit(f) == f,
        float_lt(f, 0) ==> clamp_unit(f) == 0,
        float_lt(0x3f800000, f) ==> clamp_unit(f) == 0x3f800000,
{
}

/// The number that a positive encoding stands for, times two to the 23.
pub open spec fn scaled_value(f: int) -> int {
    (f % 0x80_0000 + 0x80_0000) * pow2((f / 0x80_0000 - 127) as nat)
}

proof fn lemma_top_bit(n: int)
    requires
        n >= 1,
    ensures
        pow2(top_bit(n)) <= n < pow2(top_bit(n) + 1),
    decreases n,
{
    lemma2_to64();
    if n > 1 {
        lemma_top_bit(n / 2);
        lemma_pow2_unfold(top_bit(n));
        lemma_pow2_unfold(top_bit(n) + 1);
    }
}

/// A number below two to the 24 is encoded as itself.
pub proof fn law_float_of_exact(n: int)
    requires
        1 <= n < 0x100_0000,
    ensures
        scaled_value(float_of(n)) == n * 0x80_0000,
        float_of(0) == 0,
        float_of(1) == 0x3f800000,
{
    lemma2_to64();
    lemma_top_bit(n);
    let e = top_bit(n);
    if e > 23 {
        lemma_pow2_rises(24, e);
    }
    assert(e <= 23);
    let k = (23 - e) as nat;
    let m = n * pow2(k);
    lemma_pow2_adds(e, k);
    lemma_pow2_adds(e + 1, k);
    assert(pow2(e) * pow2(k) == 0x80_0000);
    assert(pow2(e + 1) * pow2(k) == 0x100_0000);
    assert(0x80_0000 <= m < 0x100_0000) by (nonlinear_arith)
        requires
            m == n * pow2(k),
            pow2(e) <= n < pow2(e + 1),
            pow2(e) * pow2(k) == 0x80_0000,
            pow2(e + 1) * pow2(k) == 0x100_0000,
            0 < pow2(k),
    ;
    assert(leading_bits(n, e) == m);
    let f = float_of(n);
    assert(f == (126 + e) * 0x80_0000 + m);
    assert(f / 0x80_0000 == 127 + e);
    assert(f % 0x80_0000 == m - 0x80_0000);
    assert(m * pow2(e) == n * 0x80_0000) by (nonlinear_arith)
        requires
            m == n * pow2(k),
            pow2(e) * pow2(k) == 0x80_0000,
    ;
    assert(top_bit(1) == 0);
    assert(leading_bits(1, 0) == 0x80_0000);
}

proof fn lemma_pow2_rises(a: nat, b: nat)
    requires
        a <= b,
    ensures
        pow2(a) <= pow2(b),
        0 < pow2(a),
    decreases b,
{
    lemma_pow2_pos(a);
    if a < b {
        lemma_pow2_rises(a, (b - 1) as nat);
        lemma_pow2_unfold(b);
    }
}

/// A larger number is encoded by its leading 24 bits, rounded to the nearest, and
/// where two are as near to the even one: what is encoded is off by no more than
/// half of the last bit.
pub proof fn law_float_of_rounds(n: int, e: nat, d: int)
    requires
        e == top_bit(n),
        24 <= e,
        n >= 1,
        d == pow2((e - 23) as nat),
    ensures
        ({
            let q = leading_bits(n, e);
            &&& -d <= 2 * (n - q * d) <= d
            &&& 2 * (n - q * d) == d || 2 * (n - q * d) == -d ==> q % 2 == 0
            &&& float_of(n) == (126 + e) * 0x80_0000 + q
        }),
        pow2(e) <= n < pow2(e + 1),
{
    lemma_top_bit(n);
    lemma_pow2_pos((e - 23) as nat);
    vstd::arithmetic::div_mod::lemma_fundamental_div_mod(n, d);
    vstd::arithmetic::div_mod::lemma_mod_bound(n, d);
    let q = n / d;
    let r = n % d;
    assert(n - q * d == r) by (nonlinear_arith)
        requires
            n == d * q + r,
    ;
    assert((q + 1) * d == q * d + d) by (nonlinear_arith);
}

/// What is left of two coverages is their product over 255, rounded down.
pub proof fn law_coverage(a: int, b: int)
    requires
        0 <= a <= 255,
        0 <= b <= 255,
    ensures
        255 * coverage(a, b) <= a * b < 255 * coverage(a, b) + 255,
        coverage(a, 255) == a,
        coverage(255, b) == b,
        coverage(0, b) == 0,
{
    assert(a * 255 / 255 == a);
    assert(255 * b / 255 == b);
    assert(0 * b == 0);
}

/// The low half of a size: sizes that differ by a multiple of two to the 32 are
/// the same.
pub proof fn law_guest_size(size: int, k: int)
    requires
        0 <= size < 0x1_0000_0000,
    ensures
        guest_size(size + k * 0x1_0000_0000) == size,
{
    vstd::arithmetic::div_mod::lemma_mod_multiples_vanish(k, size, 0x1_0000_0000);
}

/// What a guest gave for a sequential provider is kept behind what it gave
/// before. It is asked again as long as it gives whole chunks of 16384 bytes, and
/// the rest stays; then the buffer is freed and the guest told.
pub proof fn law_sequential(
    before: Environment,
    after: Environment,
    read: SequentialRead,
    next: SequentialRead,
    n: int,
    more: bool,
)
    requires
        0 <= n,
        0 < read.buffer,
        read.buffer + n <= before.mem@.len(),
        sequential_taken(before, after, read, next, n, more),
    ensures
        next.data@.len() == read.data@.len() + n,
        forall|i: int| 0 <= i < read.data@.len() ==> #[trigger] next.data@[i] == read.data@[i],
        forall|i: int|
            0 <= i < n ==> next.data@[read.data@.len() + i] == #[trigger] before.mem@[read.buffer
                + i],
        next.get_bytes == read.get_bytes,
        next.info == read.info,
        next.buffer == read.buffer,
        more <==> n >= 16384,
        more ==> after == before,
        !more && read.release_info != 0 ==> after.objc.actions@ == before.objc.actions@.push(
            Action::Call1(read.release_info, read.info),
        ),
        !more && read.release_info == 0 ==> after.objc.actions@ == before.objc.actions@,
{
    let data = before.mem@.subrange(read.buffer as int, read.buffer + n);
    assert forall|i: int| 0 <= i < n implies next.data@[read.data@.len() + i]
        == #[trigger] before.mem@[read.buffer + i] by {
        assert((read.data@ + data)[read.data@.len() + i] == data[i]);
    }
    if !more && read.release_info == 0 {
        assert(before.objc.actions@ + Seq::<Action>::empty() =~= before.objc.actions@);
    }
    if !more && read.release_info != 0 {
        let call = Action::Call1(read.release_info, read.info);
        assert(before.objc.actions@ + seq![call] =~= before.objc.actions@.push(call));
    }
}

/// How the bytes of a direct provider are asked for: with the second of its
/// functions, which gives their address, or else with the fourth, which fills a
/// buffer. Without either, or without a size, there is no provider.
pub proof fn law_direct(
    before: Environment,
    after: Environment,
    size: int,
    callbacks: int,
    r: DirectStep,
)
    requires
        direct_started(before, after, size, callbacks, r),
    ensures
        ({
            let second = le_u32(before.mem@, callbacks + 4);
            let fourth = le_u32(before.mem@, callbacks + 12);
            &&& callbacks == 0 || size <= 0 ==> r is Refused
            &&& second == 0 && fourth == 0 ==> r is Refused
            &&& callbacks != 0 && size > 0 && second != 0 ==> r == DirectStep::AskPointer(
                second as u32,
            )
            &&& callbacks != 0 && size > 0 && second == 0 && fourth != 0 ==> r is AskBytes
                && r->AskBytes_0 == fourth
            &&& r is Refused || r is AskPointer ==> after == before
        }),
{
}

/// What is sent when a provider goes: the guest's function is called with what it
/// was given, or the object behind the provider is released.
pub proof fn law_provider_goes(host: CGDataProviderHostObject)
    ensures
        match host {
            CGDataProviderHostObject::DataWithSize { data, size, info, release_callback } =>
            release_callback != 0 ==> dealloc_actions(host) == seq![
                Action::Call3(release_callback, info, data, size),
            ],
            CGDataProviderHostObject::Direct { info, release_info_callback, .. } =>
            release_info_callback != 0 ==> dealloc_actions(host) == seq![
                Action::Call1(release_info_callback, info),
            ],
            CGDataProviderHostObject::CGImage(image) => image != 0 ==> dealloc_actions(host)
                == seq![Action::Release(image)],
            CGDataProviderHostObject::CFData(data) => data != 0 ==> dealloc_actions(host) == seq![
                Action::Release(data),
            ],
        },
{
}

/// The bytes of a provider are those in memory that it was made of, those of its
/// data object, or the pixels of its image.
pub proof fn law_provider_bytes(env: Environment, provider: id, i: int)
    requires
        0 <= i,
    ensures
        ({
            let s = env.framework_state.core_graphics.data_provider;
            let b = provider_bytes(env, provider);
            match s.providers@[provider] {
                CGDataProviderHostObject::DataWithSize { data, size, .. } => data + size
                    <= env.mem@.len() ==> b.len() == size && (i < size ==> b[i] == env.mem@[data
                    + i]),
                CGDataProviderHostObject::Direct { data, size, .. } => data + size
                    <= env.mem@.len() ==> b.len() == size && (i < size ==> b[i] == env.mem@[data
                    + i]),
                CGDataProviderHostObject::CFData(d) => s.datas@[d].ptr + s.datas@[d].len
                    <= env.mem@.len() ==> b.len() == s.datas@[d].len && (i < s.datas@[d].len
                    ==> b[i] == env.mem@[s.datas@[d].ptr + i]),
                CGDataProviderHostObject::CGImage(image) => b == s.images@[image]@,
            }
        }),
{
}

/// A copy of a provider's data holds its bytes: for an image they are put into
/// memory, and otherwise copied from where they lie.
pub proof fn law_copy_data(before: Environment, after: Environment, provider: id, r: DataCopy)
    requires
        copy_data_done(before, after, provider, r),
        before.framework_state.core_graphics.data_provider.providers@[provider] is CGImage,
    ensures
        ({
            let s = before.framework_state.core_graphics.data_provider;
            let pixels = s.images@[s.providers@[provider]->CGImage_0]@;
            &&& r is Owning
            &&& r->Owning_0.len == pixels.len()
            &&& forall|i: int|
                0 <= i < pixels.len() ==> after.mem@[r->Owning_0.ptr + i] == #[trigger] pixels[i]
        }),
{
    let s = before.framework_state.core_graphics.data_provider;
    let pixels = s.images@[s.providers@[provider]->CGImage_0]@;
    assert(heap_size(pixels.len() as int) >= pixels.len());
}

} // verus!
