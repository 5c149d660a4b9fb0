//! What contexts and data providers hold on to and let go, and the values that
//! stand for what was not given.
use vstd::prelude::*;
use vstd::utf8::{decode_utf8, valid_utf8};

use crate::environment::Environment;
use crate::frameworks::core_graphics::cg_context::{
    bitmap_released, can_show, context_dropped, default_shadow_color, CGBitmapContextData,
    CGContextRef,
};
use crate::frameworks::core_graphics::cg_context_laws::{context_in, has_context};
use crate::frameworks::core_graphics::cg_data_provider::{
    filename_path, object_retained, provider_made, provider_of, single_slashes,
    CGDataProviderHostObject,
};
use crate::frameworks::core_graphics::cg_geometry::{
    float_eq, identity_transform, size_eq, CGSize,
};
use crate::mem::Mem;
use crate::objc::{id, releases, Action, ObjC};

verus! {

/// The identity has ones (`0x3f800000`) on its diagonal and zeros elsewhere, and a
/// shadow without a colour is black with an alpha of one third (`0x3eaaaaab`).
pub proof fn law_defaults(a: CGSize, b: CGSize)
    ensures
        ({
            let t = identity_transform();
            &&& t.a == 0x3f800000 && t.d == 0x3f800000
            &&& t.b == 0 && t.c == 0 && t.tx == 0 && t.ty == 0
        }),
        default_shadow_color() == (0u32, 0u32, 0u32, 0x3eaaaaabu32),
        size_eq(a, b) <==> float_eq(a.width, b.width) && float_eq(a.height, b.height),
{
}

/// Glyphs can be shown where there is a context with a font, and the host has a
/// face for that.
pub proof fn law_can_show(env: Environment, context: CGContextRef)
    ensures
        can_show(env, context) <==> {
            let font = context_in(env, context).font;
            &&& context != 0
            &&& font != 0
            &&& env.framework_state.core_graphics.cg_context.fonts@.contains_key(font)
        },
{
}

/// A bitmap that belongs to its context is given back, and no other. No byte
/// changes.
pub proof fn law_bitmap_released(before: Mem, after: Mem, bitmap: CGBitmapContextData)
    requires
        bitmap_released(before, after, bitmap),
    ensures
        !bitmap.data_is_owned ==> after == before,
        bitmap.data_is_owned && before.allocated(bitmap.data as int) ==> after.chunks@.len()
            == before.chunks@.len() - 1,
        after.bytes == before.bytes,
{
}

/// A context that is dropped is gone, and its font is released where it has one.
/// The other contexts stay, and so does what was drawn.
pub proof fn law_context_dropped(
    before: Environment,
    after: Environment,
    this: CGContextRef,
    other: CGContextRef,
)
    requires
        context_dropped(before, after, this),
    ensures
        !has_context(after, this),
        other != this ==> (has_context(after, other) <==> has_context(before, other))
            && context_in(after, other) == context_in(before, other),
        after.framework_state.core_graphics.cg_context.draws
            == before.framework_state.core_graphics.cg_context.draws,
        after.mem.bytes == before.mem.bytes,
        ({
            let font = context_in(before, this).font;
            &&& font == 0 ==> after.objc.actions@ == before.objc.actions@
            &&& font != 0 ==> after.objc.actions@ == before.objc.actions@.push(
                Action::Release(font),
            )
        }),
        after.objc.host_objects@.len() == before.objc.host_objects@.len() - 1,
{
    let font = context_in(before, this).font;
    let kept = choose|mid: ObjC| #[trigger]
        mid.acted(before.objc, releases(font)) && after.objc.forgot(mid, this);
    assert(before.objc.actions@ + Seq::<Action>::empty() =~= before.objc.actions@);
    assert(before.objc.actions@ + seq![Action::Release(font)] =~= before.objc.actions@.push(
        Action::Release(font),
    ));
}

/// What a provider is made of is retained once, where it is an object at all.
pub proof fn law_provider_retains(
    before: Environment,
    after: Environment,
    object: id,
    host: CGDataProviderHostObject,
    r: id,
)
    requires
        provider_of(before, after, object, host, r),
    ensures
        exists|kept: Environment|
            {
                &&& #[trigger] provider_made(kept, after, host, r)
                &&& kept.mem == before.mem
                &&& object == 0 ==> kept.objc.actions@ == before.objc.actions@
                &&& object != 0 ==> kept.objc.actions@ == before.objc.actions@.push(
                    Action::Retain(object),
                )
            },
{
    let kept = choose|kept: Environment| #[trigger]
        object_retained(before, kept, object) && provider_made(kept, after, host, r);
    assert(before.objc.actions@ + Seq::<Action>::empty() =~= before.objc.actions@);
    assert(before.objc.actions@ + seq![Action::Retain(object)] =~= before.objc.actions@.push(
        Action::Retain(object),
    ));
}

/// A run of slashes is one slash, and every other character stays: one character
/// more is one more unless it is a slash behind a slash.
pub proof fn law_single_slashes(s: Seq<char>, c: char)
    ensures
        single_slashes(Seq::empty()).len() == 0,
        c == '/' && s.len() > 0 && s.last() == '/' ==> single_slashes(s.push(c))
            == single_slashes(s),
        !(c == '/' && s.len() > 0 && s.last() == '/') ==> single_slashes(s.push(c))
            == single_slashes(s).push(c),
{
    assert(s.push(c).drop_last() =~= s);
}

/// A file name that is text is that text with its runs of slashes made one, and
/// one that is no text names nothing.
pub proof fn law_filename_path(mem: Mem, filename: int)
    ensures
        valid_utf8(mem.cstr(filename)) ==> filename_path(mem, filename) == single_slashes(
            decode_utf8(mem.cstr(filename)),
        ),
        !valid_utf8(mem.cstr(filename)) ==> filename_path(mem, filename).len() == 0,
{
}

} // verus!
