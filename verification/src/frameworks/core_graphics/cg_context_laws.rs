//! What the drawing calls leave to be drawn, command by command.
use vstd::prelude::*;

use crate::environment::Environment;
use crate::frameworks::core_graphics::cg_context::{
    advances_at, border, ctm_stepped, drew, face_for, font_kept, font_set, glyphs_at, last_layout,
    new_font_set, path_drawn, path_extended, path_filled, path_stroked, points_at, positions_at,
    rect_at, rect_filled, rect_points, rects_points, segments, showed, state_restored, state_saved,
    tiles, Area, CGContextHostObject, CGContextRef, CGContextState, CGContextSubclass, CGFontRef,
    CGImageRef, CtmStep, DrawCommand, Drawing, FontFace, PathPoint, Rgba,
};
use crate::frameworks::core_graphics::cg_geometry::{CGFloat, CGPoint, CGRect, CGSize};
use crate::mem::le_u32;
use crate::objc::nil;

verus! {

/// What is to be drawn.
pub open spec fn picture(env: Environment) -> Seq<Drawing> {
    env.framework_state.core_graphics.cg_context.draws@
}

/// A context as it stands.
pub open spec fn context_in(env: Environment, context: CGContextRef) -> CGContextHostObject {
    env.framework_state.core_graphics.cg_context.contexts@[context]
}

pub open spec fn has_context(env: Environment, context: CGContextRef) -> bool {
    env.framework_state.core_graphics.cg_context.contexts@.contains_key(context)
}

/// What was to be drawn before still is, and `n` commands come after it.
pub open spec fn grew_by(before: Environment, after: Environment, n: int) -> bool {
    &&& picture(after).len() == picture(before).len() + n
    &&& forall|i: int|
        0 <= i < picture(before).len() ==> #[trigger] picture(after)[i] == picture(before)[i]
}

/// The command number `i` of those that were added.
pub open spec fn added(before: Environment, after: Environment, i: int) -> Drawing {
    picture(after)[picture(before).len() + i]
}

/// The command is carried out under everything that `h` says.
pub open spec fn under(d: Drawing, h: CGContextHostObject) -> bool {
    &&& d.state.fill_color == h.rgb_fill_color
    &&& d.state.stroke_color == h.rgb_stroke_color
    &&& d.state.alpha == h.alpha
    &&& d.state.line_width == h.line_width
    &&& d.state.line_cap == h.line_cap
    &&& d.state.line_join == h.line_join
    &&& d.state.miter_limit == h.miter_limit
    &&& d.state.flatness == h.flatness
    &&& d.state.blend_mode == h.blend_mode
    &&& d.state.interpolation_quality == h.interpolation_quality
    &&& d.state.transform.base == h.transform.base
    &&& d.state.transform.steps@ == h.transform.steps@
    &&& d.state.font == h.font
    &&& d.state.font_size == h.font_size
    &&& d.state.rendering_intent == h.rendering_intent
    &&& d.state.shadow == h.shadow
    &&& d.state.clip_mask == h.clip_mask
    &&& CGContextSubclass::CGBitmapContext(d.bitmap) == h.subclass
}

/// The command fills an area in a colour.
pub open spec fn fills(d: Drawing, context: CGContextRef, area: Area, color: Rgba) -> bool {
    d.command == (DrawCommand::Fill { context, area, color, clear: false })
}

/// The command draws the line from `a` to `b`.
pub open spec fn draws_line(
    d: Drawing,
    context: CGContextRef,
    a: PathPoint,
    b: PathPoint,
    width: CGFloat,
    color: Rgba,
) -> bool {
    fills(d, context, Area::Segment(a, b, width), color)
}

/// Everything but the path and what is to be drawn is as it was, and the path
/// is empty.
pub open spec fn path_gone(before: Environment, after: Environment, context: CGContextRef) -> bool {
    &&& has_context(after, context)
    &&& context_in(after, context).path_points@.len() == 0
    &&& context_in(after, context) == (CGContextHostObject {
        path_points: context_in(after, context).path_points,
        ..context_in(before, context)
    })
    &&& after.mem == before.mem
    &&& after.fs == before.fs
    &&& after.objc == before.objc
    &&& after.libc_state == before.libc_state
    &&& forall|c: CGContextRef| #[trigger]
        has_context(before, c) && c != context ==> has_context(after, c) && context_in(after, c)
            == context_in(before, c)
}

/// Filling a path that has points adds one command, which fills the rectangle
/// around all of them in the context's fill colour, and takes the path away. An
/// empty path is left alone.
pub proof fn law_fill_path(before: Environment, after: Environment, context: CGContextRef)
    requires
        context != nil,
        path_filled(before, after, context),
    ensures
        ({
            let h = context_in(before, context);
            if h.path_points@.len() == 0 {
                after == before
            } else {
                &&& grew_by(before, after, 1)
                &&& fills(
                    added(before, after, 0),
                    context,
                    Area::Bounds(h.path_points),
                    h.rgb_fill_color,
                )
                &&& under(added(before, after, 0), h)
                &&& path_gone(before, after, context)
            }
        }),
{
    let h = context_in(before, context);
    if h.path_points@.len() > 0 {
        lemma_earlier(before, after);
    }
}

/// What was there is there, once it is a prefix.
proof fn lemma_earlier(before: Environment, after: Environment)
    requires
        picture(after).len() >= picture(before).len(),
        picture(after).take(picture(before).len() as int) == picture(before),
    ensures
        forall|i: int|
            0 <= i < picture(before).len() ==> #[trigger] picture(after)[i] == picture(before)[i],
{
    assert forall|i: int| 0 <= i < picture(before).len() implies #[trigger] picture(after)[i]
        == picture(before)[i] by {
        assert(picture(after).take(picture(before).len() as int)[i] == picture(before)[i]);
    }
}

/// Stroking a path adds a line from each of its points to the next, in the
/// context's stroke colour and line width, and takes the path away.
pub proof fn law_stroke_path(before: Environment, after: Environment, context: CGContextRef)
    requires
        context != nil,
        path_stroked(before, after, context),
    ensures
        ({
            let h = context_in(before, context);
            let p = h.path_points@;
            &&& grew_by(
                before,
                after,
                if p.len() == 0 {
                    0
                } else {
                    p.len() - 1
                },
            )
            &&& path_gone(before, after, context)
            &&& forall|i: int|
                0 <= i && i + 1 < p.len() ==> {
                    let d = #[trigger] added(before, after, i);
                    &&& draws_line(d, context, p[i], p[i + 1], h.line_width, h.rgb_stroke_color)
                    &&& under(d, h)
                }
        }),
{
    lemma_earlier(before, after);
}

/// What a path is drawn as, by the mode's number. Modes 0 and 1 add what filling
/// adds, mode 2 what stroking adds; modes 3 and 4 add the one fill and then the
/// lines, and take the path away. Another mode does nothing.
pub proof fn law_draw_path(
    before: Environment,
    after: Environment,
    context: CGContextRef,
    mode: i32,
)
    requires
        context != nil,
        path_drawn(before, after, context, mode),
    ensures
        mode == 0 || mode == 1 ==> path_filled(before, after, context),
        mode == 2 ==> path_stroked(before, after, context),
        mode < 0 || mode > 4 ==> after == before,
        (mode == 0 || mode == 1) && context_in(before, context).path_points@.len() > 0 ==> {
            let h = context_in(before, context);
            &&& grew_by(before, after, 1)
            &&& fills(
                added(before, after, 0),
                context,
                Area::Bounds(h.path_points),
                h.rgb_fill_color,
            )
            &&& under(added(before, after, 0), h)
            &&& path_gone(before, after, context)
        },
        (mode == 3 || mode == 4) && context_in(before, context).path_points@.len() > 0 ==> {
            let h = context_in(before, context);
            let p = h.path_points@;
            &&& grew_by(before, after, p.len() as int)
            &&& fills(
                added(before, after, 0),
                context,
                Area::Bounds(h.path_points),
                h.rgb_fill_color,
            )
            &&& under(added(before, after, 0), h)
            &&& path_gone(before, after, context)
            &&& forall|i: int|
                1 <= i < p.len() ==> {
                    let d = #[trigger] added(before, after, i);
                    &&& draws_line(d, context, p[i - 1], p[i], h.line_width, h.rgb_stroke_color)
                    &&& under(d, h)
                }
        },
        (mode == 3 || mode == 4) && context_in(before, context).path_points@.len() == 0 ==> grew_by(
            before,
            after,
            0,
        ),
{
    if mode == 0 || mode == 1 {
        law_fill_path(before, after, context);
    } else if mode == 3 || mode == 4 {
        lemma_earlier(before, after);
        let h = context_in(before, context);
        let p = h.path_points@;
        let one = DrawCommand::Fill {
            context,
            area: Area::Bounds(h.path_points),
            color: h.rgb_fill_color,
            clear: false,
        };
        let lines = segments(context, p, h.line_width, h.rgb_stroke_color);
        if p.len() > 0 {
            assert((seq![one] + lines)[0] == one);
            assert forall|i: int| 1 <= i < p.len() implies (#[trigger] (seq![one] + lines)[i])
                == lines[i - 1] by {}
            assert forall|i: int| 1 <= i < p.len() implies draws_line(
                #[trigger] added(before, after, i),
                context,
                p[i - 1],
                p[i],
                h.line_width,
                h.rgb_stroke_color,
            ) && under(added(before, after, i), h) by {
                assert((seq![one] + lines)[i] == lines[i - 1]);
            }
        }
    }
}

/// Filling a rectangle adds one command, which fills it in the fill colour;
/// clearing it adds one that makes it transparent. The contexts are as they
/// were.
pub proof fn law_fill_rect(
    before: Environment,
    after: Environment,
    context: CGContextRef,
    rect: CGRect,
    clear: bool,
)
    requires
        rect_filled(before, after, context, rect, clear),
    ensures
        context == nil ==> after == before,
        context != nil ==> {
            let h = context_in(before, context);
            let d = added(before, after, 0);
            &&& grew_by(before, after, 1)
            &&& d.command == (DrawCommand::Fill {
                context,
                area: Area::Rect(rect),
                color: h.rgb_fill_color,
                clear,
            })
            &&& under(d, h)
            &&& forall|c: CGContextRef| #[trigger]
                has_context(before, c) ==> has_context(after, c) && context_in(after, c)
                    == context_in(before, c)
        },
{
    if context != nil {
        lemma_earlier(before, after);
    }
}

/// Drawing a border adds four commands, one for each side, all in the same
/// colour and width.
pub proof fn law_border(
    before: Environment,
    after: Environment,
    context: CGContextRef,
    rect: CGRect,
    width: CGFloat,
    color: Rgba,
)
    requires
        drew(before, after, context, border(context, rect, width, color)),
    ensures
        grew_by(before, after, 4),
        fills(added(before, after, 0), context, Area::TopBand(rect, width), color),
        fills(added(before, after, 1), context, Area::BottomBand(rect, width), color),
        fills(added(before, after, 2), context, Area::LeftBand(rect, width), color),
        fills(added(before, after, 3), context, Area::RightBand(rect, width), color),
        forall|i: int|
            0 <= i < 4 ==> under(
                #[trigger] added(before, after, i),
                context_in(before, context),
            ),
{
    lemma_earlier(before, after);
}

/// Points that are added to a path follow those that it had, in order, and
/// nothing else of the context changes.
pub proof fn law_path_grows(
    before: Environment,
    after: Environment,
    context: CGContextRef,
    more: Seq<PathPoint>,
)
    requires
        context != nil,
        path_extended(before, after, context, more),
    ensures
        ({
            let h = context_in(before, context);
            let p = context_in(after, context).path_points@;
            let n = h.path_points@.len();
            &&& p.len() == n + more.len()
            &&& forall|i: int| 0 <= i < n ==> #[trigger] p[i] == h.path_points@[i]
            &&& forall|i: int| 0 <= i < more.len() ==> p[n + i] == #[trigger] more[i]
            &&& context_in(after, context) == (CGContextHostObject {
                path_points: context_in(after, context).path_points,
                ..h
            })
            &&& picture(after) == picture(before)
            &&& after.mem == before.mem
        }),
{
    let n = context_in(before, context).path_points@.len();
    assert forall|i: int| 0 <= i < more.len() implies context_in(after, context).path_points@[n + i]
        == #[trigger] more[i] by {
        assert((context_in(before, context).path_points@ + more)[n + i] == more[i]);
    }
}

/// The word at `at`.
pub open spec fn word_at(s: Seq<u8>, at: int) -> u32 {
    le_u32(s, at) as u32
}

/// Points in memory take eight bytes each, `x` before `y`; so do positions, and
/// advances with the width before the height. Glyph numbers take two.
pub proof fn law_arrays(s: Seq<u8>, at: int, n: int, i: int)
    requires
        0 <= i < n,
    ensures
        points_at(s, at, n).len() == n,
        positions_at(s, at, n).len() == n,
        advances_at(s, at, n).len() == n,
        glyphs_at(s, at, n).len() == n,
        points_at(s, at, n)[i] == PathPoint::At(
            CGPoint { x: word_at(s, at + 8 * i), y: word_at(s, at + 8 * i + 4) },
        ),
        positions_at(s, at, n)[i] == (CGPoint {
            x: word_at(s, at + 8 * i),
            y: word_at(s, at + 8 * i + 4),
        }),
        advances_at(s, at, n)[i] == (CGSize {
            width: word_at(s, at + 8 * i),
            height: word_at(s, at + 8 * i + 4),
        }),
        glyphs_at(s, at, n)[i] == rusttype::GlyphId(
            (s[at + 2 * i] + 0x100 * s[at + 2 * i + 1]) as u16,
        ),
{
}

/// Rectangles in memory take sixteen bytes each. Their corners are added
/// rectangle by rectangle, each time from the origin along the first edge and
/// round.
pub proof fn law_corners(s: Seq<u8>, at: int, n: int, i: int)
    requires
        0 <= i < n,
    ensures
        ({
            let b = at + 16 * i;
            let rect = CGRect {
                origin: CGPoint { x: word_at(s, b), y: word_at(s, b + 4) },
                size: CGSize { width: word_at(s, b + 8), height: word_at(s, b + 12) },
            };
            let p = rects_points(s, at, n);
            &&& p.len() == 4 * n
            &&& p[4 * i] == PathPoint::At(rect.origin)
            &&& p[4 * i + 1] == PathPoint::RightCorner(rect)
            &&& p[4 * i + 2] == PathPoint::OppositeCorner(rect)
            &&& p[4 * i + 3] == PathPoint::LowerCorner(rect)
            &&& rect_points(rect) == p.subrange(4 * i, 4 * i + 4)
        }),
    decreases n,
{
    lemma_corner_count(s, at, n - 1);
    let rest = rects_points(s, at, n - 1);
    let last = rect_points(rect_at(s, at + 16 * (n - 1)));
    assert(rects_points(s, at, n) == rest + last);
    if i < n - 1 {
        law_corners(s, at, n - 1, i);
        assert((rest + last).subrange(4 * i, 4 * i + 4) =~= rest.subrange(4 * i, 4 * i + 4));
    } else {
        assert((rest + last).subrange(4 * i, 4 * i + 4) =~= last);
    }
}

proof fn lemma_corner_count(s: Seq<u8>, at: int, n: int)
    requires
        0 <= n,
    ensures
        rects_points(s, at, n).len() == 4 * n,
    decreases n,
{
    if n > 0 {
        lemma_corner_count(s, at, n - 1);
    }
}

/// An image that is tiled over a grid is drawn once for each column and row, at
/// its place and in its size: row by row, and in a row column by column. No more
/// than a million are drawn.
pub proof fn law_tiles(
    context: CGContextRef,
    size: CGSize,
    image: CGImageRef,
    xs: Seq<CGFloat>,
    ys: Seq<CGFloat>,
    column: int,
    row: int,
)
    requires
        0 <= column < xs.len(),
        0 <= row < ys.len(),
        row * xs.len() + column < 1_000_000,
    ensures
        ({
            let t = tiles(context, size, image, xs, ys);
            let all = xs.len() * ys.len();
            &&& t.len() == (if all <= 1_000_000 {
                all as int
            } else {
                1_000_000
            })
            &&& row * xs.len() + column < t.len()
            &&& t[row * xs.len() + column] == (DrawCommand::Image {
                context,
                rect: CGRect { origin: CGPoint { x: xs[column], y: ys[row] }, size },
                image,
            })
        }),
{
    let n = xs.len() as int;
    let m = ys.len() as int;
    let k = row * n + column;
    assert(0 <= row * n) by (nonlinear_arith)
        requires
            0 <= row,
            0 <= n,
    ;
    assert(row * n + column < n * m) by (nonlinear_arith)
        requires
            0 <= column < n,
            0 <= row < m,
    ;
    vstd::arithmetic::div_mod::lemma_fundamental_div_mod_converse(k, n, row, column);
}

/// Glyphs are drawn by one command, with the context's font and size, in its
/// fill colour, and the glyph numbers in order.
pub proof fn law_glyphs_drawn(
    before: Environment,
    after: Environment,
    context: CGContextRef,
    ids: Seq<rusttype::GlyphId>,
)
    requires
        showed(before, after, context, ids),
    ensures
        ({
            let h = context_in(before, context);
            let d = added(before, after, 0);
            &&& grew_by(before, after, 1)
            &&& under(d, h)
            &&& d.command is Glyphs
            &&& d.command->Glyphs_context == context
            &&& d.command->Glyphs_font == h.font
            &&& d.command->font_size == h.font_size
            &&& d.command->glyphs@ == ids
            &&& d.command->layout == last_layout(after)
            &&& d.command->Glyphs_color == h.rgb_fill_color
        }),
{
    lemma_earlier(before, after);
}

/// A change of the transform is kept behind those that came before it, and
/// nothing else of the context changes.
pub proof fn law_transform_grows(
    before: Environment,
    after: Environment,
    context: CGContextRef,
    step: CtmStep,
)
    requires
        context != nil,
        ctm_stepped(before, after, context, step),
    ensures
        ({
            let b = context_in(before, context);
            let a = context_in(after, context);
            let n = b.transform.steps@.len();
            &&& a.transform.base == b.transform.base
            &&& a.transform.steps@.len() == n + 1
            &&& a.transform.steps@[n as int] == step
            &&& forall|i: int|
                0 <= i < n ==> #[trigger] a.transform.steps@[i] == b.transform.steps@[i]
            &&& a == (CGContextHostObject { transform: a.transform, ..b })
            &&& picture(after) == picture(before)
        }),
{
}

/// Saving puts everything that drawing goes by on the stack, above what was
/// saved before, and changes none of it.
pub proof fn law_state_saved(before: Environment, after: Environment, context: CGContextRef)
    requires
        state_saved(before, after, context),
    ensures
        ({
            let b = context_in(before, context);
            let a = context_in(after, context);
            let n = b.state_stack@.len();
            &&& a.state_stack@.len() == n + 1
            &&& forall|i: int| 0 <= i < n ==> #[trigger] a.state_stack@[i] == b.state_stack@[i]
            &&& a == (CGContextHostObject { state_stack: a.state_stack, ..b })
            &&& keeps(a.state_stack@[n as int], b)
            &&& picture(after) == picture(before)
        }),
{
    let b = context_in(before, context);
    let a = context_in(after, context);
    assert forall|i: int| 0 <= i < b.state_stack@.len() implies #[trigger] a.state_stack@[i]
        == b.state_stack@[i] by {
        assert(a.state_stack@.drop_last()[i] == b.state_stack@[i]);
    }
}

/// A saved state says what the context says.
pub open spec fn keeps(s: CGContextState, h: CGContextHostObject) -> bool {
    &&& s.fill_color == h.rgb_fill_color
    &&& s.stroke_color == h.rgb_stroke_color
    &&& s.alpha == h.alpha
    &&& s.line_width == h.line_width
    &&& s.line_cap == h.line_cap
    &&& s.line_join == h.line_join
    &&& s.miter_limit == h.miter_limit
    &&& s.flatness == h.flatness
    &&& s.blend_mode == h.blend_mode
    &&& s.interpolation_quality == h.interpolation_quality
    &&& s.transform.base == h.transform.base
    &&& s.transform.steps@ == h.transform.steps@
    &&& s.font == h.font
    &&& s.font_size == h.font_size
    &&& s.rendering_intent == h.rendering_intent
    &&& s.shadow == h.shadow
    &&& s.clip_mask == h.clip_mask
}

/// Restoring brings back all that the last saved state says, takes it from the
/// stack, and leaves the path, the text transform and the bitmap alone.
pub proof fn law_state_restored(before: Environment, after: Environment, context: CGContextRef)
    requires
        state_restored(before, after, context),
    ensures
        ({
            let b = context_in(before, context);
            let a = context_in(after, context);
            let n = b.state_stack@.len();
            &&& n == 0 ==> a == b
            &&& n > 0 ==> {
                &&& keeps(b.state_stack@[n - 1], a)
                &&& a.state_stack@.len() == n - 1
                &&& forall|i: int|
                    0 <= i < n - 1 ==> #[trigger] a.state_stack@[i] == b.state_stack@[i]
                &&& a.path_points == b.path_points
                &&& a.text_transform == b.text_transform
                &&& a.subclass == b.subclass
            }
            &&& picture(after) == picture(before)
        }),
{
}

/// The font that is set is one that is known to the context, and the current
/// one; the others of the context are as they were. A font of the user interface
/// is drawn with the same face, and what is no font with the bundled one.
pub proof fn law_font_set(
    before: Environment,
    after: Environment,
    context: CGContextRef,
    font: CGFontRef,
)
    requires
        has_context(before, context),
        if font_kept(before, font) {
            font_set(before, after, context, font)
        } else {
            new_font_set(before, after, context, face_for(before, font))
        },
    ensures
        ({
            let g = before.framework_state.core_graphics.cg_context;
            let b = context_in(before, context);
            let a = context_in(after, context);
            let faces = after.framework_state.core_graphics.cg_context.fonts@;
            let plain = font == nil || g.fonts@.contains_key(font) || (g.ui_fonts@.contains_key(
                font,
            ) && g.ui_fonts@[font] is None);
            &&& a == (CGContextHostObject { font: a.font, ..b })
            &&& plain ==> a.font == font && faces == g.fonts@
            &&& !plain ==> a.font != nil && faces.contains_key(a.font) && faces[a.font] == (
            if g.ui_fonts@.contains_key(font) {
                g.ui_fonts@[font]->0
            } else {
                FontFace::SansRegular
            })
            &&& picture(after) == picture(before)
        }),
{
}

} // verus!
