//! `CGContext.h`
//!
//! What a context draws is listed as commands, in order, each with the bitmap
//! and the graphics state of the context at that moment: what is drawn does not
//! depend on what happens to the context later. The coordinates in a command
//! are those that the guest passed: whoever carries it out adds and multiplies
//! them, and applies the transform and the clip mask that come with it.
use std::collections::HashMap;
use std::rc::Rc;
use vstd::prelude::*;

use crate::environment::Environment;
use crate::frameworks::core_graphics::cg_geometry::{
    clamp_unit, clamped, float_lt, float_of, float_of_u32, identity_transform, less, make_identity,
    CGAffineTransform, CGFloat, CGPoint, CGRect, CGSize, ONE, ONE_THIRD, ZERO,
};
use crate::mem::{
    le_bytes, le_u16, le_u32, ConstPtr, GuestUSize, Mem, MutVoidPtr,
};
use crate::objc::{id, nil, releases, retains, ObjC};

verus! {

broadcast use vstd::std_specs::hash::group_hash_axioms;

/// `rusttype::GlyphId` is a struct of one public field, the number of a glyph
/// in its font.
#[verifier::external_type_specification]
pub struct ExGlyphId(rusttype::GlyphId);

pub type CGContextRef = id;

pub type CGColorRef = id;

pub type CGColorSpaceRef = id;

pub type CGFontRef = id;

pub type CGImageRef = id;

pub type CGGlyph = u16;

pub type CGInterpolationQuality = i32;

/// Red, green, blue and alpha.
pub type Rgba = (CGFloat, CGFloat, CGFloat, CGFloat);

/// What is left of two coverages, one after the other.
pub open spec fn coverage(a: int, b: int) -> int {
    a * b / 255
}

/// A rasterized clip mask covering the entire backing store of a bitmap
/// context, in device pixels with row 0 at the top of the image.
///
/// `alpha[y * width + x]` is the clip coverage (0 = fully clipped out, 255 =
/// fully visible) at device pixel `(x, y)`.
pub struct ClipMask {
    pub width: GuestUSize,
    pub height: GuestUSize,
    pub alpha: Vec<u8>,
}

impl ClipMask {
    pub open spec fn wf(&self) -> bool {
        &&& self.alpha@.len() == self.width * self.height
        &&& self.alpha@.len() <= u32::MAX
    }

    /// The coverage at `(x, y)`; nothing is visible outside of the mask.
    pub open spec fn coverage_at(&self, x: int, y: int) -> u8 {
        if 0 <= x < self.width && 0 <= y < self.height {
            self.alpha@[y * self.width + x]
        } else {
            0
        }
    }

    /// Both masks cover a store of the same size.
    pub open spec fn same_size(&self, other: ClipMask) -> bool {
        self.width == other.width && self.height == other.height
    }

    /// Coverage at device pixel `(x, y)`. Points outside the mask bounds are
    /// fully clipped.
    pub fn sample(&self, x: i32, y: i32) -> (r: u8)
        requires
            self.wf(),
        ensures
            r == self.coverage_at(x as int, y as int),
    {
        if x < 0 || y < 0 {
            return 0;
        }
        let column: u32 = x as u32;
        let row: u32 = y as u32;
        if column >= self.width || row >= self.height {
            return 0;
        }
        proof {
            lemma_pixel_index(
                self.width as int,
                self.height as int,
                column as int,
                row as int,
            );
        }
        self.alpha[(row * self.width + column) as usize]
    }

    /// Intersects this mask with `other` (clips accumulate by intersection,
    /// not replacement), producing a new mask.
    pub fn intersect(&self, other: &ClipMask) -> (r: ClipMask)
        requires
            self.wf(),
            other.wf(),
            self.same_size(*other),
        ensures
            r.wf(),
            r.same_size(*self),
            forall|k: int|
                0 <= k < r.alpha@.len() ==> #[trigger] r.alpha@[k] == coverage(
                    self.alpha@[k] as int,
                    other.alpha@[k] as int,
                ),
    {
        let n: usize = self.alpha.len();
        let mut alpha: Vec<u8> = Vec::new();
        let mut i: usize = 0;
        while i < n
            invariant
                i <= n == self.alpha@.len() == other.alpha@.len(),
                alpha@.len() == i,
                forall|k: int|
                    0 <= k < i ==> #[trigger] alpha@[k] == coverage(
                        self.alpha@[k] as int,
                        other.alpha@[k] as int,
                    ),
            decreases n - i,
        {
            let a: u32 = self.alpha[i] as u32;
            let b: u32 = other.alpha[i] as u32;
            proof {
                law_coverage_bounds(a as int, b as int);
                assert(a * b <= 255 * 255) by (nonlinear_arith)
                    requires
                        a <= 255,
                        b <= 255,
                ;
            }
            alpha.push((a * b / 255) as u8);
            i = i + 1;
        }
        ClipMask { width: self.width, height: self.height, alpha }
    }
}

/// A pixel within the bounds has its place among the `width * height`.
proof fn lemma_pixel_index(width: int, height: int, x: int, y: int)
    requires
        0 <= x < width,
        0 <= y < height,
    ensures
        0 <= y * width <= y * width + x < width * height,
{
    assert(0 <= y * width && y * width + width <= width * height) by (nonlinear_arith)
        requires
            0 <= x < width,
            0 <= y < height,
    ;
}

/// An intersection shows no more than either mask, all of what the one shows
/// where the other is fully visible, and nothing where the other is fully
/// clipped.
pub proof fn law_coverage_bounds(a: int, b: int)
    requires
        0 <= a <= 255,
        0 <= b <= 255,
    ensures
        0 <= coverage(a, b) <= a,
        coverage(a, b) <= b,
        coverage(a, b) == coverage(b, a),
        b == 255 ==> coverage(a, b) == a,
        b == 0 ==> coverage(a, b) == 0,
{
    assert(a * b == b * a && 0 <= a * b && a * b <= a * 255 && a * b <= 255 * b)
        by (nonlinear_arith)
        requires
            0 <= a <= 255,
            0 <= b <= 255,
    ;
}

/// At each pixel, inside and outside of the bounds, an intersection shows what
/// the one mask leaves of the other.
pub proof fn law_intersect_samples(a: ClipMask, b: ClipMask, r: ClipMask, x: int, y: int)
    requires
        a.wf(),
        b.wf(),
        a.same_size(b),
        r.wf(),
        r.same_size(a),
        forall|k: int|
            0 <= k < r.alpha@.len() ==> #[trigger] r.alpha@[k] == coverage(
                a.alpha@[k] as int,
                b.alpha@[k] as int,
            ),
    ensures
        r.coverage_at(x, y) == coverage(a.coverage_at(x, y) as int, b.coverage_at(x, y) as int),
{
    if 0 <= x < a.width && 0 <= y < a.height {
        lemma_pixel_index(a.width as int, a.height as int, x, y);
    }
}

/// The memory that a bitmap context draws to.
#[derive(Clone, Copy, Debug, PartialEq, Eq, Structural)]
pub struct CGBitmapContextData {
    pub data: MutVoidPtr,
    /// The context made the memory, and frees it.
    pub data_is_owned: bool,
    pub width: GuestUSize,
    pub height: GuestUSize,
}

#[derive(Clone, Copy, Debug, PartialEq, Eq, Structural)]
pub enum CGContextSubclass {
    CGBitmapContext(CGBitmapContextData),
}

/// State for shadow operations. Stored verbatim on the host object so that
/// saving and restoring the graphics state can preserve it across drawing
/// blocks.
#[derive(Clone, Copy, Debug)]
pub struct CGShadowState {
    pub enabled: bool,
    pub offset_x: CGFloat,
    pub offset_y: CGFloat,
    pub blur: CGFloat,
    pub color: Rgba,
}

/// Black, with an alpha of one third: the colour of a shadow for which none
/// was given.
pub open spec fn default_shadow_color() -> Rgba {
    (ZERO, ZERO, ZERO, ONE_THIRD)
}

impl Default for CGShadowState {
    fn default() -> (r: CGShadowState)
        ensures
            r == (CGShadowState {
                enabled: false,
                offset_x: ZERO,
                offset_y: ZERO,
                blur: ZERO,
                color: default_shadow_color(),
            }),
    {
        CGShadowState {
            enabled: false,
            offset_x: ZERO,
            offset_y: ZERO,
            blur: ZERO,
            color: (ZERO, ZERO, ZERO, ONE_THIRD),
        }
    }
}

impl Default for CGContextSubclass {
    fn default() -> (r: CGContextSubclass)
        ensures
            r == CGContextSubclass::CGBitmapContext(
                CGBitmapContextData { data: 0, data_is_owned: false, width: 0, height: 0 },
            ),
    {
        CGContextSubclass::CGBitmapContext(
            CGBitmapContextData { data: 0, data_is_owned: false, width: 0, height: 0 },
        )
    }
}

/// One change of the current transform.
#[derive(Clone, Copy, Debug, PartialEq, Eq, Structural)]
pub enum CtmStep {
    /// The transform, with the current one after it.
    Concat(CGAffineTransform),
    /// By an angle.
    Rotate(CGFloat),
    Scale(CGFloat, CGFloat),
    Translate(CGFloat, CGFloat),
}

/// The current transform: the one that the context began with, and what was
/// done to it since, in order.
pub struct Ctm {
    pub base: CGAffineTransform,
    pub steps: Vec<CtmStep>,
}

/// The current transform as a value.
pub struct CtmView {
    pub base: CGAffineTransform,
    pub steps: Seq<CtmStep>,
}

impl View for Ctm {
    type V = CtmView;

    open spec fn view(&self) -> CtmView {
        CtmView { base: self.base, steps: self.steps@ }
    }
}

impl Ctm {
    fn copied(&self) -> (r: Ctm)
        ensures
            r@ == self@,
    {
        let n: usize = self.steps.len();
        let mut steps: Vec<CtmStep> = Vec::new();
        let mut i: usize = 0;
        while i < n
            invariant
                i <= n == self.steps@.len(),
                steps@ =~= self.steps@.take(i as int),
            decreases n - i,
        {
            steps.push(self.steps[i]);
            i = i + 1;
        }
        assert(steps@ =~= self.steps@);
        Ctm { base: self.base, steps }
    }
}

/// A point of a path: one that was given, or one that follows from the shape
/// that was added.
#[derive(Clone, Copy, Debug, PartialEq, Eq, Structural)]
pub enum PathPoint {
    At(CGPoint),
    /// The rectangle's corner `(x + width, y)`.
    RightCorner(CGRect),
    /// The rectangle's corner `(x + width, y + height)`.
    OppositeCorner(CGRect),
    /// The rectangle's corner `(x, y + height)`.
    LowerCorner(CGRect),
    /// Where the ellipse in the rectangle goes farthest along `x`.
    EllipseMaxX(CGRect),
    /// Where the ellipse in the rectangle goes farthest along `y`.
    EllipseMaxY(CGRect),
    EllipseMinX(CGRect),
    EllipseMinY(CGRect),
    /// The point of a circle at an angle.
    OnCircle { x: CGFloat, y: CGFloat, radius: CGFloat, angle: CGFloat },
}

/// What is filled.
pub enum Area {
    Rect(CGRect),
    /// The band of a width along the rectangle's first edge, within it.
    TopBand(CGRect, CGFloat),
    BottomBand(CGRect, CGFloat),
    LeftBand(CGRect, CGFloat),
    RightBand(CGRect, CGFloat),
    /// The smallest rectangle around the points.
    Bounds(Vec<PathPoint>),
    /// The rectangle around a line of a width, unless its ends are less than
    /// a thousandth apart.
    Segment(PathPoint, PathPoint, CGFloat),
}

/// Where glyphs go.
pub enum GlyphLayout {
    /// One after the other, from a point on, under a transform.
    AtPoint(CGPoint, CGAffineTransform),
    /// Each at its position.
    Positions(Vec<CGPoint>),
    /// From the origin on, each followed by its advance.
    Advances(Vec<CGSize>),
}

/// What is to be drawn to a context.
pub enum DrawCommand {
    Fill {
        context: CGContextRef,
        area: Area,
        color: Rgba,
        /// The area is made transparent instead.
        clear: bool,
    },
    Image { context: CGContextRef, rect: CGRect, image: CGImageRef },
    Glyphs {
        context: CGContextRef,
        font: CGFontRef,
        font_size: CGFloat,
        glyphs: Vec<rusttype::GlyphId>,
        layout: GlyphLayout,
        color: Rgba,
    },
}

pub struct CGContextState {
    pub fill_color: Rgba,
    pub stroke_color: Rgba,
    pub alpha: CGFloat,
    pub line_width: CGFloat,
    pub line_cap: i32,
    pub line_join: i32,
    pub miter_limit: CGFloat,
    pub flatness: CGFloat,
    pub blend_mode: i32,
    pub interpolation_quality: CGInterpolationQuality,
    pub transform: Ctm,
    pub font: CGFontRef,
    pub font_size: CGFloat,
    pub rendering_intent: i32,
    pub shadow: CGShadowState,
    pub clip_mask: Option<Rc<ClipMask>>,
}

/// The part of a context that is saved and restored, as a value.
pub struct GraphicsState {
    pub fill_color: Rgba,
    pub stroke_color: Rgba,
    pub alpha: CGFloat,
    pub line_width: CGFloat,
    pub line_cap: i32,
    pub line_join: i32,
    pub miter_limit: CGFloat,
    pub flatness: CGFloat,
    pub blend_mode: i32,
    pub interpolation_quality: CGInterpolationQuality,
    pub transform: CtmView,
    pub font: CGFontRef,
    pub font_size: CGFloat,
    pub rendering_intent: i32,
    pub shadow: CGShadowState,
    pub clip_mask: Option<Rc<ClipMask>>,
}

impl View for CGContextState {
    type V = GraphicsState;

    open spec fn view(&self) -> GraphicsState {
        GraphicsState {
            fill_color: self.fill_color,
            stroke_color: self.stroke_color,
            alpha: self.alpha,
            line_width: self.line_width,
            line_cap: self.line_cap,
            line_join: self.line_join,
            miter_limit: self.miter_limit,
            flatness: self.flatness,
            blend_mode: self.blend_mode,
            interpolation_quality: self.interpolation_quality,
            transform: self.transform@,
            font: self.font,
            font_size: self.font_size,
            rendering_intent: self.rendering_intent,
            shadow: self.shadow,
            clip_mask: self.clip_mask,
        }
    }
}

/// A command, with what it is carried out under.
pub struct Drawing {
    pub command: DrawCommand,
    /// The graphics state of the context when the command was given. Its own
    /// colour, font and size come before those in the state.
    pub state: CGContextState,
    /// The memory that is drawn to.
    pub bitmap: CGBitmapContextData,
}

/// What commands are carried out under, as a value.
pub struct Canvas {
    pub state: GraphicsState,
    pub bitmap: CGBitmapContextData,
}

impl Drawing {
    pub open spec fn canvas(&self) -> Canvas {
        Canvas { state: self.state@, bitmap: self.bitmap }
    }
}

pub struct CGContextHostObject {
    pub subclass: CGContextSubclass,
    pub rgb_fill_color: Rgba,
    pub rgb_stroke_color: Rgba,
    pub alpha: CGFloat,
    pub line_width: CGFloat,
    pub line_cap: i32,
    pub line_join: i32,
    pub miter_limit: CGFloat,
    pub flatness: CGFloat,
    pub blend_mode: i32,
    pub interpolation_quality: CGInterpolationQuality,
    /// Current font (or null).
    pub font: CGFontRef,
    /// Current font size in points.
    pub font_size: CGFloat,
    pub transform: Ctm,
    /// Text transform for glyph drawing (see `CGContextSetTextMatrix`).
    pub text_transform: Option<CGAffineTransform>,
    pub state_stack: Vec<CGContextState>,
    /// Path accumulator (points only).
    pub path_points: Vec<PathPoint>,
    /// Current rendering intent for the fill color space.
    pub rendering_intent: i32,
    /// Current shadow state.
    pub shadow: CGShadowState,
    /// Current clip mask, if any clipping has been applied. `None` means
    /// "no clipping" (the whole context is visible).
    pub clip_mask: Option<Rc<ClipMask>>,
}

/// A clip mask, where there is one, covers a bitmap.
pub open spec fn mask_fits(mask: Option<Rc<ClipMask>>, bitmap: CGBitmapContextData) -> bool {
    mask matches Some(m) ==> m.wf() && m.width == bitmap.width && m.height == bitmap.height
}

impl CGContextHostObject {
    pub open spec fn bitmap(&self) -> CGBitmapContextData {
        match self.subclass {
            CGContextSubclass::CGBitmapContext(data) => data,
        }
    }

    /// The clip mask, and each that was saved, covers the bitmap.
    pub open spec fn wf(&self) -> bool {
        &&& mask_fits(self.clip_mask, self.bitmap())
        &&& forall|k: int|
            0 <= k < self.state_stack@.len() ==> mask_fits(
                (#[trigger] self.state_stack@[k]).clip_mask,
                self.bitmap(),
            )
    }

    /// What is drawn now is drawn under this.
    pub open spec fn canvas(&self) -> Canvas {
        Canvas { state: self.graphics_state(), bitmap: self.bitmap() }
    }

    /// What `CGContextSaveGState` saves.
    pub open spec fn graphics_state(&self) -> GraphicsState {
        GraphicsState {
            fill_color: self.rgb_fill_color,
            stroke_color: self.rgb_stroke_color,
            alpha: self.alpha,
            line_width: self.line_width,
            line_cap: self.line_cap,
            line_join: self.line_join,
            miter_limit: self.miter_limit,
            flatness: self.flatness,
            blend_mode: self.blend_mode,
            interpolation_quality: self.interpolation_quality,
            transform: self.transform@,
            font: self.font,
            font_size: self.font_size,
            rendering_intent: self.rendering_intent,
            shadow: self.shadow,
            clip_mask: self.clip_mask,
        }
    }
}

impl CGContextHostObject {
    /// The graphics state, to be kept.
    fn current_state(&self) -> (r: CGContextState)
        ensures
            r@ == self.graphics_state(),
            r.clip_mask == self.clip_mask,
    {
        CGContextState {
            fill_color: self.rgb_fill_color,
            stroke_color: self.rgb_stroke_color,
            alpha: self.alpha,
            line_width: self.line_width,
            line_cap: self.line_cap,
            line_join: self.line_join,
            miter_limit: self.miter_limit,
            flatness: self.flatness,
            blend_mode: self.blend_mode,
            interpolation_quality: self.interpolation_quality,
            transform: self.transform.copied(),
            font: self.font,
            font_size: self.font_size,
            rendering_intent: self.rendering_intent,
            shadow: self.shadow,
            clip_mask: match &self.clip_mask {
                Some(mask) => Some(mask.clone()),
                None => None,
            },
        }
    }
}

/// A font of the host.
#[derive(Clone, Copy, Debug, PartialEq, Eq, Structural)]
pub enum FontFace {
    /// The bundled sans-serif font.
    SansRegular,
    /// One that was loaded, by its number.
    Loaded(u32),
}

pub struct State {
    pub contexts: HashMap<id, CGContextHostObject>,
    /// The colours of colour objects.
    pub colors: HashMap<id, Rgba>,
    /// The host's fonts of font objects.
    pub fonts: HashMap<id, FontFace>,
    /// The host's fonts of the user interface's font objects, where there is
    /// one.
    pub ui_fonts: HashMap<id, Option<FontFace>>,
    /// What is to be drawn, in order.
    pub draws: Vec<Drawing>,
}

impl Default for State {
    fn default() -> (r: State)
        ensures
            r.contexts@ == Map::<id, CGContextHostObject>::empty(),
            r.colors@ == Map::<id, Rgba>::empty(),
            r.fonts@ == Map::<id, FontFace>::empty(),
            r.ui_fonts@ == Map::<id, Option<FontFace>>::empty(),
            r.draws@.len() == 0,
    {
        State {
            contexts: HashMap::new(),
            colors: HashMap::new(),
            fonts: HashMap::new(),
            ui_fonts: HashMap::new(),
            draws: Vec::new(),
        }
    }
}

/// The contexts, and what they drew.
pub open spec fn graphics(env: Environment) -> State {
    env.framework_state.core_graphics.cg_context
}

pub open spec fn known(env: Environment, context: CGContextRef) -> bool {
    graphics(env).contexts@.contains_key(context)
}

/// The state of a known context.
pub open spec fn host(env: Environment, context: CGContextRef) -> CGContextHostObject {
    graphics(env).contexts@[context]
}

/// Only the context changed: its state is `h`.
pub open spec fn changed(
    before: Environment,
    after: Environment,
    context: CGContextRef,
    h: CGContextHostObject,
) -> bool {
    &&& after == before.with_cg_context(
        (State { contexts: graphics(after).contexts, ..graphics(before) }),
    )
    &&& graphics(after).contexts@ == graphics(before).contexts@.insert(context, h)
}

/// `after` is `before` with the commands `more`, all to be carried out under
/// `canvas`.
pub open spec fn drawings_added(
    before: Seq<Drawing>,
    after: Seq<Drawing>,
    canvas: Canvas,
    more: Seq<DrawCommand>,
) -> bool {
    &&& after.len() == before.len() + more.len()
    &&& after.take(before.len() as int) == before
    &&& forall|i: int|
        #![trigger after[i]]
        before.len() <= i < after.len() ==> after[i].command == more[i - before.len()]
            && after[i].canvas() == canvas
}

/// Only more was drawn to a context, under its state before the call.
pub open spec fn drew(
    before: Environment,
    after: Environment,
    context: CGContextRef,
    more: Seq<DrawCommand>,
) -> bool {
    &&& after == before.with_cg_context(
        (State { draws: graphics(after).draws, ..graphics(before) }),
    )
    &&& drawings_added(
        graphics(before).draws@,
        graphics(after).draws@,
        host(before, context).canvas(),
        more,
    )
}

/// Nothing was added.
proof fn lemma_nothing_added(a: Seq<Drawing>, canvas: Canvas)
    ensures
        drawings_added(a, a, canvas, Seq::empty()),
{
    assert(a.take(a.len() as int) =~= a);
}

/// What is added after the other is added together.
proof fn lemma_added_twice(
    a: Seq<Drawing>,
    b: Seq<Drawing>,
    c: Seq<Drawing>,
    canvas: Canvas,
    first: Seq<DrawCommand>,
    second: Seq<DrawCommand>,
)
    requires
        drawings_added(a, b, canvas, first),
        drawings_added(b, c, canvas, second),
    ensures
        drawings_added(a, c, canvas, first + second),
{
    assert forall|i: int| 0 <= i < b.len() implies c[i] == #[trigger] b[i] by {
        assert(c.take(b.len() as int)[i] == b[i]);
    }
    assert forall|i: int| 0 <= i < a.len() implies c[i] == #[trigger] a[i] by {
        assert(b.take(a.len() as int)[i] == a[i]);
        assert(c[i] == b[i]);
    }
    assert(c.take(a.len() as int) =~= a);
    assert forall|i: int| #![trigger c[i]] a.len() <= i < c.len() implies c[i].command == (first
        + second)[i - a.len()] && c[i].canvas() == canvas by {
        if i < b.len() {
            assert(c[i] == b[i]);
        }
    }
}

/// Takes the state of a context out, to change it.
fn take_host(env: &mut Environment, context: CGContextRef) -> (r: CGContextHostObject)
    requires
        known(*old(env), context),
    ensures
        r == host(*old(env), context),
        *final(env) == old(env).with_cg_context(
            (State { contexts: graphics(*final(env)).contexts, ..graphics(*old(env)) }),
        ),
        graphics(*final(env)).contexts@ == graphics(*old(env)).contexts@.remove(context),
{
    let removed: Option<CGContextHostObject> =
        env.framework_state.core_graphics.cg_context.contexts.remove(&context);
    removed.unwrap()
}

/// Puts the state of a context back.
fn put_host(env: &mut Environment, context: CGContextRef, h: CGContextHostObject)
    ensures
        *final(env) == old(env).with_cg_context(
            (State { contexts: graphics(*final(env)).contexts, ..graphics(*old(env)) }),
        ),
        graphics(*final(env)).contexts@ == graphics(*old(env)).contexts@.insert(context, h),
        forall|m: Map<id, CGContextHostObject>|
            graphics(*old(env)).contexts@ == #[trigger] m.remove(context) ==> graphics(
                *final(env),
            ).contexts@ == m.insert(context, h),
{
    let _ = env.framework_state.core_graphics.cg_context.contexts.insert(context, h);
    assert forall|m: Map<id, CGContextHostObject>|
        graphics(*old(env)).contexts@ == #[trigger] m.remove(context) implies graphics(
        *env,
    ).contexts@ == m.insert(context, h) by {
        assert(graphics(*env).contexts@ =~= m.insert(context, h));
    }
}

fn get_host(env: &Environment, context: CGContextRef) -> (r: &CGContextHostObject)
    requires
        known(*env, context),
    ensures
        *r == host(*env, context),
{
    env.framework_state.core_graphics.cg_context.contexts.get(&context).unwrap()
}

/// Adds a command to the list, with what it is carried out under.
fn draw(env: &mut Environment, context: CGContextRef, command: DrawCommand)
    requires
        known(*old(env), context),
    ensures
        drew(*old(env), *final(env), context, seq![command]),
{
    let h: &CGContextHostObject = get_host(env, context);
    let state: CGContextState = h.current_state();
    let bitmap: CGBitmapContextData = match h.subclass {
        CGContextSubclass::CGBitmapContext(data) => data,
    };
    let drawing: Drawing = Drawing { command, state, bitmap };
    env.framework_state.core_graphics.cg_context.draws.push(drawing);
    proof {
        let b = graphics(*old(env)).draws@;
        let a = graphics(*env).draws@;
        assert(a =~= b.push(drawing));
        assert(a.take(b.len() as int) =~= b);
    }
}

pub fn CGContextRelease(env: &mut Environment, c: CGContextRef)
    ensures
        *final(env) == old(env).with_objc(final(env).objc),
        final(env).objc.acted(old(env).objc, releases(c)),
{
    env.objc.release(c);
}

pub fn CGContextRetain(env: &mut Environment, c: CGContextRef) -> (r: CGContextRef)
    ensures
        r == c,
        *final(env) == old(env).with_objc(final(env).objc),
        final(env).objc.acted(old(env).objc, retains(c)),
{
    env.objc.retain(c);
    c
}

/// Sets the colour that areas are filled with.
pub fn CGContextSetRGBFillColor(
    env: &mut Environment,
    context: CGContextRef,
    red: CGFloat,
    green: CGFloat,
    blue: CGFloat,
    alpha: CGFloat,
)
    requires
        context == nil || known(*old(env), context),
    ensures
        context == nil ==> *final(env) == *old(env),
        context != nil ==> changed(
            *old(env),
            *final(env),
            context,
            (CGContextHostObject {
                rgb_fill_color: (red, green, blue, alpha),
                ..host(*old(env), context)
            }),
        ),
{
    if context == nil {
        return;
    }
    let mut h: CGContextHostObject = take_host(env, context);
    h.rgb_fill_color = (red, green, blue, alpha);
    put_host(env, context, h);
}

/// Sets the colour that lines are drawn with.
pub fn CGContextSetRGBStrokeColor(
    env: &mut Environment,
    context: CGContextRef,
    red: CGFloat,
    green: CGFloat,
    blue: CGFloat,
    alpha: CGFloat,
)
    requires
        context == nil || known(*old(env), context),
    ensures
        context == nil ==> *final(env) == *old(env),
        context != nil ==> changed(
            *old(env),
            *final(env),
            context,
            (CGContextHostObject {
                rgb_stroke_color: (red, green, blue, alpha),
                ..host(*old(env), context)
            }),
        ),
{
    if context == nil {
        return;
    }
    let mut h: CGContextHostObject = take_host(env, context);
    h.rgb_stroke_color = (red, green, blue, alpha);
    put_host(env, context, h);
}

/// Sets the colour that areas are filled with to a gray.
pub fn CGContextSetGrayFillColor(
    env: &mut Environment,
    context: CGContextRef,
    gray: CGFloat,
    alpha: CGFloat,
)
    requires
        context == nil || known(*old(env), context),
    ensures
        context == nil ==> *final(env) == *old(env),
        context != nil ==> changed(
            *old(env),
            *final(env),
            context,
            (CGContextHostObject {
                rgb_fill_color: (gray, gray, gray, alpha),
                ..host(*old(env), context)
            }),
        ),
{
    if context == nil {
        return;
    }
    let mut h: CGContextHostObject = take_host(env, context);
    h.rgb_fill_color = (gray, gray, gray, alpha);
    put_host(env, context, h);
}

/// Sets the colour that lines are drawn with to a gray.
pub fn CGContextSetGrayStrokeColor(
    env: &mut Environment,
    context: CGContextRef,
    gray: CGFloat,
    alpha: CGFloat,
)
    requires
        context == nil || known(*old(env), context),
    ensures
        context == nil ==> *final(env) == *old(env),
        context != nil ==> changed(
            *old(env),
            *final(env),
            context,
            (CGContextHostObject {
                rgb_stroke_color: (gray, gray, gray, alpha),
                ..host(*old(env), context)
            }),
        ),
{
    if context == nil {
        return;
    }
    let mut h: CGContextHostObject = take_host(env, context);
    h.rgb_stroke_color = (gray, gray, gray, alpha);
    put_host(env, context, h);
}

/// Sets the opacity, brought between zero and one.
pub fn CGContextSetAlpha(env: &mut Environment, context: CGContextRef, alpha: CGFloat)
    requires
        context == nil || known(*old(env), context),
    ensures
        context == nil ==> *final(env) == *old(env),
        context != nil ==> changed(
            *old(env),
            *final(env),
            context,
            (CGContextHostObject { alpha: clamp_unit(alpha), ..host(*old(env), context) }),
        ),
{
    if context == nil {
        return;
    }
    let mut h: CGContextHostObject = take_host(env, context);
    h.alpha = clamped(alpha);
    put_host(env, context, h);
}

/// Sets the width that lines are drawn with.
pub fn CGContextSetLineWidth(env: &mut Environment, context: CGContextRef, width: CGFloat)
    requires
        context == nil || known(*old(env), context),
    ensures
        context == nil ==> *final(env) == *old(env),
        context != nil ==> changed(
            *old(env),
            *final(env),
            context,
            (CGContextHostObject { line_width: width, ..host(*old(env), context) }),
        ),
{
    if context == nil {
        return;
    }
    let mut h: CGContextHostObject = take_host(env, context);
    h.line_width = width;
    put_host(env, context, h);
}

/// Sets how lines end.
pub fn CGContextSetLineCap(env: &mut Environment, context: CGContextRef, cap: i32)
    requires
        context == nil || known(*old(env), context),
    ensures
        context == nil ==> *final(env) == *old(env),
        context != nil ==> changed(
            *old(env),
            *final(env),
            context,
            (CGContextHostObject { line_cap: cap, ..host(*old(env), context) }),
        ),
{
    if context == nil {
        return;
    }
    let mut h: CGContextHostObject = take_host(env, context);
    h.line_cap = cap;
    put_host(env, context, h);
}

/// Sets how lines meet.
pub fn CGContextSetLineJoin(env: &mut Environment, context: CGContextRef, join: i32)
    requires
        context == nil || known(*old(env), context),
    ensures
        context == nil ==> *final(env) == *old(env),
        context != nil ==> changed(
            *old(env),
            *final(env),
            context,
            (CGContextHostObject { line_join: join, ..host(*old(env), context) }),
        ),
{
    if context == nil {
        return;
    }
    let mut h: CGContextHostObject = take_host(env, context);
    h.line_join = join;
    put_host(env, context, h);
}

/// Sets the limit from which joins are cut off.
pub fn CGContextSetMiterLimit(env: &mut Environment, context: CGContextRef, limit: CGFloat)
    requires
        context == nil || known(*old(env), context),
    ensures
        context == nil ==> *final(env) == *old(env),
        context != nil ==> changed(
            *old(env),
            *final(env),
            context,
            (CGContextHostObject { miter_limit: limit, ..host(*old(env), context) }),
        ),
{
    if context == nil {
        return;
    }
    let mut h: CGContextHostObject = take_host(env, context);
    h.miter_limit = limit;
    put_host(env, context, h);
}

/// Sets how exactly curves are followed.
pub fn CGContextSetFlatness(env: &mut Environment, context: CGContextRef, flatness: CGFloat)
    requires
        context == nil || known(*old(env), context),
    ensures
        context == nil ==> *final(env) == *old(env),
        context != nil ==> changed(
            *old(env),
            *final(env),
            context,
            (CGContextHostObject { flatness, ..host(*old(env), context) }),
        ),
{
    if context == nil {
        return;
    }
    let mut h: CGContextHostObject = take_host(env, context);
    h.flatness = flatness;
    put_host(env, context, h);
}

/// Sets how what is drawn mixes with what is there.
pub fn CGContextSetBlendMode(env: &mut Environment, context: CGContextRef, mode: i32)
    requires
        context == nil || known(*old(env), context),
    ensures
        context == nil ==> *final(env) == *old(env),
        context != nil ==> changed(
            *old(env),
            *final(env),
            context,
            (CGContextHostObject { blend_mode: mode, ..host(*old(env), context) }),
        ),
{
    if context == nil {
        return;
    }
    let mut h: CGContextHostObject = take_host(env, context);
    h.blend_mode = mode;
    put_host(env, context, h);
}

/// Sets a shadow of the default colour.
pub fn CGContextSetShadow(
    env: &mut Environment,
    context: CGContextRef,
    offset: CGSize,
    blur: CGFloat,
)
    requires
        context == nil || known(*old(env), context),
    ensures
        context == nil ==> *final(env) == *old(env),
        context != nil ==> changed(
            *old(env),
            *final(env),
            context,
            (CGContextHostObject { shadow: CGShadowState {
                    enabled: true,
                    offset_x: offset.width,
                    offset_y: offset.height,
                    blur,
                    color: default_shadow_color(),
                }, ..host(*old(env), context) }),
        ),
{
    if context == nil {
        return;
    }
    let mut h: CGContextHostObject = take_host(env, context);
    h.shadow = CGShadowState {
        enabled: true,
        offset_x: offset.width,
        offset_y: offset.height,
        blur,
        color: (ZERO, ZERO, ZERO, ONE_THIRD),
    };
    put_host(env, context, h);
}

/// Sets the colour space of what is filled. All of them are taken for device
/// RGB, so that only the fill colour changes, to the default of opaque black.
pub fn CGContextSetFillColorSpace(
    env: &mut Environment,
    context: CGContextRef,
    _color_space: CGColorSpaceRef,
)
    requires
        context == nil || known(*old(env), context),
    ensures
        context == nil ==> *final(env) == *old(env),
        context != nil ==> changed(
            *old(env),
            *final(env),
            context,
            (CGContextHostObject {
                rgb_fill_color: (ZERO, ZERO, ZERO, ONE),
                ..host(*old(env), context)
            }),
        ),
{
    if context == nil {
        return;
    }
    let mut h: CGContextHostObject = take_host(env, context);
    h.rgb_fill_color = (ZERO, ZERO, ZERO, ONE);
    put_host(env, context, h);
}

/// Sets the colour space of lines. All of them are taken for device RGB, so
/// that only the stroke colour changes, to the default of opaque black.
pub fn CGContextSetStrokeColorSpace(
    env: &mut Environment,
    context: CGContextRef,
    _color_space: CGColorSpaceRef,
)
    requires
        context == nil || known(*old(env), context),
    ensures
        context == nil ==> *final(env) == *old(env),
        context != nil ==> changed(
            *old(env),
            *final(env),
            context,
            (CGContextHostObject {
                rgb_stroke_color: (ZERO, ZERO, ZERO, ONE),
                ..host(*old(env), context)
            }),
        ),
{
    if context == nil {
        return;
    }
    let mut h: CGContextHostObject = take_host(env, context);
    h.rgb_stroke_color = (ZERO, ZERO, ZERO, ONE);
    put_host(env, context, h);
}

/// Records the rendering intent, so that saving and restoring the graphics
/// state preserves it.
pub fn CGContextSetRenderingIntent(env: &mut Environment, context: CGContextRef, intent: i32)
    requires
        context == nil || known(*old(env), context),
    ensures
        context == nil ==> *final(env) == *old(env),
        context != nil ==> changed(
            *old(env),
            *final(env),
            context,
            (CGContextHostObject { rendering_intent: intent, ..host(*old(env), context) }),
        ),
{
    if context == nil {
        return;
    }
    let mut h: CGContextHostObject = take_host(env, context);
    h.rendering_intent = intent;
    put_host(env, context, h);
}

/// Sets how images are scaled.
pub fn CGContextSetInterpolationQuality(
    env: &mut Environment,
    context: CGContextRef,
    quality: CGInterpolationQuality,
)
    requires
        context == nil || known(*old(env), context),
    ensures
        context == nil ==> *final(env) == *old(env),
        context != nil ==> changed(
            *old(env),
            *final(env),
            context,
            (CGContextHostObject { interpolation_quality: quality, ..host(*old(env), context) }),
        ),
{
    if context == nil {
        return;
    }
    let mut h: CGContextHostObject = take_host(env, context);
    h.interpolation_quality = quality;
    put_host(env, context, h);
}

/// Sets the size of the font in points.
pub fn CGContextSetFontSize(env: &mut Environment, context: CGContextRef, size: CGFloat)
    requires
        context == nil || known(*old(env), context),
    ensures
        context == nil ==> *final(env) == *old(env),
        context != nil ==> changed(
            *old(env),
            *final(env),
            context,
            (CGContextHostObject { font_size: size, ..host(*old(env), context) }),
        ),
{
    if context == nil {
        return;
    }
    let mut h: CGContextHostObject = take_host(env, context);
    h.font_size = size;
    put_host(env, context, h);
}

/// Sets the colour that areas are filled with to that of a colour object.
pub fn CGContextSetFillColorWithColor(
    env: &mut Environment,
    context: CGContextRef,
    color: CGColorRef,
)
    requires
        context == nil || known(*old(env), context),
        context == nil || graphics(*old(env)).colors@.contains_key(color),
    ensures
        context == nil ==> *final(env) == *old(env),
        context != nil ==> changed(
            *old(env),
            *final(env),
            context,
            (CGContextHostObject {
                rgb_fill_color: graphics(*old(env)).colors@[color],
                ..host(*old(env), context)
            }),
        ),
{
    if context == nil {
        return;
    }
    let rgba: Rgba = to_rgba(env, color);
    CGContextSetRGBFillColor(env, context, rgba.0, rgba.1, rgba.2, rgba.3);
}

/// Sets the colour that lines are drawn with to that of a colour object.
pub fn CGContextSetStrokeColorWithColor(
    env: &mut Environment,
    context: CGContextRef,
    color: CGColorRef,
)
    requires
        context == nil || known(*old(env), context),
        context == nil || graphics(*old(env)).colors@.contains_key(color),
    ensures
        context == nil ==> *final(env) == *old(env),
        context != nil ==> changed(
            *old(env),
            *final(env),
            context,
            (CGContextHostObject {
                rgb_stroke_color: graphics(*old(env)).colors@[color],
                ..host(*old(env), context)
            }),
        ),
{
    if context == nil {
        return;
    }
    let rgba: Rgba = to_rgba(env, color);
    CGContextSetRGBStrokeColor(env, context, rgba.0, rgba.1, rgba.2, rgba.3);
}

/// The colour of a colour object.
fn to_rgba(env: &Environment, color: CGColorRef) -> (r: Rgba)
    requires
        graphics(*env).colors@.contains_key(color),
    ensures
        r == graphics(*env).colors@[color],
{
    *env.framework_state.core_graphics.cg_context.colors.get(&color).unwrap()
}

/// Sets a shadow with a colour. Without a colour there is no shadow.
pub fn CGContextSetShadowWithColor(
    env: &mut Environment,
    context: CGContextRef,
    offset: CGSize,
    blur: CGFloat,
    color: CGColorRef,
)
    requires
        context == nil || known(*old(env), context),
        context == nil || color == nil || graphics(*old(env)).colors@.contains_key(color),
    ensures
        context == nil ==> *final(env) == *old(env),
        context != nil ==> changed(
            *old(env),
            *final(env),
            context,
            (CGContextHostObject {
                shadow: if color == nil {
                    CGShadowState { enabled: false, ..host(*old(env), context).shadow }
                } else {
                    CGShadowState {
                        enabled: true,
                        offset_x: offset.width,
                        offset_y: offset.height,
                        blur,
                        color: graphics(*old(env)).colors@[color],
                    }
                },
                ..host(*old(env), context)
            }),
        ),
{
    if context == nil {
        return;
    }
    if color == nil {
        let mut h: CGContextHostObject = take_host(env, context);
        h.shadow.enabled = false;
        put_host(env, context, h);
        return;
    }
    let rgba: Rgba = to_rgba(env, color);
    let mut h: CGContextHostObject = take_host(env, context);
    h.shadow = CGShadowState {
        enabled: true,
        offset_x: offset.width,
        offset_y: offset.height,
        blur,
        color: rgba,
    };
    put_host(env, context, h);
}

/// Draws a filled area, in the context's fill colour.
fn fill_area(env: &mut Environment, context: CGContextRef, area: Area, clear: bool)
    requires
        known(*old(env), context),
    ensures
        drew(
            *old(env),
            *final(env),
            context,
            seq![
                DrawCommand::Fill {
                    context,
                    area,
                    color: host(*old(env), context).rgb_fill_color,
                    clear,
                },
            ],
        ),
{
    let color: Rgba = get_host(env, context).rgb_fill_color;
    draw(env, context, DrawCommand::Fill { context, area, color, clear });
}

/// The four bands that make up the border of a rectangle.
pub open spec fn border(
    context: CGContextRef,
    rect: CGRect,
    width: CGFloat,
    color: Rgba,
) -> Seq<DrawCommand> {
    seq![
        DrawCommand::Fill { context, area: Area::TopBand(rect, width), color, clear: false },
        DrawCommand::Fill { context, area: Area::BottomBand(rect, width), color, clear: false },
        DrawCommand::Fill { context, area: Area::LeftBand(rect, width), color, clear: false },
        DrawCommand::Fill { context, area: Area::RightBand(rect, width), color, clear: false },
    ]
}

/// Draws the border of a rectangle, with the context's line width.
pub fn CGContextStrokeRect(env: &mut Environment, context: CGContextRef, rect: CGRect)
    requires
        context == nil || known(*old(env), context),
    ensures
        context == nil ==> *final(env) == *old(env),
        context != nil ==> drew(
            *old(env),
            *final(env),
            context,
            border(
                context,
                rect,
                host(*old(env), context).line_width,
                host(*old(env), context).rgb_stroke_color,
            ),
        ),
{
    if context == nil {
        return;
    }
    let lw: CGFloat = get_host(env, context).line_width;
    CGContextStrokeRectWithWidth(env, context, rect, lw);
}

/// Draws the border of a rectangle: four filled bands in the stroke colour.
pub fn CGContextStrokeRectWithWidth(
    env: &mut Environment,
    context: CGContextRef,
    rect: CGRect,
    width: CGFloat,
)
    requires
        context == nil || known(*old(env), context),
    ensures
        context == nil ==> *final(env) == *old(env),
        context != nil ==> drew(
            *old(env),
            *final(env),
            context,
            border(context, rect, width, host(*old(env), context).rgb_stroke_color),
        ),
{
    if context == nil {
        return;
    }
    let color: Rgba = get_host(env, context).rgb_stroke_color;
    let clear: bool = false;
    let top: Area = Area::TopBand(rect, width);
    let bottom: Area = Area::BottomBand(rect, width);
    let left: Area = Area::LeftBand(rect, width);
    let right: Area = Area::RightBand(rect, width);
    let ghost all = border(context, rect, width, color);
    draw(env, context, DrawCommand::Fill { context, area: top, color, clear });
    let ghost one = graphics(*env).draws@;
    draw(env, context, DrawCommand::Fill { context, area: bottom, color, clear });
    let ghost two = graphics(*env).draws@;
    draw(env, context, DrawCommand::Fill { context, area: left, color, clear });
    let ghost three = graphics(*env).draws@;
    draw(env, context, DrawCommand::Fill { context, area: right, color, clear });
    proof {
        let none = graphics(*old(env)).draws@;
        let canvas = host(*old(env), context).canvas();
        lemma_added_twice(none, one, two, canvas, seq![all[0]], seq![all[1]]);
        lemma_added_twice(none, two, three, canvas, seq![all[0]] + seq![all[1]], seq![all[2]]);
        lemma_added_twice(
            none,
            three,
            graphics(*env).draws@,
            canvas,
            seq![all[0]] + seq![all[1]] + seq![all[2]],
            seq![all[3]],
        );
        assert(seq![all[0]] + seq![all[1]] + seq![all[2]] + seq![all[3]] =~= all);
    }
}

/// Draws the outline of an ellipse, approximated by the border of the
/// rectangle around it.
pub fn CGContextStrokeEllipseInRect(env: &mut Environment, context: CGContextRef, rect: CGRect)
    requires
        context == nil || known(*old(env), context),
    ensures
        context == nil ==> *final(env) == *old(env),
        context != nil ==> drew(
            *old(env),
            *final(env),
            context,
            border(
                context,
                rect,
                host(*old(env), context).line_width,
                host(*old(env), context).rgb_stroke_color,
            ),
        ),
{
    CGContextStrokeRect(env, context, rect);
}

/// A rectangle was filled, unless the context is null.
pub open spec fn rect_filled(
    before: Environment,
    after: Environment,
    context: CGContextRef,
    rect: CGRect,
    clear: bool,
) -> bool {
    if context == nil {
        after == before
    } else {
        drew(
            before,
            after,
            context,
            seq![
                DrawCommand::Fill {
                    context,
                    area: Area::Rect(rect),
                    color: host(before, context).rgb_fill_color,
                    clear,
                },
            ],
        )
    }
}

/// Fills an ellipse, approximated by the rectangle around it.
pub fn CGContextFillEllipseInRect(env: &mut Environment, context: CGContextRef, rect: CGRect)
    requires
        context == nil || known(*old(env), context),
    ensures
        rect_filled(*old(env), *final(env), context, rect, false),
{
    if context == nil {
        return;
    }
    fill_area(env, context, Area::Rect(rect), false);
}

pub fn CGContextFillRect(env: &mut Environment, context: CGContextRef, rect: CGRect)
    requires
        context == nil || known(*old(env), context),
    ensures
        rect_filled(*old(env), *final(env), context, rect, false),
{
    if context == nil {
        return;
    }
    fill_area(env, context, Area::Rect(rect), false);
}

pub fn CGContextClearRect(env: &mut Environment, context: CGContextRef, rect: CGRect)
    requires
        context == nil || known(*old(env), context),
    ensures
        rect_filled(*old(env), *final(env), context, rect, true),
{
    if context == nil {
        return;
    }
    fill_area(env, context, Area::Rect(rect), true);
}

/// Points were added to the path of a context that is not null.
pub open spec fn path_extended(
    before: Environment,
    after: Environment,
    context: CGContextRef,
    more: Seq<PathPoint>,
) -> bool {
    if context == nil {
        after == before
    } else {
        &&& changed(
            before,
            after,
            context,
            (CGContextHostObject {
                path_points: host(after, context).path_points,
                ..host(before, context)
            }),
        )
        &&& host(after, context).path_points@ == host(before, context).path_points@ + more
    }
}

/// Adds a point to the path.
fn add_point(env: &mut Environment, context: CGContextRef, point: PathPoint)
    requires
        known(*old(env), context),
        context != nil,
    ensures
        path_extended(*old(env), *final(env), context, seq![point]),
{
    let mut h: CGContextHostObject = take_host(env, context);
    h.path_points.push(point);
    assert(h.path_points@ =~= host(*old(env), context).path_points@ + seq![point]);
    put_host(env, context, h);
}

/// One point more, and others after it.
proof fn lemma_extended(
    a: Environment,
    b: Environment,
    c: Environment,
    context: CGContextRef,
    p: Seq<PathPoint>,
    q: Seq<PathPoint>,
)
    requires
        context != nil,
        path_extended(a, b, context, p),
        path_extended(b, c, context, q),
    ensures
        path_extended(a, c, context, p + q),
{
    assert(graphics(c).contexts@ =~= graphics(a).contexts@.insert(
        context,
        (CGContextHostObject {
            path_points: host(c, context).path_points,
            ..host(a, context)
        }),
    ));
    assert(host(c, context).path_points@ =~= host(a, context).path_points@ + (p + q));
}

/// Starts a new path.
pub fn CGContextBeginPath(env: &mut Environment, context: CGContextRef)
    requires
        context == nil || known(*old(env), context),
    ensures
        context == nil ==> *final(env) == *old(env),
        context != nil ==> {
            &&& changed(
                *old(env),
                *final(env),
                context,
                (CGContextHostObject {
                    path_points: host(*final(env), context).path_points,
                    ..host(*old(env), context)
                }),
            )
            &&& host(*final(env), context).path_points@ == Seq::<PathPoint>::empty()
        },
{
    if context == nil {
        return;
    }
    let mut h: CGContextHostObject = take_host(env, context);
    h.path_points = Vec::new();
    put_host(env, context, h);
}

pub fn CGContextMoveToPoint(env: &mut Environment, context: CGContextRef, x: CGFloat, y: CGFloat)
    requires
        context == nil || known(*old(env), context),
    ensures
        path_extended(*old(env), *final(env), context, seq![PathPoint::At(CGPoint { x, y })]),
{
    if context == nil {
        return;
    }
    add_point(env, context, PathPoint::At(CGPoint { x, y }));
}

pub fn CGContextAddLineToPoint(env: &mut Environment, context: CGContextRef, x: CGFloat, y: CGFloat)
    requires
        context == nil || known(*old(env), context),
    ensures
        path_extended(*old(env), *final(env), context, seq![PathPoint::At(CGPoint { x, y })]),
{
    if context == nil {
        return;
    }
    add_point(env, context, PathPoint::At(CGPoint { x, y }));
}

/// A point in guest memory.
pub open spec fn point_at(s: Seq<u8>, at: int) -> CGPoint {
    CGPoint { x: le_u32(s, at) as u32, y: le_u32(s, at + 4) as u32 }
}

/// A size in guest memory.
pub open spec fn size_at(s: Seq<u8>, at: int) -> CGSize {
    CGSize { width: le_u32(s, at) as u32, height: le_u32(s, at + 4) as u32 }
}

/// A rectangle in guest memory.
pub open spec fn rect_at(s: Seq<u8>, at: int) -> CGRect {
    CGRect { origin: point_at(s, at), size: size_at(s, at + 8) }
}

fn read_point(mem: &Mem, ptr: ConstPtr) -> (r: CGPoint)
    requires
        mem.wf(),
        mem.valid(ptr as int, 8),
    ensures
        r == point_at(mem@, ptr as int),
{
    CGPoint { x: mem.read_u32(ptr), y: mem.read_u32(ptr + 4) }
}

fn read_size(mem: &Mem, ptr: ConstPtr) -> (r: CGSize)
    requires
        mem.wf(),
        mem.valid(ptr as int, 8),
    ensures
        r == size_at(mem@, ptr as int),
{
    CGSize { width: mem.read_u32(ptr), height: mem.read_u32(ptr + 4) }
}

/// `n` points in guest memory.
pub open spec fn points_at(s: Seq<u8>, at: int, n: int) -> Seq<PathPoint> {
    Seq::new(n as nat, |i: int| PathPoint::At(point_at(s, at + 8 * i)))
}

/// Adds a line to each of `count` points in guest memory.
pub fn CGContextAddLines(
    env: &mut Environment,
    context: CGContextRef,
    points: ConstPtr,
    count: GuestUSize,
)
    requires
        old(env).wf(),
        context == nil || known(*old(env), context),
        context != nil && count > 0 ==> old(env).mem.valid(points as int, 8 * count),
    ensures
        path_extended(
            *old(env),
            *final(env),
            context,
            points_at(old(env).mem@, points as int, count as int),
        ),
{
    if context == nil {
        return;
    }
    let ghost before = *env;
    let mut h: CGContextHostObject = take_host(env, context);
    let mut i: u32 = 0;
    while i < count
        invariant
            i <= count,
            env.mem == before.mem,
            env.mem.wf(),
            count > 0 ==> before.mem.valid(points as int, 8 * count),
            h == (CGContextHostObject { path_points: h.path_points, ..host(before, context) }),
            h.path_points@ =~= host(before, context).path_points@ + points_at(
                before.mem@,
                points as int,
                i as int,
            ),
        decreases count - i,
    {
        let p: CGPoint = read_point(&env.mem, points + 8 * i);
        h.path_points.push(PathPoint::At(p));
        i = i + 1;
    }
    put_host(env, context, h);
}

/// The corners of a rectangle, in the order in which they are added.
pub open spec fn rect_points(rect: CGRect) -> Seq<PathPoint> {
    seq![
        PathPoint::At(rect.origin),
        PathPoint::RightCorner(rect),
        PathPoint::OppositeCorner(rect),
        PathPoint::LowerCorner(rect),
    ]
}

pub fn CGContextAddRect(env: &mut Environment, context: CGContextRef, rect: CGRect)
    requires
        context == nil || known(*old(env), context),
    ensures
        path_extended(*old(env), *final(env), context, rect_points(rect)),
{
    if context == nil {
        return;
    }
    let mut h: CGContextHostObject = take_host(env, context);
    h.path_points.push(PathPoint::At(rect.origin));
    h.path_points.push(PathPoint::RightCorner(rect));
    h.path_points.push(PathPoint::OppositeCorner(rect));
    h.path_points.push(PathPoint::LowerCorner(rect));
    assert(h.path_points@ =~= host(*old(env), context).path_points@ + rect_points(rect));
    put_host(env, context, h);
}

/// The corners of `n` rectangles in guest memory.
pub open spec fn rects_points(s: Seq<u8>, at: int, n: int) -> Seq<PathPoint>
    decreases n,
{
    if n <= 0 {
        Seq::empty()
    } else {
        rects_points(s, at, n - 1) + rect_points(rect_at(s, at + 16 * (n - 1)))
    }
}

/// Adds each of `count` rectangles in guest memory.
pub fn CGContextAddRects(
    env: &mut Environment,
    context: CGContextRef,
    rects: ConstPtr,
    count: GuestUSize,
)
    requires
        old(env).wf(),
        context == nil || known(*old(env), context),
        count > 0 ==> old(env).mem.valid(rects as int, 16 * count),
    ensures
        context == nil || count == 0 ==> *final(env) == *old(env),
        context != nil && count > 0 ==> path_extended(
            *old(env),
            *final(env),
            context,
            rects_points(old(env).mem@, rects as int, count as int),
        ),
{
    let ghost before = *env;
    let mut i: u32 = 0;
    while i < count
        invariant
            i <= count,
            env.mem == before.mem,
            env.mem.wf(),
            count > 0 ==> before.mem.valid(rects as int, 16 * count),
            context == nil || known(*env, context),
            context == nil || i == 0 ==> *env == before,
            context != nil && i > 0 ==> path_extended(
                before,
                *env,
                context,
                rects_points(before.mem@, rects as int, i as int),
            ),
        decreases count - i,
    {
        let ghost mid = *env;
        let origin: CGPoint = read_point(&env.mem, rects + 16 * i);
        let size: CGSize = read_size(&env.mem, rects + 16 * i + 8);
        let rect: CGRect = CGRect { origin, size };
        CGContextAddRect(env, context, rect);
        proof {
            if context != nil {
                if i > 0 {
                    lemma_extended(
                        before,
                        mid,
                        *env,
                        context,
                        rects_points(before.mem@, rects as int, i as int),
                        rect_points(rect),
                    );
                } else {
                    assert(rects_points(before.mem@, rects as int, 0) =~= Seq::empty());
                    assert(rects_points(before.mem@, rects as int, 1) =~= rect_points(rect));
                }
            }
        }
        i = i + 1;
    }
}

/// Adds an ellipse, approximated by four points on it.
pub fn CGContextAddEllipseInRect(env: &mut Environment, context: CGContextRef, rect: CGRect)
    requires
        context == nil || known(*old(env), context),
    ensures
        path_extended(
            *old(env),
            *final(env),
            context,
            seq![
                PathPoint::EllipseMaxX(rect),
                PathPoint::EllipseMaxY(rect),
                PathPoint::EllipseMinX(rect),
                PathPoint::EllipseMinY(rect),
            ],
        ),
{
    if context == nil {
        return;
    }
    let mut h: CGContextHostObject = take_host(env, context);
    h.path_points.push(PathPoint::EllipseMaxX(rect));
    h.path_points.push(PathPoint::EllipseMaxY(rect));
    h.path_points.push(PathPoint::EllipseMinX(rect));
    h.path_points.push(PathPoint::EllipseMinY(rect));
    assert(h.path_points@ =~= host(*old(env), context).path_points@ + seq![
        PathPoint::EllipseMaxX(rect),
        PathPoint::EllipseMaxY(rect),
        PathPoint::EllipseMinX(rect),
        PathPoint::EllipseMinY(rect),
    ]);
    put_host(env, context, h);
}

/// Adds an arc of a circle: its two ends.
pub fn CGContextAddArc(
    env: &mut Environment,
    context: CGContextRef,
    x: CGFloat,
    y: CGFloat,
    radius: CGFloat,
    start_angle: CGFloat,
    end_angle: CGFloat,
    _clockwise: i32,
)
    requires
        context == nil || known(*old(env), context),
    ensures
        path_extended(
            *old(env),
            *final(env),
            context,
            seq![
                PathPoint::OnCircle { x, y, radius, angle: start_angle },
                PathPoint::OnCircle { x, y, radius, angle: end_angle },
            ],
        ),
{
    if context == nil {
        return;
    }
    let p0: PathPoint = PathPoint::OnCircle { x, y, radius, angle: start_angle };
    let p1: PathPoint = PathPoint::OnCircle { x, y, radius, angle: end_angle };
    let mut h: CGContextHostObject = take_host(env, context);
    h.path_points.push(p0);
    h.path_points.push(p1);
    assert(h.path_points@ =~= host(*old(env), context).path_points@ + seq![p0, p1]);
    put_host(env, context, h);
}

/// Adds an arc between two tangents: the points that were given.
pub fn CGContextAddArcToPoint(
    env: &mut Environment,
    context: CGContextRef,
    x1: CGFloat,
    y1: CGFloat,
    x2: CGFloat,
    y2: CGFloat,
    _radius: CGFloat,
)
    requires
        context == nil || known(*old(env), context),
    ensures
        path_extended(
            *old(env),
            *final(env),
            context,
            seq![
                PathPoint::At(CGPoint { x: x1, y: y1 }),
                PathPoint::At(CGPoint { x: x2, y: y2 }),
            ],
        ),
{
    if context == nil {
        return;
    }
    let p0: PathPoint = PathPoint::At(CGPoint { x: x1, y: y1 });
    let p1: PathPoint = PathPoint::At(CGPoint { x: x2, y: y2 });
    let mut h: CGContextHostObject = take_host(env, context);
    h.path_points.push(p0);
    h.path_points.push(p1);
    assert(h.path_points@ =~= host(*old(env), context).path_points@ + seq![p0, p1]);
    put_host(env, context, h);
}

/// Adds a Bezier curve: its end.
pub fn CGContextAddCurveToPoint(
    env: &mut Environment,
    context: CGContextRef,
    _cp1x: CGFloat,
    _cp1y: CGFloat,
    _cp2x: CGFloat,
    _cp2y: CGFloat,
    x: CGFloat,
    y: CGFloat,
)
    requires
        context == nil || known(*old(env), context),
    ensures
        path_extended(*old(env), *final(env), context, seq![PathPoint::At(CGPoint { x, y })]),
{
    if context == nil {
        return;
    }
    add_point(env, context, PathPoint::At(CGPoint { x, y }));
}

/// Adds a quadratic curve: its end.
pub fn CGContextAddQuadCurveToPoint(
    env: &mut Environment,
    context: CGContextRef,
    _cpx: CGFloat,
    _cpy: CGFloat,
    x: CGFloat,
    y: CGFloat,
)
    requires
        context == nil || known(*old(env), context),
    ensures
        path_extended(*old(env), *final(env), context, seq![PathPoint::At(CGPoint { x, y })]),
{
    if context == nil {
        return;
    }
    add_point(env, context, PathPoint::At(CGPoint { x, y }));
}

/// Closes the path: its first point, if it has one, is added again.
pub fn CGContextClosePath(env: &mut Environment, context: CGContextRef)
    requires
        context == nil || known(*old(env), context),
    ensures
        context == nil || host(*old(env), context).path_points@.len() == 0 ==> *final(env) == *old(
            env,
        ),
        context != nil && host(*old(env), context).path_points@.len() > 0 ==> path_extended(
            *old(env),
            *final(env),
            context,
            seq![host(*old(env), context).path_points@[0]],
        ),
{
    if context == nil {
        return;
    }
    if get_host(env, context).path_points.len() > 0 {
        let first: PathPoint = get_host(env, context).path_points[0];
        add_point(env, context, first);
    }
}

/// A path was used up: its context has none, and more was drawn.
pub open spec fn path_spent(
    before: Environment,
    after: Environment,
    context: CGContextRef,
    more: Seq<DrawCommand>,
) -> bool {
    &&& after == before.with_cg_context(
        (State {
            contexts: graphics(after).contexts,
            draws: graphics(after).draws,
            ..graphics(before)
        }),
    )
    &&& graphics(after).contexts@ == graphics(before).contexts@.insert(
        context,
        (CGContextHostObject {
            path_points: host(after, context).path_points,
            ..host(before, context)
        }),
    )
    &&& host(after, context).path_points@ == Seq::<PathPoint>::empty()
    &&& drawings_added(
        graphics(before).draws@,
        graphics(after).draws@,
        host(before, context).canvas(),
        more,
    )
}

/// The rectangle around a path was filled, and the path used up. An empty
/// path changes nothing.
pub open spec fn path_filled(
    before: Environment,
    after: Environment,
    context: CGContextRef,
) -> bool {
    if context == nil || host(before, context).path_points@.len() == 0 {
        after == before
    } else {
        path_spent(
            before,
            after,
            context,
            seq![
                DrawCommand::Fill {
                    context,
                    area: Area::Bounds(host(before, context).path_points),
                    color: host(before, context).rgb_fill_color,
                    clear: false,
                },
            ],
        )
    }
}

/// The lines between consecutive points.
pub open spec fn segments(
    context: CGContextRef,
    points: Seq<PathPoint>,
    width: CGFloat,
    color: Rgba,
) -> Seq<DrawCommand> {
    Seq::new(
        if points.len() == 0 {
            0
        } else {
            (points.len() - 1) as nat
        },
        |i: int|
            DrawCommand::Fill {
                context,
                area: Area::Segment(points[i], points[i + 1], width),
                color,
                clear: false,
            },
    )
}

/// The lines of a path were drawn in the stroke colour, and the path used up.
pub open spec fn path_stroked(
    before: Environment,
    after: Environment,
    context: CGContextRef,
) -> bool {
    if context == nil {
        after == before
    } else {
        let h = host(before, context);
        path_spent(
            before,
            after,
            context,
            segments(context, h.path_points@, h.line_width, h.rgb_stroke_color),
        )
    }
}

/// Modes 0, 1, 3 and 4 fill.
pub open spec fn mode_fills(mode: i32) -> bool {
    mode == 0 || mode == 1 || mode == 3 || mode == 4
}

/// Modes 2, 3 and 4 draw the lines.
pub open spec fn mode_strokes(mode: i32) -> bool {
    2 <= mode <= 4
}

/// The path was filled, if it has points, and its lines were drawn; then it was
/// used up.
pub open spec fn path_filled_and_stroked(
    before: Environment,
    after: Environment,
    context: CGContextRef,
) -> bool {
    let h = host(before, context);
    let fills = if h.path_points@.len() == 0 {
        Seq::empty()
    } else {
        seq![
            DrawCommand::Fill {
                context,
                area: Area::Bounds(h.path_points),
                color: h.rgb_fill_color,
                clear: false,
            },
        ]
    };
    path_spent(
        before,
        after,
        context,
        fills + segments(context, h.path_points@, h.line_width, h.rgb_stroke_color),
    )
}

/// The path was filled if the mode says so, and then stroked if it says so.
pub open spec fn path_drawn(
    before: Environment,
    after: Environment,
    context: CGContextRef,
    mode: i32,
) -> bool {
    if mode_fills(mode) && mode_strokes(mode) {
        path_filled_and_stroked(before, after, context)
    } else if mode_fills(mode) {
        path_filled(before, after, context)
    } else if mode_strokes(mode) {
        path_stroked(before, after, context)
    } else {
        after == before
    }
}

/// Fills or strokes the path, or both, as `mode` says: 0 fills, 1 fills by the
/// even-odd rule, 2 strokes, 3 fills and strokes, and 4 fills by the even-odd
/// rule and strokes.
pub fn CGContextDrawPath(env: &mut Environment, context: CGContextRef, mode: i32)
    requires
        context == nil || known(*old(env), context),
    ensures
        context == nil ==> *final(env) == *old(env),
        context != nil ==> path_drawn(*old(env), *final(env), context, mode),
        mode == 0 || mode == 1 ==> path_filled(*old(env), *final(env), context),
        mode == 2 ==> path_stroked(*old(env), *final(env), context),
        context != nil && (mode == 3 || mode == 4) ==> path_filled_and_stroked(
            *old(env),
            *final(env),
            context,
        ),
{
    if context == nil {
        return;
    }
    if mode == 0 || mode == 1 {
        CGContextFillPath(env, context);
    } else if mode == 2 {
        CGContextStrokePath(env, context);
    } else if mode == 3 || mode == 4 {
        fill_and_stroke(env, context);
    }
}

/// Fills the rectangle around the path, and then draws its lines.
fn fill_and_stroke(env: &mut Environment, context: CGContextRef)
    requires
        known(*old(env), context),
    ensures
        path_filled_and_stroked(*old(env), *final(env), context),
{
    let ghost before = *env;
    let mut h: CGContextHostObject = take_host(env, context);
    let points: Vec<PathPoint> = h.path_points;
    h.path_points = Vec::new();
    let lines: Vec<PathPoint> = copy_points(&points);
    let fill: Rgba = h.rgb_fill_color;
    let lw: CGFloat = h.line_width;
    let stroke: Rgba = h.rgb_stroke_color;
    put_host(env, context, h);
    let ghost mut fills = Seq::<DrawCommand>::empty();
    let ghost canvas = host(before, context).canvas();
    proof {
        lemma_nothing_added(graphics(before).draws@, canvas);
        assert(host(*env, context).canvas() == canvas);
    }
    if points.len() > 0 {
        let area: Area = Area::Bounds(points);
        let ghost command = DrawCommand::Fill { context, area, color: fill, clear: false };
        draw(env, context, DrawCommand::Fill { context, area, color: fill, clear: false });
        proof {
            fills = seq![command];
        }
    }
    let ghost filled = graphics(*env).draws@;
    draw_segments(env, context, &lines, lw, stroke);
    proof {
        lemma_added_twice(
            graphics(before).draws@,
            filled,
            graphics(*env).draws@,
            canvas,
            fills,
            segments(context, lines@, lw, stroke),
        );
    }
}

fn copy_points(points: &Vec<PathPoint>) -> (r: Vec<PathPoint>)
    ensures
        r@ == points@,
{
    let n: usize = points.len();
    let mut r: Vec<PathPoint> = Vec::new();
    let mut i: usize = 0;
    while i < n
        invariant
            i <= n == points@.len(),
            r@ =~= points@.take(i as int),
        decreases n - i,
    {
        r.push(points[i]);
        i = i + 1;
    }
    r
}

/// Draws the lines between consecutive points.
fn draw_segments(
    env: &mut Environment,
    context: CGContextRef,
    points: &Vec<PathPoint>,
    lw: CGFloat,
    color: Rgba,
)
    requires
        known(*old(env), context),
    ensures
        drew(*old(env), *final(env), context, segments(context, points@, lw, color)),
{
    let ghost before = *env;
    let ghost canvas = host(before, context).canvas();
    let ghost all = segments(context, points@, lw, color);
    let n: usize = points.len();
    let mut i: usize = 1;
    proof {
        lemma_nothing_added(graphics(before).draws@, canvas);
        assert(all.take(0) =~= Seq::empty());
    }
    while i < n
        invariant
            1 <= i,
            i <= n || (n == 0 && i == 1),
            n == points@.len(),
            known(before, context),
            canvas == host(before, context).canvas(),
            all == segments(context, points@, lw, color),
            *env == before.with_cg_context(
                (State { draws: graphics(*env).draws, ..graphics(before) }),
            ),
            drawings_added(
                graphics(before).draws@,
                graphics(*env).draws@,
                canvas,
                all.take(i - 1),
            ),
        decreases n - i,
    {
        let ghost mid = graphics(*env).draws@;
        let area: Area = Area::Segment(points[i - 1], points[i], lw);
        draw(env, context, DrawCommand::Fill { context, area, color, clear: false });
        proof {
            lemma_added_twice(
                graphics(before).draws@,
                mid,
                graphics(*env).draws@,
                canvas,
                all.take(i - 1),
                seq![all[i - 1]],
            );
            assert(all.take(i - 1) + seq![all[i - 1]] =~= all.take(i as int));
        }
        i = i + 1;
    }
    assert(all.take(i - 1) =~= all);
}

/// Fills the rectangle around the path.
pub fn CGContextFillPath(env: &mut Environment, context: CGContextRef)
    requires
        context == nil || known(*old(env), context),
    ensures
        path_filled(*old(env), *final(env), context),
        context == nil || known(*final(env), context),
{
    if context == nil {
        return;
    }
    if get_host(env, context).path_points.len() == 0 {
        return;
    }
    let mut h: CGContextHostObject = take_host(env, context);
    let points: Vec<PathPoint> = h.path_points;
    h.path_points = Vec::new();
    let color: Rgba = h.rgb_fill_color;
    put_host(env, context, h);
    draw(env, context, DrawCommand::Fill { context, area: Area::Bounds(points), color, clear: false });
}

/// Fills the path by the even-odd rule, which is taken for the other rule.
pub fn CGContextEOFillPath(env: &mut Environment, context: CGContextRef)
    requires
        context == nil || known(*old(env), context),
    ensures
        path_filled(*old(env), *final(env), context),
{
    CGContextFillPath(env, context);
}

/// Draws the lines of the path.
pub fn CGContextStrokePath(env: &mut Environment, context: CGContextRef)
    requires
        context == nil || known(*old(env), context),
    ensures
        path_stroked(*old(env), *final(env), context),
{
    if context == nil {
        return;
    }
    let mut h: CGContextHostObject = take_host(env, context);
    let points: Vec<PathPoint> = h.path_points;
    h.path_points = Vec::new();
    let lw: CGFloat = h.line_width;
    let color: Rgba = h.rgb_stroke_color;
    put_host(env, context, h);
    draw_segments(env, context, &points, lw, color);
}

/// The region that is drawn to: all of the bitmap.
pub fn CGContextGetClipBoundingBox(env: &mut Environment, context: CGContextRef) -> (r: CGRect)
    requires
        known(*old(env), context),
    ensures
        *final(env) == *old(env),
        r.origin == (CGPoint { x: ZERO, y: ZERO }),
        r.size.width == float_of(host(*old(env), context).bitmap().width as int),
        r.size.height == float_of(host(*old(env), context).bitmap().height as int),
{
    let CGContextSubclass::CGBitmapContext(data) = get_host(env, context).subclass;
    CGRect {
        origin: CGPoint { x: ZERO, y: ZERO },
        size: CGSize { width: float_of_u32(data.width), height: float_of_u32(data.height) },
    }
}

/// Intersects the context's current clip region with the alpha coverage of
/// `mask`, which determines per-pixel visibility for all subsequent drawing.
/// Repeated calls intersect rather than replace.
///
/// `rasterized` is the coverage of `mask`, mapped into `_rect` under the
/// current transform.
pub fn CGContextClipToMask(
    env: &mut Environment,
    context: CGContextRef,
    _rect: CGRect,
    mask: CGImageRef,
    rasterized: ClipMask,
)
    requires
        context == nil || mask == nil || {
            &&& known(*old(env), context)
            &&& host(*old(env), context).wf()
            &&& mask_fits(Some(Rc::new(rasterized)), host(*old(env), context).bitmap())
        },
    ensures
        context == nil || mask == nil ==> *final(env) == *old(env),
        context != nil && mask != nil ==> {
            let b = host(*old(env), context);
            let a = host(*final(env), context);
            &&& changed(
                *old(env),
                *final(env),
                context,
                (CGContextHostObject { clip_mask: a.clip_mask, ..b }),
            )
            &&& a.wf()
            &&& a.clip_mask matches Some(m) && match b.clip_mask {
                Some(existing) => {
                    &&& m.same_size(rasterized)
                    &&& forall|k: int|
                        0 <= k < m.alpha@.len() ==> #[trigger] m.alpha@[k] == coverage(
                            existing.alpha@[k] as int,
                            rasterized.alpha@[k] as int,
                        )
                },
                None => *m == rasterized,
            }
        },
{
    if context == nil || mask == nil {
        return;
    }
    let mut h: CGContextHostObject = take_host(env, context);
    let clip: ClipMask = match &h.clip_mask {
        Some(existing) => existing.intersect(&rasterized),
        None => rasterized,
    };
    h.clip_mask = Some(Rc::new(clip));
    put_host(env, context, h);
}

/// Clips to a rectangle. One that covers the whole context clips nothing, and
/// others are not followed.
pub fn CGContextClipToRect(env: &mut Environment, context: CGContextRef, _rect: CGRect)
    ensures
        *final(env) == *old(env),
{
}

pub fn CGContextResetClip(env: &mut Environment, _context: CGContextRef)
    ensures
        *final(env) == *old(env),
{
}

/// A step was added to the current transform, unless the context is null.
pub open spec fn ctm_stepped(
    before: Environment,
    after: Environment,
    context: CGContextRef,
    step: CtmStep,
) -> bool {
    if context == nil {
        after == before
    } else {
        &&& changed(
            before,
            after,
            context,
            (CGContextHostObject {
                transform: host(after, context).transform,
                ..host(before, context)
            }),
        )
        &&& host(after, context).transform.base == host(before, context).transform.base
        &&& host(after, context).transform.steps@ == host(before, context).transform.steps@.push(
            step,
        )
    }
}

fn step_ctm(env: &mut Environment, context: CGContextRef, step: CtmStep)
    requires
        context == nil || known(*old(env), context),
    ensures
        ctm_stepped(*old(env), *final(env), context, step),
{
    if context == nil {
        return;
    }
    let mut h: CGContextHostObject = take_host(env, context);
    h.transform.steps.push(step);
    put_host(env, context, h);
}

pub fn CGContextConcatCTM(
    env: &mut Environment,
    context: CGContextRef,
    transform: CGAffineTransform,
)
    requires
        context == nil || known(*old(env), context),
    ensures
        ctm_stepped(*old(env), *final(env), context, CtmStep::Concat(transform)),
{
    step_ctm(env, context, CtmStep::Concat(transform));
}

/// The current transform; the identity for a null context.
pub fn CGContextGetCTM(env: &mut Environment, context: CGContextRef) -> (r: Ctm)
    requires
        context == nil || known(*old(env), context),
    ensures
        *final(env) == *old(env),
        r@ == if context == nil {
            CtmView { base: identity_transform(), steps: Seq::empty() }
        } else {
            host(*old(env), context).transform@
        },
{
    if context == nil {
        return Ctm { base: make_identity(), steps: Vec::new() };
    }
    get_host(env, context).transform.copied()
}

pub fn CGContextRotateCTM(env: &mut Environment, context: CGContextRef, angle: CGFloat)
    requires
        context == nil || known(*old(env), context),
    ensures
        ctm_stepped(*old(env), *final(env), context, CtmStep::Rotate(angle)),
{
    step_ctm(env, context, CtmStep::Rotate(angle));
}

pub fn CGContextScaleCTM(env: &mut Environment, context: CGContextRef, x: CGFloat, y: CGFloat)
    requires
        context == nil || known(*old(env), context),
    ensures
        ctm_stepped(*old(env), *final(env), context, CtmStep::Scale(x, y)),
{
    step_ctm(env, context, CtmStep::Scale(x, y));
}

pub fn CGContextTranslateCTM(env: &mut Environment, context: CGContextRef, tx: CGFloat, ty: CGFloat)
    requires
        context == nil || known(*old(env), context),
    ensures
        ctm_stepped(*old(env), *final(env), context, CtmStep::Translate(tx, ty)),
{
    step_ctm(env, context, CtmStep::Translate(tx, ty));
}

pub fn CGContextDrawImage(
    env: &mut Environment,
    context: CGContextRef,
    rect: CGRect,
    image: CGImageRef,
)
    requires
        context == nil || known(*old(env), context),
    ensures
        context == nil ==> *final(env) == *old(env),
        context != nil ==> drew(
            *old(env),
            *final(env),
            context,
            seq![DrawCommand::Image { context, rect, image }],
        ),
{
    if context == nil {
        return;
    }
    draw(env, context, DrawCommand::Image { context, rect, image });
}

/// The most tiles that one call draws.
pub const MAX_TILES: u64 = 1_000_000;

/// The tile in a column and a row of the grid.
pub open spec fn tile(
    context: CGContextRef,
    size: CGSize,
    image: CGImageRef,
    x: CGFloat,
    y: CGFloat,
) -> DrawCommand {
    DrawCommand::Image { context, rect: CGRect { origin: CGPoint { x, y }, size }, image }
}

/// The tiles of a grid, row by row, up to the most that are drawn.
pub open spec fn tiles(
    context: CGContextRef,
    size: CGSize,
    image: CGImageRef,
    xs: Seq<CGFloat>,
    ys: Seq<CGFloat>,
) -> Seq<DrawCommand> {
    let all = xs.len() * ys.len();
    Seq::new(
        if all <= MAX_TILES {
            all
        } else {
            MAX_TILES as nat
        },
        |k: int|
            tile(context, size, image, xs[k % xs.len() as int], ys[k / xs.len() as int]),
    )
}

/// Draws an image repeatedly, tiling it across the entire clipping region of
/// the context. `rect` gives the size of a single tile, and its origin the
/// phase.
///
/// `xs` and `ys` are where the columns and the rows of the grid begin, from
/// the last tile boundary at or before the region's corner on to the region's
/// far side, or for as many as `MAX_TILES`.
pub fn CGContextDrawTiledImage(
    env: &mut Environment,
    context: CGContextRef,
    rect: CGRect,
    image: CGImageRef,
    xs: &Vec<CGFloat>,
    ys: &Vec<CGFloat>,
)
    requires
        context == nil || known(*old(env), context),
    ensures
        if context == nil || image == nil || !float_lt(ZERO, rect.size.width) || !float_lt(
            ZERO,
            rect.size.height,
        ) {
            *final(env) == *old(env)
        } else {
            drew(*old(env), *final(env), context, tiles(context, rect.size, image, xs@, ys@))
        },
{
    if context == nil || image == nil {
        return;
    }
    if !less(ZERO, rect.size.width) || !less(ZERO, rect.size.height) {
        return;
    }
    let nx: usize = xs.len();
    let ny: usize = ys.len();
    let ghost before = *env;
    let ghost grid = tiles(context, rect.size, image, xs@, ys@);
    let mut drawn: u64 = 0;
    let mut row: usize = 0;
    let ghost canvas = host(before, context).canvas();
    proof {
        lemma_nothing_added(graphics(before).draws@, canvas);
        assert(grid.take(0) =~= Seq::empty());
    }
    assert(0 * nx == 0) by (nonlinear_arith);
    if nx == 0 {
        assert(xs@.len() * ys@.len() == 0) by (nonlinear_arith)
            requires
                xs@.len() == 0,
        ;
        assert(grid =~= Seq::empty());
        return;
    }
    while row < ny && drawn < MAX_TILES
        invariant
            0 < nx == xs@.len(),
            row <= ny == ys@.len(),
            drawn <= MAX_TILES,
            drawn < MAX_TILES ==> drawn == row * nx,
            row <= ny,
            drawn <= nx * ny,
            *env == before.with_cg_context(
                (State { draws: graphics(*env).draws, ..graphics(before) }),
            ),
            grid == tiles(context, rect.size, image, xs@, ys@),
            known(before, context),
            canvas == host(before, context).canvas(),
            drawings_added(
                graphics(before).draws@,
                graphics(*env).draws@,
                canvas,
                grid.take(drawn as int),
            ),
        decreases ny - row,
    {
        let mut col: usize = 0;
        while col < nx && drawn < MAX_TILES
            invariant
                0 < nx == xs@.len(),
                col <= nx,
                row < ny == ys@.len(),
                drawn <= MAX_TILES,
                drawn == row * nx + col,
                drawn <= nx * ny,
                *env == before.with_cg_context(
                    (State { draws: graphics(*env).draws, ..graphics(before) }),
                ),
                grid == tiles(context, rect.size, image, xs@, ys@),
                known(before, context),
                canvas == host(before, context).canvas(),
                drawings_added(
                    graphics(before).draws@,
                    graphics(*env).draws@,
                    canvas,
                    grid.take(drawn as int),
                ),
            decreases nx - col,
        {
            proof {
                lemma_pixel_index(nx as int, ny as int, col as int, row as int);
                vstd::arithmetic::div_mod::lemma_fundamental_div_mod_converse(
                    drawn as int,
                    nx as int,
                    row as int,
                    col as int,
                );
                assert(grid[drawn as int] == tile(
                    context,
                    rect.size,
                    image,
                    xs@[col as int],
                    ys@[row as int],
                ));
                assert(grid.take(drawn + 1) =~= grid.take(drawn as int) + seq![
                    grid[drawn as int],
                ]);
            }
            let ghost mid = graphics(*env).draws@;
            let tile_rect: CGRect = CGRect {
                origin: CGPoint { x: xs[col], y: ys[row] },
                size: rect.size,
            };
            draw(env, context, DrawCommand::Image { context, rect: tile_rect, image });
            proof {
                lemma_added_twice(
                    graphics(before).draws@,
                    mid,
                    graphics(*env).draws@,
                    canvas,
                    grid.take(drawn as int),
                    seq![grid[drawn as int]],
                );
            }
            drawn = drawn + 1;
            col = col + 1;
        }
        proof {
            assert(row * nx + nx == (row + 1) * nx) by (nonlinear_arith);
        }
        row = row + 1;
    }
    proof {
        assert(drawn == grid.len()) by {
            if drawn < MAX_TILES {
                assert(drawn == ny * nx);
                assert(ny * nx == nx * ny) by (nonlinear_arith);
            }
        }
        assert(grid.take(drawn as int) =~= grid);
    }
}

/// Draws nothing: gradients are skipped, so that what is under them stays
/// visible.
pub fn CGContextDrawLinearGradient(
    env: &mut Environment,
    _context: CGContextRef,
    _gradient: id,
    _start_point: CGPoint,
    _end_point: CGPoint,
    _options: u32,
)
    ensures
        *final(env) == *old(env),
{
}

/// The graphics state was saved, and the font in it retained.
pub open spec fn state_saved(
    before: Environment,
    after: Environment,
    context: CGContextRef,
) -> bool {
    let b = host(before, context);
    let a = host(after, context);
    &&& changed(
        before.with_objc(after.objc),
        after,
        context,
        (CGContextHostObject { state_stack: a.state_stack, ..b }),
    )
    &&& a.state_stack@.len() == b.state_stack@.len() + 1
    &&& a.state_stack@.drop_last() == b.state_stack@
    &&& a.state_stack@.last()@ == b.graphics_state()
    &&& after.objc.acted(before.objc, retains(b.font))
}

/// Pushes the graphics state on the stack. The font in it is retained, until
/// `CGContextRestoreGState` releases it.
pub fn CGContextSaveGState(env: &mut Environment, context: CGContextRef)
    requires
        context == nil || known(*old(env), context),
    ensures
        context == nil ==> *final(env) == *old(env),
        context != nil ==> state_saved(*old(env), *final(env), context),
        context != nil && host(*old(env), context).wf() ==> host(*final(env), context).wf(),
{
    if context == nil {
        return;
    }
    let ghost b = host(*env, context);
    let mut h: CGContextHostObject = take_host(env, context);
    let state: CGContextState = h.current_state();
    h.state_stack.push(state);
    assert(h.state_stack@.drop_last() =~= b.state_stack@);
    let font: CGFontRef = h.font;
    put_host(env, context, h);
    env.objc.retain(font);
}

/// The graphics state that was saved last is the current one again; the font
/// of the current one was released. With none saved only the font was
/// released.
pub open spec fn state_restored(
    before: Environment,
    after: Environment,
    context: CGContextRef,
) -> bool {
    let b = host(before, context);
    let a = host(after, context);
    &&& after.objc.acted(before.objc, releases(b.font))
    &&& if b.state_stack@.len() == 0 {
        after == before.with_objc(after.objc)
    } else {
        &&& changed(before.with_objc(after.objc), after, context, a)
        &&& a.graphics_state() == b.state_stack@.last()@
        &&& a.state_stack@ == b.state_stack@.drop_last()
        &&& a.subclass == b.subclass
        &&& a.text_transform == b.text_transform
        &&& a.path_points == b.path_points
    }
}

/// Pops the graphics state from the stack. The current font is released
/// first: it was retained either when the state was saved or when the font
/// was set since.
pub fn CGContextRestoreGState(env: &mut Environment, context: CGContextRef)
    requires
        context == nil || known(*old(env), context),
    ensures
        context == nil ==> *final(env) == *old(env),
        context != nil ==> state_restored(*old(env), *final(env), context),
        context != nil && host(*old(env), context).wf() ==> host(*final(env), context).wf(),
{
    if context == nil {
        return;
    }
    let ghost b = host(*env, context);
    let current_font: CGFontRef = get_host(env, context).font;
    env.objc.release(current_font);
    if get_host(env, context).state_stack.len() == 0 {
        return;
    }
    let mut h: CGContextHostObject = take_host(env, context);
    let popped: Option<CGContextState> = h.state_stack.pop();
    if let Some(state) = popped {
        h.rgb_fill_color = state.fill_color;
        h.rgb_stroke_color = state.stroke_color;
        h.alpha = state.alpha;
        h.line_width = state.line_width;
        h.line_cap = state.line_cap;
        h.line_join = state.line_join;
        h.miter_limit = state.miter_limit;
        h.flatness = state.flatness;
        h.blend_mode = state.blend_mode;
        h.interpolation_quality = state.interpolation_quality;
        h.transform = state.transform;
        h.font = state.font;
        h.font_size = state.font_size;
        h.rendering_intent = state.rendering_intent;
        h.shadow = state.shadow;
        h.clip_mask = state.clip_mask;
    }
    put_host(env, context, h);
}

/// Whatever was changed of a context since its graphics state was saved,
/// restoring brings that state back, as long as the stack is what saving left.
pub proof fn law_save_restore(
    before: Environment,
    saved: Environment,
    used: Environment,
    restored: Environment,
    context: CGContextRef,
)
    requires
        known(before, context),
        state_saved(before, saved, context),
        known(used, context),
        host(used, context).state_stack@ == host(saved, context).state_stack@,
        state_restored(used, restored, context),
    ensures
        host(restored, context).graphics_state() == host(before, context).graphics_state(),
        host(restored, context).state_stack@ == host(before, context).state_stack@,
{
}

/// Saving and restoring at once retains and releases the font once each.
pub proof fn law_save_restore_balanced(
    before: Environment,
    saved: Environment,
    restored: Environment,
    context: CGContextRef,
)
    requires
        known(before, context),
        state_saved(before, saved, context),
        state_restored(saved, restored, context),
    ensures
        ({
            let font = host(before, context).font;
            restored.objc.actions@ == before.objc.actions@ + retains(font) + releases(font)
        }),
        host(restored, context).graphics_state() == host(before, context).graphics_state(),
        host(restored, context).state_stack@ == host(before, context).state_stack@,
        host(restored, context).path_points@ == host(before, context).path_points@,
{
}

/// The text position is not followed, and always the origin.
pub fn CGContextGetTextPosition(env: &mut Environment, _context: CGContextRef) -> (r: CGPoint)
    ensures
        *final(env) == *old(env),
        r == (CGPoint { x: ZERO, y: ZERO }),
{
    CGPoint { x: ZERO, y: ZERO }
}

/// Sets the transform that glyphs are drawn with.
pub fn CGContextSetTextMatrix(
    env: &mut Environment,
    context: CGContextRef,
    transform: CGAffineTransform,
)
    requires
        known(*old(env), context),
    ensures
        changed(
            *old(env),
            *final(env),
            context,
            (CGContextHostObject {
                text_transform: Some(transform),
                ..host(*old(env), context)
            }),
        ),
{
    let mut h: CGContextHostObject = take_host(env, context);
    h.text_transform = Some(transform);
    put_host(env, context, h);
}

/// A context takes the font object as it is: it is null, one of its own kind,
/// or one of the user interface for which the host has no font.
pub open spec fn font_kept(env: Environment, font: CGFontRef) -> bool {
    ||| font == nil
    ||| graphics(env).fonts@.contains_key(font)
    ||| graphics(env).ui_fonts@.contains_key(font) && graphics(env).ui_fonts@[font] is None
}

/// The host's font for an object that is not taken as it is: that of the user
/// interface's font, or else the bundled one.
pub open spec fn face_for(env: Environment, font: CGFontRef) -> FontFace {
    if graphics(env).ui_fonts@.contains_key(font) {
        graphics(env).ui_fonts@[font]->0
    } else {
        FontFace::SansRegular
    }
}

/// A font object was made for a font of the host.
pub open spec fn font_made(
    before: Environment,
    after: Environment,
    face: FontFace,
    font: CGFontRef,
) -> bool {
    &&& after == before.with_mem(after.mem).with_objc(after.objc).with_cg_context(
        (State { fonts: graphics(after).fonts, ..graphics(before) }),
    )
    &&& font != nil
    &&& after.objc.made(before.objc, font)
    &&& after.mem.placed(before.mem, font, le_bytes(before.objc.classes.cg_font as int, 4))
    &&& graphics(after).fonts@ == graphics(before).fonts@.insert(font, face)
}

/// The new font was retained, the old one released, and the new one is the
/// current one.
pub open spec fn font_set(
    before: Environment,
    after: Environment,
    context: CGContextRef,
    font: CGFontRef,
) -> bool {
    &&& changed(
        before.with_objc(after.objc),
        after,
        context,
        (CGContextHostObject { font, ..host(before, context) }),
    )
    &&& after.objc.acted(before.objc, retains(font) + releases(host(before, context).font))
}

/// A font object was made, and is the current font.
pub open spec fn new_font_set(
    before: Environment,
    after: Environment,
    context: CGContextRef,
    face: FontFace,
) -> bool {
    exists|mid: Environment, font: CGFontRef| #[trigger]
        font_made(before, mid, face, font) && font_set(mid, after, context, font)
}

/// Makes a font object for a font of the host.
fn make_font(env: &mut Environment, face: FontFace) -> (r: CGFontRef)
    requires
        old(env).mem.wf(),
        old(env).mem.has_room(4),
    ensures
        final(env).mem.wf(),
        font_made(*old(env), *final(env), face, r),
{
    let class: id = env.objc.classes.cg_font;
    let font: CGFontRef = env.objc.alloc_object(class, &mut env.mem);
    let _ = env.framework_state.core_graphics.cg_context.fonts.insert(font, face);
    font
}

/// Sets the current font. One of the user interface's font objects is
/// replaced by an object for the same font, and what is no font by one for
/// the bundled sans-serif font, so that text is visible at all.
pub fn CGContextSetFont(env: &mut Environment, context: CGContextRef, font: CGFontRef)
    requires
        context == nil || known(*old(env), context),
        context == nil || font_kept(*old(env), font) || {
            &&& old(env).mem.wf()
            &&& old(env).mem.has_room(4)
        },
    ensures
        context == nil ==> *final(env) == *old(env),
        context != nil && font_kept(*old(env), font) ==> font_set(
            *old(env),
            *final(env),
            context,
            font,
        ),
        context != nil && !font_kept(*old(env), font) ==> new_font_set(
            *old(env),
            *final(env),
            context,
            face_for(*old(env), font),
        ),
{
    if context == nil {
        return;
    }
    let new_font: CGFontRef = if font == nil || is_data_provider_font(env, font) {
        font
    } else {
        let ui_font: Option<Option<FontFace>> =
            match env.framework_state.core_graphics.cg_context.ui_fonts.get(&font) {
            Some(found) => Some(*found),
            None => None,
        };
        match ui_font {
            Some(Some(face)) => make_font(env, face),
            Some(None) => font,
            None => make_font(env, FontFace::SansRegular),
        }
    };
    let ghost mid = *env;
    env.objc.retain(new_font);
    let mut h: CGContextHostObject = take_host(env, context);
    env.objc.release(h.font);
    h.font = new_font;
    put_host(env, context, h);
    proof {
        assert(env.objc.actions@ =~= mid.objc.actions@ + (retains(new_font) + releases(
            host(mid, context).font,
        )));
        assert(font_set(mid, *env, context, new_font));
    }
}

/// Whether the object is a font that glyphs can be drawn with.
fn is_data_provider_font(env: &Environment, font: CGFontRef) -> (r: bool)
    ensures
        r == graphics(*env).fonts@.contains_key(font),
{
    env.framework_state.core_graphics.cg_context.fonts.contains_key(&font)
}

/// `n` glyph numbers in guest memory.
pub open spec fn glyphs_at(s: Seq<u8>, at: int, n: int) -> Seq<rusttype::GlyphId> {
    Seq::new(n as nat, |i: int| rusttype::GlyphId(le_u16(s, at + 2 * i) as u16))
}

/// `n` positions in guest memory.
pub open spec fn positions_at(s: Seq<u8>, at: int, n: int) -> Seq<CGPoint> {
    Seq::new(n as nat, |i: int| point_at(s, at + 8 * i))
}

/// `n` advances in guest memory.
pub open spec fn advances_at(s: Seq<u8>, at: int, n: int) -> Seq<CGSize> {
    Seq::new(n as nat, |i: int| size_at(s, at + 8 * i))
}

/// The context can draw glyphs: it has a font that the host can draw with.
pub open spec fn can_show(env: Environment, context: CGContextRef) -> bool {
    &&& context != nil
    &&& host(env, context).font != nil
    &&& graphics(env).fonts@.contains_key(host(env, context).font)
}

/// The layout of the glyphs that were drawn last.
pub open spec fn last_layout(env: Environment) -> GlyphLayout {
    graphics(env).draws@.last().command->layout
}

/// Glyphs were drawn, with the context's font, size and fill colour.
pub open spec fn showed(
    before: Environment,
    after: Environment,
    context: CGContextRef,
    ids: Seq<rusttype::GlyphId>,
) -> bool {
    let h = host(before, context);
    &&& drew(before, after, context, seq![graphics(after).draws@.last().command])
    &&& graphics(after).draws@.last().command matches DrawCommand::Glyphs {
        context: c,
        font,
        font_size,
        glyphs,
        layout,
        color,
    } && c == context && font == h.font && font_size == h.font_size && glyphs@ == ids && color
        == h.rgb_fill_color
}

/// Whether the context can draw glyphs.
fn shows(env: &Environment, context: CGContextRef) -> (r: bool)
    requires
        context == nil || known(*env, context),
    ensures
        r == can_show(*env, context),
{
    if context == nil {
        return false;
    }
    let font: CGFontRef = get_host(env, context).font;
    font != nil && is_data_provider_font(env, font)
}

/// Reads glyph numbers from guest memory.
fn read_glyphs(mem: &Mem, glyphs: ConstPtr, count: GuestUSize) -> (r: Vec<rusttype::GlyphId>)
    requires
        mem.wf(),
        count > 0 ==> mem.valid(glyphs as int, 2 * count),
    ensures
        r@ == glyphs_at(mem@, glyphs as int, count as int),
{
    let mut ids: Vec<rusttype::GlyphId> = Vec::new();
    let mut i: u32 = 0;
    while i < count
        invariant
            i <= count,
            mem.wf(),
            count > 0 ==> mem.valid(glyphs as int, 2 * count),
            ids@ =~= glyphs_at(mem@, glyphs as int, i as int),
        decreases count - i,
    {
        let glyph: CGGlyph = mem.read_u16(glyphs + 2 * i);
        ids.push(rusttype::GlyphId(glyph));
        i = i + 1;
    }
    ids
}

/// Draws glyphs one after the other, from a point on.
pub fn CGContextShowGlyphsAtPoint(
    env: &mut Environment,
    context: CGContextRef,
    x: CGFloat,
    y: CGFloat,
    glyphs: ConstPtr,
    count: GuestUSize,
)
    requires
        old(env).wf(),
        context == nil || known(*old(env), context),
        can_show(*old(env), context) && count > 0 ==> old(env).mem.valid(glyphs as int, 2 * count),
    ensures
        !can_show(*old(env), context) ==> *final(env) == *old(env),
        can_show(*old(env), context) ==> {
            &&& showed(
                *old(env),
                *final(env),
                context,
                glyphs_at(old(env).mem@, glyphs as int, count as int),
            )
            &&& last_layout(*final(env)) == GlyphLayout::AtPoint(
                CGPoint { x, y },
                match host(*old(env), context).text_transform {
                    Some(transform) => transform,
                    None => identity_transform(),
                },
            )
        },
{
    if !shows(env, context) {
        return;
    }
    let ids: Vec<rusttype::GlyphId> = read_glyphs(&env.mem, glyphs, count);
    let text_transform: CGAffineTransform = match get_host(env, context).text_transform {
        Some(transform) => transform,
        None => make_identity(),
    };
    let layout: GlyphLayout = GlyphLayout::AtPoint(CGPoint { x, y }, text_transform);
    show(env, context, ids, layout);
}

/// Draws glyphs with the context's font, size and fill colour.
fn show(
    env: &mut Environment,
    context: CGContextRef,
    glyphs: Vec<rusttype::GlyphId>,
    layout: GlyphLayout,
)
    requires
        known(*old(env), context),
    ensures
        showed(*old(env), *final(env), context, glyphs@),
        last_layout(*final(env)) == layout,
{
    let font: CGFontRef = get_host(env, context).font;
    let font_size: CGFloat = get_host(env, context).font_size;
    let color: Rgba = get_host(env, context).rgb_fill_color;
    draw(env, context, DrawCommand::Glyphs { context, font, font_size, glyphs, layout, color });
}

/// Draws glyphs at specified positions relative to the text position. Each
/// position gives the offset for the corresponding glyph.
pub fn CGContextShowGlyphsAtPositions(
    env: &mut Environment,
    context: CGContextRef,
    glyphs: ConstPtr,
    positions: ConstPtr,
    count: GuestUSize,
)
    requires
        old(env).wf(),
        context == nil || known(*old(env), context),
        can_show(*old(env), context) && count > 0 ==> {
            &&& old(env).mem.valid(glyphs as int, 2 * count)
            &&& old(env).mem.valid(positions as int, 8 * count)
        },
    ensures
        !can_show(*old(env), context) ==> *final(env) == *old(env),
        can_show(*old(env), context) ==> {
            &&& showed(
                *old(env),
                *final(env),
                context,
                glyphs_at(old(env).mem@, glyphs as int, count as int),
            )
            &&& last_layout(*final(env)) matches GlyphLayout::Positions(v) && v@ == positions_at(
                old(env).mem@,
                positions as int,
                count as int,
            )
        },
{
    if !shows(env, context) {
        return;
    }
    let ids: Vec<rusttype::GlyphId> = read_glyphs(&env.mem, glyphs, count);
    let mut list: Vec<CGPoint> = Vec::new();
    let mut i: u32 = 0;
    while i < count
        invariant
            i <= count,
            env.mem.wf(),
            count > 0 ==> env.mem.valid(positions as int, 8 * count),
            list@ =~= positions_at(env.mem@, positions as int, i as int),
        decreases count - i,
    {
        list.push(read_point(&env.mem, positions + 8 * i));
        i = i + 1;
    }
    show(env, context, ids, GlyphLayout::Positions(list));
}

/// Draws glyphs with explicit advance widths and heights between each glyph.
pub fn CGContextShowGlyphsWithAdvances(
    env: &mut Environment,
    context: CGContextRef,
    glyphs: ConstPtr,
    advances: ConstPtr,
    count: GuestUSize,
)
    requires
        old(env).wf(),
        context == nil || known(*old(env), context),
        can_show(*old(env), context) && count > 0 ==> {
            &&& old(env).mem.valid(glyphs as int, 2 * count)
            &&& old(env).mem.valid(advances as int, 8 * count)
        },
    ensures
        !can_show(*old(env), context) ==> *final(env) == *old(env),
        can_show(*old(env), context) ==> {
            &&& showed(
                *old(env),
                *final(env),
                context,
                glyphs_at(old(env).mem@, glyphs as int, count as int),
            )
            &&& last_layout(*final(env)) matches GlyphLayout::Advances(v) && v@ == advances_at(
                old(env).mem@,
                advances as int,
                count as int,
            )
        },
{
    if !shows(env, context) {
        return;
    }
    let ids: Vec<rusttype::GlyphId> = read_glyphs(&env.mem, glyphs, count);
    let mut list: Vec<CGSize> = Vec::new();
    let mut i: u32 = 0;
    while i < count
        invariant
            i <= count,
            env.mem.wf(),
            count > 0 ==> env.mem.valid(advances as int, 8 * count),
            list@ =~= advances_at(env.mem@, advances as int, i as int),
        decreases count - i,
    {
        list.push(read_size(&env.mem, advances + 8 * i));
        i = i + 1;
    }
    show(env, context, ids, GlyphLayout::Advances(list));
}

/// Draws glyphs at the current text position, which is always the origin.
pub fn CGContextShowGlyphs(
    env: &mut Environment,
    context: CGContextRef,
    glyphs: ConstPtr,
    count: GuestUSize,
)
    requires
        old(env).wf(),
        context == nil || known(*old(env), context),
        can_show(*old(env), context) && count > 0 ==> old(env).mem.valid(glyphs as int, 2 * count),
    ensures
        !can_show(*old(env), context) ==> *final(env) == *old(env),
        can_show(*old(env), context) ==> {
            &&& showed(
                *old(env),
                *final(env),
                context,
                glyphs_at(old(env).mem@, glyphs as int, count as int),
            )
            &&& last_layout(*final(env)) == GlyphLayout::AtPoint(
                CGPoint { x: ZERO, y: ZERO },
                match host(*old(env), context).text_transform {
                    Some(transform) => transform,
                    None => identity_transform(),
                },
            )
        },
{
    CGContextShowGlyphsAtPoint(env, context, ZERO, ZERO, glyphs, count);
}

/// A context that owns its bitmap gave it back.
pub open spec fn bitmap_released(before: Mem, after: Mem, bitmap: CGBitmapContextData) -> bool {
    if bitmap.data_is_owned {
        after.released(before, bitmap.data)
    } else {
        after == before
    }
}

/// A context is gone: its bitmap, if it owned it, and then its own memory
/// were freed, and its font was released.
pub open spec fn context_dropped(
    before: Environment,
    after: Environment,
    this: CGContextRef,
) -> bool {
    let h = host(before, this);
    &&& after == before.with_mem(after.mem).with_objc(after.objc).with_cg_context(
        (State { contexts: graphics(after).contexts, ..graphics(before) }),
    )
    &&& graphics(after).contexts@ == graphics(before).contexts@.remove(this)
    &&& exists|mid: Mem| #[trigger]
        bitmap_released(before.mem, mid, h.bitmap()) && after.mem.released(mid, this)
    &&& exists|mid: ObjC| #[trigger]
        mid.acted(before.objc, releases(h.font)) && after.objc.forgot(mid, this)
}

/// Drops a context that nothing holds any more.
pub fn dealloc(env: &mut Environment, this: CGContextRef)
    requires
        old(env).wf(),
        known(*old(env), this),
        old(env).objc.has_host_object(this),
    ensures
        final(env).wf(),
        context_dropped(*old(env), *final(env), this),
{
    let h: CGContextHostObject = take_host(env, this);
    let CGContextSubclass::CGBitmapContext(bitmap) = h.subclass;
    if bitmap.data_is_owned {
        env.mem.free(bitmap.data);
    }
    let ghost mid = env.mem;
    env.objc.release(h.font);
    let ghost acted = env.objc;
    env.objc.dealloc_object(this, &mut env.mem);
    assert(bitmap_released(old(env).mem, mid, h.bitmap()));
    assert(acted.acted(old(env).objc, releases(h.font)));
}

/// Dashes are not drawn.
pub fn CGContextSetLineDash(
    env: &mut Environment,
    _context: CGContextRef,
    _phase: CGFloat,
    _lengths: ConstPtr,
    _count: GuestUSize,
)
    ensures
        *final(env) == *old(env),
{
}

/// What is drawn has no edges to smooth.
pub fn CGContextSetShouldAntialias(env: &mut Environment, _context: CGContextRef, _value: bool)
    ensures
        *final(env) == *old(env),
{
}

/// What is drawn has no edges to smooth.
pub fn CGContextSetAllowsAntialiasing(env: &mut Environment, _context: CGContextRef, _value: bool)
    ensures
        *final(env) == *old(env),
{
}

/// Glyphs are always smoothed alike.
pub fn CGContextSetShouldSmoothFonts(env: &mut Environment, _context: CGContextRef, _value: bool)
    ensures
        *final(env) == *old(env),
{
}

/// Nothing is held back that could be flushed.
pub fn CGContextFlush(env: &mut Environment, _context: CGContextRef)
    ensures
        *final(env) == *old(env),
{
}

/// Nothing is held back that could be flushed.
pub fn CGContextSynchronize(env: &mut Environment, _context: CGContextRef)
    ensures
        *final(env) == *old(env),
{
}

/// The text position is not followed.
pub fn CGContextSetTextPosition(
    env: &mut Environment,
    _context: CGContextRef,
    _x: CGFloat,
    _y: CGFloat,
)
    ensures
        *final(env) == *old(env),
{
}

/// Glyphs are always filled.
pub fn CGContextSetTextDrawingMode(env: &mut Environment, _context: CGContextRef, _mode: i32)
    ensures
        *final(env) == *old(env),
{
}

/// The spacing is always that of the font.
pub fn CGContextSetCharacterSpacing(
    env: &mut Environment,
    _context: CGContextRef,
    _spacing: CGFloat,
)
    ensures
        *final(env) == *old(env),
{
}

/// Fonts are not chosen by their names.
pub fn CGContextSelectFont(
    env: &mut Environment,
    _context: CGContextRef,
    _name: ConstPtr,
    _size: CGFloat,
    _encoding: i32,
)
    ensures
        *final(env) == *old(env),
{
}

/// Text that is not given as glyphs is not drawn.
pub fn CGContextShowTextAtPoint(
    env: &mut Environment,
    _context: CGContextRef,
    _x: CGFloat,
    _y: CGFloat,
    _string: ConstPtr,
    _length: u32,
)
    ensures
        *final(env) == *old(env),
{
}

/// Text that is not given as glyphs is not drawn.
pub fn CGContextShowText(
    env: &mut Environment,
    _context: CGContextRef,
    _string: ConstPtr,
    _length: u32,
)
    ensures
        *final(env) == *old(env),
{
}

/// Controls whether subpixel font positioning is used. There is no physical
/// sub-pixel grid to exploit, so this changes nothing.
pub fn CGContextSetAllowsFontSubpixelPositioning(
    env: &mut Environment,
    _context: CGContextRef,
    _allows: bool,
)
    ensures
        *final(env) == *old(env),
{
}

/// Controls whether font glyph metrics are quantised to sub-pixel boundaries.
/// There is no physical sub-pixel grid to exploit, so this changes nothing.
pub fn CGContextSetShouldSubpixelQuantizeFonts(
    env: &mut Environment,
    _context: CGContextRef,
    _should: bool,
)
    ensures
        *final(env) == *old(env),
{
}

} // verus!
