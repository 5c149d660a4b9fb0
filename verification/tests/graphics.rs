//! Contexts and data providers.
use hyperhle::environment::{Bundle, Environment};
use hyperhle::frameworks::core_graphics::cg_context;
use hyperhle::frameworks::core_graphics::cg_context::{
    Area, CGBitmapContextData, CGContextHostObject, CGContextSubclass, CGShadowState, ClipMask, Ctm,
    CtmStep, DrawCommand, FontFace, GlyphLayout, PathPoint, MAX_TILES,
};
use hyperhle::frameworks::core_graphics::cg_data_provider;
use hyperhle::frameworks::core_graphics::cg_data_provider::{
    CGDataProviderHostObject, DirectStep,
};
use hyperhle::frameworks::core_graphics::cg_geometry::{
    clamped, equal, float_of_u32, less, make_identity, CGPoint, CGRect, CGSize, ONE, ONE_THIRD, ZERO,
};
use hyperhle::fs::Fs;
use hyperhle::mem::Mem;
use hyperhle::objc::Action;
use hyperhle::objc::KnownClasses;
use hyperhle::paths::split_parts;
use std::rc::Rc;

fn chars(s: &str) -> Vec<char> {
    s.chars().collect()
}

fn guest() -> Environment {
    let bundle = Bundle {
        bundle_path: chars("/App.app"),
        executable_path: chars("/App.app/App"),
        bundle_identifier: b"org.example.app".to_vec(),
    };
    let classes = KnownClasses {
        ns_dictionary: 0x10,
        ns_mutable_dictionary: 0x20,
        cg_context: 0x30,
        cg_data_provider: 0x40,
        cg_font: 0x50,
    };
    let mut env = Environment::new(Mem::new(0x40000), Fs::new(1 << 20), bundle, classes);
    env.fs.create_dir(&chars("/App.app")).unwrap();
    env
}

fn cstr(env: &mut Environment, s: &str) -> u32 {
    env.mem.alloc_and_write_cstr(&s.as_bytes().to_vec())
}

const CONTEXT: u32 = 0x7000;

fn bits(f: f32) -> u32 {
    f.to_bits()
}

fn rect(x: f32, y: f32, width: f32, height: f32) -> CGRect {
    CGRect {
        origin: CGPoint { x: bits(x), y: bits(y) },
        size: CGSize { width: bits(width), height: bits(height) },
    }
}

fn context() -> Environment {
    let mut env = guest();
    let host = CGContextHostObject {
        subclass: CGContextSubclass::CGBitmapContext(CGBitmapContextData {
            data: 0,
            data_is_owned: false,
            width: 2,
            height: 2,
        }),
        rgb_fill_color: (1, 2, 3, 4),
        rgb_stroke_color: (5, 6, 7, 8),
        alpha: ONE,
        line_width: ONE,
        line_cap: 0,
        line_join: 0,
        miter_limit: bits(10.0),
        flatness: 0,
        blend_mode: 0,
        interpolation_quality: 0,
        font: 0,
        font_size: bits(12.0),
        transform: Ctm { base: make_identity(), steps: Vec::new() },
        text_transform: None,
        state_stack: Vec::new(),
        path_points: Vec::new(),
        rendering_intent: 0,
        shadow: CGShadowState::default(),
        clip_mask: None,
    };
    env.framework_state.core_graphics.cg_context.contexts.insert(CONTEXT, host);
    env
}

fn host(env: &Environment) -> &CGContextHostObject {
    &env.framework_state.core_graphics.cg_context.contexts[&CONTEXT]
}

fn draws(env: &Environment) -> Vec<&DrawCommand> {
    env.framework_state.core_graphics.cg_context.draws.iter().map(|d| &d.command).collect()
}

#[test]
fn numbers_compare_as_floats() {
    let values = [
        f32::NEG_INFINITY, -3.5, -1.0e-40, -0.0, 0.0, 1.0e-40, 0.5, 1.0, 7.25, f32::INFINITY,
        f32::NAN,
    ];
    for a in values {
        for b in values {
            assert_eq!(less(a.to_bits(), b.to_bits()), a < b);
            assert_eq!(equal(a.to_bits(), b.to_bits()), a == b);
        }
        if !a.is_nan() {
            assert_eq!(f32::from_bits(clamped(a.to_bits())), a.clamp(0.0, 1.0));
        }
    }
    assert_eq!(f32::from_bits(ONE), 1.0);
    assert_eq!(f32::from_bits(ONE_THIRD), 1.0 / 3.0);
}

#[test]
fn integers_become_floats() {
    for n in [
        0, 1, 2, 3, 320, 480, 1024, 0xff_ffff, 0x100_0000, 0x100_0001, 0x100_0003, 0x1ff_ffff,
        0x7fff_ffff, 0x8000_0080, 0x8000_0180, 0xffff_ff7f, 0xffff_ff80, u32::MAX,
    ] {
        assert_eq!(float_of_u32(n), (n as f32).to_bits());
    }
}

#[test]
fn masks_intersect() {
    let a = ClipMask { width: 2, height: 2, alpha: vec![255, 128, 0, 64] };
    let b = ClipMask { width: 2, height: 2, alpha: vec![10, 128, 200, 255] };
    assert_eq!(a.intersect(&b).alpha, vec![10, 64, 0, 64]);
    assert_eq!(a.intersect(&b).alpha, b.intersect(&a).alpha);
    assert_eq!(a.sample(1, 0), 128);
    assert_eq!(a.sample(0, 1), 0);
    assert_eq!(a.sample(1, 1), 64);
    assert_eq!(a.sample(-1, 0), 0);
    assert_eq!(a.sample(2, 0), 0);
    assert_eq!(a.sample(0, 2), 0);
}

#[test]
fn clips_accumulate() {
    let mut env = context();
    let r = rect(0.0, 0.0, 2.0, 2.0);
    let a = ClipMask { width: 2, height: 2, alpha: vec![255, 128, 0, 64] };
    let b = ClipMask { width: 2, height: 2, alpha: vec![10, 128, 200, 255] };
    cg_context::CGContextClipToMask(&mut env, CONTEXT, r, 9, a);
    assert_eq!(host(&env).clip_mask.as_ref().unwrap().alpha, vec![255, 128, 0, 64]);
    cg_context::CGContextClipToMask(&mut env, CONTEXT, r, 9, b);
    assert_eq!(host(&env).clip_mask.as_ref().unwrap().alpha, vec![10, 64, 0, 64]);
}

#[test]
fn the_graphics_state_is_restored() {
    let mut env = context();
    cg_context::CGContextTranslateCTM(&mut env, CONTEXT, bits(1.0), bits(2.0));
    cg_context::CGContextSaveGState(&mut env, CONTEXT);
    cg_context::CGContextSetRGBFillColor(&mut env, CONTEXT, 9, 9, 9, 9);
    cg_context::CGContextSetLineWidth(&mut env, CONTEXT, bits(5.0));
    cg_context::CGContextScaleCTM(&mut env, CONTEXT, bits(2.0), bits(2.0));
    cg_context::CGContextSetBlendMode(&mut env, CONTEXT, 3);
    let mask = ClipMask { width: 2, height: 2, alpha: vec![1, 2, 3, 4] };
    let r = rect(0.0, 0.0, 2.0, 2.0);
    cg_context::CGContextClipToMask(&mut env, CONTEXT, r, 9, mask);
    assert_eq!(host(&env).transform.steps.len(), 2);
    cg_context::CGContextRestoreGState(&mut env, CONTEXT);
    assert_eq!(host(&env).rgb_fill_color, (1, 2, 3, 4));
    assert_eq!(host(&env).line_width, ONE);
    assert_eq!(host(&env).blend_mode, 0);
    assert!(host(&env).clip_mask.is_none());
    let ctm = cg_context::CGContextGetCTM(&mut env, CONTEXT);
    assert_eq!(ctm.steps, vec![CtmStep::Translate(bits(1.0), bits(2.0))]);
    cg_context::CGContextRestoreGState(&mut env, CONTEXT);
    assert_eq!(host(&env).rgb_fill_color, (1, 2, 3, 4));
    assert_eq!(cg_context::CGContextGetCTM(&mut env, 0).base, make_identity());
}

#[test]
fn fonts_are_kept_alive_by_saved_states() {
    let mut env = context();
    env.framework_state.core_graphics.cg_context.fonts.insert(0x600, FontFace::Loaded(1));
    cg_context::CGContextSetFont(&mut env, CONTEXT, 0x600);
    cg_context::CGContextSaveGState(&mut env, CONTEXT);
    cg_context::CGContextRestoreGState(&mut env, CONTEXT);
    assert_eq!(
        env.objc.actions,
        vec![Action::Retain(0x600), Action::Retain(0x600), Action::Release(0x600)]
    );
    assert_eq!(host(&env).font, 0x600);
}

#[test]
fn fonts_are_replaced() {
    let mut env = context();
    let cg = &mut env.framework_state.core_graphics.cg_context;
    cg.ui_fonts.insert(0x700, Some(FontFace::Loaded(7)));
    cg.ui_fonts.insert(0x800, None);
    cg_context::CGContextSetFont(&mut env, CONTEXT, 0x700);
    let made = host(&env).font;
    assert_ne!(made, 0x700);
    assert_eq!(env.framework_state.core_graphics.cg_context.fonts[&made], FontFace::Loaded(7));
    assert_eq!(env.mem.read_u32(made), 0x50);
    cg_context::CGContextSetFont(&mut env, CONTEXT, 0x800);
    assert_eq!(host(&env).font, 0x800);
    cg_context::CGContextSetFont(&mut env, CONTEXT, 0x900);
    let made = host(&env).font;
    assert_eq!(env.framework_state.core_graphics.cg_context.fonts[&made], FontFace::SansRegular);
    cg_context::CGContextSetFont(&mut env, CONTEXT, 0);
    assert_eq!(host(&env).font, 0);
}

#[test]
fn attributes_are_set() {
    let mut env = context();
    cg_context::CGContextSetAlpha(&mut env, CONTEXT, bits(1.5));
    assert_eq!(host(&env).alpha, ONE);
    cg_context::CGContextSetAlpha(&mut env, CONTEXT, bits(-2.0));
    assert_eq!(host(&env).alpha, ZERO);
    cg_context::CGContextSetGrayStrokeColor(&mut env, CONTEXT, 3, 4);
    assert_eq!(host(&env).rgb_stroke_color, (3, 3, 3, 4));
    env.framework_state.core_graphics.cg_context.colors.insert(0x33, (1, 0, 1, 0));
    cg_context::CGContextSetFillColorWithColor(&mut env, CONTEXT, 0x33);
    assert_eq!(host(&env).rgb_fill_color, (1, 0, 1, 0));
    cg_context::CGContextSetFillColorSpace(&mut env, CONTEXT, 0);
    assert_eq!(host(&env).rgb_fill_color, (ZERO, ZERO, ZERO, ONE));
    let offset = CGSize { width: bits(1.0), height: bits(2.0) };
    cg_context::CGContextSetShadow(&mut env, CONTEXT, offset, bits(3.0));
    assert!(host(&env).shadow.enabled);
    assert_eq!(host(&env).shadow.color, (ZERO, ZERO, ZERO, ONE_THIRD));
    cg_context::CGContextSetShadowWithColor(&mut env, CONTEXT, offset, bits(3.0), 0x33);
    assert_eq!(host(&env).shadow.color, (1, 0, 1, 0));
    cg_context::CGContextSetShadowWithColor(&mut env, CONTEXT, offset, bits(3.0), 0);
    assert!(!host(&env).shadow.enabled);
    cg_context::CGContextSetLineWidth(&mut env, 0, bits(9.0));
    assert_eq!(host(&env).line_width, ONE);
}

#[test]
fn rectangles_are_drawn() {
    let mut env = context();
    let r = rect(0.0, 0.0, 2.0, 1.0);
    cg_context::CGContextFillRect(&mut env, CONTEXT, r);
    cg_context::CGContextClearRect(&mut env, CONTEXT, r);
    cg_context::CGContextStrokeRect(&mut env, CONTEXT, r);
    cg_context::CGContextFillRect(&mut env, 0, r);
    assert_eq!(draws(&env).len(), 6);
    assert!(matches!(
        &draws(&env)[0],
        DrawCommand::Fill { context: CONTEXT, area: Area::Rect(a), color: (1, 2, 3, 4), clear: false }
            if *a == r
    ));
    assert!(matches!(&draws(&env)[1], DrawCommand::Fill { clear: true, .. }));
    assert!(matches!(
        &draws(&env)[3],
        DrawCommand::Fill { area: Area::BottomBand(a, ONE), color: (5, 6, 7, 8), .. } if *a == r
    ));
    assert_eq!(host(&env).rgb_fill_color, (1, 2, 3, 4));
}

#[test]
fn paths_are_drawn() {
    let mut env = context();
    cg_context::CGContextFillPath(&mut env, CONTEXT);
    assert!(draws(&env).is_empty());
    cg_context::CGContextMoveToPoint(&mut env, CONTEXT, 1, 2);
    cg_context::CGContextAddLineToPoint(&mut env, CONTEXT, 3, 4);
    cg_context::CGContextClosePath(&mut env, CONTEXT);
    assert_eq!(host(&env).path_points.len(), 3);
    assert_eq!(host(&env).path_points[2], PathPoint::At(CGPoint { x: 1, y: 2 }));
    cg_context::CGContextDrawPath(&mut env, CONTEXT, 2);
    assert_eq!(draws(&env).len(), 2);
    assert!(host(&env).path_points.is_empty());
    cg_context::CGContextAddRect(&mut env, CONTEXT, rect(0.0, 0.0, 1.0, 1.0));
    cg_context::CGContextDrawPath(&mut env, CONTEXT, 3);
    assert_eq!(draws(&env).len(), 6);
    assert!(matches!(
        &draws(&env)[2],
        DrawCommand::Fill { area: Area::Bounds(points), color: (1, 2, 3, 4), .. }
            if points.len() == 4
    ));
    for command in &draws(&env)[3..] {
        assert!(matches!(
            command,
            DrawCommand::Fill { area: Area::Segment(_, _, ONE), color: (5, 6, 7, 8), .. }
        ));
    }
    assert!(host(&env).path_points.is_empty());
    assert_eq!(host(&env).rgb_fill_color, (1, 2, 3, 4));
    cg_context::CGContextDrawPath(&mut env, CONTEXT, 4);
    assert_eq!(draws(&env).len(), 6);
    let points = env.mem.allocate(16);
    for i in 0..4 {
        env.mem.write_u32(points + 4 * i, i);
    }
    cg_context::CGContextAddLines(&mut env, CONTEXT, points, 2);
    assert_eq!(host(&env).path_points[1], PathPoint::At(CGPoint { x: 2, y: 3 }));
    cg_context::CGContextBeginPath(&mut env, CONTEXT);
    assert!(host(&env).path_points.is_empty());
    cg_context::CGContextAddRects(&mut env, CONTEXT, points, 1);
    let r = CGRect { origin: CGPoint { x: 0, y: 1 }, size: CGSize { width: 2, height: 3 } };
    assert_eq!(host(&env).path_points[2], PathPoint::OppositeCorner(r));
}

#[test]
fn images_are_tiled() {
    let mut env = context();
    let clip = cg_context::CGContextGetClipBoundingBox(&mut env, CONTEXT);
    assert_eq!(clip, rect(0.0, 0.0, 2.0, 2.0));
    let r = rect(0.0, 0.0, 1.0, 1.0);
    let xs = vec![bits(0.0), bits(1.0)];
    let ys = vec![bits(0.0), bits(1.0)];
    cg_context::CGContextDrawTiledImage(&mut env, CONTEXT, r, 5, &xs, &ys);
    assert_eq!(draws(&env).len(), 4);
    assert!(matches!(
        &draws(&env)[1],
        DrawCommand::Image { rect: a, image: 5, .. } if *a == rect(1.0, 0.0, 1.0, 1.0)
    ));
    let degenerate = rect(0.0, 0.0, 0.0, 1.0);
    cg_context::CGContextDrawTiledImage(&mut env, CONTEXT, degenerate, 5, &xs, &ys);
    assert_eq!(draws(&env).len(), 4);
    let many = vec![ZERO; 1001];
    cg_context::CGContextDrawTiledImage(&mut env, CONTEXT, r, 5, &many, &many);
    assert_eq!(draws(&env).len() as u64, 4 + MAX_TILES);
}

#[test]
fn glyphs_are_drawn() {
    let mut env = context();
    let glyphs = env.mem.allocate(4);
    env.mem.write_u16(glyphs, 40);
    env.mem.write_u16(glyphs + 2, 41);
    cg_context::CGContextShowGlyphs(&mut env, CONTEXT, glyphs, 2);
    assert!(draws(&env).is_empty());
    env.framework_state.core_graphics.cg_context.fonts.insert(0x600, FontFace::Loaded(1));
    cg_context::CGContextSetFont(&mut env, CONTEXT, 0x600);
    cg_context::CGContextShowGlyphsAtPoint(&mut env, CONTEXT, bits(3.0), bits(4.0), glyphs, 2);
    match &draws(&env)[0] {
        DrawCommand::Glyphs { font, font_size, glyphs, layout, color, .. } => {
            assert_eq!(*font, 0x600);
            assert_eq!(*font_size, bits(12.0));
            assert_eq!(*glyphs, vec![rusttype::GlyphId(40), rusttype::GlyphId(41)]);
            assert_eq!(*color, (1, 2, 3, 4));
            assert!(matches!(
                layout,
                GlyphLayout::AtPoint(p, t)
                    if *p == CGPoint { x: bits(3.0), y: bits(4.0) } && *t == make_identity()
            ));
        }
        _ => panic!("no glyphs"),
    }
    let positions = env.mem.calloc(16);
    env.mem.write_u32(positions + 12, 77);
    cg_context::CGContextShowGlyphsAtPositions(&mut env, CONTEXT, glyphs, positions, 2);
    assert!(matches!(
        &draws(&env)[1],
        DrawCommand::Glyphs { layout: GlyphLayout::Positions(p), .. } if p[1].y == 77
    ));
    cg_context::CGContextShowGlyphsWithAdvances(&mut env, CONTEXT, glyphs, positions, 2);
    assert!(matches!(
        &draws(&env)[2],
        DrawCommand::Glyphs { layout: GlyphLayout::Advances(a), .. } if a[1].height == 77
    ));
}

#[test]
fn contexts_are_dropped() {
    let mut env = context();
    let this = env.objc.alloc_object(0x30, &mut env.mem);
    let data = env.mem.allocate(16);
    let mut h = env.framework_state.core_graphics.cg_context.contexts.remove(&CONTEXT).unwrap();
    h.subclass = CGContextSubclass::CGBitmapContext(CGBitmapContextData {
        data,
        data_is_owned: true,
        width: 2,
        height: 2,
    });
    h.font = 0x600;
    h.clip_mask = Some(Rc::new(ClipMask { width: 2, height: 2, alpha: vec![0; 4] }));
    env.framework_state.core_graphics.cg_context.contexts.insert(this, h);
    cg_context::dealloc(&mut env, this);
    assert!(!env.mem.is_known_allocation(data));
    assert!(!env.mem.is_known_allocation(this));
    assert!(!env.objc.is_host_object(this));
    assert_eq!(env.objc.actions, vec![Action::Release(0x600)]);
}

#[test]
fn slashes_are_normalized() {
    let normal = |s: &str| cg_data_provider::normalize_path(&chars(s)).iter().collect::<String>();
    assert_eq!(normal("//menu.png"), "/menu.png");
    assert_eq!(normal("a///b//c/"), "a/b/c/");
    assert_eq!(normal(&normal("a///b")), "a/b");
}

#[test]
fn providers_give_bytes() {
    let mut env = guest();
    let data = env.mem.alloc_and_write(&b"pixels".to_vec());
    let p = cg_data_provider::CGDataProviderCreateWithData(&mut env, 0x11, data, 6, 0x2001);
    assert_eq!(cg_data_provider::borrow_bytes(&env, p), b"pixels".to_vec());
    assert_eq!(cg_data_provider::CGDataProviderGetSize(&mut env, p), 6);
    cg_data_provider::dealloc(&mut env, p);
    assert_eq!(env.objc.actions, vec![Action::Call3(0x2001, 0x11, data, 6)]);
    let name = cstr(&mut env, "/missing");
    assert_eq!(cg_data_provider::CGDataProviderCreateWithFilename(&mut env, name), 0);
    let image = cg_data_provider::from_cg_image(&mut env, 0x99);
    assert_eq!(
        env.framework_state.core_graphics.data_provider.providers[&image],
        CGDataProviderHostObject::CGImage(0x99)
    );
}

#[test]
fn providers_are_read_in_chunks() {
    let mut env = guest();
    let callbacks = env.mem.calloc(20);
    assert!(cg_data_provider::CGDataProviderCreateSequential(&mut env, 5, callbacks).is_none());
    env.mem.write_u32(callbacks + 4, 0x301);
    env.mem.write_u32(callbacks + 16, 0x401);
    let read =
        cg_data_provider::CGDataProviderCreateSequential(&mut env, 5, callbacks).unwrap();
    env.mem.write_bytes(read.buffer, &b"abc".to_vec());
    let (read, more) = cg_data_provider::sequential_take(&mut env, read, 3);
    assert!(!more);
    assert_eq!(env.objc.actions, vec![Action::Call1(0x401, 5)]);
    let p = cg_data_provider::sequential_finish(&mut env, &read);
    assert_eq!(cg_data_provider::borrow_bytes(&env, p), b"abc".to_vec());
}

#[test]
fn providers_read_directly() {
    let mut env = guest();
    let callbacks = env.mem.calloc(20);
    let refused = cg_data_provider::CGDataProviderCreateDirect(&mut env, 4, callbacks);
    assert_eq!(refused.0, DirectStep::Refused);
    env.mem.write_u32(callbacks + 4, 0x501);
    env.mem.write_u32(callbacks + 16, 0x601);
    let (step, release) = cg_data_provider::CGDataProviderCreateDirect(&mut env, 4, callbacks);
    assert_eq!(step, DirectStep::AskPointer(0x501));
    let data = env.mem.alloc_and_write(&b"wxyz".to_vec());
    let p = cg_data_provider::direct_finish(&mut env, 9, 4, release, data);
    assert_eq!(cg_data_provider::borrow_bytes(&env, p), b"wxyz".to_vec());
    assert_eq!(cg_data_provider::direct_finish(&mut env, 9, 4, release, 0), 0);
}

#[test]
fn commands_keep_the_state_they_were_given_under() {
    let mut env = context();
    let r = rect(0.0, 0.0, 2.0, 1.0);
    let mask = ClipMask { width: 2, height: 2, alpha: vec![1, 2, 3, 4] };
    cg_context::CGContextSetAlpha(&mut env, CONTEXT, bits(0.5));
    cg_context::CGContextSetBlendMode(&mut env, CONTEXT, 7);
    cg_context::CGContextTranslateCTM(&mut env, CONTEXT, bits(1.0), bits(2.0));
    cg_context::CGContextFillRect(&mut env, CONTEXT, r);
    cg_context::CGContextSetAlpha(&mut env, CONTEXT, bits(0.25));
    cg_context::CGContextSetBlendMode(&mut env, CONTEXT, 8);
    cg_context::CGContextScaleCTM(&mut env, CONTEXT, bits(3.0), bits(3.0));
    cg_context::CGContextClipToMask(&mut env, CONTEXT, r, 9, mask);
    cg_context::CGContextDrawImage(&mut env, CONTEXT, r, 0x44);
    let drawn = &env.framework_state.core_graphics.cg_context.draws;
    assert_eq!(drawn[0].state.alpha, bits(0.5));
    assert_eq!(drawn[0].state.blend_mode, 7);
    assert_eq!(drawn[0].state.transform.steps.len(), 1);
    assert!(drawn[0].state.clip_mask.is_none());
    assert_eq!((drawn[0].bitmap.width, drawn[0].bitmap.height), (2, 2));
    assert_eq!(drawn[1].state.alpha, bits(0.25));
    assert_eq!(drawn[1].state.blend_mode, 8);
    assert_eq!(drawn[1].state.transform.steps.len(), 2);
    assert_eq!(drawn[1].state.clip_mask.as_ref().unwrap().alpha, vec![1, 2, 3, 4]);
}

#[test]
fn normalized_paths_keep_their_parts() {
    let path = chars("//a///b.c//d/");
    let normal = cg_data_provider::normalize_path(&path);
    assert_eq!(split_parts(&normal), split_parts(&path));
    assert_eq!(split_parts(&normal), vec![chars("a"), chars("b.c"), chars("d")]);
}
