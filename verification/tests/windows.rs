//! Windows.
use hyperhle::environment::{Bundle, Environment};
use hyperhle::frameworks::core_graphics::cg_geometry::{CGPoint, CGRect, CGSize};
use hyperhle::frameworks::uikit::ui_view::UIViewHostObject;
use hyperhle::frameworks::uikit::ui_view::ui_window;
use hyperhle::frameworks::uikit::ui_view::ui_window::{
    DeviceOrientation, HitStep, Message, RootStep, SubviewStep,
};
use hyperhle::fs::Fs;
use hyperhle::mem::Mem;
use hyperhle::objc::KnownClasses;

fn chars(s: &str) -> Vec<char> {
    s.chars().collect()
}

fn guest() -> Environment {
    let bundle = Bundle {
        bundle_path: chars("/App.app"),
        executable_path: chars("/App.app/App"),
        bundle_identifier: b"org.example.app".to_vec(),
    };
    let classes = KnownClasses {
        ns_dictionary: 0x10,
        ns_mutable_dictionary: 0x20,
        cg_context: 0x30,
        cg_data_provider: 0x40,
        cg_font: 0x50,
    };
    let mut env = Environment::new(Mem::new(0x40000), Fs::new(1 << 20), bundle, classes);
    env.fs.create_dir(&chars("/App.app")).unwrap();
    env
}

fn rect(width: f32, height: f32) -> CGRect {
    CGRect {
        origin: CGPoint { x: 0, y: 0 },
        size: CGSize { width: width.to_bits(), height: height.to_bits() },
    }
}

fn windows(env: &Environment) -> Vec<u32> {
    env.framework_state.uikit.ui_view.ui_window.windows.clone()
}

#[test]
fn windows_are_listed() {
    let mut env = guest();
    let screen = rect(320.0, 480.0);
    assert_eq!(ui_window::init_with_frame(1), vec![Message::SuperSetHidden(1, true)]);
    ui_window::init_end(&mut env, 1);
    assert_eq!(ui_window::init_with_coder(2), vec![Message::SuperSetHidden(2, true)]);
    assert_eq!(
        ui_window::init_with_coder_bounds(2, screen, rect(320.0, 460.0)),
        vec![Message::SetFrame(2, screen)]
    );
    ui_window::init_end(&mut env, 2);
    assert_eq!(ui_window::init_with_coder_bounds(3, screen, screen), vec![]);
    ui_window::init_end(&mut env, 3);
    assert_eq!(windows(&env), vec![1, 2, 3]);
    assert_eq!(
        ui_window::make_key_and_visible(1),
        vec![Message::MakeKeyWindow(1), Message::SetHidden(1, false)]
    );
    assert_eq!(
        ui_window::make_key_and_visible_frame(1, screen, rect(0.0, 10.0)),
        vec![Message::SetFrame(1, screen)]
    );
    assert_eq!(ui_window::make_key_and_visible_frame(1, screen, screen), vec![]);
    ui_window::make_key_and_visible_end(&mut env, 1);
    assert_eq!(windows(&env), vec![2, 3, 1]);
    ui_window::make_key_and_visible_end(&mut env, 9);
    assert_eq!(windows(&env), vec![2, 3, 1]);
}

#[test]
fn windows_go() {
    let mut env = guest();
    ui_window::init_end(&mut env, 1);
    ui_window::init_end(&mut env, 2);
    assert_eq!(ui_window::make_key_window(&mut env, 1), vec![Message::PostDidBecomeKey(1)]);
    assert!(ui_window::is_key_window(&env, 1));
    ui_window::root_install(&mut env, 1, 50);
    assert_eq!(ui_window::dealloc(&mut env, 1), vec![Message::Release(50)]);
    assert_eq!(windows(&env), vec![1, 2]);
    assert_eq!(ui_window::dealloc_end(&mut env, 1), vec![Message::SuperDealloc(1)]);
    assert_eq!(windows(&env), vec![2]);
    assert!(!ui_window::is_key_window(&env, 1));
    assert_eq!(ui_window::root_view_controller(&env, 1), 0);
    assert_eq!(ui_window::dealloc(&mut env, 2), vec![]);
}

fn hit(this: u32, hits: &[Option<u32>]) -> u32 {
    let mut env = guest();
    let view = UIViewHostObject { subviews: vec![7; hits.len()], view_controller: 0 };
    env.framework_state.uikit.ui_view.views.insert(this, view);
    let mut step = ui_window::hit_test_begin(&env, this);
    loop {
        match step {
            HitStep::Ask(i) => step = ui_window::hit_test_next(this, i, hits[i]),
            HitStep::Done(view) => return view,
        }
    }
}

#[test]
fn touches_go_to_the_topmost_subview() {
    assert_eq!(hit(1, &[]), 1);
    assert_eq!(hit(1, &[Some(5), Some(6), None]), 6);
    assert_eq!(hit(1, &[Some(5), Some(0), None]), 5);
    assert_eq!(hit(1, &[None, Some(0)]), 1);
    assert!(ui_window::is_touchable(false, 1.0f32.to_bits(), true));
    assert!(ui_window::is_touchable(false, 0.01f32.to_bits(), true));
    assert!(!ui_window::is_touchable(false, 0.009f32.to_bits(), true));
    assert!(!ui_window::is_touchable(true, 1.0f32.to_bits(), true));
    assert!(!ui_window::is_touchable(false, 1.0f32.to_bits(), false));
}

#[test]
fn root_view_controllers_are_replaced() {
    let mut env = guest();
    let bounds = rect(320.0, 480.0);
    assert_eq!(
        ui_window::set_root_view_controller(&env, 1, 50),
        (vec![Message::Retain(50)], RootStep::NewView(50))
    );
    assert_eq!(
        ui_window::root_new_view(1, 51, bounds),
        vec![Message::SetFrame(51, bounds), Message::AddSubview(1, 51)]
    );
    assert_eq!(ui_window::root_view_controller(&env, 1), 0);
    ui_window::root_install(&mut env, 1, 50);
    assert_eq!(ui_window::root_view_controller(&env, 1), 50);
    assert_eq!(ui_window::set_root_view_controller(&env, 1, 50), (vec![], RootStep::Done));
    assert_eq!(
        ui_window::set_root_view_controller(&env, 1, 60),
        (vec![Message::Retain(60)], RootStep::PreviousView(50))
    );
    assert_eq!(
        ui_window::root_previous_view(60, 50, 51),
        (vec![Message::RemoveFromSuperview(51), Message::Release(50)], RootStep::NewView(60))
    );
    ui_window::root_install(&mut env, 1, 60);
    assert_eq!(ui_window::root_view_controller(&env, 1), 60);
    assert_eq!(
        ui_window::set_root_view_controller(&env, 1, 0),
        (vec![], RootStep::PreviousView(60))
    );
    assert_eq!(
        ui_window::root_previous_view(0, 60, 0),
        (vec![Message::Release(60)], RootStep::Forget)
    );
    ui_window::root_forget(&mut env, 1);
    assert_eq!(ui_window::root_view_controller(&env, 1), 0);
}

#[test]
fn controller_views_appear() {
    let mut env = guest();
    env.framework_state.uikit.ui_view.views.insert(
        51,
        UIViewHostObject { subviews: vec![], view_controller: 50 },
    );
    env.framework_state.uikit.ui_view.views.insert(
        52,
        UIViewHostObject { subviews: vec![51], view_controller: 0 },
    );
    assert_eq!(ui_window::content_view(&env, 52), 51);
    assert_eq!(ui_window::content_view(&env, 51), 0);
    assert_eq!(
        ui_window::add_subview(&env, 1, 52),
        (vec![Message::SuperAddSubview(1, 52)], SubviewStep::Done)
    );
    assert_eq!(
        ui_window::add_subview(&env, 1, 51),
        (vec![], SubviewStep::IsHidden(51, 50))
    );
    assert_eq!(
        ui_window::add_controller_view(1, 51, 50, false),
        vec![
            Message::ViewWillAppear(50),
            Message::SuperAddSubview(1, 51),
            Message::ViewDidAppear(50),
        ]
    );
    assert_eq!(
        ui_window::add_controller_view(1, 51, 50, true),
        vec![Message::SuperAddSubview(1, 51)]
    );
    assert_eq!(
        ui_window::add_controller_rotation(50, DeviceOrientation::Portrait),
        SubviewStep::Done
    );
    assert_eq!(
        ui_window::add_controller_rotation(50, DeviceOrientation::LandscapeLeft),
        SubviewStep::ShouldAutorotate(50, 3)
    );
    assert_eq!(
        ui_window::add_controller_rotation(50, DeviceOrientation::LandscapeRight),
        SubviewStep::ShouldAutorotate(50, 4)
    );
    let frame = rect(320.0, 480.0);
    assert_eq!(
        ui_window::rotate_controller_view(51, 3, true, frame),
        vec![
            Message::SetRotation(51, std::f32::consts::FRAC_PI_2.to_bits()),
            Message::SetFrame(51, frame),
        ]
    );
    assert_eq!(
        ui_window::rotate_controller_view(51, 4, true, frame)[0],
        Message::SetRotation(51, (-std::f32::consts::FRAC_PI_2).to_bits())
    );
    assert_eq!(ui_window::rotate_controller_view(51, 4, false, frame), vec![]);
}

#[test]
fn window_levels() {
    let mut env = guest();
    assert_eq!(ui_window::window_level(&env, 1), 0.0f32.to_bits());
    ui_window::set_window_level(&mut env, 1, ui_window::UIWindowLevelAlert);
    assert_eq!(f32::from_bits(ui_window::window_level(&env, 1)), 2000.0);
    assert_eq!(f32::from_bits(ui_window::UIWindowLevelStatusBar), 1000.0);
    assert_eq!(ui_window::window_level(&env, 2), 0);
}
