//! `UIWindow`.
//!
//! What a window sends to other objects is returned as messages, in order.
//! What comes after them, and what rests on an answer, is a function of its own.
use std::collections::HashMap;
use vstd::prelude::*;

use crate::environment::Environment;
use crate::frameworks::core_graphics::cg_geometry::{
    equal_size, float_lt, is_nan, less, size_eq, CGFloat, CGRect, ZERO,
};
use crate::frameworks::uikit::ui_view::UIViewHostObject;
use crate::objc::{id, nil};

verus! {

broadcast use vstd::std_specs::hash::group_hash_axioms;

pub struct State {
    /// List of visible windows for internal purposes. Non-retaining!
    pub windows: Vec<id>,
    /// The most recent window which received `makeKeyAndVisible` message.
    /// Non-retaining!
    pub key_window: Option<id>,
    /// Per-window `rootViewController` association. The controller is
    /// retained while the window holds it.
    pub root_view_controllers: HashMap<id, id>,
    /// Per-window `windowLevel`. Absent entries default to
    /// `UIWindowLevelNormal`.
    pub window_levels: HashMap<id, CGFloat>,
}

impl Default for State {
    fn default() -> (r: State)
        ensures
            r.windows@.len() == 0,
            r.key_window is None,
            r.root_view_controllers@ == Map::<id, id>::empty(),
            r.window_levels@ == Map::<id, CGFloat>::empty(),
    {
        State {
            windows: Vec::new(),
            key_window: None,
            root_view_controllers: HashMap::new(),
            window_levels: HashMap::new(),
        }
    }
}

/// Zero.
pub const UIWindowLevelNormal: CGFloat = 0;

/// Two thousand.
pub const UIWindowLevelAlert: CGFloat = 0x44fa_0000;

/// One thousand.
pub const UIWindowLevelStatusBar: CGFloat = 0x447a_0000;

/// The names of window life-cycle notifications. Each is the name of its own
/// symbol.
pub const UIWindowDidBecomeKeyNotification: &'static str = "UIWindowDidBecomeKeyNotification";

pub const UIWindowDidResignKeyNotification: &'static str = "UIWindowDidResignKeyNotification";

pub const UIWindowDidBecomeHiddenNotification: &'static str = "UIWindowDidBecomeHiddenNotification";

pub const UIWindowDidBecomeVisibleNotification: &'static str = "UIWindowDidBecomeVisibleNotification";

/// The names of keyboard notifications.
pub const UIKeyboardWillShowNotification: &'static str = "UIKeyboardWillShowNotification";

pub const UIKeyboardDidShowNotification: &'static str = "UIKeyboardDidShowNotification";

pub const UIKeyboardWillHideNotification: &'static str = "UIKeyboardWillHideNotification";

pub const UIKeyboardDidHideNotification: &'static str = "UIKeyboardDidHideNotification";

pub const UIKeyboardBoundsUserInfoKey: &'static str = "UIKeyboardBoundsUserInfoKey";

/// The names of screen notifications.
pub const UIScreenDidConnectNotification: &'static str = "UIScreenDidConnectNotification";

pub const UIScreenDidDisconnectNotification: &'static str = "UIScreenDidDisconnectNotification";

pub const UIScreenModeDidChangeNotification: &'static str = "UIScreenModeDidChangeNotification";

/// A message to an object, with its arguments.
#[derive(Clone, Copy, Debug, PartialEq, Eq, Structural)]
pub enum Message {
    Retain(id),
    Release(id),
    /// `setHidden:`, as the window's superclass understands it.
    SuperSetHidden(id, bool),
    /// `addSubview:`, as the window's superclass understands it.
    SuperAddSubview(id, id),
    /// `dealloc`, as the window's superclass understands it.
    SuperDealloc(id),
    SetHidden(id, bool),
    SetFrame(id, CGRect),
    /// `setTransform:`, with a rotation by an angle.
    SetRotation(id, CGFloat),
    LayoutSubviews(id),
    AddSubview(id, id),
    RemoveFromSuperview(id),
    MakeKeyWindow(id),
    ViewWillAppear(id),
    ViewDidAppear(id),
    /// A notification that the window became the key window.
    PostDidBecomeKey(id),
}

/// The windows.
pub open spec fn windows(env: Environment) -> State {
    env.framework_state.uikit.ui_view.ui_window
}

/// `after` is `before` without the first `x`.
pub open spec fn first_removed(before: Seq<id>, after: Seq<id>, x: id) -> bool {
    exists|k: int|
        {
            &&& 0 <= k < before.len()
            &&& before[k] == x
            &&& forall|j: int| 0 <= j < k ==> before[j] != x
            &&& after == #[trigger] before.remove(k)
        }
}

/// Where the window stands first in the list.
fn position(list: &Vec<id>, this: id) -> (r: Option<usize>)
    ensures
        r is Some <==> list@.contains(this),
        r matches Some(i) ==> {
            &&& i < list@.len()
            &&& list@[i as int] == this
            &&& forall|j: int| 0 <= j < i ==> list@[j] != this
        },
{
    let n: usize = list.len();
    let mut i: usize = 0;
    while i < n
        invariant
            i <= n == list@.len(),
            forall|j: int| 0 <= j < i ==> list@[j] != this,
        decreases n - i,
    {
        if list[i] == this {
            return Some(i);
        }
        i = i + 1;
    }
    None
}

/// Only the list of windows changed.
pub open spec fn list_changed(before: Environment, after: Environment) -> bool {
    after == before.with_ui_window(
        (State { windows: windows(after).windows, ..windows(before) }),
    )
}

/// `initWithFrame:`, once the superclass is done. Windows are hidden at first,
/// unlike views.
pub fn init_with_frame(this: id) -> (r: Vec<Message>)
    ensures
        r@ == seq![Message::SuperSetHidden(this, true)],
{
    vec![Message::SuperSetHidden(this, true)]
}

/// `initWithCoder:`, once the superclass is done: what is sent first.
pub fn init_with_coder(this: id) -> (r: Vec<Message>)
    ensures
        r@ == seq![Message::SuperSetHidden(this, true)],
{
    vec![Message::SuperSetHidden(this, true)]
}

/// `initWithCoder:`, with the bounds of the screen and of the window. Whatever
/// size was encoded, the window gets the bounds of the screen.
pub fn init_with_coder_bounds(
    this: id,
    screen_bounds: CGRect,
    current_bounds: CGRect,
) -> (r: Vec<Message>)
    ensures
        r@ == if size_eq(current_bounds.size, screen_bounds.size) {
            Seq::empty()
        } else {
            seq![Message::SetFrame(this, screen_bounds)]
        },
{
    if equal_size(current_bounds.size, screen_bounds.size) {
        Vec::new()
    } else {
        vec![Message::SetFrame(this, screen_bounds)]
    }
}

/// `initWithFrame:` and `initWithCoder:`, once everything was sent: the window
/// is put on the list.
pub fn init_end(env: &mut Environment, this: id)
    ensures
        list_changed(*old(env), *final(env)),
        windows(*final(env)).windows@ == windows(*old(env)).windows@.push(this),
{
    env.framework_state.uikit.ui_view.ui_window.windows.push(this);
}

/// `dealloc`: the window is no longer the key window, and lets go of its root
/// view controller.
pub fn dealloc(env: &mut Environment, this: id) -> (r: Vec<Message>)
    ensures
        ({
            let b = windows(*old(env));
            let a = windows(*final(env));
            &&& *final(env) == old(env).with_ui_window(
                (State {
                    root_view_controllers: a.root_view_controllers,
                    key_window: if b.key_window == Some(this) {
                        None
                    } else {
                        b.key_window
                    },
                    ..b
                }),
            )
            &&& a.root_view_controllers@ == b.root_view_controllers@.remove(this)
            &&& r@ == if b.root_view_controllers@.contains_key(this) {
                seq![Message::Release(b.root_view_controllers@[this])]
            } else {
                Seq::empty()
            }
        }),
{
    if let Some(key_window) = env.framework_state.uikit.ui_view.ui_window.key_window {
        if key_window == this {
            env.framework_state.uikit.ui_view.ui_window.key_window = None;
        }
    }
    let root: Option<id> = env.framework_state.uikit.ui_view.ui_window.root_view_controllers.remove(
        &this,
    );
    match root {
        Some(root_vc) => vec![Message::Release(root_vc)],
        None => Vec::new(),
    }
}

/// `dealloc`, once the root view controller was released: the window leaves the
/// list.
pub fn dealloc_end(env: &mut Environment, this: id) -> (r: Vec<Message>)
    requires
        windows(*old(env)).windows@.contains(this),
    ensures
        list_changed(*old(env), *final(env)),
        first_removed(windows(*old(env)).windows@, windows(*final(env)).windows@, this),
        r@ == seq![Message::SuperDealloc(this)],
{
    let at: Option<usize> = position(&env.framework_state.uikit.ui_view.ui_window.windows, this);
    if let Some(i) = at {
        let _ = env.framework_state.uikit.ui_view.ui_window.windows.remove(i);
        assert(windows(*env).windows@ == windows(*old(env)).windows@.remove(i as int));
    }
    vec![Message::SuperDealloc(this)]
}

/// `layoutIfNeeded`.
pub fn layout_if_needed(this: id) -> (r: Vec<Message>)
    ensures
        r@ == seq![Message::LayoutSubviews(this)],
{
    vec![Message::LayoutSubviews(this)]
}

/// `setHidden:`.
pub fn set_hidden(this: id, is_hidden: bool) -> (r: Vec<Message>)
    ensures
        r@ == seq![Message::SuperSetHidden(this, is_hidden)],
{
    vec![Message::SuperSetHidden(this, is_hidden)]
}

/// A hundredth: views that are less opaque take no touches.
pub const TOUCHABLE_ALPHA: CGFloat = 0x3c23_d70a;

/// Whether a subview is asked for a touch.
pub open spec fn takes_touches(hidden: bool, alpha: CGFloat, interactible: bool) -> bool {
    !hidden && !float_lt(alpha, TOUCHABLE_ALPHA) && interactible
}

/// Whether a subview is asked for a touch.
pub fn is_touchable(hidden: bool, alpha: CGFloat, interactible: bool) -> (r: bool)
    ensures
        r == takes_touches(hidden, alpha, interactible),
{
    !hidden && !less(alpha, TOUCHABLE_ALPHA) && interactible
}

/// The next step in the search for the view that is touched.
#[derive(Clone, Copy, Debug, PartialEq, Eq, Structural)]
pub enum HitStep {
    /// Ask the subview at this place, unless it takes no touches.
    Ask(usize),
    /// The view that is touched.
    Done(id),
}

/// The first step: the topmost of `count` subviews.
pub open spec fn hit_begin(this: id, count: int) -> HitStep {
    if count == 0 {
        HitStep::Done(this)
    } else {
        HitStep::Ask((count - 1) as usize)
    }
}

/// The step after the subview at `index` was asked, and answered with `hit`
/// (or was not asked).
pub open spec fn hit_next(this: id, index: int, hit: Option<id>) -> HitStep {
    if hit is Some && hit != Some(nil) {
        HitStep::Done(hit->0)
    } else if index == 0 {
        HitStep::Done(this)
    } else {
        HitStep::Ask((index - 1) as usize)
    }
}

/// `hitTest:withEvent:`. Windows don't actively participate in event handling:
/// they merely pass events on to their subviews, wherever the touch is.
pub fn hit_test_begin(env: &Environment, this: id) -> (r: HitStep)
    requires
        env.framework_state.uikit.ui_view.views@.contains_key(this),
    ensures
        r == hit_begin(
            this,
            env.framework_state.uikit.ui_view.views@[this].subviews@.len() as int,
        ),
{
    let view: &UIViewHostObject = env.framework_state.uikit.ui_view.views.get(&this).unwrap();
    let n: usize = view.subviews.len();
    if n == 0 {
        HitStep::Done(this)
    } else {
        HitStep::Ask(n - 1)
    }
}

/// The step after a subview was asked.
pub fn hit_test_next(this: id, index: usize, hit: Option<id>) -> (r: HitStep)
    ensures
        r == hit_next(this, index as int, hit),
{
    if let Some(view) = hit {
        if view != nil {
            return HitStep::Done(view);
        }
    }
    if index == 0 {
        HitStep::Done(this)
    } else {
        HitStep::Ask(index - 1)
    }
}

/// Where the search ends, if the subviews answer with `hits`.
pub open spec fn hit_result(this: id, hits: Seq<Option<id>>, step: HitStep) -> id
    decreases
            match step {
                HitStep::Ask(i) => i + 1,
                HitStep::Done(_) => 0int,
            },
{
    match step {
        HitStep::Done(view) => view,
        HitStep::Ask(i) => {
            if i < hits.len() {
                hit_result(this, hits, hit_next(this, i as int, hits[i as int]))
            } else {
                this
            }
        },
    }
}

/// A touch goes to what the topmost subview that has an answer answers; if
/// none has one, the touch is not lost: it goes to the window.
pub proof fn law_hit_test(this: id, hits: Seq<Option<id>>, k: int)
    requires
        hits.len() <= usize::MAX,
        -1 <= k < hits.len(),
        forall|j: int| k < j < hits.len() ==> hits[j] is None || hits[j] == Some(nil),
        k >= 0 ==> hits[k] is Some && hits[k] != Some(nil),
    ensures
        hit_result(this, hits, hit_begin(this, hits.len() as int)) == if k < 0 {
            this
        } else {
            hits[k]->0
        },
{
    if hits.len() > 0 {
        lemma_hit_from(this, hits, k, hits.len() - 1);
    }
}

/// The search from a subview on that stands at `k` or above it.
proof fn lemma_hit_from(this: id, hits: Seq<Option<id>>, k: int, i: int)
    requires
        hits.len() <= usize::MAX,
        -1 <= k <= i < hits.len(),
        0 <= i,
        forall|j: int| k < j < hits.len() ==> hits[j] is None || hits[j] == Some(nil),
        k >= 0 ==> hits[k] is Some && hits[k] != Some(nil),
    ensures
        hit_result(this, hits, HitStep::Ask(i as usize)) == if k < 0 {
            this
        } else {
            hits[k]->0
        },
    decreases i,
{
    reveal_with_fuel(hit_result, 2);
    if i == k {
        assert(hit_next(this, i, hits[i]) == HitStep::Done(hits[i]->0));
    } else if i == 0 {
        assert(hit_next(this, i, hits[i]) == HitStep::Done(this));
    } else {
        lemma_hit_from(this, hits, k, i - 1);
    }
}

/// `makeKeyWindow`.
pub fn make_key_window(env: &mut Environment, this: id) -> (r: Vec<Message>)
    ensures
        *final(env) == old(env).with_ui_window(
            (State { key_window: Some(this), ..windows(*old(env)) }),
        ),
        r@ == seq![Message::PostDidBecomeKey(this)],
{
    env.framework_state.uikit.ui_view.ui_window.key_window = Some(this);
    vec![Message::PostDidBecomeKey(this)]
}

/// `isKeyWindow`.
pub fn is_key_window(env: &Environment, this: id) -> (r: bool)
    ensures
        r == (windows(*env).key_window == Some(this)),
{
    match env.framework_state.uikit.ui_view.ui_window.key_window {
        Some(key_window) => key_window == this,
        None => false,
    }
}

/// `makeKeyAndVisible`: what is sent first.
pub fn make_key_and_visible(this: id) -> (r: Vec<Message>)
    ensures
        r@ == seq![Message::MakeKeyWindow(this), Message::SetHidden(this, false)],
{
    vec![Message::MakeKeyWindow(this), Message::SetHidden(this, false)]
}

/// The number is not above zero.
pub open spec fn not_positive(f: CGFloat) -> bool {
    !is_nan(f) && !float_lt(ZERO, f)
}

fn is_not_positive(f: CGFloat) -> (r: bool)
    ensures
        r == not_positive(f),
{
    f % 0x8000_0000 <= 0x7f80_0000 && !less(ZERO, f)
}

/// The window was moved to the end of the list, if it is in it.
pub open spec fn bumped(before: Seq<id>, after: Seq<id>, this: id) -> bool {
    if before.contains(this) {
        after.len() > 0 && after.last() == this && first_removed(before, after.drop_last(), this)
    } else {
        after == before
    }
}

/// `makeKeyAndVisible`, with the bounds of the screen and the frame of the
/// window: an empty frame is replaced.
pub fn make_key_and_visible_frame(this: id, bounds: CGRect, frame: CGRect) -> (r: Vec<Message>)
    ensures
        r@ == if not_positive(frame.size.width) || not_positive(frame.size.height) {
            seq![Message::SetFrame(this, bounds)]
        } else {
            Seq::empty()
        },
{
    if is_not_positive(frame.size.width) || is_not_positive(frame.size.height) {
        vec![Message::SetFrame(this, bounds)]
    } else {
        Vec::new()
    }
}

/// `makeKeyAndVisible`, once everything was sent: the window is bumped to the
/// top.
pub fn make_key_and_visible_end(env: &mut Environment, this: id)
    ensures
        list_changed(*old(env), *final(env)),
        bumped(windows(*old(env)).windows@, windows(*final(env)).windows@, this),
{
    let at: Option<usize> = position(&env.framework_state.uikit.ui_view.ui_window.windows, this);
    if let Some(i) = at {
        let w: id = env.framework_state.uikit.ui_view.ui_window.windows.remove(i);
        env.framework_state.uikit.ui_view.ui_window.windows.push(w);
        assert(windows(*env).windows@.drop_last() =~= windows(*old(env)).windows@.remove(i as int));
    }
}

/// `setContentView:`, which is `addSubview:`.
pub fn set_content_view(this: id, view: id) -> (r: Vec<Message>)
    ensures
        r@ == seq![Message::AddSubview(this, view)],
{
    vec![Message::AddSubview(this, view)]
}

/// `contentView`: the first subview.
pub fn content_view(env: &Environment, this: id) -> (r: id)
    requires
        env.framework_state.uikit.ui_view.views@.contains_key(this),
    ensures
        ({
            let subviews = env.framework_state.uikit.ui_view.views@[this].subviews@;
            r == if subviews.len() == 0 {
                nil
            } else {
                subviews[0]
            }
        }),
{
    let view: &UIViewHostObject = env.framework_state.uikit.ui_view.views.get(&this).unwrap();
    if view.subviews.len() == 0 {
        nil
    } else {
        view.subviews[0]
    }
}

/// The window's root view controller, or null.
pub open spec fn root_of(env: Environment, this: id) -> id {
    if windows(env).root_view_controllers@.contains_key(this) {
        windows(env).root_view_controllers@[this]
    } else {
        nil
    }
}

/// `rootViewController`.
pub fn root_view_controller(env: &Environment, this: id) -> (r: id)
    ensures
        r == root_of(*env, this),
{
    match env.framework_state.uikit.ui_view.ui_window.root_view_controllers.get(&this) {
        Some(vc) => *vc,
        None => nil,
    }
}

/// How replacing a root view controller goes on, once the messages are sent.
#[derive(Clone, Copy, Debug, PartialEq, Eq, Structural)]
pub enum RootStep {
    /// With the `view` of the controller that was there before.
    PreviousView(id),
    /// With the `view` of the new controller, and the window's `bounds`.
    NewView(id),
    /// With forgetting the controller that was there before.
    Forget,
    Done,
}

/// The root view controllers changed to those of `m`.
pub open spec fn roots_changed(before: Environment, after: Environment, m: Map<id, id>) -> bool {
    &&& after == before.with_ui_window(
        (State {
            root_view_controllers: windows(after).root_view_controllers,
            ..windows(before)
        }),
    )
    &&& windows(after).root_view_controllers@ == m
}

/// `setRootViewController:`. The new controller is retained before the old
/// one is released.
pub fn set_root_view_controller(env: &Environment, this: id, view_controller: id) -> (r: (
    Vec<Message>,
    RootStep,
))
    ensures
        ({
            let previous = root_of(*env, this);
            if previous == view_controller {
                r.0@ == Seq::<Message>::empty() && r.1 == RootStep::Done
            } else {
                &&& r.0@ == if view_controller == nil {
                    Seq::<Message>::empty()
                } else {
                    seq![Message::Retain(view_controller)]
                }
                &&& r.1 == if previous != nil {
                    RootStep::PreviousView(previous)
                } else {
                    RootStep::NewView(view_controller)
                }
            }
        }),
{
    let previous: id = root_view_controller(env, this);
    if previous == view_controller {
        return (Vec::new(), RootStep::Done);
    }
    let messages: Vec<Message> = if view_controller != nil {
        vec![Message::Retain(view_controller)]
    } else {
        Vec::new()
    };
    let step: RootStep = if previous != nil {
        RootStep::PreviousView(previous)
    } else {
        RootStep::NewView(view_controller)
    };
    (messages, step)
}

/// `setRootViewController:`, with the view of the previous controller: the
/// view leaves the window, and the controller is released.
pub fn root_previous_view(view_controller: id, previous: id, previous_view: id) -> (r: (
    Vec<Message>,
    RootStep,
))
    ensures
        r.0@ == if previous_view == nil {
            seq![Message::Release(previous)]
        } else {
            seq![Message::RemoveFromSuperview(previous_view), Message::Release(previous)]
        },
        r.1 == if view_controller != nil {
            RootStep::NewView(view_controller)
        } else {
            RootStep::Forget
        },
{
    let messages: Vec<Message> = if previous_view != nil {
        vec![Message::RemoveFromSuperview(previous_view), Message::Release(previous)]
    } else {
        vec![Message::Release(previous)]
    };
    let step: RootStep = if view_controller != nil {
        RootStep::NewView(view_controller)
    } else {
        RootStep::Forget
    };
    (messages, step)
}

/// `setRootViewController:`, with the view of the new controller: it is made
/// to fill the window, and added to it.
pub fn root_new_view(this: id, view: id, bounds: CGRect) -> (r: Vec<Message>)
    ensures
        r@ == seq![Message::SetFrame(view, bounds), Message::AddSubview(this, view)],
{
    vec![Message::SetFrame(view, bounds), Message::AddSubview(this, view)]
}

/// `setRootViewController:`, once the view was added: the controller is the
/// window's root view controller.
pub fn root_install(env: &mut Environment, this: id, view_controller: id)
    ensures
        roots_changed(
            *old(env),
            *final(env),
            windows(*old(env)).root_view_controllers@.insert(this, view_controller),
        ),
{
    let _ = env.framework_state.uikit.ui_view.ui_window.root_view_controllers.insert(
        this,
        view_controller,
    );
}

/// `setRootViewController:` with the null controller, once the previous one was
/// released.
pub fn root_forget(env: &mut Environment, this: id)
    ensures
        roots_changed(
            *old(env),
            *final(env),
            windows(*old(env)).root_view_controllers@.remove(this),
        ),
{
    let _ = env.framework_state.uikit.ui_view.ui_window.root_view_controllers.remove(&this);
}

/// Once its view is added, the controller is the window's root view
/// controller, and those of other windows are what they were.
pub proof fn law_root_set(
    before: Environment,
    after: Environment,
    this: id,
    view_controller: id,
    other: id,
)
    requires
        roots_changed(
            before,
            after,
            windows(before).root_view_controllers@.insert(this, view_controller),
        ),
    ensures
        root_of(after, this) == view_controller,
        other != this ==> root_of(after, other) == root_of(before, other),
{
}

/// With the null controller the window has no root view controller in the end,
/// and those of other windows are what they were.
pub proof fn law_root_cleared(before: Environment, after: Environment, this: id, other: id)
    requires
        roots_changed(before, after, windows(before).root_view_controllers@.remove(this)),
    ensures
        root_of(after, this) == nil,
        other != this ==> root_of(after, other) == root_of(before, other),
{
}

/// `setScreen:` changes nothing: there is only the main screen.
pub fn set_screen(env: &mut Environment, _this: id, _screen: id)
    ensures
        *final(env) == *old(env),
{
}

/// How the host's window is turned.
#[derive(Clone, Copy, Debug, PartialEq, Eq, Structural)]
pub enum DeviceOrientation {
    Portrait,
    LandscapeLeft,
    LandscapeRight,
}

pub type UIInterfaceOrientation = i32;

pub const UIDeviceOrientationLandscapeLeft: UIInterfaceOrientation = 3;

pub const UIDeviceOrientationLandscapeRight: UIInterfaceOrientation = 4;

/// The interface turns against the device.
pub const UIInterfaceOrientationLandscapeLeft: UIInterfaceOrientation = 4;

/// The interface turns against the device.
pub const UIInterfaceOrientationLandscapeRight: UIInterfaceOrientation = 3;

/// A quarter turn.
pub const FRAC_PI_2: CGFloat = 0x3fc9_0fdb;

/// A quarter turn the other way.
pub const MINUS_FRAC_PI_2: CGFloat = 0xbfc9_0fdb;

/// What is to be asked next, to add a view to a window.
#[derive(Clone, Copy, Debug, PartialEq, Eq, Structural)]
pub enum SubviewStep {
    /// Whether the view is hidden. The second is its controller.
    IsHidden(id, id),
    /// Whether the controller turns its view to the orientation.
    ShouldAutorotate(id, UIInterfaceOrientation),
    Done,
}

/// The view is one of a view controller.
pub open spec fn controller_of(env: Environment, view: id) -> id {
    if view == nil {
        nil
    } else {
        env.framework_state.uikit.ui_view.views@[view].view_controller
    }
}

/// `addSubview:`. Views of view controllers are treated apart.
pub fn add_subview(env: &Environment, this: id, view: id) -> (r: (Vec<Message>, SubviewStep))
    requires
        view == nil || env.framework_state.uikit.ui_view.views@.contains_key(view),
    ensures
        if controller_of(*env, view) == nil {
            &&& r.0@ == seq![Message::SuperAddSubview(this, view)]
            &&& r.1 == SubviewStep::Done
        } else {
            &&& r.0@ == Seq::<Message>::empty()
            &&& r.1 == SubviewStep::IsHidden(view, controller_of(*env, view))
        },
{
    let vc: id = if view == nil {
        nil
    } else {
        env.framework_state.uikit.ui_view.views.get(&view).unwrap().view_controller
    };
    if vc == nil {
        (vec![Message::SuperAddSubview(this, view)], SubviewStep::Done)
    } else {
        (Vec::new(), SubviewStep::IsHidden(view, vc))
    }
}

/// The orientation that a controller is asked about; none for portrait.
pub open spec fn asked_orientation(rotation: DeviceOrientation) -> Option<UIInterfaceOrientation> {
    match rotation {
        DeviceOrientation::LandscapeLeft => Some(UIDeviceOrientationLandscapeLeft),
        DeviceOrientation::LandscapeRight => Some(UIDeviceOrientationLandscapeRight),
        DeviceOrientation::Portrait => None,
    }
}

/// `addSubview:` for the view of a controller. The controller is told that
/// the view appears, before and after, unless the view is hidden.
pub fn add_controller_view(this: id, view: id, vc: id, hidden: bool) -> (r: Vec<Message>)
    ensures
        r@ == if hidden {
            seq![Message::SuperAddSubview(this, view)]
        } else {
            seq![
                Message::ViewWillAppear(vc),
                Message::SuperAddSubview(this, view),
                Message::ViewDidAppear(vc),
            ]
        },
{
    if hidden {
        vec![Message::SuperAddSubview(this, view)]
    } else {
        vec![
            Message::ViewWillAppear(vc),
            Message::SuperAddSubview(this, view),
            Message::ViewDidAppear(vc),
        ]
    }
}

/// `addSubview:` for the view of a controller, once it was added: the controller
/// is asked whether it turns with the device.
pub fn add_controller_rotation(vc: id, rotation: DeviceOrientation) -> (r: SubviewStep)
    ensures
        r == match asked_orientation(rotation) {
            Some(orientation) => SubviewStep::ShouldAutorotate(vc, orientation),
            None => SubviewStep::Done,
        },
{
    match rotation {
        DeviceOrientation::LandscapeLeft => SubviewStep::ShouldAutorotate(
            vc,
            UIDeviceOrientationLandscapeLeft,
        ),
        DeviceOrientation::LandscapeRight => SubviewStep::ShouldAutorotate(
            vc,
            UIDeviceOrientationLandscapeRight,
        ),
        DeviceOrientation::Portrait => SubviewStep::Done,
    }
}

/// The angle by which a view is turned; other orientations leave it as it is.
pub open spec fn rotation_angle(orientation: UIInterfaceOrientation) -> CGFloat {
    if orientation == UIInterfaceOrientationLandscapeLeft {
        MINUS_FRAC_PI_2
    } else if orientation == UIInterfaceOrientationLandscapeRight {
        FRAC_PI_2
    } else {
        ZERO
    }
}

/// `addSubview:` for the view of a controller that was asked whether it turns
/// with the device: the view is turned, and made to fill the window again.
pub fn rotate_controller_view(
    view: id,
    orientation: UIInterfaceOrientation,
    should: bool,
    window_frame: CGRect,
) -> (r: Vec<Message>)
    ensures
        r@ == if should {
            seq![
                Message::SetRotation(view, rotation_angle(orientation)),
                Message::SetFrame(view, window_frame),
            ]
        } else {
            Seq::empty()
        },
{
    if !should {
        return Vec::new();
    }
    let angle: CGFloat = if orientation == UIInterfaceOrientationLandscapeLeft {
        MINUS_FRAC_PI_2
    } else if orientation == UIInterfaceOrientationLandscapeRight {
        FRAC_PI_2
    } else {
        ZERO
    };
    vec![Message::SetRotation(view, angle), Message::SetFrame(view, window_frame)]
}

/// The level of a window; the default is `UIWindowLevelNormal`.
pub open spec fn level_of(env: Environment, this: id) -> CGFloat {
    if windows(env).window_levels@.contains_key(this) {
        windows(env).window_levels@[this]
    } else {
        UIWindowLevelNormal
    }
}

/// `windowLevel`.
pub fn window_level(env: &Environment, this: id) -> (r: CGFloat)
    ensures
        r == level_of(*env, this),
{
    match env.framework_state.uikit.ui_view.ui_window.window_levels.get(&this) {
        Some(level) => *level,
        None => UIWindowLevelNormal,
    }
}

/// The level of one window was set.
pub open spec fn level_set(
    before: Environment,
    after: Environment,
    this: id,
    level: CGFloat,
) -> bool {
    &&& after == before.with_ui_window(
        (State { window_levels: windows(after).window_levels, ..windows(before) }),
    )
    &&& windows(after).window_levels@ == windows(before).window_levels@.insert(this, level)
}

/// `setWindowLevel:`.
pub fn set_window_level(env: &mut Environment, this: id, level: CGFloat)
    ensures
        level_set(*old(env), *final(env), this, level),
{
    let _ = env.framework_state.uikit.ui_view.ui_window.window_levels.insert(this, level);
}

/// The level that was set is reported back, and those of other windows are
/// what they were.
pub proof fn law_window_level(
    before: Environment,
    after: Environment,
    this: id,
    level: CGFloat,
    other: id,
)
    requires
        level_set(before, after, this, level),
    ensures
        level_of(after, this) == level,
        other != this ==> level_of(after, other) == level_of(before, other),
{
}

/// Bumping a window to the top keeps every window in the list.
pub proof fn law_bump_keeps_windows(before: Seq<id>, after: Seq<id>, this: id)
    requires
        bumped(before, after, this),
    ensures
        after.to_multiset() =~= before.to_multiset(),
        before.contains(this) ==> after.last() == this,
{
    if before.contains(this) {
        let k = choose|k: int|
            {
                &&& 0 <= k < before.len()
                &&& before[k] == this
                &&& forall|j: int| 0 <= j < k ==> before[j] != this
                &&& after.drop_last() == #[trigger] before.remove(k)
            };
        vstd::seq_lib::to_multiset_remove(before, k);
        vstd::seq_lib::to_multiset_insert(before.remove(k), before.len() - 1, this);
        assert(before.remove(k).insert(before.len() - 1, this) =~= before.remove(k).push(this));
        assert(after =~= after.drop_last().push(this));
        assert(before.to_multiset().contains(this)) by {
            before.to_multiset_ensures();
            assert(before.contains(before[k]));
        }
    }
}

} // verus!
