//! What windows and views answer, by the numbers of orientations and levels.
use vstd::prelude::*;

use crate::environment::Environment;
use crate::frameworks::core_graphics::cg_geometry::float_lt;
use crate::frameworks::uikit::ui_view::ui_window::{
    asked_orientation, bumped, controller_of, hit_begin, hit_next, level_of, not_positive,
    root_of, rotation_angle, takes_touches, DeviceOrientation, HitStep,
};
use crate::objc::id;

verus! {

/// A view takes touches where it is shown, is not less than a hundredth opaque,
/// and can be interacted with.
pub proof fn law_takes_touches(hidden: bool, alpha: u32, interactible: bool)
    ensures
        hidden ==> !takes_touches(hidden, alpha, interactible),
        !interactible ==> !takes_touches(hidden, alpha, interactible),
        float_lt(alpha, 0x3c23d70a) ==> !takes_touches(hidden, alpha, interactible),
        !hidden && interactible && !float_lt(alpha, 0x3c23d70a) ==> takes_touches(
            hidden,
            alpha,
            interactible,
        ),
{
}

/// Subviews are asked from the last to the first; the first that has a view which
/// is touched ends the search, and so does the last to be asked, with the view
/// itself.
pub proof fn law_hit_order(this: id, count: int, index: int, hit: Option<id>)
    requires
        0 <= index < count <= usize::MAX,
    ensures
        hit_begin(this, 0) == HitStep::Done(this),
        hit_begin(this, count) == HitStep::Ask((count - 1) as usize),
        hit is Some && hit->0 != 0 ==> hit_next(this, index, hit) == HitStep::Done(hit->0),
        (hit is None || hit->0 == 0) && index > 0 ==> hit_next(this, index, hit) == HitStep::Ask(
            (index - 1) as usize,
        ),
        (hit is None || hit->0 == 0) && index == 0 ==> hit_next(this, index, hit) == HitStep::Done(
            this,
        ),
{
}

/// The orientation that a turned device asks for has the number 3 to the left and
/// 4 to the right, and is turned by a quarter: 4 by a negative and 3 by a
/// positive one, and every other not at all.
pub proof fn law_orientations(orientation: i32)
    ensures
        asked_orientation(DeviceOrientation::LandscapeLeft) == Some(3i32),
        asked_orientation(DeviceOrientation::LandscapeRight) == Some(4i32),
        asked_orientation(DeviceOrientation::Portrait) is None,
        orientation == 4 ==> rotation_angle(orientation) == 0xbfc90fdb,
        orientation == 3 ==> rotation_angle(orientation) == 0x3fc90fdb,
        orientation != 3 && orientation != 4 ==> rotation_angle(orientation) == 0,
{
}

/// The level and the root view controller of a window are what was last set, or
/// zero and none.
pub proof fn law_window_defaults(env: Environment, this: id)
    ensures
        ({
            let w = env.framework_state.uikit.ui_view.ui_window;
            &&& w.window_levels@.contains_key(this) ==> level_of(env, this)
                == w.window_levels@[this]
            &&& !w.window_levels@.contains_key(this) ==> level_of(env, this) == 0
            &&& w.root_view_controllers@.contains_key(this) ==> root_of(env, this)
                == w.root_view_controllers@[this]
            &&& !w.root_view_controllers@.contains_key(this) ==> root_of(env, this) == 0
        }),
        controller_of(env, 0) == 0,
        this != 0 ==> controller_of(env, this)
            == env.framework_state.uikit.ui_view.views@[this].view_controller,
{
}

/// What is not positive is zero, with a sign or without, or has a sign.
pub proof fn law_not_positive(f: u32)
    ensures
        f == 0 || 0x80000000 <= f <= 0xff800000 ==> not_positive(f),
        0 < f <= 0x7f800000 ==> !not_positive(f),
        0x7f800000 < f < 0x80000000 || f > 0xff800000 ==> !not_positive(f),
{
}

/// A window that is brought to the front is the last of the list; those behind it
/// move up by one, and those before it stay.
pub proof fn law_bumped(before: Seq<id>, after: Seq<id>, this: id, k: int)
    requires
        bumped(before, after, this),
        0 <= k <= before.len(),
        k < before.len() ==> before[k] == this,
        forall|j: int| 0 <= j < k ==> #[trigger] before[j] != this,
    ensures
        after.len() == before.len(),
        k < before.len() ==> after[before.len() - 1] == this,
        forall|j: int| 0 <= j < k ==> #[trigger] after[j] == before[j],
        forall|j: int| k <= j < before.len() - 1 ==> #[trigger] after[j] == before[j + 1],
{
    if k < before.len() {
        assert(before.contains(before[k]));
        let m = choose|m: int|
            {
                &&& 0 <= m < before.len()
                &&& before[m] == this
                &&& forall|j: int| 0 <= j < m ==> before[j] != this
                &&& after.drop_last() == #[trigger] before.remove(m)
            };
        assert(m == k);
        assert(after.drop_last().len() == before.len() - 1);
        assert forall|j: int| 0 <= j < k implies #[trigger] after[j] == before[j] by {
            assert(after.drop_last()[j] == before.remove(k)[j]);
        }
        assert forall|j: int| k <= j < before.len() - 1 implies #[trigger] after[j] == before[j
            + 1] by {
            assert(after.drop_last()[j] == before.remove(k)[j]);
        }
    } else if before.contains(this) {
        let j = choose|j: int| 0 <= j < before.len() && before[j] == this;
        assert(before[j] != this);
    }
}

} // verus!
