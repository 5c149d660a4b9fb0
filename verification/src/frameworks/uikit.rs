//! The UIKit framework.
use vstd::prelude::*;

pub mod ui_view;

verus! {

pub struct State {
    pub ui_view: ui_view::State,
}

impl Default for State {
    fn default() -> (r: State)
        ensures
            r.ui_view.views@.dom().is_empty(),
            r.ui_view.ui_window.windows@.len() == 0,
            r.ui_view.ui_window.key_window is None,
            r.ui_view.ui_window.root_view_controllers@.dom().is_empty(),
            r.ui_view.ui_window.window_levels@.dom().is_empty(),
    {
        State { ui_view: ui_view::State::default() }
    }
}

} // verus!
