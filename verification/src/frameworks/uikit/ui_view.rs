//! `UIView`: what windows need to know of views.
use std::collections::HashMap;
use vstd::prelude::*;

use crate::objc::id;

pub mod ui_window;
pub mod ui_window_laws;

verus! {

pub struct UIViewHostObject {
    /// The views in this one, from the lowest to the topmost.
    pub subviews: Vec<id>,
    /// The controller whose view this is, or null.
    pub view_controller: id,
}

pub struct State {
    pub views: HashMap<id, UIViewHostObject>,
    pub ui_window: ui_window::State,
}

impl Default for State {
    fn default() -> (r: State)
        ensures
            r.views@ == Map::<id, UIViewHostObject>::empty(),
            r.ui_window.windows@.len() == 0,
            r.ui_window.key_window is None,
            r.ui_window.root_view_controllers@.dom().is_empty(),
            r.ui_window.window_levels@.dom().is_empty(),
    {
        State {
            views: HashMap::new(),
            ui_window: ui_window::State::default(),
        }
    }
}

} // verus!
