//! Parts of the system frameworks.
use vstd::prelude::*;

pub mod audio_toolbox;
pub mod core_graphics;
pub mod foundation;
pub mod uikit;

verus! {

pub struct State {
    pub audio_toolbox: audio_toolbox::State,
    pub core_graphics: core_graphics::State,
    pub uikit: uikit::State,
}

impl State {
    /// The state before the guest has run: nothing is known of any object.
    pub open spec fn fresh(&self) -> bool {
        &&& self.audio_toolbox.audio_file.audio_files@.dom().is_empty()
        &&& self.audio_toolbox.audio_file.audio_file_streams@.dom().is_empty()
        &&& self.core_graphics.cg_context.contexts@.dom().is_empty()
        &&& self.core_graphics.cg_context.colors@.dom().is_empty()
        &&& self.core_graphics.cg_context.fonts@.dom().is_empty()
        &&& self.core_graphics.cg_context.ui_fonts@.dom().is_empty()
        &&& self.core_graphics.cg_context.draws@.len() == 0
        &&& self.core_graphics.data_provider.providers@.dom().is_empty()
        &&& self.core_graphics.data_provider.images@.dom().is_empty()
        &&& self.core_graphics.data_provider.datas@.dom().is_empty()
        &&& self.uikit.ui_view.views@.dom().is_empty()
        &&& self.uikit.ui_view.ui_window.windows@.len() == 0
        &&& self.uikit.ui_view.ui_window.key_window is None
        &&& self.uikit.ui_view.ui_window.root_view_controllers@.dom().is_empty()
        &&& self.uikit.ui_view.ui_window.window_levels@.dom().is_empty()
    }
}

impl Default for State {
    fn default() -> (r: State)
        ensures
            r.fresh(),
    {
        State {
            audio_toolbox: audio_toolbox::State::default(),
            core_graphics: core_graphics::State::default(),
            uikit: uikit::State::default(),
        }
    }
}

} // verus!
