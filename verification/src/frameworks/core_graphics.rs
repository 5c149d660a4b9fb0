//! The Core Graphics framework.
use vstd::prelude::*;

pub mod cg_context;
pub mod cg_context_laws;
pub mod cg_data_laws;
pub mod cg_data_provider;
pub mod cg_geometry;
pub mod cg_object_laws;

verus! {

pub struct State {
    pub cg_context: cg_context::State,
    pub data_provider: cg_data_provider::State,
}

impl Default for State {
    fn default() -> (r: State)
        ensures
            r.cg_context.contexts@.dom().is_empty(),
            r.cg_context.colors@.dom().is_empty(),
            r.cg_context.fonts@.dom().is_empty(),
            r.cg_context.ui_fonts@.dom().is_empty(),
            r.cg_context.draws@.len() == 0,
            r.data_provider.providers@.dom().is_empty(),
            r.data_provider.images@.dom().is_empty(),
            r.data_provider.datas@.dom().is_empty(),
    {
        State {
            cg_context: cg_context::State::default(),
            data_provider: cg_data_provider::State::default(),
        }
    }
}

} // verus!
