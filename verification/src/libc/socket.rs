//! Sockets, as far as descriptors are concerned.
use vstd::prelude::*;

verus! {

pub struct State {
    /// Descriptors whose sockets were closed, in order; the sockets themselves
    /// are still to be shut down.
    pub closed: Vec<i32>,
}

impl Default for State {
    fn default() -> (r: State)
        ensures
            r.closed@.len() == 0,
    {
        State {
            closed: Vec::new(),
        }
    }
}

} // verus!
