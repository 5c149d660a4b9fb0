//! `locale.h`, as far as other functions depend on it.
use vstd::prelude::*;

verus! {

pub struct State {
    /// The name of the locale for characters.
    pub ctype: Vec<u8>,
}

impl Default for State {
    fn default() -> (r: State)
        ensures
            r.is_c(),
            r.ctype@ == seq![0x43u8],
    {
        State { ctype: vec![0x43] }
    }
}

impl State {
    /// Characters are those of a `C` locale.
    pub open spec fn is_c(&self) -> bool {
        self.ctype@.len() > 0 && self.ctype@[0] == 0x43
    }
}

} // verus!
