//! `stdlib.h`
use vstd::prelude::*;

pub mod allocation;
pub mod arith;
pub mod call_laws;
pub mod convert;
pub mod convert_laws;
pub mod files;
pub mod ints;
pub mod ints_laws;
pub mod name_laws;
pub mod numbers;
pub mod program;
pub mod random;
pub mod store_laws;
pub mod stubs;
pub mod temp;
pub mod temp_laws;
pub mod uuid;

verus! {

pub struct State {
    pub rand: u32,
    pub random: u32,
    pub arc4random: u32,
    /// 48-bit linear-congruential PRNG state shared by the `drand48`/`lrand48`/
    /// `mrand48`/`seed48` family.
    pub drand48: random::Drand48State,
    /// The functions that are called when the program ends, in the order in
    /// which they were registered.
    pub atexit_handlers: Vec<program::GuestFunction>,
}

impl Default for State {
    fn default() -> (r: State)
        ensures
            r.rand == 0,
            r.random == 0,
            r.arc4random == 0,
            r.drand48 == (random::Drand48State {
                state: 0x1234_abcd_330e,
                a: random::DRAND48_A,
                c: random::DRAND48_C,
            }),
            r.atexit_handlers@.len() == 0,
    {
        State {
            rand: 0,
            random: 0,
            arc4random: 0,
            drand48: random::Drand48State::default(),
            atexit_handlers: Vec::new(),
        }
    }
}

} // verus!
