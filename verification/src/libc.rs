//! What the guest expects of its C library.
//!
//! Each submodule holds the state that its functions keep between calls;
//! `State` is all of it.
use vstd::prelude::*;

use crate::mem;

pub mod clocale;
pub mod descriptor_laws;
pub mod errno;
pub mod fd_history;
pub mod file_laws;
pub mod file_state_laws;
pub mod getopt;
pub mod getopt_laws;
pub mod path_search;
pub mod posix_io;
pub mod posix_laws;
pub mod semaphore;
pub mod semaphore_laws;
pub mod socket;
pub mod stdio;
pub mod stdio_laws;
pub mod stdlib;

verus! {

pub struct State {
    pub clocale: clocale::State,
    pub errno: errno::State,
    pub getopt: getopt::State,
    pub posix_io: posix_io::State,
    pub semaphore: semaphore::State,
    pub socket: socket::State,
    pub stdio: stdio::State,
    pub stdlib: stdlib::State,
}

impl State {
    /// The state before the guest has run.
    pub open spec fn fresh(&self) -> bool {
        &&& self.clocale.ctype@ == seq![0x43u8]
        &&& self.errno.value == 0
        &&& self.getopt == getopt::State {
            optarg_ptr: None,
            optind_ptr: None,
            opterr_ptr: None,
            optopt_ptr: None,
            next_char_idx: 0,
        }
        &&& self.posix_io.files@.len() == 0
        &&& self.semaphore.semaphores@.len() == 0
        &&& self.semaphore.named_semaphores@.len() == 0
        &&& self.semaphore.open_semaphores@ == Map::<mem::MutPtr, usize>::empty()
        &&& self.socket.closed@.len() == 0
        &&& self.stdio.file_streams@ == Map::<mem::MutPtr, stdio::FILEHostObject>::empty()
        &&& self.stdio.tmpfile_counter == 0
        &&& self.stdlib.rand == 0
        &&& self.stdlib.random == 0
        &&& self.stdlib.arc4random == 0
        &&& self.stdlib.drand48 == stdlib::random::Drand48State {
            state: 0x1234_abcd_330e,
            a: stdlib::random::DRAND48_A,
            c: stdlib::random::DRAND48_C,
        }
        &&& self.stdlib.atexit_handlers@.len() == 0
    }
}

impl Default for State {
    fn default() -> (r: State)
        ensures
            r.fresh(),
    {
        State {
            clocale: clocale::State::default(),
            errno: errno::State::default(),
            getopt: getopt::State::default(),
            posix_io: posix_io::State::default(),
            semaphore: semaphore::State::default(),
            socket: socket::State::default(),
            stdio: stdio::State::default(),
            stdlib: stdlib::State::default(),
        }
    }
}

} // verus!
