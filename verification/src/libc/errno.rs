//! `errno.h`
use vstd::prelude::*;

use crate::environment::Environment;

verus! {

pub const EPERM: i32 = 1;

pub const ENOENT: i32 = 2;

pub const EINTR: i32 = 4;

pub const EIO: i32 = 5;

pub const EBADF: i32 = 9;

pub const ENOMEM: i32 = 12;

pub const EACCES: i32 = 13;

pub const EEXIST: i32 = 17;

pub const ENOTDIR: i32 = 20;

pub const EISDIR: i32 = 21;

pub const EINVAL: i32 = 22;

pub const EMFILE: i32 = 24;

pub const ESPIPE: i32 = 29;

pub const ERANGE: i32 = 34;

pub const ENAMETOOLONG: i32 = 63;

pub const ENOTEMPTY: i32 = 66;

pub const EOVERFLOW: i32 = 84;

pub const EILSEQ: i32 = 92;

pub struct State {
    pub value: i32,
}

impl Default for State {
    fn default() -> (r: State)
        ensures
            r.value == 0,
    {
        State {
            value: 0,
        }
    }
}

pub fn set_errno(env: &mut Environment, errno: i32)
    ensures
        *final(env) == old(env).with_errno(errno),
{
    env.libc_state.errno.value = errno;
}

} // verus!
