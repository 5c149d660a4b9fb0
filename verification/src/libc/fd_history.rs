//! What holds of descriptors over every sequence of calls.
use vstd::prelude::*;

use crate::environment::Environment;
use crate::fs::GuestFile;
use crate::libc::posix_io::{
    clearerr_done, close_done, fcntl_done, flock_done, ftruncate_done, is_dup, law_lowest_free,
    lseek_done, open_done, pread_done, pwrite_done, read_done, slot_filled, socket_made,
    write_done, PosixFileHostObject,
};

verus! {

/// A call that reads or changes the descriptor table, with its arguments and
/// its result. Functions that call several of these are several calls.
pub ghost enum Call {
    Open { path: int, flags: i32, r: int },
    Socket { r: int },
    Fcntl { fd: int, cmd: int, arg: int, r: int },
    Close { fd: int, r: int },
    Lseek { fd: int, offset: int, whence: int, r: int },
    Read { fd: int, buffer: int, size: int, r: int },
    Write { fd: int, buffer: int, size: int, r: int },
    Pread { fd: int, buffer: int, size: int, offset: int, r: int },
    Pwrite { fd: int, buffer: int, size: int, offset: int, r: int },
    Ftruncate { fd: int, len: int, r: int },
    Flock { fd: int, operation: i32, r: int },
    Clearerr { fd: int },
    /// A call that has nothing to do with descriptors.
    Elsewhere,
}

/// What the contract of the function that is called says.
pub open spec fn call_done(before: Environment, after: Environment, call: Call) -> bool {
    match call {
        Call::Open { path, flags, r } => open_done(before, after, path, flags, r) || open_done(
            before.with_errno(0),
            after,
            path,
            flags,
            r,
        ),
        Call::Socket { r } => socket_made(before, after, r),
        Call::Fcntl { fd, cmd, arg, r } => fcntl_done(before, after, fd, cmd, arg, r),
        Call::Close { fd, r } => close_done(before, after, fd, r),
        Call::Lseek { fd, offset, whence, r } => lseek_done(before, after, fd, offset, whence, r),
        Call::Read { fd, buffer, size, r } => read_done(before, after, fd, buffer, size, r),
        Call::Write { fd, buffer, size, r } => write_done(before, after, fd, buffer, size, r),
        Call::Pread { fd, buffer, size, offset, r } => pread_done(
            before,
            after,
            fd,
            buffer,
            size,
            offset,
            r,
        ),
        Call::Pwrite { fd, buffer, size, offset, r } => pwrite_done(
            before,
            after,
            fd,
            buffer,
            size,
            offset,
            r,
        ),
        Call::Ftruncate { fd, len, r } => ftruncate_done(before, after, fd, len, r),
        Call::Flock { fd, operation, r } => flock_done(before, after, fd, operation, r),
        Call::Clearerr { fd } => clearerr_done(before, after, fd),
        Call::Elsewhere => after.files() == before.files(),
    }
}

/// The call handed the descriptor `fd` out.
pub open spec fn hands_out(call: Call, fd: int) -> bool {
    match call {
        Call::Open { path, flags, r } => r == fd && r >= 0,
        Call::Socket { r } => r == fd,
        Call::Fcntl { fd: source, cmd, arg, r } => is_dup(cmd) && source >= 3 && r == fd && r >= 0,
        _ => false,
    }
}

/// The call closed the descriptor `fd`.
pub open spec fn closes(call: Call, fd: int) -> bool {
    call matches Call::Close { fd: closed, r } && closed == fd && r == 0 && fd >= 3
}

/// The descriptor is an open socket, as `is_socket` tells.
pub open spec fn socket_at(env: Environment, fd: int) -> bool {
    env.fd_open(fd) && env.file(fd) == GuestFile::Socket
}

/// Filling a free slot opens its descriptor and leaves the others.
proof fn lemma_slot_filled(
    before: Environment,
    after: Environment,
    i: int,
    o: PosixFileHostObject,
    fd: int,
)
    requires
        slot_filled(before.files(), after.files(), i, o),
        0 <= i,
        i < before.files().len() ==> before.files()[i] is None,
    ensures
        after.fd_open(i + 3),
        after.object(i + 3) == o,
        !before.fd_open(i + 3),
        fd != i + 3 ==> after.fd_open(fd) == before.fd_open(fd),
        fd != i + 3 && before.fd_open(fd) ==> after.file(fd) == before.file(fd),
{
    if fd >= 3 && fd - 3 < after.files().len() {
        assert(after.files()[fd - 3] == after.files()[fd - 3]);
    }
}

/// Whatever the call, a descriptor is open after it exactly if the call handed
/// it out, or it was open before and the call did not close it. One that is
/// handed out was not open before, and is none of the standard streams.
pub proof fn law_call_open(before: Environment, after: Environment, call: Call, fd: int)
    requires
        before.wf(),
        call_done(before, after, call),
    ensures
        after.fd_open(fd) <==> hands_out(call, fd) || (before.fd_open(fd) && !closes(call, fd)),
        hands_out(call, fd) ==> fd >= 3 && !before.fd_open(fd),
        before.fd_open(fd) && after.fd_open(fd) ==> after.file(fd) == before.file(fd),
{
    match call {
        Call::Open { path, flags, r } => {
            if r >= 0 {
                law_lowest_free(before.files(), 0);
                lemma_slot_filled(before, after, r - 3, after.object(r), fd);
            }
        },
        Call::Socket { r } => {
            law_lowest_free(before.files(), 0);
            lemma_slot_filled(before, after, r - 3, after.object(r), fd);
        },
        Call::Fcntl { fd: source, cmd, arg, r } => {
            if is_dup(cmd) && source >= 3 && r >= 0 {
                let from = crate::libc::posix_io::dup_from(crate::mem::signed32(arg));
                law_lowest_free(before.files(), from);
                lemma_slot_filled(before, after, r - 3, after.object(r), fd);
            }
        },
        _ => {},
    }
}

/// Whatever the call, a descriptor is a socket after it exactly if the call
/// made it one (as a new socket, or as a duplicate of one), or it was one and
/// the call did not close it.
pub proof fn law_call_socket(before: Environment, after: Environment, call: Call, fd: int)
    requires
        before.wf(),
        call_done(before, after, call),
    ensures
        socket_at(after, fd) <==> (hands_out(call, fd) && (match call {
            Call::Socket { r } => true,
            Call::Fcntl { fd: source, cmd, arg, r } => socket_at(before, source),
            _ => false,
        })) || (socket_at(before, fd) && !closes(call, fd)),
{
    law_call_open(before, after, call, fd);
}

/// The environments `envs` lie between the calls of `calls`.
pub open spec fn history(envs: Seq<Environment>, calls: Seq<Call>) -> bool {
    &&& envs.len() == calls.len() + 1
    &&& forall|i: int| 0 <= i < envs.len() ==> (#[trigger] envs[i]).wf()
    &&& forall|i: int|
        #![trigger calls[i]]
        0 <= i < calls.len() ==> call_done(envs[i], envs[i + 1], calls[i])
}

/// The call number `i` handed `fd` out, and none of those up to `n` closed it
/// since.
pub open spec fn held_since(calls: Seq<Call>, fd: int, i: int, n: int) -> bool {
    &&& 0 <= i < n
    &&& hands_out(calls[i], fd)
    &&& forall|j: int| i < j < n ==> !closes(#[trigger] calls[j], fd)
}

/// Over every sequence of calls, from an environment without descriptors on, a
/// descriptor is open exactly from being handed out to its close. So the
/// standard streams, negative numbers, and what was closed or never handed out
/// are not open.
pub proof fn law_open_exactly_between(envs: Seq<Environment>, calls: Seq<Call>, fd: int, n: int)
    requires
        history(envs, calls),
        forall|f: int| !(#[trigger] envs[0].fd_open(f)),
        0 <= n <= calls.len(),
    ensures
        envs[n].fd_open(fd) <==> exists|i: int| #[trigger] held_since(calls, fd, i, n),
        fd < 3 ==> !envs[n].fd_open(fd),
    decreases n,
{
    if n == 0 {
        assert(!envs[0].fd_open(fd));
    } else {
        law_open_exactly_between(envs, calls, fd, n - 1);
        let call = calls[n - 1];
        assert(envs[n - 1].wf());
        law_call_open(envs[n - 1], envs[n], call, fd);
        if envs[n].fd_open(fd) {
            if hands_out(call, fd) {
                assert(held_since(calls, fd, n - 1, n));
            } else {
                let i = choose|i: int| #[trigger] held_since(calls, fd, i, n - 1);
                assert(held_since(calls, fd, i, n));
            }
        }
        if exists|i: int| #[trigger] held_since(calls, fd, i, n) {
            let i = choose|i: int| #[trigger] held_since(calls, fd, i, n);
            if i < n - 1 {
                assert(held_since(calls, fd, i, n - 1));
                assert(!closes(calls[n - 1], fd));
            }
        }
    }
}

/// Over every sequence of calls, a socket stays one until its close, and right
/// after its close it is none.
pub proof fn law_socket_until_close(
    envs: Seq<Environment>,
    calls: Seq<Call>,
    fd: int,
    i: int,
    n: int,
)
    requires
        history(envs, calls),
        0 <= i < n <= calls.len(),
        calls[i] == (Call::Socket { r: fd }),
        forall|j: int| i < j < n ==> !closes(#[trigger] calls[j], fd),
    ensures
        socket_at(envs[n], fd),
        n < calls.len() && closes(calls[n], fd) ==> !socket_at(envs[n + 1], fd),
    decreases n,
{
    assert(envs[n - 1].wf());
    law_call_socket(envs[n - 1], envs[n], calls[n - 1], fd);
    if n - 1 > i {
        law_socket_until_close(envs, calls, fd, i, n - 1);
        assert(!closes(calls[n - 1], fd));
    }
    if n < calls.len() {
        assert(envs[n].wf());
        law_call_open(envs[n], envs[n + 1], calls[n], fd);
    }
}

/// Over every sequence of calls, a descriptor that `open` handed out is no
/// socket for as long as it is not closed, nor is one that is not open.
pub proof fn law_opened_is_no_socket(
    envs: Seq<Environment>,
    calls: Seq<Call>,
    fd: int,
    i: int,
    n: int,
)
    requires
        history(envs, calls),
        0 <= i < n <= calls.len(),
        calls[i] is Open,
        hands_out(calls[i], fd),
        forall|j: int| i < j < n ==> !closes(#[trigger] calls[j], fd),
    ensures
        envs[n].fd_open(fd),
        !socket_at(envs[n], fd),
    decreases n,
{
    assert(envs[n - 1].wf());
    law_call_socket(envs[n - 1], envs[n], calls[n - 1], fd);
    law_call_open(envs[n - 1], envs[n], calls[n - 1], fd);
    if n - 1 > i {
        law_opened_is_no_socket(envs, calls, fd, i, n - 1);
        assert(!closes(calls[n - 1], fd));
    }
}

} // verus!
