//! What calls on descriptors answer and refuse, by number: commands, flags and
//! `errno` values as the guest sees them.
use vstd::prelude::*;
use vstd::utf8::encode_utf8;

use crate::environment::Environment;
use crate::fs::{FileOp, GuestFile, IoErrorKind};
use crate::libc::file_laws::{held, place_in};
use crate::libc::posix_io::{
    close_done, dup_from, fcntl_done, file_idx, flock, flock_at, flock_done, ftruncate_done,
    law_lowest_free, lock_range, lseek_done, path_bytes, pread_done, pwrite_done, read_done,
    set_len_errno, slot_path, socket_made, sync_errno, write_done,
};
use crate::mem::{le_bytes, le_u16, le_u32, lemma_le_bytes_2, signed32};
use crate::text::lossy_text;

verus! {

/// Nothing but `errno` changed, which is `e`.
pub open spec fn refused(before: Environment, after: Environment, e: int) -> bool {
    &&& after.libc_state.errno.value == e
    &&& after.mem == before.mem
    &&& after.fs == before.fs
    &&& after.console == before.console
    &&& after.libc_state.posix_io == before.libc_state.posix_io
    &&& after.libc_state.socket == before.libc_state.socket
}

/// The descriptor stands for something.
pub open spec fn open_in(env: Environment, fd: int) -> bool {
    let files = env.libc_state.posix_io.files@;
    3 <= fd < files.len() + 3 && files[fd - 3] is Some
}

/// What the descriptor stands for.
pub open spec fn file_in(env: Environment, fd: int) -> GuestFile {
    env.libc_state.posix_io.files@[fd - 3]->0.file
}

/// The other descriptors stand for what they stood for.
pub open spec fn others_kept(before: Environment, after: Environment, fd: int) -> bool {
    forall|g: int|
        g != fd && open_in(before, g) ==> #[trigger] open_in(after, g)
            && after.libc_state.posix_io.files@[g - 3] == before.libc_state.posix_io.files@[g - 3]
}

/// A descriptor from 3 on is open where its slot holds something, and no other
/// is.
pub proof fn law_open_descriptors(env: Environment, fd: int)
    requires
        env.wf(),
    ensures
        env.fd_open(fd) <==> open_in(env, fd),
{
    let n = env.libc_state.posix_io.files.len();
    assert(n == env.files().len());
}

/// A call on a descriptor that is not open is refused with `EBADF` (9).
pub proof fn law_closed_descriptor(
    before: Environment,
    after: Environment,
    fd: int,
    buffer: int,
    size: int,
    offset: int,
    operation: i32,
    r: int,
)
    requires
        before.wf(),
        fd < 0 || fd >= 3,
        !open_in(before, fd),
        buffer != 0,
        (offset >= 0 && ftruncate_done(before, after, fd, offset, r)) || read_done(
            before,
            after,
            fd,
            buffer,
            size,
            r,
        ) || write_done(before, after, fd, buffer, size, r) || pread_done(
            before,
            after,
            fd,
            buffer,
            size,
            offset,
            r,
        ) || pwrite_done(before, after, fd, buffer, size, offset, r) || lseek_done(
            before,
            after,
            fd,
            offset,
            size,
            r,
        ) || close_done(before, after, fd, r) || flock_done(before, after, fd, operation, r) || (fd
            >= 3 && fcntl_done(before, after, fd, offset, size, r)),
    ensures
        r == -1,
        refused(before, after, 9),
{
    law_open_descriptors(before, fd);
}

/// Whence a seek is refused: a stream that cannot seek gives `ESPIPE` (29); a
/// directory `EISDIR` (21) and another fault `EIO` (5) where the position or the
/// length is needed; a place before the start or another way to count `EINVAL`
/// (22); a place that is no offset `EOVERFLOW` (84).
pub proof fn law_seek_refused(
    before: Environment,
    after: Environment,
    fd: int,
    offset: int,
    whence: int,
    r: int,
)
    requires
        before.wf(),
        open_in(before, fd),
        lseek_done(before, after, fd, offset, whence, r),
    ensures
        ({
            let file = file_in(before, fd);
            let tell = before.fs.fault(file, FileOp::Tell);
            let len = before.fs.fault(file, FileOp::Len);
            let seek = before.fs.fault(file, FileOp::Seek);
            let base = if whence == 0 {
                0
            } else if whence == 1 {
                before.fs.position(file)
            } else {
                before.fs.contents(file).len() as int
            };
            let needed = if whence == 1 {
                tell
            } else if whence == 2 {
                len
            } else {
                None
            };
            let to = base + offset;
            if !before.fs.seekable(file) {
                r == -1 && refused(before, after, 29)
            } else if needed == Some(IoErrorKind::IsADirectory) {
                r == -1 && refused(before, after, 21)
            } else if needed is Some {
                r == -1 && refused(before, after, 5)
            } else if whence < 0 || whence > 2 || to < 0 {
                r == -1 && refused(before, after, 22)
            } else if to > 0x7fff_ffff_ffff_ffff {
                r == -1 && refused(before, after, 84)
            } else if seek is Some {
                &&& r == -1
                &&& seek == Some(IoErrorKind::InvalidInput) ==> refused(before, after, 22)
                &&& seek == Some(IoErrorKind::IsADirectory) ==> refused(before, after, 21)
                &&& seek != Some(IoErrorKind::InvalidInput) && seek != Some(
                    IoErrorKind::IsADirectory,
                ) ==> refused(before, after, 5)
            } else {
                r == to
            }
        }),
{
    law_open_descriptors(before, fd);
}

/// What a directory and a socket answer to a call on their contents: a directory
/// is a directory and a socket cannot seek. A read of a directory gives nothing
/// and `EISDIR` (21).
pub proof fn law_no_contents(
    before: Environment,
    after: Environment,
    fd: int,
    buffer: int,
    size: int,
    r: int,
)
    requires
        before.wf(),
        open_in(before, fd),
        buffer != 0,
        read_done(before, after, fd, buffer, size, r),
    ensures
        file_in(before, fd) is Directory ==> r == 0 && refused(before, after, 21),
        file_in(before, fd) is Socket ==> r == -1 && refused(before, after, 0),
        file_in(before, fd) is Socket ==> !before.fs.seekable(file_in(before, fd)),
        file_in(before, fd) is Directory ==> before.fs.seekable(file_in(before, fd)),
{
    law_open_descriptors(before, fd);
}

/// What is written to the standard output (1) or the standard error (2) is
/// printed, behind what was printed before, and counts as written.
pub proof fn law_write_prints(
    before: Environment,
    after: Environment,
    fd: int,
    buffer: int,
    size: int,
    r: int,
)
    requires
        fd == 1 || fd == 2,
        0 < size < 0x8000_0000,
        write_done(before, after, fd, buffer, size, r),
    ensures
        r == size,
        after.console.text@ == before.console.text@ + encode_utf8(
            lossy_text(before.mem@.subrange(buffer, buffer + size)),
        ),
        after.fs == before.fs,
        after.mem == before.mem,
        after.libc_state.errno.value == 0,
{
}

/// Closing frees the descriptor and no other; the three standard streams stay,
/// and a socket that was closed is noted.
pub proof fn law_close(before: Environment, after: Environment, fd: int, r: int)
    requires
        before.wf(),
        close_done(before, after, fd, r),
    ensures
        0 <= fd < 3 ==> r == 0 && after == before,
        open_in(before, fd) ==> {
            &&& r == 0
            &&& !open_in(after, fd)
            &&& others_kept(before, after, fd)
            &&& after.mem == before.mem
            &&& file_in(before, fd) is Socket ==> after.libc_state.socket.closed@
                == before.libc_state.socket.closed@.push(fd as i32) && after.fs == before.fs
            &&& !(file_in(before, fd) is Socket) ==> after.libc_state.socket
                == before.libc_state.socket
        },
{
    law_open_descriptors(before, fd);
    if open_in(before, fd) {
        assert forall|g: int| g != fd && open_in(before, g) implies #[trigger] open_in(after, g)
            && after.libc_state.posix_io.files@[g - 3] == before.libc_state.posix_io.files@[g
            - 3] by {}
    }
}

/// What `pread` gives: the bytes of the file from the offset on, as many as it
/// reports. The position stays where it was.
pub proof fn law_pread_bytes(
    before: Environment,
    after: Environment,
    fd: int,
    buffer: int,
    size: int,
    offset: int,
    r: int,
    k: usize,
)
    requires
        before.wf(),
        open_in(before, fd),
        file_in(before, fd) == GuestFile::Open(k),
        0 <= size,
        buffer != 0,
        before.mem.valid(buffer, size),
        pread_done(before, after, fd, buffer, size, offset, r),
        r >= 0,
        before.fs.opens@[k as int].faults.read is None,
    ensures
        r <= size,
        0 <= offset,
        held(after, k as int) == held(before, k as int),
        place_in(after, k as int) == place_in(before, k as int),
        ({
            let b = held(before, k as int);
            let left = if offset < b.len() {
                b.len() - offset
            } else {
                0
            };
            &&& r <= left
            &&& before.fs.opens@[k as int].transfer_limit >= size ==> r == if size < left {
                size
            } else {
                left
            }
            &&& forall|i: int| 0 <= i < r ==> after.mem@[buffer + i] == #[trigger] b[offset + i]
            &&& forall|i: int|
                0 <= i < before.mem@.len() && !(buffer <= i < buffer + r)
                    ==> #[trigger] after.mem@[i] == before.mem@[i]
        }),
{
    law_open_descriptors(before, fd);
    let b = held(before, k as int);
    assert forall|i: int| 0 <= i < r implies after.mem@[buffer + i] == #[trigger] b[offset
        + i] by {
        assert(before.fs.read_bytes_at(k as int, offset, size)[i] == b[offset + i]);
    }
}

/// What `pwrite` does to a file that is not appended to: the bytes that it
/// reports are those of the buffer, from the offset on. What lies outside of them
/// stays, a gap before them is zero, and the position stays where it was.
pub proof fn law_pwrite_bytes(
    before: Environment,
    after: Environment,
    fd: int,
    buffer: int,
    size: int,
    offset: int,
    r: int,
    k: usize,
)
    requires
        before.wf(),
        open_in(before, fd),
        file_in(before, fd) == GuestFile::Open(k),
        0 <= size,
        size > 0 ==> before.mem.valid(buffer, size),
        !before.fs.opens@[k as int].append,
        pwrite_done(before, after, fd, buffer, size, offset, r),
        r > 0,
    ensures
        r <= size,
        0 <= offset,
        after.mem == before.mem,
        place_in(after, k as int) == place_in(before, k as int),
        ({
            let b = held(before, k as int);
            let a = held(after, k as int);
            &&& a.len() == if offset + r > b.len() {
                offset + r
            } else {
                b.len() as int
            }
            &&& forall|i: int| 0 <= i < r ==> a[offset + i] == #[trigger] before.mem@[buffer + i]
            &&& forall|i: int|
                0 <= i < b.len() && !(offset <= i < offset + r) ==> a[i] == #[trigger] b[i]
            &&& forall|i: int| b.len() <= i < offset ==> #[trigger] a[i] == 0
        }),
        forall|j: int|
            0 <= j < before.fs.inodes@.len() && j != before.fs.opens@[k as int].inode ==> (
            #[trigger] after.fs.inodes@[j]) == before.fs.inodes@[j],
{
    law_open_descriptors(before, fd);
    let a = held(after, k as int);
    assert forall|i: int| 0 <= i < r implies a[offset + i] == #[trigger] before.mem@[buffer
        + i] by {}
}

/// `flock` notes a shared lock (1), an exclusive one (2) or none (8), whether it
/// would wait or not (4); another operation is refused with `EINVAL` (22).
pub proof fn law_flock(
    before: Environment,
    after: Environment,
    fd: int,
    operation: i32,
    r: int,
)
    requires
        before.wf(),
        open_in(before, fd),
        flock_done(before, after, fd, operation, r),
    ensures
        ({
            let state = after.libc_state.posix_io.files@[fd - 3]->0.flock_state;
            &&& operation == 1 || operation == 5 ==> r == 0 && state == Some(1i16)
            &&& operation == 2 || operation == 6 ==> r == 0 && state == Some(3i16)
            &&& operation == 8 || operation == 12 ==> r == 0 && state is None
            &&& operation != 1 && operation != 5 && operation != 2 && operation != 6 && operation
                != 8 && operation != 12 ==> r == -1 && refused(before, after, 22)
            &&& r == 0 ==> others_kept(before, after, fd) && file_in(after, fd) == file_in(
                before,
                fd,
            )
        }),
{
    law_open_descriptors(before, fd);
    assert(operation & !4i32 == 1 <==> operation == 1 || operation == 5) by (bit_vector);
    assert(operation & !4i32 == 2 <==> operation == 2 || operation == 6) by (bit_vector);
    assert(operation & !4i32 == 8 <==> operation == 8 || operation == 12) by (bit_vector);
}

/// What `ftruncate` leaves of a file: its first bytes, as many as asked for, and
/// zeros where there are not as many. The position stays. A negative length is
/// refused with `EINVAL` (22).
pub proof fn law_ftruncate_bytes(
    before: Environment,
    after: Environment,
    fd: int,
    len: int,
    r: int,
    k: usize,
)
    requires
        before.wf(),
        ftruncate_done(before, after, fd, len, r),
    ensures
        len < 0 ==> r == -1 && refused(before, after, 22),
        r == 0 && open_in(before, fd) && file_in(before, fd) == GuestFile::Open(k) ==> {
            let b = held(before, k as int);
            let a = held(after, k as int);
            &&& a.len() == len
            &&& forall|i: int| 0 <= i < len && i < b.len() ==> a[i] == #[trigger] b[i]
            &&& forall|i: int| b.len() <= i < len ==> #[trigger] a[i] == 0
            &&& place_in(after, k as int) == place_in(before, k as int)
            &&& after.mem == before.mem
        },
        r == 0 || r == -1,
{
    law_open_descriptors(before, fd);
}

/// The `errno` of a refused change of length, and of a refused sync: what may not
/// be changed is `EBADF` (9), a length that is none `EINVAL` (22). What may not
/// be synced counts as synced; otherwise it is `EINVAL` (22) where it makes no
/// sense, `EINTR` (4) where it was interrupted, and `EIO` (5).
pub proof fn law_file_errors(e: IoErrorKind)
    ensures
        set_len_errno(e) == (if e is PermissionDenied {
            9i32
        } else if e is InvalidInput {
            22
        } else {
            5
        }),
        sync_errno(e) == (if e is PermissionDenied {
            None
        } else if e is Unsupported {
            Some(22i32)
        } else if e is Interrupted {
            Some(4)
        } else {
            Some(5)
        }),
{
}

/// Which bytes a lock request stands for. Its type is 1 for reading, 2 for none
/// and 3 for writing, and its start counts from the start (0), the position (1)
/// or the end (2) of the file. A length of zero goes on without end, and a
/// negative one goes back from the start. What is no such range is refused with
/// `EINVAL` (22), one that ends behind the last offset with `EOVERFLOW` (84).
pub proof fn law_lock_bytes(env: Environment, fd: int, lock: flock, k: usize)
    requires
        env.wf(),
        open_in(env, fd),
        file_in(env, fd) == GuestFile::Open(k),
        env.fs.opens@[k as int].faults.tell is None,
        env.fs.opens@[k as int].faults.len is None,
    ensures
        ({
            let start = lock.start + (if lock.whence == 1 {
                place_in(env, k as int)
            } else if lock.whence == 2 {
                held(env, k as int).len() as int
            } else {
                0
            });
            let first = if lock.len < 0 {
                start + lock.len
            } else {
                start
            };
            let behind = if lock.len == 0 {
                0x7fff_ffff_ffff_ffff
            } else if lock.len < 0 {
                start
            } else {
                start + lock.len
            };
            match lock_range(env, fd, lock) {
                Err(e) => if lock.lock_type < 1 || lock.lock_type > 3 || lock.whence < 0
                    || lock.whence > 2 || start < 0 || first < 0 {
                    e == 22
                } else {
                    e == 84 && behind > 0x7fff_ffff_ffff_ffff
                },
                Ok(range) => {
                    &&& 1 <= lock.lock_type <= 3
                    &&& 0 <= lock.whence <= 2
                    &&& range.lock_type == lock.lock_type
                    &&& 0 <= start <= 0x7fff_ffff_ffff_ffff ==> range.start == first && range.end
                        == behind
                    &&& 0 <= first
                    &&& lock.len > 0 ==> behind <= 0x7fff_ffff_ffff_ffff
                },
            }
        }),
{
    law_open_descriptors(env, fd);
}

/// The parts of a lock request in memory: two eight-byte numbers, the start and
/// the length, a four-byte one, and the type and the way to count in two bytes
/// each.
pub proof fn law_lock_request(env: Environment, ptr: int)
    ensures
        ({
            let lock = flock_at(env.mem, ptr);
            let m = env.mem@;
            &&& lock.pid == signed32(le_u32(m, ptr + 16))
            &&& le_u32(m, ptr + 4) == 0 ==> lock.start == le_u32(m, ptr)
            &&& le_u32(m, ptr + 12) == 0 ==> lock.len == le_u32(m, ptr + 8)
            &&& le_u32(m, ptr + 4) == 0xffff_ffff ==> lock.start == le_u32(m, ptr) - 0x1_0000_0000
            &&& le_u32(m, ptr + 12) == 0xffff_ffff ==> lock.len == le_u32(m, ptr + 8)
                - 0x1_0000_0000
            &&& m[ptr + 21] == 0 ==> lock.lock_type == m[ptr + 20]
            &&& m[ptr + 23] == 0 ==> lock.whence == m[ptr + 22]
        }),
{
}

/// What the commands of `fcntl` answer on an open descriptor: 1 gives and 2 sets
/// the descriptor's flags, 3 gives and 4 sets the status flags, of which the two
/// low bits stay.
pub proof fn law_fcntl_flags(
    before: Environment,
    after: Environment,
    fd: int,
    cmd: int,
    arg: int,
    r: int,
)
    requires
        before.wf(),
        open_in(before, fd),
        0 <= arg <= 0xffff_ffff,
        fcntl_done(before, after, fd, cmd, arg, r),
    ensures
        ({
            let o = before.libc_state.posix_io.files@[fd - 3]->0;
            let n = after.libc_state.posix_io.files@[fd - 3]->0;
            &&& cmd == 1 ==> r == o.flags && refused(before, after, 0)
            &&& cmd == 3 ==> r == o.status_flags && refused(before, after, 0)
            &&& cmd == 2 ==> r == 0 && n.flags == signed32(arg) && n.status_flags == o.status_flags
            &&& cmd == 4 ==> {
                &&& r == 0
                &&& n.flags == o.flags
                &&& n.status_flags & 3 == o.status_flags & 3
                &&& n.status_flags & !3 == (signed32(arg) as i32) & !3
            }
            &&& cmd == 2 || cmd == 4 ==> n.file == o.file && n.locks == o.locks && n.path == o.path
                && others_kept(before, after, fd) && after.fs == before.fs && after.mem
                == before.mem
        }),
{
    law_open_descriptors(before, fd);
    let old_flags = before.object(fd).status_flags;
    let word = signed32(arg) as i32;
    crate::libc::posix_io::law_setfl_keeps_access_mode(old_flags, word);
}

/// The commands that are accepted and change nothing, by number; what is no
/// command is refused with `EINVAL` (22).
pub proof fn law_fcntl_hints(
    before: Environment,
    after: Environment,
    fd: int,
    cmd: int,
    arg: int,
    r: int,
)
    requires
        before.wf(),
        open_in(before, fd),
        fcntl_done(before, after, fd, cmd, arg, r),
    ensures
        ({
            let hint = 41 <= cmd <= 46 || cmd == 48 || cmd == 51 || cmd == 52 || cmd == 59 || cmd
                == 61 || cmd == 73 || cmd == 74 || cmd == 83 || cmd == 85 || cmd == 97 || cmd == 99;
            let other = 0 <= cmd <= 4 || 7 <= cmd <= 9 || cmd == 50 || cmd == 67;
            &&& hint ==> r == 0 && refused(before, after, 0)
            &&& !hint && !other ==> r == -1 && refused(before, after, 22)
        }),
{
    law_open_descriptors(before, fd);
}

/// The standard streams answer every command with zero, but that the output (1)
/// and the error (2) say that they are for writing (1).
pub proof fn law_fcntl_standard(
    before: Environment,
    after: Environment,
    fd: int,
    cmd: int,
    arg: int,
    r: int,
)
    requires
        0 <= fd < 3,
        fcntl_done(before, after, fd, cmd, arg, r),
    ensures
        r == (if cmd == 3 && fd != 0 {
            1int
        } else {
            0
        }),
        refused(before, after, 0),
{
}

/// The commands 0 and 67 duplicate a descriptor: the new one is the lowest free
/// one that is not below the one asked for, and stands for the same file with the
/// same status flags and path, but has no lock, and only with 67 is it closed
/// when a program is run (1).
pub proof fn law_fcntl_duplicates(
    before: Environment,
    after: Environment,
    fd: int,
    cmd: int,
    arg: int,
    r: int,
    other: int,
)
    requires
        before.wf(),
        after.wf(),
        open_in(before, fd),
        cmd == 0 || cmd == 67,
        0 <= arg < 0x8000_0000,
        fcntl_done(before, after, fd, cmd, arg, r),
        r != -1,
    ensures
        ({
            let o = before.libc_state.posix_io.files@[fd - 3]->0;
            let n = after.libc_state.posix_io.files@[r - 3]->0;
            &&& arg <= r && 3 <= r
            &&& !open_in(before, r)
            &&& open_in(after, r)
            &&& 3 <= other && arg <= other < r ==> open_in(before, other)
            &&& n.file == o.file
            &&& n.status_flags == o.status_flags
            &&& n.path == o.path
            &&& n.flags == (if cmd == 67 {
                1i32
            } else {
                0
            })
            &&& n.locks@.len() == 0
            &&& n.flock_state is None
            &&& !n.reached_eof
            &&& open_in(after, fd)
            &&& after.libc_state.posix_io.files@[fd - 3]
                == before.libc_state.posix_io.files@[fd - 3]
            &&& after.fs == before.fs && after.mem == before.mem
            &&& after.libc_state.errno.value == 0
        }),
{
    law_open_descriptors(before, fd);
    law_open_descriptors(before, r);
    law_open_descriptors(before, other);
    law_open_descriptors(after, r);
    law_open_descriptors(after, fd);
    law_lowest_free(before.files(), dup_from(signed32(arg)));
    assert(after.files()[fd - 3] == before.files()[fd - 3]);
}

/// The command 50 gives the path under which the file was opened, with a zero
/// behind it, cut off at 1023 bytes.
pub proof fn law_fcntl_path(
    before: Environment,
    after: Environment,
    fd: int,
    arg: int,
    r: int,
    path: Seq<u8>,
)
    requires
        before.wf(),
        open_in(before, fd),
        before.libc_state.posix_io.files@[fd - 3]->0.path is Some,
        path == encode_utf8(before.libc_state.posix_io.files@[fd - 3]->0.path->0@),
        before.mem.valid(
            arg,
            if path.len() <= 1023 {
                path.len() as int + 1
            } else {
                1024
            },
        ),
        fcntl_done(before, after, fd, 50, arg, r),
    ensures
        r == 0,
        ({
            let n = if path.len() <= 1023 {
                path.len() as int
            } else {
                1023
            };
            &&& forall|i: int| 0 <= i < n ==> after.mem@[arg + i] == #[trigger] path[i]
            &&& after.mem@[arg + n] == 0
            &&& forall|i: int|
                0 <= i < before.mem@.len() && !(arg <= i <= arg + n) ==> #[trigger] after.mem@[i]
                    == before.mem@[i]
        }),
{
    law_open_descriptors(before, fd);
    let data = path_bytes(slot_path(before.files(), file_idx(fd)));
    let n = if path.len() <= 1023 {
        path.len() as int
    } else {
        1023
    };
    assert(data.len() == n + 1);
    assert(data[n] == 0);
    assert forall|i: int| 0 <= i < n implies after.mem@[arg + i] == #[trigger] path[i] by {
        assert(data[i] == path[i]);
    }
}

/// The commands 8 and 9 set a lock and 7 asks for one in the way, of which there
/// is none; a request that is no range is refused.
pub proof fn law_fcntl_locks(
    before: Environment,
    after: Environment,
    fd: int,
    cmd: int,
    arg: int,
    r: int,
)
    requires
        before.wf(),
        open_in(before, fd),
        7 <= cmd <= 9,
        before.mem.valid(arg, 24),
        fcntl_done(before, after, fd, cmd, arg, r),
    ensures
        match lock_range(before, fd, flock_at(before.mem, arg)) {
            Err(e) => r == -1 && refused(before, after, e as int),
            Ok(range) => {
                &&& r == 0
                &&& after.fs == before.fs
                &&& cmd == 7 ==> {
                    &&& le_u16(after.mem@, arg + 20) == 2
                    &&& after.libc_state.posix_io == before.libc_state.posix_io
                    &&& forall|i: int|
                        0 <= i < before.mem@.len() && i != arg + 20 && i != arg + 21
                            ==> #[trigger] after.mem@[i] == before.mem@[i]
                }
                &&& cmd != 7 ==> after.mem == before.mem && others_kept(before, after, fd)
            },
        },
{
    law_open_descriptors(before, fd);
    lemma_le_bytes_2(2);
    assert(le_bytes(2, 2).len() == 2);
}

/// A new socket has the lowest free descriptor, is for reading and writing (2)
/// and no file.
pub proof fn law_socket(before: Environment, after: Environment, r: int, other: int)
    requires
        before.wf(),
        after.wf(),
        socket_made(before, after, r),
    ensures
        3 <= r,
        !open_in(before, r),
        open_in(after, r),
        file_in(after, r) is Socket,
        3 <= other < r ==> open_in(before, other),
        after.libc_state.posix_io.files@[r - 3]->0.status_flags == 2,
        after.fs == before.fs,
        after.mem == before.mem,
{
    law_open_descriptors(before, r);
    law_open_descriptors(before, other);
    law_open_descriptors(after, r);
    law_lowest_free(before.files(), 0);
}

} // verus!
