//! What holds of the file descriptor calls taken together.
use vstd::prelude::*;

use crate::environment::Environment;
use crate::fs::{node_at, FileOp, Fs, GuestFile, Place};
use crate::libc::posix_io::{
    bytes_from, close_done, fcntl_done, ftruncate_done, lemma_creat_flags, lseek_error,
    lseek_target, open_done, open_error, pread_done, pwrite_done, read_done, repositioned,
    target_of, write_done, CREAT_FLAGS, F_DUPFD, F_DUPFD_CLOEXEC, F_GETFD, F_GETFL, F_SETFD,
    F_SETFL, O_ACCMODE, O_WRONLY, SEEK_CUR, SEEK_SET,
};
use crate::mem::signed32;
use crate::paths::{is_absolute, join, law_resolve_idempotent, resolve};

verus! {

/// What was written, all that was given or a part of it, is what a read of as
/// much gives back, after a seek to where the write began.
pub proof fn law_read_gives_back_write(
    before: Environment,
    written: Environment,
    sought: Environment,
    read: Environment,
    k: usize,
    fd: int,
    from: int,
    to: int,
    size: int,
    w: int,
    n: int,
)
    requires
        before.wf(),
        before.fd_open(fd),
        before.file(fd) == GuestFile::Open(k),
        before.fs.fault(GuestFile::Open(k), FileOp::Read) is None,
        0 < size <= i32::MAX,
        before.mem.valid(from, size),
        before.mem.valid(to, w),
        write_done(before, written, fd, from, size, w),
        w > 0,
        repositioned(written, sought, fd, before.fs.write_start(k as int)),
        read_done(sought, read, fd, to, w, n),
    ensures
        n == w,
        read.mem@.subrange(to, to + w) == before.mem@.subrange(from, from + w),
        read.fs.position(read.file(fd)) == written.fs.position(written.file(fd)),
{
    let data = bytes_from(before.mem, from, size).take(w);
    let start = before.fs.write_start(k as int);
    assert(data =~= before.mem@.subrange(from, from + w));
    assert(written.fs.read_bytes_at(k as int, start, w) =~= data);
    assert(sought.fs.read_bytes(k as int, w) =~= data);
    assert(read.mem@.subrange(to, to + w) =~= data);
}

/// A positioned write moves no position, and a positioned read of as much as it
/// wrote, at the same offset, gives that back.
pub proof fn law_pread_gives_back_pwrite(
    before: Environment,
    written: Environment,
    read: Environment,
    k: usize,
    fd: int,
    from: int,
    to: int,
    size: int,
    offset: int,
    w: int,
    n: int,
)
    requires
        before.wf(),
        before.fd_open(fd),
        before.file(fd) == GuestFile::Open(k),
        !before.fs.opens@[k as int].append,
        before.fs.fault(GuestFile::Open(k), FileOp::Read) is None,
        0 < size <= i32::MAX,
        before.mem.valid(from, size),
        before.mem.valid(to, w),
        pwrite_done(before, written, fd, from, size, offset, w),
        w > 0,
        pread_done(written, read, fd, to, w, offset, n),
    ensures
        n == w,
        read.mem@.subrange(to, to + w) == before.mem@.subrange(from, from + w),
        written.fs.position(written.file(fd)) == before.fs.position(before.file(fd)),
        read.fs.position(read.file(fd)) == before.fs.position(before.file(fd)),
{
    let data = bytes_from(before.mem, from, size).take(w);
    assert(data =~= before.mem@.subrange(from, from + w));
    assert(written.fs.read_bytes_at(k as int, offset, w) =~= data);
    assert(read.mem@.subrange(to, to + w) =~= data);
}

/// Seeking to an offset and asking for the position gives the offset.
pub proof fn law_seek_then_tell(
    before: Environment,
    after: Environment,
    k: usize,
    fd: int,
    offset: int,
)
    requires
        before.wf(),
        before.fd_open(fd),
        before.file(fd) == GuestFile::Open(k),
        lseek_error(before, fd, offset, SEEK_SET as int) is None,
        repositioned(before, after, fd, offset),
    ensures
        lseek_target(after, fd, 0, SEEK_CUR as int) == offset,
        lseek_error(after, fd, 0, SEEK_CUR as int) is None <==> before.fs.fault(
            GuestFile::Open(k),
            FileOp::Tell,
        ) is None,
{
}

/// A duplicate shares the position: a seek through either descriptor moves
/// both.
pub proof fn law_duplicate_shares_position(
    before: Environment,
    dup: Environment,
    moved: Environment,
    fd: int,
    cmd: int,
    arg: int,
    new_fd: int,
    position: int,
)
    requires
        before.wf(),
        before.fd_open(fd),
        before.file(fd) is Open,
        cmd == F_DUPFD || cmd == F_DUPFD_CLOEXEC,
        fcntl_done(before, dup, fd, cmd, arg, new_fd),
        new_fd != -1,
        0 <= arg <= u32::MAX,
        0 <= position <= i64::MAX,
        repositioned(dup, moved, fd, position) || repositioned(dup, moved, new_fd, position),
    ensures
        moved.fs.position(moved.file(fd)) == position,
        moved.fs.position(moved.file(new_fd)) == position,
        new_fd != fd,
{
    let from = crate::libc::posix_io::dup_from(signed32(arg));
    crate::libc::posix_io::law_lowest_free(before.files(), from);
    assert(dup.files()[fd - 3] == before.files()[fd - 3]);
}

/// A duplicate gets the lowest free descriptor that is not below the one asked
/// for.
pub proof fn law_duplicate_is_lowest(
    before: Environment,
    dup: Environment,
    fd: int,
    arg: int,
    new_fd: int,
    other: int,
)
    requires
        before.wf(),
        before.fd_open(fd),
        fcntl_done(before, dup, fd, F_DUPFD as int, arg, new_fd),
        new_fd != -1,
        0 <= arg <= u32::MAX,
        3 <= other < new_fd,
        signed32(arg) <= other,
    ensures
        signed32(arg) <= new_fd,
        !before.fd_open(new_fd),
        before.fd_open(other),
        dup.fd_open(new_fd),
{
    let from = crate::libc::posix_io::dup_from(signed32(arg));
    crate::libc::posix_io::law_lowest_free(before.files(), from);
}

/// Descriptor flags that were set are the ones that are read.
pub proof fn law_setfd_getfd(
    before: Environment,
    set: Environment,
    got: Environment,
    fd: int,
    arg: int,
    any: int,
    r: int,
    s: int,
)
    requires
        before.wf(),
        before.fd_open(fd),
        fcntl_done(before, set, fd, F_SETFD as int, arg, s),
        fcntl_done(set, got, fd, F_GETFD as int, any, r),
        0 <= arg <= u32::MAX,
    ensures
        r == signed32(arg),
        got.object(fd).status_flags == before.object(fd).status_flags,
{
}

/// Setting the status flags does not change how the file may be accessed.
pub proof fn law_setfl_getfl(
    before: Environment,
    set: Environment,
    got: Environment,
    fd: int,
    arg: int,
    any: int,
    r: i32,
    s: int,
)
    requires
        before.wf(),
        before.fd_open(fd),
        fcntl_done(before, set, fd, F_SETFL as int, arg, s),
        fcntl_done(set, got, fd, F_GETFL as int, any, r as int),
        0 <= arg <= u32::MAX,
    ensures
        r & O_ACCMODE == before.object(fd).status_flags & O_ACCMODE,
        r & !O_ACCMODE == (signed32(arg) as i32) & !O_ACCMODE,
{
    crate::libc::posix_io::law_setfl_keeps_access_mode(
        before.object(fd).status_flags,
        signed32(arg) as i32,
    );
}

/// A closed descriptor is free: a later `open` gets it, or a lower one.
pub proof fn law_close_frees(
    before: Environment,
    closed: Environment,
    opened: Environment,
    fd: int,
    path: int,
    flags: i32,
    r: int,
)
    requires
        before.wf(),
        before.fd_open(fd),
        close_done(before, closed, fd, 0),
        open_done(closed, opened, path, flags, r),
        open_error(closed, path, flags) is None,
    ensures
        !closed.fd_open(fd),
        3 <= r <= fd,
        opened.fd_open(r),
{
    crate::libc::posix_io::law_lowest_free(closed.files(), 0);
}

/// Opening a file leaves every other descriptor as it was.
pub proof fn law_open_keeps_others(
    before: Environment,
    opened: Environment,
    path: int,
    flags: i32,
    r: int,
    other: int,
)
    requires
        before.wf(),
        open_done(before, opened, path, flags, r),
        before.fd_open(other),
    ensures
        opened.fd_open(other),
        opened.object(other) == before.object(other),
        other != r,
{
    crate::libc::posix_io::law_lowest_free(before.files(), 0);
    if open_error(before, path, flags) is None {
        assert(opened.files()[other - 3] == before.files()[other - 3]);
    }
}

proof fn lemma_node_at_push(
    nodes: Seq<crate::fs::FsNode>,
    more: Seq<crate::fs::FsNode>,
    dir: Seq<char>,
    name: Seq<char>,
    from: int,
)
    requires
        0 <= from <= nodes.len(),
        more.len() == nodes.len() + 1,
        forall|i: int| 0 <= i < nodes.len() ==> more[i] == nodes[i],
        more.last().dir@ == dir,
        more.last().name@ == name,
    ensures
        node_at(more, dir, name, from) is Some,
    decreases nodes.len() - from,
{
    if from < nodes.len() {
        lemma_node_at_push(nodes, more, dir, name, from + 1);
    }
}

/// What was opened exists afterwards, also where opening made it.
pub proof fn law_opened_exists(
    before: Environment,
    opened: Environment,
    path: int,
    flags: i32,
    r: int,
)
    requires
        before.wf(),
        open_done(before, opened, path, flags, r),
        open_error(before, path, flags) is None,
    ensures
        opened.fs.path_exists(target_of(before, path, flags)),
{
    let target = target_of(before, path, flags);
    if before.fs.place(target) == Place::Missing {
        let parts = resolve(before.fs.working_directory@, target);
        lemma_node_at_push(
            before.fs.nodes@,
            opened.fs.nodes@,
            join(parts.drop_last()),
            parts.last(),
            0,
        );
    }
}

/// What `creat` opened is empty, and can be written but not read.
pub proof fn law_creat_empties(before: Environment, opened: Environment, path: int, r: int)
    requires
        before.wf(),
        opened.wf(),
        open_done(before, opened, path, CREAT_FLAGS, r),
        open_error(before, path, CREAT_FLAGS) is None,
    ensures
        opened.object(r).status_flags == O_WRONLY,
        opened.object(r).needs_flush,
        opened.file(r) matches GuestFile::Open(k) ==> {
            let open_file = opened.fs.opens@[k as int];
            &&& opened.fs.inodes@[open_file.inode as int].data@ == Seq::<u8>::empty()
            &&& open_file.position == 0
            &&& open_file.faults.read is Some
            &&& open_file.faults.write is None
        },
{
    lemma_creat_flags();
    assert(0x601i32 & (3i32 | 8i32 | 4i32) == 1i32) by (bit_vector);
    assert(0x601i32 & 3i32 == 1i32) by (bit_vector);
    let opens = opened.fs.opens.len();
    let inodes = opened.fs.inodes.len();
    assert(opened.fs.opens@.len() == opens && opened.fs.inodes@.len() == inodes);
}

/// After `chdir` the working directory is a directory, so that `getcwd` gives
/// its path. It is the one that the path named before, and absolute paths name
/// what they named.
pub proof fn law_chdir_getcwd(before: Fs, after: Fs, path: Seq<char>, other: Seq<char>)
    requires
        before.path_is_dir(path),
        after == (Fs { working_directory: after.working_directory, ..before }),
        after.working_directory@ == before.full_path(path),
    ensures
        after.path_is_dir(after.working_directory@),
        after.place(after.working_directory@) == before.place(path),
        is_absolute(other) ==> after.place(other) == before.place(other),
{
    law_resolve_idempotent(before.working_directory@, path, after.working_directory@);
}

/// A file that was truncated has the length that was asked for. It begins as
/// it did, and what is beyond its old end is zero.
pub proof fn law_ftruncate_length(
    before: Environment,
    after: Environment,
    fd: int,
    len: int,
    i: int,
)
    requires
        before.wf(),
        ftruncate_done(before, after, fd, len, 0),
        before.file(fd) is Open,
        0 <= i < len,
    ensures
        after.file(fd) == before.file(fd),
        ({
            let old_data = before.fs.contents(before.file(fd));
            let new_data = after.fs.contents(before.file(fd));
            &&& new_data.len() == len
            &&& new_data[i] == if i < old_data.len() {
                old_data[i]
            } else {
                0u8
            }
        }),
{
}

} // verus!
