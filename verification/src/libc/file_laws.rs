//! What open files hold, and what calls on them give, in terms of bytes and
//! positions.
use vstd::prelude::*;

use crate::environment::Environment;
use crate::fs::GuestFile;
use crate::libc::posix_io::{
    law_lowest_free, lseek_done, open_done, read_done, target_of, write_done,
};

verus! {

/// The bytes of an open file.
pub open spec fn held(env: Environment, k: int) -> Seq<u8> {
    env.fs.inodes@[env.fs.opens@[k].inode as int].data@
}

/// Where an open file reads and writes next.
pub open spec fn place_in(env: Environment, k: int) -> int {
    env.fs.opens@[k].position as int
}

/// The flag bits are all there.
pub open spec fn has_bits(flags: i32, bits: i32) -> bool {
    flags & bits == bits
}

/// The access mode of the flags lets the file be read.
pub open spec fn lets_read(flags: i32) -> bool {
    flags & 3 == 0 || flags & 3 == 2
}

/// The access mode of the flags lets the file be written.
pub open spec fn lets_write(flags: i32) -> bool {
    flags & 3 == 1 || flags & 3 == 2
}

proof fn lemma_flag_bits(flags: i32)
    ensures
        (flags & 8 != 0) == has_bits(flags, 8),
        (flags & 0x200 != 0) == has_bits(flags, 0x200),
        (flags & 0x400 != 0) == has_bits(flags, 0x400),
        (flags & 0x800 != 0) == has_bits(flags, 0x800),
        flags & (3i32 | 8i32 | 4i32) == flags & 0xf,
{
    assert((flags & 8 != 0) == (flags & 8 == 8)) by (bit_vector);
    assert((flags & 0x200 != 0) == (flags & 0x200 == 0x200)) by (bit_vector);
    assert((flags & 0x400 != 0) == (flags & 0x400 == 0x400)) by (bit_vector);
    assert((flags & 0x800 != 0) == (flags & 0x800 == 0x800)) by (bit_vector);
    assert(flags & (3i32 | 8i32 | 4i32) == flags & 0xf) by (bit_vector);
}

/// What `open` gives of a file: it starts at its first byte, with what it held,
/// or with nothing where it is new or `O_TRUNC` (`0x400`) empties it. It can be
/// read and written as the two low bits say, 0 being reading, 1 writing and 2
/// both, and with `O_APPEND` (8) it is written at its end.
pub proof fn law_open_gives(
    before: Environment,
    opened: Environment,
    path: int,
    flags: i32,
    fd: int,
    k: usize,
)
    requires
        before.wf(),
        opened.wf(),
        open_done(before, opened, path, flags, fd),
        fd >= 0,
        opened.file(fd) == GuestFile::Open(k),
    ensures
        fd >= 3,
        !before.fd_open(fd),
        opened.fd_open(fd),
        place_in(opened, k as int) == 0,
        opened.fs.opens@[k as int].append == has_bits(flags, 8),
        opened.fs.opens@[k as int].faults.read is None <==> lets_read(flags),
        opened.fs.opens@[k as int].faults.write is None <==> lets_write(flags) || has_bits(flags, 8),
        opened.object(fd).status_flags == flags & 0xf,
        opened.object(fd).flags == 0,
        !opened.object(fd).reached_eof,
        match before.fs.file_contents(target_of(before, path, flags)) {
            Some(data) => held(opened, k as int) == if has_bits(flags, 0x400) && (lets_write(flags)
                || has_bits(flags, 8)) {
                Seq::empty()
            } else {
                data
            },
            None => held(opened, k as int) == Seq::<u8>::empty() && has_bits(flags, 0x200),
        },
{
    law_lowest_free(before.files(), 0);
    lemma_flag_bits(flags);
    let opens = opened.fs.opens.len();
    let inodes = opened.fs.inodes.len();
    assert(opened.fs.opens@.len() == opens && opened.fs.inodes@.len() == inodes);
    let nodes = before.fs.inodes.len();
    assert(before.fs.inodes@.len() == nodes);
    let had = before.fs.opens.len();
    assert(before.fs.opens@.len() == had);
}

/// `open` refuses a file that exists where `O_CREAT` (`0x200`) and `O_EXCL`
/// (`0x800`) want a new one, with `EEXIST` (17), and one that does not exist
/// where `O_CREAT` does not want it, with `ENOENT` (2).
pub proof fn law_open_refuses(
    before: Environment,
    opened: Environment,
    path: int,
    flags: i32,
    fd: int,
)
    requires
        before.wf(),
        open_done(before, opened, path, flags, fd),
        path != 0,
        flags & 3 != 3,
        vstd::utf8::valid_utf8(before.mem.cstr(path)),
    ensures
        ({
            let exists_there = before.fs.path_exists(target_of(before, path, flags));
            &&& exists_there && has_bits(flags, 0x200) && has_bits(flags, 0x800) ==> fd == -1
                && opened.errno() == 17
            &&& !exists_there && !has_bits(flags, 0x200) ==> fd == -1 && opened.errno() == 2
            &&& fd == -1 ==> opened.fs == before.fs && opened.files() == before.files()
        }),
{
    lemma_flag_bits(flags);
    assert(flags & 3 == 0 || flags & 3 == 1 || flags & 3 == 2 || flags & 3 == 3) by (bit_vector);
    law_lowest_free(before.files(), 0);
}

/// What `write` does to an open file: the bytes that it reports are those of the
/// buffer, in order, from the position on, or from the end on in a file that is
/// appended to. What lies outside of them stays, a gap before them is zero, and
/// the position is behind them.
pub proof fn law_write_bytes(
    before: Environment,
    after: Environment,
    fd: int,
    buffer: int,
    size: int,
    r: int,
    k: usize,
)
    requires
        before.wf(),
        before.fd_open(fd),
        before.file(fd) == GuestFile::Open(k),
        0 <= size,
        size > 0 ==> before.mem.valid(buffer, size),
        write_done(before, after, fd, buffer, size, r),
        r > 0,
    ensures
        r <= size,
        after.file(fd) == before.file(fd),
        after.mem == before.mem,
        after.errno() == 0,
        ({
            let b = held(before, k as int);
            let a = held(after, k as int);
            let at = if before.fs.opens@[k as int].append {
                b.len() as int
            } else {
                place_in(before, k as int)
            };
            &&& a.len() == if at + r > b.len() {
                at + r
            } else {
                b.len() as int
            }
            &&& forall|i: int| 0 <= i < r ==> a[at + i] == #[trigger] before.mem@[buffer + i]
            &&& forall|i: int| 0 <= i < b.len() && !(at <= i < at + r) ==> a[i] == #[trigger] b[i]
            &&& forall|i: int| b.len() <= i < at ==> #[trigger] a[i] == 0
            &&& place_in(after, k as int) == at + r
            &&& after.fs.opens@[k as int].append == before.fs.opens@[k as int].append
        }),
        forall|j: int|
            0 <= j < before.fs.inodes@.len() && j != before.fs.opens@[k as int].inode ==> (
            #[trigger] after.fs.inodes@[j]) == before.fs.inodes@[j],
{
    let a = held(after, k as int);
    let b = held(before, k as int);
    let at = if before.fs.opens@[k as int].append {
        b.len() as int
    } else {
        place_in(before, k as int)
    };
    assert forall|i: int| 0 <= i < r implies a[at + i] == #[trigger] before.mem@[buffer + i] by {}
}

/// What a file that was opened with `O_APPEND` (8) is given goes to its end,
/// wherever it was sought to: it then holds what it held, and the bytes that
/// were written behind that.
pub proof fn law_append_goes_to_end(
    before: Environment,
    opened: Environment,
    moved: Environment,
    after: Environment,
    path: int,
    flags: i32,
    fd: int,
    offset: int,
    whence: int,
    p: int,
    buffer: int,
    size: int,
    r: int,
    k: usize,
)
    requires
        before.wf(),
        opened.wf(),
        moved.wf(),
        open_done(before, opened, path, flags, fd),
        fd >= 0,
        has_bits(flags, 8),
        opened.file(fd) == GuestFile::Open(k),
        lseek_done(opened, moved, fd, offset, whence, p),
        0 <= size,
        size > 0 ==> moved.mem.valid(buffer, size),
        write_done(moved, after, fd, buffer, size, r),
        r > 0,
    ensures
        held(moved, k as int) == held(opened, k as int),
        held(after, k as int) == held(opened, k as int) + moved.mem@.subrange(buffer, buffer + r),
        !has_bits(flags, 0x400) ==> match before.fs.file_contents(target_of(before, path, flags)) {
            Some(data) => held(after, k as int) == data + moved.mem@.subrange(buffer, buffer + r),
            None => held(after, k as int) == moved.mem@.subrange(buffer, buffer + r),
        },
{
    law_open_gives(before, opened, path, flags, fd, k);
    assert(moved.fd_open(fd) && moved.file(fd) == GuestFile::Open(k));
    law_write_bytes(moved, after, fd, buffer, size, r, k);
    let a = held(after, k as int);
    let b = held(moved, k as int);
    let data = moved.mem@.subrange(buffer, buffer + r);
    assert forall|i: int| 0 <= i < a.len() implies a[i] == (b + data)[i] by {
        if i < b.len() {
            assert(a[i] == b[i]);
        } else {
            assert(a[b.len() + (i - b.len())] == moved.mem@[buffer + (i - b.len())]);
        }
    }
    assert(a =~= b + data);
    assert(Seq::<u8>::empty() + data =~= data);
}

/// What a file that was opened without `O_APPEND` is given first goes to its
/// start, over what it holds there.
pub proof fn law_first_write_at_start(
    before: Environment,
    opened: Environment,
    after: Environment,
    path: int,
    flags: i32,
    fd: int,
    buffer: int,
    size: int,
    r: int,
    k: usize,
)
    requires
        before.wf(),
        opened.wf(),
        open_done(before, opened, path, flags, fd),
        fd >= 0,
        !has_bits(flags, 8),
        opened.file(fd) == GuestFile::Open(k),
        0 <= size,
        size > 0 ==> opened.mem.valid(buffer, size),
        write_done(opened, after, fd, buffer, size, r),
        r > 0,
    ensures
        ({
            let b = held(opened, k as int);
            let data = opened.mem@.subrange(buffer, buffer + r);
            held(after, k as int) == data + if r < b.len() {
                b.skip(r)
            } else {
                Seq::empty()
            }
        }),
{
    law_open_gives(before, opened, path, flags, fd, k);
    law_write_bytes(opened, after, fd, buffer, size, r, k);
    let a = held(after, k as int);
    let b = held(opened, k as int);
    let data = opened.mem@.subrange(buffer, buffer + r);
    let rest = if r < b.len() {
        b.skip(r)
    } else {
        Seq::empty()
    };
    assert forall|i: int| 0 <= i < a.len() implies a[i] == (data + rest)[i] by {
        if i < r {
            assert(a[0 + i] == opened.mem@[buffer + i]);
        } else {
            assert(a[i] == b[i]);
        }
    }
    assert(a =~= data + rest);
}

/// What `read` gives: the bytes of the file from the position on, as many as it
/// reports, and the position is behind them. It gives nothing only where it is
/// asked for nothing, at or behind the end, or where the file moves no byte at
/// a time; asked for something, it then takes the end as reached.
pub proof fn law_read_bytes(
    before: Environment,
    after: Environment,
    fd: int,
    buffer: int,
    size: int,
    r: int,
    k: usize,
)
    requires
        before.wf(),
        before.fd_open(fd),
        before.file(fd) == GuestFile::Open(k),
        0 <= size,
        size > 0 ==> before.mem.valid(buffer, size),
        read_done(before, after, fd, buffer, size, r),
        r >= 0,
        before.fs.opens@[k as int].faults.read is None,
    ensures
        r <= size,
        after.errno() == 0,
        after.file(fd) == before.file(fd),
        held(after, k as int) == held(before, k as int),
        place_in(after, k as int) == place_in(before, k as int) + r,
        ({
            let b = held(before, k as int);
            let p = place_in(before, k as int);
            let left = if p < b.len() {
                b.len() - p
            } else {
                0
            };
            &&& r <= left
            &&& before.fs.opens@[k as int].transfer_limit >= size ==> r == if size < left {
                size
            } else {
                left
            }
            &&& forall|i: int| 0 <= i < r ==> after.mem@[buffer + i] == #[trigger] b[p + i]
            &&& forall|i: int|
                0 <= i < before.mem@.len() && !(buffer <= i < buffer + r) ==> #[trigger] after.mem@[i]
                    == before.mem@[i]
        }),
        after.object(fd).reached_eof == (before.object(fd).reached_eof || (r == 0 && size != 0)),
{
    let b = held(before, k as int);
    let p = place_in(before, k as int);
    assert forall|i: int| 0 <= i < r implies after.mem@[buffer + i] == #[trigger] b[p + i] by {
        assert(before.fs.read_bytes(k as int, size)[i] == b[p + i]);
    }
}

/// Where `lseek` leads: 0 counts from the start of the file, 1 from the position
/// and 2 from the end. A place before the start, or any other way to count, is
/// refused with `EINVAL` (22). Only the position moves, and the end is no longer
/// taken as reached.
pub proof fn law_lseek_places(
    before: Environment,
    after: Environment,
    fd: int,
    offset: int,
    whence: int,
    r: int,
    k: usize,
)
    requires
        before.wf(),
        before.fd_open(fd),
        before.file(fd) == GuestFile::Open(k),
        before.fs.opens@[k as int].seekable,
        before.fs.opens@[k as int].faults.tell is None,
        before.fs.opens@[k as int].faults.len is None,
        before.fs.opens@[k as int].faults.seek is None,
        lseek_done(before, after, fd, offset, whence, r),
    ensures
        ({
            let start = if whence == 0 {
                0
            } else if whence == 1 {
                place_in(before, k as int)
            } else {
                held(before, k as int).len() as int
            };
            let to = start + offset;
            if whence < 0 || whence > 2 || to < 0 {
                &&& r == -1
                &&& after.errno() == 22
                &&& after.fs == before.fs
            } else if to <= i64::MAX {
                &&& r == to
                &&& place_in(after, k as int) == to
                &&& !after.object(fd).reached_eof
            } else {
                r == -1 && after.fs == before.fs
            }
        }),
        held(after, k as int) == held(before, k as int),
        after.mem == before.mem,
{
}

} // verus!
