//! What opening, closing, renaming and gathered writes leave behind, by number
//! and by byte.
use vstd::prelude::*;
use vstd::utf8::{decode_utf8, encode_utf8, valid_utf8};

use crate::environment::Environment;
use crate::fs::{
    open_faults, spliced, FileOp, Fs, GuestFile, GuestOpenOptions, IoErrorKind, Place,
};
use crate::libc::descriptor_laws::{file_in, law_open_descriptors, open_in, others_kept};
use crate::libc::file_laws::{held, place_in};
use crate::libc::posix_io::{
    byte_locked, bytes_from, clearerr_done, close_done, fcntl_done, flock_at, law_lowest_free,
    law_set_lock_bytes, lock_range, open_done, read_done, rename_error, target_of, wrapped_sum,
    write_done, writev_done, LockRange,
};
use crate::libc::stdio::{
    array_streams, errored, fgetpos_done, fread_done, fread_rest_done, ftell_done, fwrite_done,
    pushbacks_taken, pushed, remove_done, sfile_bytes, stream_set, tmp_counted,
};
use crate::libc::stdio_laws::{descriptor_at, law_ftell, nothing_pushed, streams_from};
use crate::mem::{le_bytes, le_u32, lemma_le_bytes_4, lemma_le_bytes_len, overlay, Mem};
use crate::memory_laws::law_word_bytes;
use crate::text::lossy_text;

verus! {

/// A descriptor that was opened remembers the path that was opened and whether
/// it may have to be synced, which is where it is not for reading alone. With
/// `O_SHLOCK` (`0x10`) it holds the shared lock (1) of the file and clears
/// `errno`; otherwise it holds none, and `errno` stays.
pub proof fn law_open_object(
    before: Environment,
    opened: Environment,
    path: int,
    flags: i32,
    fd: int,
)
    requires
        before.wf(),
        opened.wf(),
        open_done(before, opened, path, flags, fd),
        fd >= 0,
    ensures
        ({
            let o = opened.libc_state.posix_io.files@[fd - 3]->0;
            &&& o.needs_flush == (flags & 3 != 0)
            &&& o.path is Some
            &&& o.path->0@ == target_of(before, path, flags)
            &&& o.locks@.len() == 0
            &&& flags & 0x10 != 0 ==> o.flock_state == Some(1i16)
                && opened.libc_state.errno.value == 0
            &&& flags & 0x10 == 0 ==> o.flock_state is None && opened.libc_state.errno.value
                == before.libc_state.errno.value
            &&& opened.mem == before.mem
            &&& opened.console == before.console
        }),
{
    law_lowest_free(before.files(), 0);
}

/// A file that is not opened for reading cannot be read, and one that is opened
/// neither for writing nor for appending can neither be written nor be cut to a
/// length. Everything else can be done with either.
pub proof fn law_open_faults(options: GuestOpenOptions, op: FileOp)
    ensures
        open_faults(options).of(op) == (match op {
            FileOp::Read => if options.read {
                None
            } else {
                Some(IoErrorKind::Other)
            },
            FileOp::Write => if options.write || options.append {
                None
            } else {
                Some(IoErrorKind::Other)
            },
            FileOp::SetLen => if options.write || options.append {
                None
            } else {
                Some(IoErrorKind::InvalidInput)
            },
            _ => None,
        }),
{
}

/// A directory and a socket can be flushed, synced and duplicated, and nothing
/// else.
pub proof fn law_no_file(fs: Fs, op: FileOp)
    ensures
        ({
            let fine = op is Flush || op is Sync || op is Clone;
            &&& fs.fault(GuestFile::Directory, op) is None <==> fine
            &&& fs.fault(GuestFile::Socket, op) is None <==> fine
            &&& !fine ==> fs.fault(GuestFile::Directory, op) == Some(IoErrorKind::IsADirectory)
            &&& !fine ==> fs.fault(GuestFile::Socket, op) == Some(IoErrorKind::Unsupported)
        }),
{
}

/// A file that was opened for more than reading is synced as it is closed: its
/// bytes are no longer unsaved. Closing changes no byte of any file, and syncs no
/// other.
pub proof fn law_close_syncs(before: Environment, after: Environment, fd: int, r: int, k: usize)
    requires
        before.wf(),
        open_in(before, fd),
        file_in(before, fd) == GuestFile::Open(k),
        close_done(before, after, fd, r),
    ensures
        ({
            let i = before.fs.opens@[k as int].inode as int;
            let o = before.libc_state.posix_io.files@[fd - 3]->0;
            let syncs = o.needs_flush && before.fs.opens@[k as int].faults.sync is None;
            &&& after.fs.opens@ == before.fs.opens@
            &&& after.fs.nodes@ == before.fs.nodes@
            &&& after.fs.inodes@.len() == before.fs.inodes@.len()
            &&& forall|j: int|
                0 <= j < before.fs.inodes@.len() ==> (#[trigger] after.fs.inodes@[j]).data@
                    == before.fs.inodes@[j].data@ && (after.fs.inodes@[j].dirty <==> (
                before.fs.inodes@[j].dirty && !(syncs && j == i)))
        }),
{
    law_open_descriptors(before, fd);
    let n = before.fs.opens.len();
    assert(before.fs.opens@.len() == n);
}

/// After `clearerr` the descriptor's file no longer counts as at its end; nothing
/// else of it changes, nor do the others.
pub proof fn law_clearerr(before: Environment, after: Environment, fd: int)
    requires
        before.wf(),
        clearerr_done(before, after, fd),
    ensures
        after.libc_state.errno.value == 0,
        after.fs == before.fs,
        after.mem == before.mem,
        !open_in(before, fd) ==> after.libc_state.posix_io == before.libc_state.posix_io,
        open_in(before, fd) ==> {
            let a = after.libc_state.posix_io.files@[fd - 3]->0;
            let b = before.libc_state.posix_io.files@[fd - 3]->0;
            &&& open_in(after, fd)
            &&& !a.reached_eof
            &&& a.file == b.file
            &&& a.needs_flush == b.needs_flush
            &&& a.flags == b.flags
            &&& a.status_flags == b.status_flags
            &&& a.path == b.path
            &&& a.locks == b.locks
            &&& a.flock_state == b.flock_state
            &&& others_kept(before, after, fd)
        },
{
    law_open_descriptors(before, fd);
    if open_in(before, fd) {
        assert forall|g: int| g != fd && open_in(before, g) implies #[trigger] open_in(after, g)
            && after.libc_state.posix_io.files@[g - 3] == before.libc_state.posix_io.files@[g
            - 3] by {}
    }
}

/// Why `rename` refuses: no path, or one that is no text, is `EINVAL` (22), and an
/// empty one, or what the file system cannot rename, `ENOENT` (2). Nothing else is
/// refused.
pub proof fn law_rename_refused(env: Environment, from: int, to: int)
    ensures
        ({
            let a = env.mem.cstr(from);
            let b = env.mem.cstr(to);
            let named = from != 0 && to != 0 && valid_utf8(a) && valid_utf8(b);
            let fine = decode_utf8(a).len() > 0 && decode_utf8(b).len() > 0 && env.fs.can_rename(
                decode_utf8(a),
                decode_utf8(b),
            );
            &&& rename_error(env, from, to) is None <==> named && fine
            &&& !named ==> rename_error(env, from, to) == Some(22i32)
            &&& named && !fine ==> rename_error(env, from, to) == Some(2i32)
        }),
{
}

/// A file can neither be written nor be made longer than the largest file, and up
/// to that it can.
pub proof fn law_largest_file(fs: Fs, k: usize, at: int, n: int)
    requires
        0 <= n,
        fs.opens@[k as int].faults.write is None,
        fs.opens@[k as int].faults.set_len is None,
        fs.opens@[k as int].transfer_limit >= n,
    ensures
        ({
            let start = if fs.opens@[k as int].append {
                fs.inodes@[fs.opens@[k as int].inode as int].data@.len() as int
            } else {
                at
            };
            &&& fs.write_fault_at(GuestFile::Open(k), at, n) == if start + n <= fs.max_file_size {
                None
            } else {
                Some(IoErrorKind::Other)
            }
            &&& fs.set_len_fault(GuestFile::Open(k), n) == if n <= fs.max_file_size {
                None
            } else {
                Some(IoErrorKind::Other)
            }
        }),
{
}

/// How long the pieces from the `i`th to the `n`th are together: the lengths stand
/// in the second word of each entry of eight bytes.
pub open spec fn together(mem: Mem, iov: int, i: int, n: int) -> int
    decreases n - i,
{
    if i >= n {
        0
    } else {
        le_u32(mem@, iov + 8 * i + 4) + together(mem, iov, i + 1, n)
    }
}

/// What the pieces from the `i`th to the `n`th hold, one behind the other: where
/// they stand is in the first word of each entry.
pub open spec fn gathered(mem: Mem, iov: int, i: int, n: int) -> Seq<u8>
    decreases n - i,
{
    if i >= n {
        Seq::empty()
    } else {
        let at = le_u32(mem@, iov + 8 * i);
        let len = le_u32(mem@, iov + 8 * i + 4);
        mem@.subrange(at, at + len) + gathered(mem, iov, i + 1, n)
    }
}

/// The pieces from the `i`th to the `n`th are guest memory, and none is empty.
pub open spec fn pieces_fit(mem: Mem, iov: int, i: int, n: int) -> bool {
    forall|j: int|
        i <= j < n ==> {
            &&& 0 < #[trigger] le_u32(mem@, iov + 8 * j + 4)
            &&& 0 <= le_u32(mem@, iov + 8 * j)
            &&& le_u32(mem@, iov + 8 * j) + le_u32(mem@, iov + 8 * j + 4) <= mem@.len()
        }
}

proof fn lemma_together(mem: Mem, iov: int, i: int, n: int)
    requires
        pieces_fit(mem, iov, i, n),
    ensures
        together(mem, iov, i, n) >= 0,
        gathered(mem, iov, i, n).len() == together(mem, iov, i, n),
    decreases n - i,
{
    if i < n {
        assert(le_u32(mem@, iov + 8 * i + 4) > 0);
        lemma_together(mem, iov, i + 1, n);
    }
}

/// The descriptor stands for the open file number `k`, which can be written.
pub open spec fn takes_bytes(env: Environment, fd: int, k: usize, n: int) -> bool {
    let o = env.fs.opens@[k as int];
    &&& env.fd_open(fd)
    &&& 3 <= fd
    &&& env.file(fd) == GuestFile::Open(k)
    &&& k < env.fs.opens@.len()
    &&& o.inode < env.fs.inodes@.len()
    &&& o.faults.write is None
    &&& !o.append
    &&& n <= o.transfer_limit
    &&& o.position + n <= env.fs.max_file_size
}

/// A gathered write to a file puts its pieces there in order, one behind the
/// other, from the position on. It counts all of their bytes, and leaves the
/// position behind them and the rest of the file as it was.
pub proof fn law_writev_bytes(
    before: Environment,
    after: Environment,
    fd: int,
    iov: int,
    i: int,
    n: int,
    sum: int,
    r: int,
    k: usize,
)
    requires
        0 <= i <= n,
        0 <= sum,
        pieces_fit(before.mem, iov, i, n),
        takes_bytes(before, fd, k, together(before.mem, iov, i, n)),
        sum + together(before.mem, iov, i, n) < 0x8000_0000,
        writev_done(before, after, fd, iov, i, n, sum, r),
    ensures
        r == sum + together(before.mem, iov, i, n),
        after.mem == before.mem,
        after.fs.opens@[k as int].inode == before.fs.opens@[k as int].inode,
        ({
            let all = gathered(before.mem, iov, i, n);
            let b = held(before, k as int);
            let a = held(after, k as int);
            let at = place_in(before, k as int);
            &&& place_in(after, k as int) == at + all.len()
            &&& i < n ==> a.len() == if at + all.len() > b.len() {
                at + all.len()
            } else {
                b.len() as int
            }
            &&& i == n ==> a == b
            &&& forall|j: int| 0 <= j < all.len() ==> a[at + j] == #[trigger] all[j]
            &&& forall|j: int|
                0 <= j < b.len() && !(at <= j < at + all.len()) ==> a[j] == #[trigger] b[j]
            &&& forall|j: int| b.len() <= j < at && i < n ==> #[trigger] a[j] == 0
        }),
    decreases n - i,
{
    lemma_together(before.mem, iov, i, n);
    if i < n {
        let base = le_u32(before.mem@, iov + 8 * i);
        let len = le_u32(before.mem@, iov + 8 * i + 4);
        assert(len > 0);
        lemma_together(before.mem, iov, i + 1, n);
        let (mid, c) = choose|mid: Environment, c: int| #[trigger]
            write_done(before, mid, fd, base, len, c) && (if c == -1 {
                r == -1 && after == mid
            } else {
                writev_done(mid, after, fd, iov, i + 1, n, wrapped_sum(sum, c), r)
            });
        let data = before.mem@.subrange(base, base + len);
        assert(bytes_from(before.mem, base, len) == data);
        assert(data.take(len) =~= data);
        assert(c == len);
        assert(mid.mem == before.mem);
        assert(mid.fd_open(fd) && mid.file(fd) == before.file(fd));
        let b = held(before, k as int);
        let m = held(mid, k as int);
        let at = place_in(before, k as int);
        assert(m == spliced(b, at, data));
        law_writev_bytes(mid, after, fd, iov, i + 1, n, sum + len, r, k);
        let rest = gathered(before.mem, iov, i + 1, n);
        let all = gathered(before.mem, iov, i, n);
        let a = held(after, k as int);
        assert(all == data + rest);
        assert forall|j: int| 0 <= j < all.len() implies a[at + j] == #[trigger] all[j] by {
            if j >= len {
                assert(all[j] == rest[j - len]);
                assert(a[at + len + (j - len)] == rest[j - len]);
            } else {
                assert(m[at + j] == data[j]);
                assert(a[at + j] == m[at + j]);
            }
        }
        assert forall|j: int| 0 <= j < b.len() && !(at <= j < at + all.len()) implies a[j]
            == #[trigger] b[j] by {
            assert(m[j] == b[j]);
        }
        assert forall|j: int| b.len() <= j < at implies #[trigger] a[j] == 0 by {
            assert(m[j] == 0);
        }
    }
}

/// The pieces from the `i`th to the `n`th as they are printed.
pub open spec fn printed(mem: Mem, iov: int, i: int, n: int) -> Seq<u8>
    decreases n - i,
{
    if i >= n {
        Seq::empty()
    } else {
        let at = le_u32(mem@, iov + 8 * i);
        let len = le_u32(mem@, iov + 8 * i + 4);
        encode_utf8(lossy_text(mem@.subrange(at, at + len))) + printed(mem, iov, i + 1, n)
    }
}

/// A gathered write to the standard output (1) or the standard error (2) prints
/// its pieces in order, and counts all of their bytes.
pub proof fn law_writev_prints(
    before: Environment,
    after: Environment,
    fd: int,
    iov: int,
    i: int,
    n: int,
    sum: int,
    r: int,
)
    requires
        fd == 1 || fd == 2,
        0 <= i <= n,
        0 <= sum,
        pieces_fit(before.mem, iov, i, n),
        sum + together(before.mem, iov, i, n) < 0x8000_0000,
        writev_done(before, after, fd, iov, i, n, sum, r),
    ensures
        r == sum + together(before.mem, iov, i, n),
        after.mem == before.mem,
        after.fs == before.fs,
        after.console.text@ == before.console.text@ + printed(before.mem, iov, i, n),
    decreases n - i,
{
    if i < n {
        let base = le_u32(before.mem@, iov + 8 * i);
        let len = le_u32(before.mem@, iov + 8 * i + 4);
        assert(len > 0);
        lemma_together(before.mem, iov, i + 1, n);
        let (mid, c) = choose|mid: Environment, c: int| #[trigger]
            write_done(before, mid, fd, base, len, c) && (if c == -1 {
                r == -1 && after == mid
            } else {
                writev_done(mid, after, fd, iov, i + 1, n, wrapped_sum(sum, c), r)
            });
        assert(bytes_from(before.mem, base, len) == before.mem@.subrange(base, base + len));
        assert(c == len);
        assert(mid.mem == before.mem);
        law_writev_prints(mid, after, fd, iov, i + 1, n, sum + len, r);
        let text = encode_utf8(lossy_text(before.mem@.subrange(base, base + len)));
        let rest = printed(before.mem, iov, i + 1, n);
        assert(printed(before.mem, iov, i, n) == text + rest);
        assert(before.console.text@ + text + rest =~= before.console.text@ + (text + rest));
    } else {
        assert(before.console.text@ + printed(before.mem, iov, i, n) =~= before.console.text@);
    }
}

/// A gathered write ends with the first piece that is refused, with -1: nothing of
/// the pieces behind it is written.
pub proof fn law_writev_stops(
    before: Environment,
    after: Environment,
    fd: int,
    iov: int,
    n: int,
    sum: int,
    r: int,
)
    requires
        before.wf(),
        0 < n,
        fd >= 3 || fd <= 0,
        writev_done(before, after, fd, iov, 0, n, sum, r),
    ensures
        !open_in(before, fd) ==> r == -1 && after.libc_state.errno.value == 9 && after.fs
            == before.fs && after.console == before.console,
        open_in(before, fd) && (file_in(before, fd) matches GuestFile::Open(k)
            && before.fs.opens@[k as int].faults.write is Some) ==> r == -1 && after.fs
            == before.fs && after.console == before.console,
{
    law_open_descriptors(before, fd);
    let base = le_u32(before.mem@, iov);
    let len = le_u32(before.mem@, iov + 4);
    let (mid, c) = choose|mid: Environment, c: int| #[trigger]
        write_done(before, mid, fd, base, len, c) && (if c == -1 {
            r == -1 && after == mid
        } else {
            writev_done(mid, after, fd, iov, 1, n, wrapped_sum(sum, c), r)
        });
}

/// A lock over the byte is among those that are held.
pub open spec fn locks_byte(locks: Seq<LockRange>, b: int, t: i16) -> bool {
    exists|i: int|
        0 <= i < locks.len() && (#[trigger] locks[i]).start <= b < locks[i].end
            && locks[i].lock_type == t
}

/// After a lock was set by the command 8 or 9, each byte of its range is locked as
/// was asked, shared (1) or for writing (3), or not at all where it was cleared
/// (2). Every other byte is locked as it was before.
pub proof fn law_locked_bytes(
    before: Environment,
    after: Environment,
    fd: int,
    cmd: int,
    arg: int,
    r: int,
    range: LockRange,
    b: int,
    t: i16,
)
    requires
        before.wf(),
        open_in(before, fd),
        cmd == 8 || cmd == 9,
        before.mem.valid(arg, 24),
        lock_range(before, fd, flock_at(before.mem, arg)) == Ok::<LockRange, i32>(range),
        fcntl_done(before, after, fd, cmd, arg, r),
    ensures
        ({
            let held_before = before.libc_state.posix_io.files@[fd - 3]->0.locks@;
            let held_after = after.libc_state.posix_io.files@[fd - 3]->0.locks@;
            locks_byte(held_after, b, t) <==> if range.start <= b < range.end {
                t == range.lock_type && t != 2
            } else {
                locks_byte(held_before, b, t)
            }
        }),
{
    law_open_descriptors(before, fd);
    let was = before.libc_state.posix_io.files@[fd - 3]->0.locks@;
    let is = after.libc_state.posix_io.files@[fd - 3]->0.locks@;
    law_set_lock_bytes(was, range, b, t);
    lemma_locks_byte(was, b, t);
    lemma_locks_byte(is, b, t);
}

proof fn lemma_locks_byte(locks: Seq<LockRange>, b: int, t: i16)
    ensures
        locks_byte(locks, b, t) == byte_locked(locks, b, t),
{
    if locks_byte(locks, b, t) {
        let i = choose|i: int|
            0 <= i < locks.len() && (#[trigger] locks[i]).start <= b < locks[i].end
                && locks[i].lock_type == t;
        assert(locks[i].covers(b));
    }
    if byte_locked(locks, b, t) {
        let i = choose|i: int|
            0 <= i < locks.len() && (#[trigger] locks[i]).covers(b) && locks[i].lock_type == t;
        assert(locks[i].start <= b < locks[i].end);
    }
}

/// A write to a stream whose descriptor is closed writes no item and leaves the
/// stream with an error, and so does a read that is to read something.
pub proof fn law_stream_errors(
    before: Environment,
    after: Environment,
    buffer: int,
    item_size: int,
    n_items: int,
    p: int,
    r: int,
)
    requires
        before.wf(),
        0 < p <= 0xffff_ffff,
        buffer != 0,
        item_size > 0,
        n_items > 0,
        item_size * n_items > 0,
        nothing_pushed(before, p),
        !open_in(before, descriptor_at(before, p)),
        descriptor_at(before, p) >= 3,
    ensures
        fwrite_done(before, after, buffer, item_size, n_items, p, r) ==> r == 0 && errored(after, p)
            && after.fs == before.fs && after.mem == before.mem,
        fread_done(before, after, buffer, item_size, n_items, p, r) ==> r == 0 && errored(after, p)
            && after.fs == before.fs,
{
    let fd = descriptor_at(before, p);
    let total = item_size * n_items;
    law_open_descriptors(before, fd);
    if fwrite_done(before, after, buffer, item_size, n_items, p, r) {
        let (written, n) = choose|written: Environment, n: int| #[trigger]
            write_done(before, written, fd, buffer, total, n) && (if n == -1 {
                r == 0 && stream_set(written, after, p, pushed(written, p), true)
            } else {
                r == n / item_size && after == written
            });
        assert(n == -1);
    }
    if fread_done(before, after, buffer, item_size, n_items, p, r) {
        assert(pushed(before, p) =~= Seq::empty());
        let taken = choose|taken: Environment| #[trigger]
            pushbacks_taken(before, taken, buffer, total, p) && fread_rest_done(
                taken,
                after,
                buffer,
                total,
                0,
                item_size,
                p,
                r,
            );
        assert(taken.mem@ =~= before.mem@);
        let (read, n) = choose|read: Environment, n: int| #[trigger]
            read_done(taken, read, fd, buffer, total, n) && (if n == -1 {
                &&& stream_set(read, after, p, pushed(read, p), true)
                &&& r == 0int / item_size
            } else {
                after == read && r == (n + 0) / item_size
            });
        assert(n == -1);
        assert(0int / item_size == 0) by (nonlinear_arith)
            requires
                item_size > 0,
        ;
    }
}

/// `remove` takes away the one name that the path leads to. The other names stay
/// in their order, and the bytes of the files stay too, for those that have them
/// open.
pub proof fn law_removed(before: Environment, after: Environment, path: int, k: usize, r: int)
    requires
        before.wf(),
        remove_done(before, after, path, r),
        r == 0,
        before.fs.place(decode_utf8(before.mem.cstr(path))) == Place::Node(k),
        k < before.fs.nodes@.len(),
    ensures
        path != 0,
        after.libc_state.errno.value == 0,
        after.mem == before.mem,
        after.fs.inodes == before.fs.inodes,
        after.fs.opens == before.fs.opens,
        after.fs.nodes@.len() == before.fs.nodes@.len() - 1,
        forall|i: int|
            0 <= i < before.fs.nodes@.len() && i != k ==> #[trigger] before.fs.nodes@[i]
                == after.fs.nodes@[if i < k {
                i
            } else {
                i - 1
            }],
{
}

proof fn lemma_eight_bytes(v: int)
    requires
        0 <= v,
    ensures
        le_bytes(v, 8).len() == 8,
        le_bytes(v, 8) == le_bytes(v % 0x1_0000_0000, 4) + le_bytes(v / 0x1_0000_0000, 4),
{
    let low = v % 0x1_0000_0000;
    lemma_le_bytes_len(v, 8);
    lemma_le_bytes_4(low);
    reveal_with_fuel(le_bytes, 5);
    let top = v / 0x100 / 0x100 / 0x100 / 0x100;
    assert(top == v / 0x1_0000_0000);
    assert(v % 0x100 == low % 0x100);
    assert(v / 0x100 % 0x100 == low / 0x100 % 0x100);
    assert(v / 0x100 / 0x100 % 0x100 == low / 0x1_0000 % 0x100);
    assert(v / 0x100 / 0x100 / 0x100 % 0x100 == low / 0x100_0000 % 0x100);
    assert(le_bytes(v, 8) =~= seq![
        (v % 0x100) as u8,
        (v / 0x100 % 0x100) as u8,
        (v / 0x100 / 0x100 % 0x100) as u8,
        (v / 0x100 / 0x100 / 0x100 % 0x100) as u8,
    ] + le_bytes(top, 4));
}

/// `fgetpos` puts down the position of the file behind a stream in eight bytes,
/// the low ones first, and nothing else.
pub proof fn law_fgetpos(
    before: Environment,
    after: Environment,
    p: int,
    pos: int,
    k: usize,
    r: int,
)
    requires
        streams_from(before, p, k),
        before.fs.opens@[k as int].seekable,
        before.fs.opens@[k as int].faults.tell is None,
        before.fs.opens@[k as int].faults.seek is None,
        place_in(before, k as int) <= 0x7fff_ffff_ffff_ffff,
        before.mem.valid(pos, 8),
        fgetpos_done(before, after, p, pos, r),
    ensures
        r == 0,
        le_u32(after.mem@, pos) + 0x1_0000_0000 * le_u32(after.mem@, pos + 4) == place_in(
            before,
            k as int,
        ),
        forall|i: int|
            0 <= i < before.mem@.len() && !(pos <= i < pos + 8) ==> #[trigger] after.mem@[i]
                == before.mem@[i],
        place_in(after, k as int) == place_in(before, k as int),
        held(after, k as int) == held(before, k as int),
{
    let (told, at) = choose|told: Environment, at: int| #[trigger]
        ftell_done(before, told, p, at) && (if at == -1 {
            r == -1 && after == told
        } else {
            &&& r == 0
            &&& after == told.with_mem(after.mem)
            &&& after.mem.stored(told.mem, pos, le_bytes(at, 8))
        });
    law_ftell(before, told, p, k, at);
    assert(told.mem == before.mem);
    lemma_eight_stored(before.mem, after.mem, pos, at);
}

proof fn lemma_eight_stored(before: Mem, after: Mem, pos: int, at: int)
    requires
        0 <= at < 0x1_0000_0000_0000_0000,
        0 <= pos,
        pos + 8 <= before@.len(),
        after.stored(before, pos, le_bytes(at, 8)),
    ensures
        le_u32(after@, pos) + 0x1_0000_0000 * le_u32(after@, pos + 4) == at,
        forall|i: int|
            0 <= i < before@.len() && !(pos <= i < pos + 8) ==> #[trigger] after@[i] == before@[i],
{
    let low = (at % 0x1_0000_0000) as u32;
    let high = (at / 0x1_0000_0000) as u32;
    let l = le_bytes(low as int, 4);
    let h = le_bytes(high as int, 4);
    lemma_eight_bytes(at);
    assert(at == low + 0x1_0000_0000 * high);
    assert(le_u32(l, 0) == low && l.len() == 4) by {
        law_word_bytes(low);
    }
    assert(le_u32(h, 0) == high && h.len() == 4) by {
        law_word_bytes(high);
    }
    assert(after@ == overlay(before@, pos, l + h));
    assert(after@[pos] == l[0] && after@[pos + 1] == l[1] && after@[pos + 2] == l[2] && after@[pos
        + 3] == l[3]);
    assert(after@[pos + 4] == h[0] && after@[pos + 5] == h[1] && after@[pos + 6] == h[2]
        && after@[pos + 7] == h[3]);
    assert(le_u32(after@, pos) == le_u32(l, 0));
    assert(le_u32(after@, pos + 4) == le_u32(h, 0));
}

/// The array of the three standard streams has an entry every 88 bytes, each of
/// which starts with its descriptor: 0, 1 and 2. They are streams with nothing
/// pushed back and no error.
pub proof fn law_standard_streams(before: Environment, after: Environment, r: int, i: int)
    requires
        0 <= i < 3,
        0 <= r,
        r + 264 <= 0xffff_ffff,
        array_streams(before, after, r),
    ensures
        sfile_bytes().len() == 264,
        sfile_bytes()[88 * i] == i,
        forall|j: int| 88 * i < j < 88 * i + 88 ==> #[trigger] sfile_bytes()[j] == 0,
        nothing_pushed(after, r + 88 * i),
        !errored(after, r + 88 * i),
        after.libc_state.stdio.file_streams@.contains_key((r + 88 * i) as u32),
{
    let (first, second) = choose|first: Environment, second: Environment|
        {
            &&& #[trigger] stream_set(before, first, r, Seq::empty(), false)
            &&& #[trigger] stream_set(first, second, r + 88, Seq::empty(), false)
            &&& stream_set(second, after, r + 176, Seq::empty(), false)
        };
    assert((r as u32) != ((r + 88) as u32) && (r as u32) != ((r + 176) as u32));
    assert(((r + 88) as u32) != ((r + 176) as u32));
}

/// Each temporary file has the number behind that of the one before, and the
/// largest number is followed by 0.
pub proof fn law_tmp_counted(before: Environment)
    ensures
        ({
            let b = before.libc_state.stdio.tmpfile_counter;
            let a = tmp_counted(before).libc_state.stdio.tmpfile_counter;
            &&& b < 0xffff_ffff ==> a == b + 1
            &&& b == 0xffff_ffff ==> a == 0
            &&& tmp_counted(before).libc_state.stdio.file_streams
                == before.libc_state.stdio.file_streams
            &&& tmp_counted(before).fs == before.fs
            &&& tmp_counted(before).mem == before.mem
        }),
{
}

} // verus!
