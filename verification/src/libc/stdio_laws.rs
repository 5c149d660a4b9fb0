//! What streams read and write, in terms of the bytes of the files behind them.
use vstd::prelude::*;

use crate::environment::Environment;
use crate::fs::{spliced, FsError, GuestFile};
use crate::libc::descriptor_laws::{file_in, law_open_descriptors, open_in, others_kept, refused};
use crate::libc::file_laws::{held, law_write_bytes, place_in};
use crate::libc::getopt_laws::{in_heap, lemma_placed};
use crate::libc::posix_io::{close_done, open_done, read_done, write_done};
use crate::libc::stdio::{
    chunk_taken, errored, fclose_done, fgetc_done, fgets_done, fgets_loop, fopen_done, fputc_done,
    fread_done, fread_rest_done, freopen_done, freopen_open_done, fseek_done, ftell_done,
    fwrite_done, mode_flags, pushbacks_taken, pushed, remove_errno, stream_set, tmp_mode, tmp_name,
    tmp_prefix, ungetc_done,
};
use crate::mem::{le_bytes, le_u32, lemma_le_bytes_4, signed32, unsigned32};
use crate::text::decimal;

verus! {

/// The descriptor that the `FILE` at `p` holds.
pub open spec fn descriptor_at(env: Environment, p: int) -> int {
    signed32(le_u32(env.mem@, p))
}

/// Nothing was pushed back to the stream.
pub open spec fn nothing_pushed(env: Environment, p: int) -> bool {
    let streams = env.libc_state.stdio.file_streams@;
    streams.contains_key(p as u32) ==> streams[p as u32].pushbacks@.len() == 0
}

/// The stream stands for the open file number `k`.
pub open spec fn streams_from(env: Environment, p: int, k: usize) -> bool {
    &&& env.wf()
    &&& 0 < p <= 0xffff_ffff
    &&& env.mem.valid(p, 4)
    &&& open_in(env, descriptor_at(env, p))
    &&& file_in(env, descriptor_at(env, p)) == GuestFile::Open(k)
}

/// What a mode opens a file for: `r` for reading, `w` for writing what is made
/// or emptied, and `a` for writing at the end of what is made. A plus, anywhere
/// behind the first letter, adds the other of reading and writing. Anything else
/// is no mode.
pub proof fn law_modes(mode: Seq<u8>)
    ensures
        ({
            let plus = exists|i: int| 1 <= i < mode.len() && #[trigger] mode[i] == 0x2b;
            let flags = mode_flags(mode);
            &&& mode.len() == 0 || (mode[0] != 0x72 && mode[0] != 0x77 && mode[0] != 0x61)
                ==> flags is None
            &&& mode.len() > 0 && mode[0] == 0x72 ==> flags == Some(
                if plus {
                    2i32
                } else {
                    0
                },
            )
            &&& mode.len() > 0 && mode[0] == 0x77 ==> flags == Some(
                if plus {
                    0x602i32
                } else {
                    0x601
                },
            )
            &&& mode.len() > 0 && mode[0] == 0x61 ==> flags == Some(
                if plus {
                    0x20ai32
                } else {
                    0x209
                },
            )
        }),
{
    assert(2i32 | 0x200i32 | 0x400i32 == 0x602i32 && 1i32 | 0x200i32 | 0x400i32 == 0x601i32 && 2i32
        | 8i32 | 0x200i32 == 0x20ai32 && 1i32 | 8i32 | 0x200i32 == 0x209i32) by (bit_vector);
    if mode.len() > 0 {
        let tail = mode.skip(1);
        if tail.contains(0x2b) {
            let j = choose|j: int| 0 <= j < tail.len() && tail[j] == 0x2b;
            assert(mode[j + 1] == 0x2b);
        }
        if exists|i: int| 1 <= i < mode.len() && #[trigger] mode[i] == 0x2b {
            let i = choose|i: int| 1 <= i < mode.len() && #[trigger] mode[i] == 0x2b;
            assert(tail[i - 1] == 0x2b);
        }
    }
}

/// Opening a stream opens its file with the flags of the mode; the `FILE` that
/// is made holds the descriptor, nothing is pushed back to it and it has no
/// error. Where the file cannot be opened the result is null, and what is no mode
/// is refused with `EINVAL` (22).
#[verifier::rlimit(60)]
pub proof fn law_fopen(
    before: Environment,
    after: Environment,
    filename: int,
    mode: int,
    r: int,
)
    requires
        before.wf(),
        0 <= r <= 0xffff_ffff,
        fopen_done(before, after, filename, mode, r),
    ensures
        match mode_flags(before.mem.cstr(mode)) {
            None => r == 0 && refused(before, after, 22),
            Some(flags) => exists|opened: Environment, fd: int|
                {
                    &&& #[trigger] open_done(before, opened, filename, flags, fd)
                    &&& fd == -1 ==> r == 0 && after == opened
                    &&& fd != -1 ==> {
                        &&& r != 0
                        &&& -0x8000_0000 <= fd < 0x8000_0000 ==> descriptor_at(after, r) == fd
                        &&& nothing_pushed(after, r)
                        &&& after.libc_state.stdio.file_streams@.contains_key(r as u32)
                        &&& !after.libc_state.stdio.file_streams@[r as u32].error
                        &&& after.fs == opened.fs
                        &&& after.libc_state.posix_io == opened.libc_state.posix_io
                    }
                },
        },
{
    if let Some(flags) = mode_flags(before.mem.cstr(mode)) {
        let (opened, fd) = choose|opened: Environment, fd: int| #[trigger]
            open_done(before, opened, filename, flags, fd) && (if fd == -1 {
                r == 0 && after == opened
            } else {
                &&& stream_set(opened.with_mem(after.mem), after, r, Seq::empty(), false)
                &&& after.mem.placed(opened.mem, r as u32, le_bytes(unsigned32(fd), 4))
                &&& r > 0
            });
        assert(open_done(before, opened, filename, flags, fd));
        lemma_le_bytes_4(unsigned32(fd));
    }
}

/// A byte that is read from a stream, to which nothing was pushed back, is the
/// byte of the file at its position, which moves behind it; at the end there is
/// none, and the result is -1.
pub proof fn law_fgetc_byte(before: Environment, after: Environment, p: int, k: usize, r: int)
    requires
        streams_from(before, p, k),
        nothing_pushed(before, p),
        before.fs.opens@[k as int].faults.read is None,
        before.fs.opens@[k as int].transfer_limit > 0,
        fgetc_done(before, after, p, r),
    ensures
        ({
            let b = held(before, k as int);
            let at = place_in(before, k as int);
            &&& at < b.len() ==> r == b[at] && place_in(after, k as int) == at + 1
            &&& at >= b.len() ==> r == -1 && place_in(after, k as int) == at
            &&& held(after, k as int) == b
        }),
{
    let fd = descriptor_at(before, p);
    law_open_descriptors(before, fd);
    assert(pushed(before, p) =~= Seq::empty());
    let (known, taken, read, buf, n) = choose|
        known: Environment,
        taken: Environment,
        read: Environment,
        buf: u32,
        n: int,
    |
        {
            &&& #[trigger] stream_set(
                before.with_errno(0),
                known,
                p,
                Seq::empty(),
                errored(before, p),
            )
            &&& #[trigger] chunk_taken(known, taken, buf, 1)
            &&& #[trigger] read_done(taken, read, fd, buf as int, 1, n)
            &&& if n == -1 {
                r == -1 && stream_set(read, after, p, Seq::empty(), true)
            } else if n < 1 {
                r == -1 && after == read
            } else {
                r == read.mem@[buf as int] && after == read
            }
        };
    assert(taken.fd_open(fd) && taken.file(fd) == GuestFile::Open(k));
    assert(taken.fs == before.fs);
    let data = taken.fs.read_bytes(k as int, 1);
    let b = held(before, k as int);
    let at = place_in(before, k as int);
    if at < b.len() {
        assert(data.len() == 1 && data[0] == b[at]);
    } else {
        assert(data.len() == 0);
    }
}

/// A byte that is pushed back lies on top of those before it, and the position
/// goes back by one.
pub proof fn law_ungetc(
    before: Environment,
    after: Environment,
    c: int,
    p: int,
    k: usize,
    r: int,
)
    requires
        streams_from(before, p, k),
        0 <= c <= 0xff,
        place_in(before, k as int) > 0,
        ungetc_done(before, after, c, p, r),
    ensures
        r == c,
        place_in(after, k as int) == place_in(before, k as int) - 1,
        held(after, k as int) == held(before, k as int),
        ({
            let s = after.libc_state.stdio.file_streams@;
            let old_s = before.libc_state.stdio.file_streams@;
            let b = if old_s.contains_key(p as u32) {
                old_s[p as u32].pushbacks@
            } else {
                Seq::empty()
            };
            &&& s.contains_key(p as u32)
            &&& s[p as u32].pushbacks@ == b.push(c as u8)
        }),
{
    law_open_descriptors(before, descriptor_at(before, p));
}

/// What is read from a stream, to which nothing was pushed back: the bytes of the
/// file from its position on, as many as are asked for and there are, and as many
/// items as are whole.
pub proof fn law_fread_bytes(
    before: Environment,
    after: Environment,
    buffer: int,
    item_size: int,
    n_items: int,
    total: int,
    p: int,
    k: usize,
    r: int,
)
    requires
        streams_from(before, p, k),
        nothing_pushed(before, p),
        item_size > 0,
        total == item_size * n_items,
        0 < total < 0x8000_0000,
        before.mem.valid(buffer, total),
        before.fs.opens@[k as int].faults.read is None,
        before.fs.opens@[k as int].transfer_limit >= total,
        fread_done(before, after, buffer, item_size, n_items, p, r),
    ensures
        ({
            let b = held(before, k as int);
            let at = place_in(before, k as int);
            let left = if at < b.len() {
                b.len() - at
            } else {
                0
            };
            let n = if total < left {
                total
            } else {
                left
            };
            &&& r == n / item_size
            &&& place_in(after, k as int) == at + n
            &&& held(after, k as int) == b
            &&& forall|i: int| 0 <= i < n ==> after.mem@[buffer + i] == #[trigger] b[at + i]
            &&& forall|i: int|
                0 <= i < before.mem@.len() && !(buffer <= i < buffer + n)
                    ==> #[trigger] after.mem@[i] == before.mem@[i]
        }),
{
    let fd = descriptor_at(before, p);
    law_open_descriptors(before, fd);
    assert(pushed(before, p) =~= Seq::empty());
    let taken = choose|taken: Environment| #[trigger]
        pushbacks_taken(before, taken, buffer, total, p) && fread_rest_done(
            taken,
            after,
            buffer,
            total,
            0,
            item_size,
            p,
            r,
        );
    assert(taken.mem@ =~= before.mem@);
    assert(taken.fd_open(fd) && taken.file(fd) == GuestFile::Open(k));
    let (read, n) = choose|read: Environment, n: int| #[trigger]
        read_done(taken, read, fd, buffer, total, n) && (if n == -1 {
            &&& stream_set(read, after, p, pushed(read, p), true)
            &&& r == 0int / item_size
        } else {
            after == read && r == (n + 0) / item_size
        });
    lemma_read(taken, read, fd, buffer, total, n, k);
}

proof fn lemma_read(
    before: Environment,
    after: Environment,
    fd: int,
    buffer: int,
    size: int,
    r: int,
    k: usize,
)
    requires
        before.fd_open(fd),
        before.file(fd) == GuestFile::Open(k),
        0 < size < 0x8000_0000,
        before.mem.valid(buffer, size),
        before.fs.opens@[k as int].faults.read is None,
        before.fs.opens@[k as int].transfer_limit >= size,
        read_done(before, after, fd, buffer, size, r),
        k < before.fs.opens@.len(),
    ensures
        ({
            let b = held(before, k as int);
            let at = place_in(before, k as int);
            let left = if at < b.len() {
                b.len() - at
            } else {
                0
            };
            &&& r == if size < left {
                size
            } else {
                left
            }
            &&& place_in(after, k as int) == at + r
            &&& held(after, k as int) == b
            &&& forall|i: int| 0 <= i < r ==> after.mem@[buffer + i] == #[trigger] b[at + i]
            &&& forall|i: int|
                0 <= i < before.mem@.len() && !(buffer <= i < buffer + r)
                    ==> #[trigger] after.mem@[i] == before.mem@[i]
        }),
{
    let b = held(before, k as int);
    let at = place_in(before, k as int);
    let n = before.fs.inodes@[before.fs.opens@[k as int].inode as int].data.len();
    assert(n == b.len());
    let data = before.fs.read_bytes(k as int, size);
    assert(r == data.len());
    assert forall|i: int| 0 <= i < r implies after.mem@[buffer + i] == #[trigger] b[at + i] by {
        assert(data[i] == b[at + i]);
    }
}

/// What was pushed back comes first, the last of it in front.
pub proof fn law_fread_pushed(
    before: Environment,
    after: Environment,
    buffer: int,
    total: int,
    p: int,
    r: int,
)
    requires
        before.wf(),
        0 < p <= 0xffff_ffff,
        before.mem.valid(buffer, total),
        before.libc_state.stdio.file_streams@.contains_key(p as u32),
        0 < total <= before.libc_state.stdio.file_streams@[p as u32].pushbacks@.len(),
        fread_done(before, after, buffer, 1, total, p, r),
    ensures
        ({
            let b = before.libc_state.stdio.file_streams@[p as u32].pushbacks@;
            &&& r == total
            &&& forall|i: int| 0 <= i < total ==> #[trigger] after.mem@[buffer + i] == b[b.len() - 1
                - i]
            &&& after.libc_state.stdio.file_streams@[p as u32].pushbacks@ == b.take(
                b.len() - total,
            )
            &&& after.fs == before.fs
        }),
{
    let b = before.libc_state.stdio.file_streams@[p as u32].pushbacks@;
    assert(1 * total == total);
    assert(pushbacks_taken(before, after, buffer, total, p));
    let kept = b.len() - total;
    let data = b.skip(kept).reverse();
    assert forall|i: int| 0 <= i < total implies #[trigger] after.mem@[buffer + i] == b[b.len() - 1
        - i] by {
        assert(data[i] == b[b.len() - 1 - i]);
    }
}

/// What is written to a stream that stands for a file goes there as it does
/// through the descriptor: from the position on, or to the end where the file is
/// appended to. The items that are whole count.
pub proof fn law_fwrite_bytes(
    before: Environment,
    after: Environment,
    buffer: int,
    item_size: int,
    n_items: int,
    total: int,
    p: int,
    k: usize,
    r: int,
)
    requires
        streams_from(before, p, k),
        buffer != 0,
        item_size > 0,
        total == item_size * n_items,
        0 < total < 0x8000_0000,
        before.mem.valid(buffer, total),
        before.fs.opens@[k as int].faults.write is None,
        before.fs.opens@[k as int].transfer_limit >= total,
        ({
            let at = if before.fs.opens@[k as int].append {
                held(before, k as int).len() as int
            } else {
                place_in(before, k as int)
            };
            at + total <= before.fs.max_file_size
        }),
        fwrite_done(before, after, buffer, item_size, n_items, p, r),
    ensures
        r == total / item_size,
        ({
            let b = held(before, k as int);
            let a = held(after, k as int);
            let at = if before.fs.opens@[k as int].append {
                b.len() as int
            } else {
                place_in(before, k as int)
            };
            &&& a.len() == if at + total > b.len() {
                at + total
            } else {
                b.len() as int
            }
            &&& forall|i: int| 0 <= i < total ==> a[at + i] == #[trigger] before.mem@[buffer + i]
            &&& forall|i: int|
                0 <= i < b.len() && !(at <= i < at + total) ==> a[i] == #[trigger] b[i]
            &&& place_in(after, k as int) == at + total
        }),
        after.mem == before.mem,
{
    let fd = descriptor_at(before, p);
    law_open_descriptors(before, fd);
    let (written, n) = choose|written: Environment, n: int| #[trigger]
        write_done(before, written, fd, buffer, total, n) && (if n == -1 {
            r == 0 && stream_set(written, after, p, pushed(written, p), true)
        } else {
            r == n / item_size && after == written
        });
    assert(n == total);
    law_write_bytes(before, written, fd, buffer, total, n, k);
}

/// What is written to the stream of the standard output (1) or the standard error
/// (2) goes behind what was written there before; a stream that takes nothing
/// more writes nothing, and has an error.
pub proof fn law_fwrite_prints(
    before: Environment,
    after: Environment,
    buffer: int,
    item_size: int,
    n_items: int,
    total: int,
    p: int,
    r: int,
)
    requires
        0 < p <= 0xffff_ffff,
        buffer != 0,
        item_size > 0,
        total == item_size * n_items,
        0 < total,
        before.mem.valid(buffer, total),
        fwrite_done(before, after, buffer, item_size, n_items, p, r),
    ensures
        descriptor_at(before, p) == 1 && !before.console.broken && total
            <= before.console.transfer_limit ==> {
            &&& r == total / item_size
            &&& after.console.text@ == before.console.text@ + before.mem@.subrange(
                buffer,
                buffer + total,
            )
            &&& after.error_console == before.error_console
            &&& after.fs == before.fs
        },
        descriptor_at(before, p) == 2 && !before.error_console.broken && total
            <= before.error_console.transfer_limit ==> {
            &&& r == total / item_size
            &&& after.error_console.text@ == before.error_console.text@ + before.mem@.subrange(
                buffer,
                buffer + total,
            )
            &&& after.console == before.console
            &&& after.fs == before.fs
        },
        descriptor_at(before, p) == 1 && before.console.broken || descriptor_at(before, p) == 2
            && before.error_console.broken ==> {
            &&& r == 0
            &&& after.libc_state.stdio.file_streams@.contains_key(p as u32)
            &&& after.libc_state.stdio.file_streams@[p as u32].error
        },
{
    let data = before.mem@.subrange(buffer, buffer + total);
    assert(data.take(total) =~= data);
}

/// A byte that is written to a stream, which stands for a file, is the low byte
/// of the argument, at the position of the file or at its end.
pub proof fn law_fputc_byte(
    before: Environment,
    after: Environment,
    c: int,
    p: int,
    k: usize,
    r: int,
)
    requires
        streams_from(before, p, k),
        0 <= c <= 0xff,
        before.fs.opens@[k as int].faults.write is None,
        before.fs.opens@[k as int].transfer_limit > 0,
        in_heap(before.mem, p),
        ({
            let at = if before.fs.opens@[k as int].append {
                held(before, k as int).len() as int
            } else {
                place_in(before, k as int)
            };
            at < before.fs.max_file_size
        }),
        fputc_done(before, after, c, p, r),
    ensures
        r == 1,
        ({
            let b = held(before, k as int);
            let a = held(after, k as int);
            let at = if before.fs.opens@[k as int].append {
                b.len() as int
            } else {
                place_in(before, k as int)
            };
            &&& a[at] == c
            &&& a.len() == if at + 1 > b.len() {
                at + 1
            } else {
                b.len() as int
            }
            &&& forall|i: int| 0 <= i < b.len() && i != at ==> a[i] == #[trigger] b[i]
            &&& place_in(after, k as int) == at + 1
        }),
{
    let fd = descriptor_at(before, p);
    law_open_descriptors(before, fd);
    let byte = (unsigned32(c) % 0x100) as u8;
    let (stored, written, ptr) = choose|stored: Environment, written: Environment, ptr: u32|
        {
            &&& stored == before.with_errno(0).with_mem(stored.mem)
            &&& #[trigger] stored.mem.placed(before.mem, ptr, seq![byte])
            &&& #[trigger] fwrite_done(stored, written, ptr as int, 1, 1, p, r)
            &&& after == written.with_mem(after.mem)
            &&& after.mem.bytes == written.mem.bytes
            &&& after.mem.chunk_removed(written.mem, ptr)
        };
    lemma_placed(before.mem, stored.mem, ptr, seq![byte], p);
    assert(descriptor_at(stored, p) == fd);
    assert(stored.mem@[ptr as int] == byte);
    assert(stored.fd_open(fd) && stored.file(fd) == GuestFile::Open(k));
    let (wrote, n) = choose|wrote: Environment, n: int| #[trigger]
        write_done(stored, wrote, fd, ptr as int, 1, n) && (if n == -1 {
            r == 0 && stream_set(wrote, written, p, pushed(wrote, p), true)
        } else {
            r == n / 1int && written == wrote
        });
    assert(1int * 1 == 1);
    assert(n == 1);
    let at = if before.fs.opens@[k as int].append {
        held(before, k as int).len() as int
    } else {
        place_in(before, k as int)
    };
    let data = stored.mem@.subrange(ptr as int, ptr + 1);
    assert(data.take(1)[0] == byte);
    assert(held(after, k as int) == spliced(held(before, k as int), at, data.take(1)));
}

/// Seeking moves the position of the file behind a stream, and drops what was
/// pushed back: 0 counts from the start, 1 from the position and 2 from the end.
///
pub proof fn law_fseek(
    before: Environment,
    after: Environment,
    p: int,
    offset: int,
    whence: int,
    k: usize,
    r: int,
)
    requires
        streams_from(before, p, k),
        before.fs.opens@[k as int].seekable,
        before.fs.opens@[k as int].faults.tell is None,
        before.fs.opens@[k as int].faults.len is None,
        before.fs.opens@[k as int].faults.seek is None,
        fseek_done(before, after, p, offset, whence, r),
    ensures
        ({
            let to = offset + if whence == 0 {
                0
            } else if whence == 1 {
                place_in(before, k as int)
            } else {
                held(before, k as int).len() as int
            };
            if whence < 0 || whence > 2 || to < 0 {
                r == -1 && refused(before, after, 22)
            } else if to > 0x7fff_ffff_ffff_ffff {
                r == -1 && refused(before, after, 84)
            } else {
                &&& r == 0
                &&& place_in(after, k as int) == to
                &&& held(after, k as int) == held(before, k as int)
                &&& nothing_pushed(after, p)
                &&& after.mem == before.mem
            }
        }),
{
    law_open_descriptors(before, descriptor_at(before, p));
}

/// Telling gives the position of the file behind a stream, and leaves it there.
pub proof fn law_ftell(before: Environment, after: Environment, p: int, k: usize, r: int)
    requires
        streams_from(before, p, k),
        before.fs.opens@[k as int].seekable,
        before.fs.opens@[k as int].faults.tell is None,
        before.fs.opens@[k as int].faults.seek is None,
        place_in(before, k as int) <= 0x7fff_ffff_ffff_ffff,
        ftell_done(before, after, p, r),
    ensures
        r == place_in(before, k as int),
        place_in(after, k as int) == place_in(before, k as int),
        held(after, k as int) == held(before, k as int),
{
    law_open_descriptors(before, descriptor_at(before, p));
}

/// Closing a stream closes its descriptor and forgets the stream; what is no
/// stream is not closed, and the result is -1.
pub proof fn law_fclose(before: Environment, after: Environment, p: int, r: int)
    requires
        before.wf(),
        0 <= p <= 0xffff_ffff,
        fclose_done(before, after, p, r),
    ensures
        p == 0 || !before.libc_state.stdio.file_streams@.contains_key(p as u32) ==> r == -1
            && refused(before, after, 0),
        p != 0 && before.libc_state.stdio.file_streams@.contains_key(p as u32)
            && before.mem.in_chunk(p) && open_in(before, descriptor_at(before, p)) ==> {
            &&& r == 0
            &&& !open_in(after, descriptor_at(before, p))
            &&& others_kept(before, after, descriptor_at(before, p))
            &&& !after.libc_state.stdio.file_streams@.contains_key(p as u32)
        },
{
    let fd = descriptor_at(before, p);
    law_open_descriptors(before, fd);
    if p != 0 && before.libc_state.stdio.file_streams@.contains_key(p as u32)
        && before.mem.in_chunk(p) && open_in(before, fd) {
        assert forall|g: int| g != fd && open_in(before, g) implies #[trigger] open_in(after, g)
            && after.libc_state.posix_io.files@[g - 3] == before.libc_state.posix_io.files@[g
            - 3] by {}
    }
}

/// Reopening a stream closes its descriptor; where the new file can be opened,
/// the `FILE` holds the new descriptor and is the result.
pub proof fn law_freopen(
    before: Environment,
    after: Environment,
    filename: int,
    mode: int,
    p: int,
    r: int,
)
    requires
        before.wf(),
        0 < p <= 0xffff_fffb,
        before.mem.valid(p, 4),
        freopen_done(before, after, filename, mode, p, r),
    ensures
        r == 0 || r == p,
        filename == 0 || mode_flags(before.mem.cstr(mode)) is None ==> r == 0,
        r == p ==> exists|closed: Environment, opened: Environment, flags: i32, c: int, fd: int|
            {
                &&& #[trigger] close_done(
                    before.with_errno(0),
                    closed,
                    descriptor_at(before, p),
                    c,
                )
                &&& mode_flags(before.mem.cstr(mode)) == Some(flags)
                &&& #[trigger] open_done(
                    closed.with_stdio(opened.libc_state.stdio),
                    opened,
                    filename,
                    flags,
                    fd,
                )
                &&& fd != -1
                &&& -0x8000_0000 <= fd < 0x8000_0000 ==> descriptor_at(after, p) == fd
                &&& nothing_pushed(after, p)
                &&& after.fs == opened.fs
            },
{
    let (closed, reset, c) = choose|closed: Environment, reset: Environment, c: int|
        {
            &&& #[trigger] close_done(before.with_errno(0), closed, descriptor_at(before, p), c)
            &&& #[trigger] stream_set(closed, reset, p, Seq::empty(), false)
            &&& freopen_open_done(reset, after, filename, mode, p, r)
        };
    assert(reset.mem == before.mem);
    if filename != 0 && mode_flags(before.mem.cstr(mode)) is Some {
        let flags = mode_flags(before.mem.cstr(mode))->0;
        let (opened, fd) = choose|opened: Environment, fd: int| #[trigger]
            open_done(reset, opened, filename, flags, fd) && (if fd == -1 {
                r == 0 && after == opened
            } else {
                &&& r == p
                &&& after == opened.with_mem(after.mem)
                &&& after.mem.stored(opened.mem, p, le_bytes(unsigned32(fd), 4))
            });
        lemma_le_bytes_4(unsigned32(fd));
        assert(opened.mem == before.mem);
        assert(opened.libc_state.stdio == reset.libc_state.stdio);
        assert(closed.with_stdio(opened.libc_state.stdio) == reset);
        assert(open_done(
            closed.with_stdio(opened.libc_state.stdio),
            opened,
            filename,
            flags,
            fd,
        ));
    }
}

/// One byte was read through a stream: the stream, and the file but for its
/// position, are as they were.
spec fn one_read(before: Environment, after: Environment, p: int, k: usize, at: int) -> bool {
    &&& descriptor_at(after, p) == descriptor_at(before, p)
    &&& after.fd_open(descriptor_at(before, p))
    &&& after.file(descriptor_at(before, p)) == GuestFile::Open(k)
    &&& nothing_pushed(after, p)
    &&& held(after, k as int) == held(before, k as int)
    &&& after.fs.opens@.len() == before.fs.opens@.len()
    &&& after.fs.opens@[k as int].faults == before.fs.opens@[k as int].faults
    &&& after.fs.opens@[k as int].transfer_limit == before.fs.opens@[k as int].transfer_limit
    &&& after.mem@.len() == before.mem@.len()
    &&& place_in(after, k as int) == at
}

proof fn lemma_one_read(
    before: Environment,
    after: Environment,
    buffer: int,
    p: int,
    k: usize,
    r: int,
)
    requires
        0 < p <= 0xffff_ffff,
        p + 4 <= buffer || buffer + 1 <= p,
        p + 4 <= before.mem@.len(),
        before.mem.valid(buffer, 1),
        before.fd_open(descriptor_at(before, p)),
        before.file(descriptor_at(before, p)) == GuestFile::Open(k),
        k < before.fs.opens@.len(),
        nothing_pushed(before, p),
        before.fs.opens@[k as int].faults.read is None,
        before.fs.opens@[k as int].transfer_limit > 0,
        fread_done(before, after, buffer, 1, 1, p, r),
    ensures
        ({
            let b = held(before, k as int);
            let at = place_in(before, k as int);
            if at < b.len() {
                &&& r == 1
                &&& after.mem@[buffer] == b[at]
                &&& one_read(before, after, p, k, at + 1)
            } else {
                &&& r == 0
                &&& after.mem@[buffer] == before.mem@[buffer]
                &&& one_read(before, after, p, k, at)
            }
        }),
        forall|i: int|
            0 <= i < before.mem@.len() && i != buffer ==> #[trigger] after.mem@[i]
                == before.mem@[i],
{
    let fd = descriptor_at(before, p);
    assert(1int * 1 == 1);
    assert(pushed(before, p) =~= Seq::empty());
    let taken = choose|taken: Environment| #[trigger]
        pushbacks_taken(before, taken, buffer, 1, p) && fread_rest_done(
            taken,
            after,
            buffer,
            1,
            0,
            1,
            p,
            r,
        );
    assert(taken.mem@ =~= before.mem@);
    assert(taken.fd_open(fd) && taken.file(fd) == GuestFile::Open(k));
    let (read, n) = choose|read: Environment, n: int| #[trigger]
        read_done(taken, read, fd, buffer, 1, n) && (if n == -1 {
            &&& stream_set(read, after, p, pushed(read, p), true)
            &&& r == 0int / 1int
        } else {
            after == read && r == (n + 0) / 1int
        });
    lemma_read(taken, read, fd, buffer, 1, n, k);
    let b = held(before, k as int);
    let at = place_in(before, k as int);
    if at < b.len() {
        assert(after.mem@[buffer + 0] == b[at + 0]);
    }
    assert(le_u32(after.mem@, p) == le_u32(before.mem@, p));
}

/// A line that is read from a stream, to which nothing was pushed back: the bytes
/// of the file from its position on, up to and with the first line feed, the end
/// of the file or as many as asked for, whichever comes first, and a zero behind
/// them. At the end of the file there is no line, and the result is null.
pub proof fn law_fgets_line(
    before: Environment,
    after: Environment,
    str: int,
    size: int,
    p: int,
    k: usize,
    m: int,
    r: int,
)
    requires
        streams_from(before, p, k),
        nothing_pushed(before, p),
        before.fs.opens@[k as int].faults.read is None,
        before.fs.opens@[k as int].transfer_limit > 0,
        before.mem.valid(str, size + 1),
        p + 4 <= str || str + size + 1 <= p,
        is_line(held(before, k as int), place_in(before, k as int), size, m),
        fgets_done(before, after, str, size, p, r),
    ensures
        r == (if m == 0 {
            0
        } else {
            str
        }),
        m > 0 ==> after.mem@[str + m] == 0,
        forall|i: int|
            0 <= i < m ==> after.mem@[str + i] == #[trigger] held(before, k as int)[place_in(
                before,
                k as int,
            ) + i],
        held(after, k as int) == held(before, k as int),
        place_in(after, k as int) == place_in(before, k as int) + m,
{
    law_open_descriptors(before, descriptor_at(before, p));
    let (read, end) = choose|read: Environment, end: int| #[trigger]
        fgets_loop(before, read, str, size, p, end) && (if end == str {
            r == 0 && after == read
        } else {
            &&& r == str
            &&& after == read.with_mem(after.mem)
            &&& after.mem.stored(read.mem, end, seq![0u8])
        });
    lemma_line(before, read, str, size, p, k, m, end);
    let b = held(before, k as int);
    let at = place_in(before, k as int);
    assert forall|i: int| 0 <= i < m implies after.mem@[str + i] == #[trigger] b[at + i] by {
        assert(read.mem@[str + i] == b[at + i]);
    }
}

/// The `m` bytes from `at` on are a line of at most `size` bytes.
pub open spec fn is_line(b: Seq<u8>, at: int, size: int, m: int) -> bool {
    let left = if at < b.len() {
        b.len() - at
    } else {
        0
    };
    &&& 0 <= m <= size
    &&& m <= left
    &&& forall|i: int| 0 <= i < m - 1 ==> #[trigger] b[at + i] != 0x0a
    &&& m == size || m == left || (m > 0 && b[at + m - 1] == 0x0a)
}

proof fn lemma_line(
    before: Environment,
    after: Environment,
    tmp: int,
    left: int,
    p: int,
    k: usize,
    m: int,
    end: int,
)
    requires
        0 < p <= 0xffff_ffff,
        p + 4 <= tmp || tmp + left + 1 <= p,
        p + 4 <= before.mem@.len(),
        before.mem.valid(tmp, left + 1),
        before.fd_open(descriptor_at(before, p)),
        before.file(descriptor_at(before, p)) == GuestFile::Open(k),
        k < before.fs.opens@.len(),
        nothing_pushed(before, p),
        before.fs.opens@[k as int].faults.read is None,
        before.fs.opens@[k as int].transfer_limit > 0,
        is_line(held(before, k as int), place_in(before, k as int), left, m),
        fgets_loop(before, after, tmp, left, p, end),
    ensures
        end == tmp + m,
        after.mem@.len() == before.mem@.len(),
        held(after, k as int) == held(before, k as int),
        place_in(after, k as int) == place_in(before, k as int) + m,
        forall|i: int|
            0 <= i < m ==> after.mem@[tmp + i] == #[trigger] held(before, k as int)[place_in(
                before,
                k as int,
            ) + i],
        forall|i: int|
            0 <= i < before.mem@.len() && i < tmp ==> #[trigger] after.mem@[i] == before.mem@[i],
    decreases left,
{
    if left > 0 {
        let (read, n) = choose|read: Environment, n: int| #[trigger]
            fread_done(before, read, tmp, 1, 1, p, n) && (if n == 0 {
                after == read && end == tmp
            } else if read.mem@[tmp] == 0x0a {
                after == read && end == tmp + 1
            } else {
                fgets_loop(read, after, tmp + 1, left - 1, p, end)
            });
        lemma_one_read(before, read, tmp, p, k, n);
        let b = held(before, k as int);
        let at = place_in(before, k as int);
        if n != 0 {
            assert(m > 0);
            if m > 1 {
                assert(b[at + 0] != 0x0a);
            }
            if read.mem@[tmp] != 0x0a {
                assert forall|i: int| 0 <= i < m - 2 implies #[trigger] b[at + 1 + i] != 0x0a by {
                    assert(b[at + (i + 1)] != 0x0a);
                }
                assert(is_line(b, at + 1, left - 1, m - 1));
                lemma_line(read, after, tmp + 1, left - 1, p, k, m - 1, end);
                assert forall|i: int| 0 <= i < m implies after.mem@[tmp + i] == #[trigger] b[at
                    + i] by {
                    if i > 0 {
                        assert(after.mem@[tmp + 1 + (i - 1)] == b[at + 1 + (i - 1)]);
                    } else {
                        assert(after.mem@[tmp] == read.mem@[tmp]);
                    }
                }
            }
        }
    }
}

/// The `errno` of a refused removal: a directory that is not empty gives 66, what
/// is not there 2, a parent that is no directory 20, and what may not be removed
/// 13.
pub proof fn law_remove_errors(e: FsError)
    ensures
        remove_errno(e) == (match e {
            FsError::DirectoryNotEmpty => 66i32,
            FsError::DoesNotExist => 2,
            FsError::NonexistentParentDir => 2,
            FsError::InvalidParentDir => 20,
            FsError::AccessDenied => 13,
            FsError::ReadonlyParentDir => 13,
            FsError::AlreadyExist => 22,
        }),
{
}

/// A temporary file is called `/tmp/touchHLE_tmp_`, the process, a low line and
/// the number of the file, and is opened with the mode `w+b`, which makes or
/// empties it for reading and writing.
pub proof fn law_tmp_name(pid: u32, count: u32)
    ensures
        ({
            let prefix = seq![
                0x2fu8,
                0x74,
                0x6d,
                0x70,
                0x2f,
                0x74,
                0x6f,
                0x75,
                0x63,
                0x68,
                0x48,
                0x4c,
                0x45,
                0x5f,
                0x74,
                0x6d,
                0x70,
                0x5f,
            ];
            tmp_name(pid, count) == prefix + decimal(pid as nat) + seq![0x5fu8] + decimal(
                count as nat,
            )
        }),
        mode_flags(tmp_mode()) == Some(0x602i32),
{
    let d = decimal(pid as nat);
    assert(tmp_name(pid, count) =~= tmp_prefix() + d + seq![0x5fu8] + decimal(
        count as nat,
    ));
    law_modes(tmp_mode());
    assert(tmp_mode()[1] == 0x2b);
}

} // verus!
