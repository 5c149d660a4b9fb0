//! `stdio.h`
use std::collections::HashMap;
use vstd::prelude::*;
use vstd::utf8::{decode_utf8, valid_utf8};

use crate::environment::{Console, Environment};
use crate::fs::{FileOp, Fs, FsError, GuestFile};
use crate::heap::{
    lemma_chunk_added, lemma_chunk_removed, lemma_freed_room, lemma_room_kept, lemma_room_left,
};
use crate::libc::errno::{set_errno, EACCES, EINVAL, ENOENT, ENOTDIR, ENOTEMPTY};
use crate::libc::posix_io;
use crate::libc::posix_io::{
    bytes_from, close_done, has_free_fd, law_lowest_free, lowest_free, lseek_error, lseek_target,
    off_t, open_done, open_error, open_ready, read_done, repositioned, write_done, OpenFlag,
    O_APPEND, O_CREAT, O_RDONLY, O_RDWR, O_TRUNC, O_WRONLY, SEEK_CUR, SEEK_END, SEEK_SET,
    STDERR_FILENO, STDOUT_FILENO,
};
use crate::mem::{
    heap_size, le_bytes, le_u32, le_u64, signed32, signed64, to_unsigned32, unsigned32, ConstPtr,
    ConstVoidPtr, GuestUSize, Mem, MutPtr, MutVoidPtr,
};
use crate::text::{chars_of, decimal, lemma_decimal_len, push_decimal};

verus! {

broadcast use vstd::std_specs::hash::group_hash_axioms;

pub const EOF: i32 = -1;

/// What is kept of a stream besides its `FILE` in guest memory, which holds
/// its descriptor.
pub struct FILEHostObject {
    /// `ungetc()` implementation
    pub pushbacks: Vec<u8>,
    /// `ferror()` implementation
    pub error: bool,
}

pub struct State {
    pub file_streams: HashMap<MutPtr, FILEHostObject>,
    /// How many temporary files were asked for.
    pub tmpfile_counter: u32,
}

impl Default for State {
    fn default() -> (r: State)
        ensures
            r.file_streams@ == Map::<MutPtr, FILEHostObject>::empty(),
            r.tmpfile_counter == 0,
    {
        State {
            file_streams: HashMap::new(),
            tmpfile_counter: 0,
        }
    }
}

/// The descriptor in the `FILE` at `file_ptr`.
pub open spec fn stream_fd(env: Environment, file_ptr: int) -> int {
    signed32(le_u32(env.mem@, file_ptr))
}

/// The bytes that were pushed back on a stream, the next one to be read last.
pub open spec fn pushed(env: Environment, file_ptr: int) -> Seq<u8> {
    let streams = env.libc_state.stdio.file_streams@;
    if streams.contains_key(file_ptr as u32) {
        streams[file_ptr as u32].pushbacks@
    } else {
        Seq::empty()
    }
}

/// The stream's error indicator.
pub open spec fn errored(env: Environment, file_ptr: int) -> bool {
    let streams = env.libc_state.stdio.file_streams@;
    streams.contains_key(file_ptr as u32) && streams[file_ptr as u32].error
}

/// `after` is `before` but for one stream, which has these pushed back bytes
/// and this error indicator.
pub open spec fn stream_set(
    before: Environment,
    after: Environment,
    file_ptr: int,
    pushbacks: Seq<u8>,
    error: bool,
) -> bool {
    let p = file_ptr as u32;
    let streams = after.libc_state.stdio.file_streams@;
    &&& after == before.with_stdio(
        State { file_streams: after.libc_state.stdio.file_streams, ..before.libc_state.stdio },
    )
    &&& streams == before.libc_state.stdio.file_streams@.insert(p, streams[p])
    &&& streams[p].pushbacks@ == pushbacks
    &&& streams[p].error == error
}

impl State {
    /// The state of the stream at `file_ptr`. A stream that is not known (one
    /// that the guest freed without closing it, say) gets a fresh one.
    pub fn get_file_host_obj_mut(&mut self, file_ptr: MutPtr) -> (r: &mut FILEHostObject)
        ensures
            old(self).file_streams@.contains_key(file_ptr) ==> *r
                == old(self).file_streams@[file_ptr],
            !old(self).file_streams@.contains_key(file_ptr) ==> r.pushbacks@ == Seq::<u8>::empty()
                && !r.error,
            *final(self) == (State { file_streams: final(self).file_streams, ..*old(self) }),
            final(self).file_streams@ == old(self).file_streams@.insert(file_ptr, *final(r)),
    {
        let pushbacks: Vec<u8> = Vec::new();
        assert(pushbacks@ =~= Seq::empty());
        self.file_streams.entry(file_ptr).or_insert(FILEHostObject { pushbacks, error: false })
    }
}

/// Sets the error indicator of a stream.
fn set_stream_error(env: &mut Environment, file_ptr: MutPtr, error: bool)
    requires
        old(env).wf(),
    ensures
        final(env).wf(),
        stream_set(
            *old(env),
            *final(env),
            file_ptr as int,
            pushed(*old(env), file_ptr as int),
            error,
        ),
{
    let o: &mut FILEHostObject = env.libc_state.stdio.get_file_host_obj_mut(file_ptr);
    o.error = error;
}

/// Drops what was pushed back on a stream.
fn clear_pushbacks(env: &mut Environment, file_ptr: MutPtr)
    requires
        old(env).wf(),
    ensures
        final(env).wf(),
        stream_set(
            *old(env),
            *final(env),
            file_ptr as int,
            Seq::empty(),
            errored(*old(env), file_ptr as int),
        ),
{
    let o: &mut FILEHostObject = env.libc_state.stdio.get_file_host_obj_mut(file_ptr);
    let none: Vec<u8> = Vec::new();
    assert(none@ =~= Seq::empty());
    o.pushbacks = none;
}

/// The descriptor of a stream.
fn fd_of(env: &Environment, file_ptr: ConstPtr) -> (r: i32)
    requires
        env.wf(),
        env.mem.valid(file_ptr as int, 4),
    ensures
        r == stream_fd(*env, file_ptr as int),
{
    env.mem.read_i32(file_ptr)
}

/// The `open` flags that a mode string of `fopen` stands for: a basic mode
/// comes first, and of what follows only a plus sign counts.
pub open spec fn mode_flags(mode: Seq<u8>) -> Option<OpenFlag> {
    let plus = mode.skip(1).contains(0x2b);
    if mode.len() == 0 {
        None
    } else if mode[0] == 0x72 {
        Some(if plus {
            O_RDWR
        } else {
            O_RDONLY
        })
    } else if mode[0] == 0x77 {
        Some(if plus {
            O_RDWR | O_CREAT | O_TRUNC
        } else {
            O_WRONLY | O_CREAT | O_TRUNC
        })
    } else if mode[0] == 0x61 {
        Some(if plus {
            O_RDWR | O_APPEND | O_CREAT
        } else {
            O_WRONLY | O_APPEND | O_CREAT
        })
    } else {
        None
    }
}

pub fn parse_mode(mode: &Vec<u8>) -> (r: Option<OpenFlag>)
    ensures
        r == mode_flags(mode@),
{
    let n: usize = mode.len();
    if n == 0 {
        return None;
    }
    let mut plus: bool = false;
    let mut i: usize = 1;
    while i < n
        invariant
            1 <= i <= n == mode@.len(),
            plus <==> exists|k: int| 1 <= k < i && mode@[k] == 0x2b,
        decreases n - i,
    {
        if mode[i] == 0x2b {
            plus = true;
        }
        i = i + 1;
    }
    proof {
        let rest = mode@.skip(1);
        if plus {
            let k = choose|k: int| 1 <= k < n && mode@[k] == 0x2b;
            assert(rest[k - 1] == 0x2b);
        } else if rest.contains(0x2b) {
            let k = choose|k: int| 0 <= k < rest.len() && rest[k] == 0x2b;
            assert(mode@[k + 1] == 0x2b);
        }
    }
    if mode[0] == 0x72 {
        if plus {
            Some(O_RDWR)
        } else {
            Some(O_RDONLY)
        }
    } else if mode[0] == 0x77 {
        if plus {
            Some(O_RDWR | O_CREAT | O_TRUNC)
        } else {
            Some(O_WRONLY | O_CREAT | O_TRUNC)
        }
    } else if mode[0] == 0x61 {
        if plus {
            Some(O_RDWR | O_APPEND | O_CREAT)
        } else {
            Some(O_WRONLY | O_APPEND | O_CREAT)
        }
    } else {
        None
    }
}

/// What `fopen` does once its mode stands for `flags`.
pub open spec fn fopen_with_done(
    before: Environment,
    after: Environment,
    filename: int,
    flags: OpenFlag,
    r: int,
) -> bool {
    exists|opened: Environment, fd: int| #[trigger]
        open_done(before, opened, filename, flags, fd) && (if fd == -1 {
            r == 0 && after == opened
        } else {
            &&& stream_set(opened.with_mem(after.mem), after, r, Seq::empty(), false)
            &&& after.mem.placed(opened.mem, r as u32, le_bytes(unsigned32(fd), 4))
            &&& r > 0
        })
}

/// What `fopen` does.
pub open spec fn fopen_done(
    before: Environment,
    after: Environment,
    filename: int,
    mode: int,
    r: int,
) -> bool {
    match mode_flags(before.mem.cstr(mode)) {
        None => r == 0 && after == before.with_errno(EINVAL),
        Some(flags) => fopen_with_done(before, after, filename, flags, r),
    }
}

/// `FILE *fopen(const char *filename, const char *mode);`
pub fn fopen(env: &mut Environment, filename: ConstPtr, mode: ConstPtr) -> (r: MutPtr)
    requires
        old(env).wf(),
        old(env).mem.valid(mode as int, 0),
        mode_flags(old(env).mem.cstr(mode as int)) matches Some(flags) ==> {
            &&& open_ready(*old(env), filename as int)
            &&& open_error(*old(env), filename as int, flags) is None ==> old(env).mem.has_room(4)
        },
    ensures
        final(env).wf(),
        fopen_done(*old(env), *final(env), filename as int, mode as int, r as int),
{
    let mode_bytes: Vec<u8> = env.mem.cstr_at(mode);
    let flags: i32 = match parse_mode(&mode_bytes) {
        Some(flags) => flags,
        None => {
            set_errno(env, EINVAL);
            return 0;
        },
    };
    let fd: i32 = posix_io::open_direct(env, filename, flags);
    if fd == -1 {
        return 0;
    }
    let ghost opened = *env;
    let file: u32 = to_unsigned32(fd);
    let bytes: Vec<u8> = le_word(file);
    let res: u32 = env.mem.alloc_and_write(&bytes);
    let pushbacks: Vec<u8> = Vec::new();
    assert(pushbacks@ =~= Seq::empty());
    env.libc_state.stdio.file_streams.insert(res, FILEHostObject { pushbacks, error: false });
    assert(stream_set(opened.with_mem(env.mem), *env, res as int, Seq::empty(), false));
    res
}

/// A 32-bit value as it lies in memory.
fn le_word(value: u32) -> (r: Vec<u8>)
    ensures
        r@ == le_bytes(value as int, 4),
        r@.len() == 4,
{
    let data: Vec<u8> = vec![
        (value % 0x100) as u8,
        (value / 0x100 % 0x100) as u8,
        (value / 0x1_0000 % 0x100) as u8,
        (value / 0x100_0000) as u8,
    ];
    proof {
        crate::mem::lemma_le_bytes_4(value as int);
        assert(data@ =~= le_bytes(value as int, 4));
    }
    data
}

/// Closing a descriptor leaves no fewer of them free.
proof fn lemma_close_keeps_free(before: Environment, after: Environment, fd: int, r: int)
    requires
        before.wf(),
        close_done(before, after, fd, r),
    ensures
        lowest_free(after.files(), 0) <= lowest_free(before.files(), 0),
        before.fd_open(fd) ==> lowest_free(after.files(), 0) < before.files().len(),
{
    law_lowest_free(before.files(), 0);
    law_lowest_free(after.files(), 0);
    if before.fd_open(fd) {
        assert(after.files()[fd - 3] is None);
    }
    let k = lowest_free(before.files(), 0);
    if lowest_free(after.files(), 0) > k {
        assert(after.files()[k] is Some);
        assert(before.files()[k] is Some);
    }
}

/// What `freopen` does once the stream's old descriptor is closed and its
/// state is fresh.
pub open spec fn freopen_open_done(
    reset: Environment,
    after: Environment,
    filename: int,
    mode: int,
    stream: int,
    r: int,
) -> bool {
    match mode_flags(reset.mem.cstr(mode)) {
        _ if filename == 0 => r == 0 && after == reset,
        None => r == 0 && after == reset,
        Some(flags) => exists|opened: Environment, fd: int| #[trigger]
            open_done(reset, opened, filename, flags, fd) && (if fd == -1 {
                r == 0 && after == opened
            } else {
                &&& r == stream
                &&& after == opened.with_mem(after.mem)
                &&& after.mem.stored(opened.mem, stream, le_bytes(unsigned32(fd), 4))
            }),
    }
}

/// What `freopen` does.
pub open spec fn freopen_done(
    before: Environment,
    after: Environment,
    filename: int,
    mode: int,
    stream: int,
    r: int,
) -> bool {
    let start = before.with_errno(0);
    if stream == 0 {
        r == 0 && after == start
    } else {
        exists|closed: Environment, reset: Environment, c: int|
            {
                &&& #[trigger] close_done(start, closed, stream_fd(before, stream), c)
                &&& #[trigger] stream_set(closed, reset, stream, Seq::empty(), false)
                &&& freopen_open_done(reset, after, filename, mode, stream, r)
            }
    }
}

/// `FILE *freopen(const char *filename, const char *mode, FILE *stream);`
pub fn freopen(env: &mut Environment, filename: ConstPtr, mode: ConstPtr, stream: MutPtr) -> (r:
    MutPtr)
    requires
        old(env).wf(),
        stream != 0 ==> {
            &&& old(env).mem.valid(stream as int, 4)
            &&& filename != 0 ==> old(env).mem.valid(mode as int, 0)
            &&& filename != 0 && mode_flags(old(env).mem.cstr(mode as int)) is Some ==> {
                &&& old(env).mem.valid(filename as int, 0)
                &&& has_free_fd(*old(env)) || old(env).fd_open(
                    stream_fd(*old(env), stream as int),
                )
            }
        },
    ensures
        final(env).wf(),
        freopen_done(
            *old(env),
            *final(env),
            filename as int,
            mode as int,
            stream as int,
            r as int,
        ),
{
    set_errno(env, 0);
    if stream == 0 {
        return 0;
    }
    let old_fd: i32 = fd_of(env, stream);
    let _ = posix_io::fflush(env, old_fd);
    let ghost flushed = *env;
    let closed_ok: i32 = posix_io::close(env, old_fd);
    let ghost closed = *env;
    proof {
        lemma_close_keeps_free(flushed, closed, old_fd as int, closed_ok as int);
    }
    clear_pushbacks(env, stream);
    set_stream_error(env, stream, false);
    let ghost reset = *env;
    assert(stream_set(closed, reset, stream as int, Seq::empty(), false)) by {
        let p = stream;
        assert(reset.libc_state.stdio.file_streams@
            =~= closed.libc_state.stdio.file_streams@.insert(
            p,
            reset.libc_state.stdio.file_streams@[p],
        ));
    }
    assert(close_done(
        old(env).with_errno(0),
        closed,
        stream_fd(*old(env), stream as int),
        closed_ok as int,
    ));
    if filename == 0 {
        return 0;
    }
    let mode_bytes: Vec<u8> = env.mem.cstr_at(mode);
    let flags: i32 = match parse_mode(&mode_bytes) {
        Some(flags) => flags,
        None => {
            return 0;
        },
    };
    let new_fd: i32 = posix_io::open_direct(env, filename, flags);
    if new_fd == -1 {
        return 0;
    }
    env.mem.write_i32(stream, new_fd);
    stream
}

/// How many pushed back bytes a read of `total` takes.
pub open spec fn pushed_count(env: Environment, file_ptr: int, total: int) -> int {
    let n = pushed(env, file_ptr).len() as int;
    if n < total {
        n
    } else {
        total
    }
}

/// What `fread` does first: the last bytes that were pushed back go to the
/// buffer, last one first.
pub open spec fn pushbacks_taken(
    before: Environment,
    after: Environment,
    buffer: int,
    total: int,
    file_ptr: int,
) -> bool {
    let p = pushed(before, file_ptr);
    let kept = p.len() - pushed_count(before, file_ptr, total);
    &&& stream_set(
        before.with_errno(0).with_mem(after.mem),
        after,
        file_ptr,
        p.take(kept),
        errored(before, file_ptr),
    )
    &&& after.mem.stored(before.mem, buffer, p.skip(kept).reverse())
}

/// What `fread` does when the pushed back bytes were not enough.
pub open spec fn fread_rest_done(
    taken: Environment,
    after: Environment,
    buffer: int,
    size: int,
    already: int,
    item_size: int,
    file_ptr: int,
    r: int,
) -> bool {
    exists|read: Environment, n: int| #[trigger]
        read_done(taken, read, stream_fd(taken, file_ptr), buffer, size, n) && (if n == -1 {
            &&& stream_set(read, after, file_ptr, pushed(read, file_ptr), true)
            &&& r == already / item_size
        } else {
            after == read && r == (n + already) / item_size
        })
}

/// What `fread` does.
pub open spec fn fread_done(
    before: Environment,
    after: Environment,
    buffer: int,
    item_size: int,
    n_items: int,
    file_ptr: int,
    r: int,
) -> bool {
    let total = item_size * n_items;
    let k = pushed_count(before, file_ptr, total);
    if item_size == 0 {
        r == 0 && after == before.with_errno(0)
    } else {
        exists|taken: Environment| #[trigger]
            pushbacks_taken(before, taken, buffer, total, file_ptr) && (if pushed(
                before,
                file_ptr,
            ).len() > 0 && k == total {
                r == total / item_size && after == taken
            } else {
                fread_rest_done(
                    taken,
                    after,
                    buffer + k,
                    total - k,
                    k,
                    item_size,
                    file_ptr,
                    r,
                )
            })
    }
}

/// The stream and the buffer of a read are guest memory, as far as they are
/// looked at.
pub open spec fn fread_ready(env: Environment, buffer: int, total: int, file_ptr: int) -> bool {
    &&& env.mem.valid(file_ptr, 4)
    &&& env.mem.valid(buffer, total) || (pushed(env, file_ptr).len() == 0 && (buffer == 0
        || !env.fd_open(stream_fd(env, file_ptr))))
}

/// Takes the last `n` bytes off, last one first.
fn take_pushbacks(pushbacks: &mut Vec<u8>, n: usize) -> (r: Vec<u8>)
    requires
        n <= old(pushbacks)@.len(),
    ensures
        final(pushbacks)@ == old(pushbacks)@.take(old(pushbacks)@.len() - n),
        r@ == old(pushbacks)@.skip(old(pushbacks)@.len() - n).reverse(),
{
    let ghost p = pushbacks@;
    let total: usize = pushbacks.len();
    let mut taken: Vec<u8> = Vec::new();
    let mut i: usize = 0;
    assert(p.take(total as int) =~= p);
    assert(taken@ =~= p.skip(total as int).reverse());
    while i < n
        invariant
            i <= n <= total == p.len(),
            pushbacks@ == p.take(total - i),
            taken@ == p.skip(total - i).reverse(),
        decreases n - i,
    {
        match pushbacks.pop() {
            Some(b) => {
                taken.push(b);
            },
            None => {},
        }
        i = i + 1;
        assert(pushbacks@ =~= p.take(total - i));
        assert(taken@ =~= p.skip(total - i).reverse());
    }
    taken
}

/// `size_t fread(void *buffer, size_t item_size, size_t n_items, FILE *file);`
pub fn fread(
    env: &mut Environment,
    buffer: MutVoidPtr,
    item_size: GuestUSize,
    n_items: GuestUSize,
    file_ptr: MutPtr,
) -> (r: GuestUSize)
    requires
        old(env).wf(),
        item_size > 0 ==> {
            &&& item_size * n_items <= u32::MAX
            &&& fread_ready(*old(env), buffer as int, item_size * n_items, file_ptr as int)
        },
    ensures
        final(env).wf(),
        fread_done(
            *old(env),
            *final(env),
            buffer as int,
            item_size as int,
            n_items as int,
            file_ptr as int,
            r as int,
        ),
        item_size > 0 ==> r <= n_items,
        final(env).mem@.len() == old(env).mem@.len(),
{
    set_errno(env, 0);
    if item_size == 0 {
        return 0;
    }
    let total_size: u32 = item_size * n_items;
    let ghost p = pushed(*old(env), file_ptr as int);
    let ghost k = pushed_count(*old(env), file_ptr as int, total_size as int);
    let o: &mut FILEHostObject = env.libc_state.stdio.get_file_host_obj_mut(file_ptr);
    let n_pushed: usize = o.pushbacks.len();
    let to_copy: usize = if n_pushed < total_size as usize {
        n_pushed
    } else {
        total_size as usize
    };
    let taken: Vec<u8> = take_pushbacks(&mut o.pushbacks, to_copy);
    env.mem.write_bytes(buffer, &taken);
    let copied: u32 = to_copy as u32;
    let ghost mid = *env;
    assert(pushbacks_taken(*old(env), mid, buffer as int, total_size as int, file_ptr as int));
    proof {
        vstd::arithmetic::div_mod::lemma_div_multiples_vanish(n_items as int, item_size as int);
    }
    if n_pushed > 0 && copied == total_size {
        return total_size / item_size;
    }
    let rest: u32 = total_size - copied;
    let fd: i32 = fd_of(env, file_ptr);
    let n: i32 = posix_io::read(env, fd, buffer + copied, rest);
    if n == -1 {
        set_stream_error(env, file_ptr, true);
        proof {
            vstd::arithmetic::div_mod::lemma_div_is_ordered(
                copied as int,
                total_size as int,
                item_size as int,
            );
        }
        return copied / item_size;
    }
    proof {
        vstd::arithmetic::div_mod::lemma_div_is_ordered(
            n + copied,
            total_size as int,
            item_size as int,
        );
    }
    (n as u32 + copied) / item_size
}

/// What `fgetc` does when a byte was pushed back: it is taken, and the position
/// moves over it.
pub open spec fn fgetc_pushed_done(
    before: Environment,
    after: Environment,
    file_ptr: int,
    r: int,
) -> bool {
    let p = pushed(before, file_ptr);
    let fd = stream_fd(before, file_ptr);
    &&& r == p.last()
    &&& exists|popped: Environment|
        {
            &&& #[trigger] stream_set(
                before.with_errno(0),
                popped,
                file_ptr,
                p.drop_last(),
                errored(before, file_ptr),
            )
            &&& repositioned(popped, after, fd, lseek_target(before, fd, 1, SEEK_CUR as int))
        }
}

/// `after` is `before` with a new chunk of `size` bytes at `ptr`.
pub open spec fn chunk_taken(
    before: Environment,
    after: Environment,
    ptr: u32,
    size: int,
) -> bool {
    &&& after == before.with_mem(after.mem)
    &&& after.mem.taken(before.mem, ptr, size)
}

/// What `fgetc` does when nothing was pushed back: one byte is read into a
/// chunk of its own, which stays allocated.
pub open spec fn fgetc_read_done(
    before: Environment,
    after: Environment,
    file_ptr: int,
    r: int,
) -> bool {
    exists|known: Environment, taken: Environment, read: Environment, buf: u32, n: int|
        {
            &&& #[trigger] stream_set(
                before.with_errno(0),
                known,
                file_ptr,
                Seq::empty(),
                errored(before, file_ptr),
            )
            &&& #[trigger] chunk_taken(known, taken, buf, 1)
            &&& #[trigger] read_done(taken, read, stream_fd(before, file_ptr), buf as int, 1, n)
            &&& if n == -1 {
                r == EOF && stream_set(read, after, file_ptr, Seq::empty(), true)
            } else if n < 1 {
                r == EOF && after == read
            } else {
                r == read.mem@[buf as int] && after == read
            }
        }
}

/// What `fgetc` does.
pub open spec fn fgetc_done(
    before: Environment,
    after: Environment,
    file_ptr: int,
    r: int,
) -> bool {
    if pushed(before, file_ptr).len() > 0 {
        fgetc_pushed_done(before, after, file_ptr, r)
    } else {
        fgetc_read_done(before, after, file_ptr, r)
    }
}

/// A byte that was pushed back can be passed over, or there is room for one
/// that is read.
pub open spec fn fgetc_ready(env: Environment, file_ptr: int) -> bool {
    &&& env.mem.valid(file_ptr, 4)
    &&& if pushed(env, file_ptr).len() > 0 {
        lseek_error(env, stream_fd(env, file_ptr), 1, SEEK_CUR as int) is None
    } else {
        env.mem.has_room(1)
    }
}

/// `int fgetc(FILE *file);`
pub fn fgetc(env: &mut Environment, file_ptr: MutPtr) -> (r: i32)
    requires
        old(env).wf(),
        fgetc_ready(*old(env), file_ptr as int),
    ensures
        final(env).wf(),
        fgetc_done(*old(env), *final(env), file_ptr as int, r as int),
{
    set_errno(env, 0);
    let fd: i32 = fd_of(env, file_ptr);
    let ghost p = pushed(*env, file_ptr as int);
    let o: &mut FILEHostObject = env.libc_state.stdio.get_file_host_obj_mut(file_ptr);
    if let Some(pushback) = o.pushbacks.pop() {
        let ghost popped = *env;
        assert(popped.libc_state.stdio.file_streams@[file_ptr].pushbacks@ =~= p.drop_last());
        let new_offset: i64 = posix_io::lseek(env, fd, 1, SEEK_CUR);
        assert(stream_set(
            old(env).with_errno(0),
            popped,
            file_ptr as int,
            p.drop_last(),
            errored(*old(env), file_ptr as int),
        ));
        return pushback as i32;
    }
    let ghost known = *env;
    assert(known.libc_state.stdio.file_streams@[file_ptr].pushbacks@ =~= Seq::empty());
    assert(stream_set(
        old(env).with_errno(0),
        known,
        file_ptr as int,
        Seq::empty(),
        errored(*old(env), file_ptr as int),
    ));
    let buffer: u32 = env.mem.allocate(1);
    let ghost taken = *env;
    assert(chunk_taken(known, taken, buffer, 1));
    let n: i32 = posix_io::read(env, fd, buffer, 1);
    let ghost read = *env;
    assert(read_done(
        taken,
        read,
        stream_fd(*old(env), file_ptr as int),
        buffer as int,
        1,
        n as int,
    ));
    if n == -1 {
        set_stream_error(env, file_ptr, true);
        return EOF;
    }
    if n < 1 {
        EOF
    } else {
        env.mem.read_u8(buffer) as i32
    }
}

/// `getc` is `fgetc`.
pub fn getc(env: &mut Environment, file_ptr: MutPtr) -> (r: i32)
    requires
        old(env).wf(),
        fgetc_ready(*old(env), file_ptr as int),
    ensures
        final(env).wf(),
        fgetc_done(*old(env), *final(env), file_ptr as int, r as int),
{
    fgetc(env, file_ptr)
}

/// What `ungetc` does: the position moves back by one, and the low byte of `c`
/// is the next one to be read.
pub open spec fn ungetc_done(
    before: Environment,
    after: Environment,
    c: int,
    file_ptr: int,
    r: int,
) -> bool {
    let fd = stream_fd(before, file_ptr);
    &&& r == c
    &&& exists|moved: Environment|
        {
            &&& #[trigger] repositioned(
                before,
                moved,
                fd,
                lseek_target(before, fd, -1, SEEK_CUR as int),
            )
            &&& stream_set(
                moved,
                after,
                file_ptr,
                pushed(before, file_ptr).push((unsigned32(c) % 0x100) as u8),
                errored(before, file_ptr),
            )
        }
}

/// `int ungetc(int c, FILE *file);`
pub fn ungetc(env: &mut Environment, c: i32, file_ptr: MutPtr) -> (r: i32)
    requires
        old(env).wf(),
        c != EOF,
        old(env).mem.valid(file_ptr as int, 4),
        lseek_error(*old(env), stream_fd(*old(env), file_ptr as int), -1, SEEK_CUR as int) is None,
    ensures
        final(env).wf(),
        ungetc_done(*old(env), *final(env), c as int, file_ptr as int, r as int),
{
    let fd: i32 = fd_of(env, file_ptr);
    let _ = posix_io::lseek(env, fd, 0, SEEK_CUR);
    let _ = posix_io::lseek(env, fd, -1, SEEK_CUR);
    let ghost moved = *env;
    proof {
        let file = old(env).file(fd as int);
        if let crate::fs::GuestFile::Open(k) = file {
            let k = k as int;
            assert(moved.fs.opens@ =~= old(env).fs.opens@.update(k, moved.fs.opens@[k]));
            assert(moved.files() =~= old(env).files().update(fd - 3, moved.files()[fd - 3]));
        }
        assert(repositioned(
            *old(env),
            moved,
            fd as int,
            lseek_target(*old(env), fd as int, -1, SEEK_CUR as int),
        ));
    }
    let o: &mut FILEHostObject = env.libc_state.stdio.get_file_host_obj_mut(file_ptr);
    o.pushbacks.push((to_unsigned32(c) % 0x100) as u8);
    c
}

/// A byte that is pushed back is the next one that is read, and the position
/// is then where it was.
pub proof fn law_ungetc_fgetc(
    before: Environment,
    pushed_back: Environment,
    after: Environment,
    c: int,
    file_ptr: int,
    r: int,
)
    requires
        before.wf(),
        0 <= c <= 0xff,
        0 < file_ptr <= u32::MAX,
        before.fd_open(stream_fd(before, file_ptr)),
        before.file(stream_fd(before, file_ptr)) is Open,
        lseek_error(before, stream_fd(before, file_ptr), -1, SEEK_CUR as int) is None,
        ungetc_done(before, pushed_back, c, file_ptr, c),
        fgetc_done(pushed_back, after, file_ptr, r),
    ensures
        r == c,
        pushed(after, file_ptr) == pushed(before, file_ptr),
        after.fs.position(after.file(stream_fd(before, file_ptr))) == before.fs.position(
            before.file(stream_fd(before, file_ptr)),
        ),
{
    let fd = stream_fd(before, file_ptr);
    let p = pushed(before, file_ptr);
    assert(p.push(c as u8).drop_last() =~= p);
}

/// What the loop of `fgets` does when `left` more bytes are wanted and the next
/// goes to `tmp`: bytes are read one by one, until there are enough, none
/// comes, or a newline was read. `end` is where it stops.
pub open spec fn fgets_loop(
    before: Environment,
    after: Environment,
    tmp: int,
    left: int,
    stream: int,
    end: int,
) -> bool
    decreases left,
{
    if left <= 0 {
        after == before && end == tmp
    } else {
        exists|read: Environment, n: int| #[trigger]
            fread_done(before, read, tmp, 1, 1, stream, n) && (if n == 0 {
                after == read && end == tmp
            } else if read.mem@[tmp] == 0x0a {
                after == read && end == tmp + 1
            } else {
                fgets_loop(read, after, tmp + 1, left - 1, stream, end)
            })
    }
}

/// What `fgets` does.
pub open spec fn fgets_done(
    before: Environment,
    after: Environment,
    str: int,
    size: int,
    stream: int,
    r: int,
) -> bool {
    exists|read: Environment, end: int| #[trigger]
        fgets_loop(before, read, str, size, stream, end) && (if end == str {
            r == 0 && after == read
        } else {
            &&& r == str
            &&& after == read.with_mem(after.mem)
            &&& after.mem.stored(read.mem, end, seq![0u8])
        })
}

/// What the loop of `fgets` writes to is guest memory, from where the next byte
/// goes on: a byte for each that is read, and one for the NUL behind them. `any`
/// says whether there are bytes already.
pub open spec fn fgets_ready(
    env: Environment,
    tmp: int,
    left: int,
    stream: int,
    any: bool,
) -> bool
    decreases left,
{
    if left <= 0 {
        any ==> env.mem.valid(tmp, 1)
    } else {
        &&& fread_ready(env, tmp, 1, stream)
        &&& forall|read: Environment, n: int| #[trigger]
            fread_done(env, read, tmp, 1, 1, stream, n) ==> (if n == 0 {
                any ==> env.mem.valid(tmp, 1)
            } else if read.mem@[tmp] == 0x0a {
                env.mem.valid(tmp + 1, 1)
            } else {
                fgets_ready(read, tmp + 1, left - 1, stream, true)
            })
    }
}

/// A byte that was read went to guest memory.
proof fn lemma_fread_byte(before: Environment, after: Environment, tmp: int, stream: int, n: int)
    requires
        fread_ready(before, tmp, 1, stream),
        fread_done(before, after, tmp, 1, 1, stream, n),
        n != 0,
    ensures
        before.mem.valid(tmp, 1),
{
    if !before.mem.valid(tmp, 1) {
        let taken = choose|taken: Environment| #[trigger]
            pushbacks_taken(before, taken, tmp, 1, stream) && fread_rest_done(
                taken,
                after,
                tmp,
                1,
                0,
                1,
                stream,
                n,
            );
        assert(pushed(before, stream).skip(0).reverse() =~= Seq::empty());
        assert(taken.mem@ =~= before.mem@);
        assert(taken.files() == before.files());
        assert(false);
    }
}

/// `char *fgets(char *str, int size, FILE *stream);`
pub fn fgets(env: &mut Environment, str: MutPtr, size: GuestUSize, stream: MutPtr) -> (r: MutPtr)
    requires
        old(env).wf(),
        fgets_ready(*old(env), str as int, size as int, stream as int, false),
    ensures
        final(env).wf(),
        fgets_done(*old(env), *final(env), str as int, size as int, stream as int, r as int),
{
    let mut read: u32 = 0;
    let mut tmp: u32 = str;
    let mut more: bool = true;
    while more && read < size
        invariant
            env.wf(),
            env.mem@.len() == old(env).mem@.len(),
            more ==> fgets_ready(*env, tmp as int, size - read, stream as int, read > 0),
            !more && read > 0 ==> env.mem.valid(tmp as int, 1),
            read <= size,
            tmp == str + read,
            more ==> forall|after: Environment, end: int| #[trigger]
                fgets_loop(*env, after, tmp as int, size - read, stream as int, end) ==> fgets_loop(
                    *old(env),
                    after,
                    str as int,
                    size as int,
                    stream as int,
                    end,
                ),
            !more ==> fgets_loop(
                *old(env),
                *env,
                str as int,
                size as int,
                stream as int,
                tmp as int,
            ),
        decreases size - read, (if more { 1nat } else { 0nat }),
    {
        let ghost before = *env;
        let n: u32 = fread(env, tmp, 1, 1, stream);
        let ghost mid = *env;
        assert(fread_done(before, mid, tmp as int, 1, 1, stream as int, n as int));
        proof {
            if n != 0 {
                lemma_fread_byte(before, mid, tmp as int, stream as int, n as int);
            }
        }
        if n == 0 {
            assert(fgets_loop(before, mid, tmp as int, size - read, stream as int, tmp as int));
            more = false;
        } else {
            let newline: bool = env.mem.read_u8(tmp) == 0x0a;
            let ghost at = tmp as int;
            let ghost left = size - read;
            tmp = tmp + 1;
            read = read + 1;
            proof {
                if newline {
                    assert(fgets_loop(before, mid, at, left, stream as int, tmp as int));
                } else {
                    assert forall|after: Environment, end: int| #[trigger]
                        fgets_loop(
                            mid,
                            after,
                            tmp as int,
                            size - read,
                            stream as int,
                            end,
                        ) implies fgets_loop(
                        *old(env),
                        after,
                        str as int,
                        size as int,
                        stream as int,
                        end,
                    ) by {
                        assert(size - read == left - 1);
                        assert(fgets_loop(before, after, at, left, stream as int, end));
                    }
                }
            }
            if newline {
                more = false;
            }
        }
    }
    proof {
        if more {
            assert(fgets_loop(*env, *env, tmp as int, size - read, stream as int, tmp as int));
        }
    }
    if read == 0 {
        return 0;
    }
    env.mem.write_u8(tmp, 0);
    str
}

/// What `fwrite` does to one of the host's output streams.
pub open spec fn console_put(before: Console, after: Console, data: Seq<u8>) -> bool {
    &&& after == (Console { text: after.text, ..before })
    &&& if before.broken {
        after.text == before.text
    } else {
        after.text@ == before.text@ + data.take(before.write_count(data.len() as int))
    }
}

/// What `fwrite` does once the console `console` was written to.
pub open spec fn console_write_done(
    written: Environment,
    after: Environment,
    console: Console,
    size: int,
    item_size: int,
    file_ptr: int,
    r: int,
) -> bool {
    if console.broken {
        r == 0 && stream_set(written, after, file_ptr, pushed(written, file_ptr), true)
    } else {
        r == console.write_count(size) / item_size && after == written
    }
}

/// What `fwrite` does.
pub open spec fn fwrite_done(
    before: Environment,
    after: Environment,
    buffer: int,
    item_size: int,
    n_items: int,
    file_ptr: int,
    r: int,
) -> bool {
    let total = item_size * n_items;
    let fd = stream_fd(before, file_ptr);
    let data = bytes_from(before.mem, buffer, total);
    if item_size == 0 || buffer == 0 {
        r == 0 && after == before.with_errno(0)
    } else if fd == STDOUT_FILENO {
        &&& console_put(before.console, after.console, data)
        &&& console_write_done(
            before.with_errno(0).with_console(after.console),
            after,
            before.console,
            total,
            item_size,
            file_ptr,
            r,
        )
    } else if fd == STDERR_FILENO {
        &&& console_put(before.error_console, after.error_console, data)
        &&& console_write_done(
            before.with_errno(0).with_error_console(after.error_console),
            after,
            before.error_console,
            total,
            item_size,
            file_ptr,
            r,
        )
    } else {
        exists|written: Environment, n: int| #[trigger]
            write_done(before, written, fd, buffer, total, n) && (if n == -1 {
                r == 0 && stream_set(written, after, file_ptr, pushed(written, file_ptr), true)
            } else {
                r == n / item_size && after == written
            })
    }
}

/// The stream and the buffer of a write are guest memory, as far as they are
/// looked at.
pub open spec fn fwrite_ready(env: Environment, buffer: int, total: int, file_ptr: int) -> bool {
    let fd = stream_fd(env, file_ptr);
    &&& env.mem.valid(file_ptr, 4)
    &&& fd == STDOUT_FILENO || fd == STDERR_FILENO || env.fd_open(fd) ==> env.mem.valid(
        buffer,
        total,
    ) || total == 0
}

/// `size_t fwrite(const void *buffer, size_t item_size, size_t n_items, FILE *file);`
pub fn fwrite(
    env: &mut Environment,
    buffer: ConstVoidPtr,
    item_size: GuestUSize,
    n_items: GuestUSize,
    file_ptr: MutPtr,
) -> (r: GuestUSize)
    requires
        old(env).wf(),
        item_size > 0 && buffer != 0 ==> {
            &&& item_size * n_items <= u32::MAX
            &&& fwrite_ready(*old(env), buffer as int, item_size * n_items, file_ptr as int)
        },
    ensures
        final(env).wf(),
        fwrite_done(
            *old(env),
            *final(env),
            buffer as int,
            item_size as int,
            n_items as int,
            file_ptr as int,
            r as int,
        ),
        r <= n_items,
        final(env).mem == old(env).mem,
{
    set_errno(env, 0);
    if item_size == 0 || buffer == 0 {
        return 0;
    }
    let fd: i32 = fd_of(env, file_ptr);
    let total_size: u32 = item_size * n_items;
    proof {
        lemma_quotient_bound(item_size as int, n_items as int);
    }
    if fd == STDOUT_FILENO || fd == STDERR_FILENO {
        let data: Vec<u8> = env.mem.bytes_at(buffer, total_size);
        assert(data@ =~= bytes_from(env.mem, buffer as int, total_size as int));
        let written: Result<usize, ()> = if fd == STDOUT_FILENO {
            env.console.write(&data)
        } else {
            env.error_console.write(&data)
        };
        return match written {
            Ok(bytes_written) => (bytes_written / item_size as usize) as u32,
            Err(()) => {
                set_stream_error(env, file_ptr, true);
                0
            },
        };
    }
    let n: i32 = posix_io::write(env, fd, buffer, total_size);
    assert(write_done(
        *old(env),
        *env,
        stream_fd(*old(env), file_ptr as int),
        buffer as int,
        item_size * n_items,
        n as int,
    ));
    if n == -1 {
        set_stream_error(env, file_ptr, true);
        return 0;
    }
    n as u32 / item_size
}

/// No quotient of at most `a * b` by `a` is larger than `b`.
proof fn lemma_quotient_bound(a: int, b: int)
    requires
        a > 0,
        b >= 0,
    ensures
        forall|n: int| 0 <= n <= a * b ==> 0 <= #[trigger] (n / a) <= b,
{
    assert forall|n: int| 0 <= n <= a * b implies 0 <= #[trigger] (n / a) <= b by {
        assert(0 <= n / a <= b) by (nonlinear_arith)
            requires
                a > 0,
                0 <= n <= a * b,
        ;
    }
}

/// `int fputs(const char *str, FILE *stream);`: the string is one item.
pub fn fputs(env: &mut Environment, str: ConstPtr, stream: MutPtr) -> (r: i32)
    requires
        old(env).wf(),
        old(env).mem.valid(str as int, 0),
        old(env).mem.valid(stream as int, 4),
    ensures
        final(env).wf(),
        fwrite_done(
            *old(env),
            *final(env),
            str as int,
            old(env).mem.cstr(str as int).len() as int,
            1,
            stream as int,
            r as int,
        ),
{
    let len: u32 = env.mem.cstr_len_at(str);
    fwrite(env, str, len, 1, stream) as i32
}

/// What `fputc` does: the low byte of `c` is put into a chunk of its own, which
/// is written and freed.
pub open spec fn fputc_done(
    before: Environment,
    after: Environment,
    c: int,
    stream: int,
    r: int,
) -> bool {
    let byte = (unsigned32(c) % 0x100) as u8;
    exists|stored: Environment, written: Environment, ptr: u32|
        {
            &&& stored == before.with_errno(0).with_mem(stored.mem)
            &&& #[trigger] stored.mem.placed(before.mem, ptr, seq![byte])
            &&& #[trigger] fwrite_done(stored, written, ptr as int, 1, 1, stream, r)
            &&& after == written.with_mem(after.mem)
            &&& after.mem.bytes == written.mem.bytes
            &&& after.mem.chunk_removed(written.mem, ptr)
        }
}

/// `int fputc(int c, FILE *stream);`
pub fn fputc(env: &mut Environment, c: i32, stream: MutPtr) -> (r: i32)
    requires
        old(env).wf(),
        old(env).mem.valid(stream as int, 4),
        old(env).mem.has_room(1),
    ensures
        final(env).wf(),
        fputc_done(*old(env), *final(env), c as int, stream as int, r as int),
{
    set_errno(env, 0);
    let byte: Vec<u8> = vec![(to_unsigned32(c) % 0x100) as u8];
    let ghost b = (unsigned32(c as int) % 0x100) as u8;
    assert(byte@ =~= seq![b]);
    let ptr: u32 = env.mem.alloc_and_write(&byte);
    let ghost stored = *env;
    assert(stored.mem.placed(old(env).mem, ptr, seq![b]));
    proof {
        lemma_chunk_added(old(env).mem, stored.mem, ptr, 1);
    }
    let res: u32 = fwrite(env, ptr, 1, 1, stream);
    let ghost written = *env;
    env.mem.free(ptr);
    assert(fwrite_done(stored, written, ptr as int, 1, 1, stream as int, res as int));
    res as i32
}

/// `putc` is `fputc`.
pub fn putc(env: &mut Environment, c: i32, stream: MutPtr) -> (r: i32)
    requires
        old(env).wf(),
        old(env).mem.valid(stream as int, 4),
        old(env).mem.has_room(1),
    ensures
        final(env).wf(),
        fputc_done(*old(env), *final(env), c as int, stream as int, r as int),
{
    fputc(env, c, stream)
}

/// What `fseeko` does: what was pushed back is dropped where the seek succeeds.
pub open spec fn fseek_done(
    before: Environment,
    after: Environment,
    file_ptr: int,
    offset: int,
    whence: int,
    r: int,
) -> bool {
    let fd = stream_fd(before, file_ptr);
    match lseek_error(before, fd, offset, whence) {
        Some(e) => r == -1 && after == before.with_errno(e),
        None => {
            &&& r == 0
            &&& exists|moved: Environment|
                {
                    &&& #[trigger] repositioned(
                        before.with_errno(0),
                        moved,
                        fd,
                        lseek_target(before, fd, offset, whence),
                    )
                    &&& stream_set(moved, after, file_ptr, Seq::empty(), errored(before, file_ptr))
                }
        },
    }
}

pub fn fseeko(env: &mut Environment, file_ptr: MutPtr, offset: off_t, whence: i32) -> (r: i32)
    requires
        old(env).wf(),
        old(env).mem.valid(file_ptr as int, 4),
        whence == SEEK_SET || whence == SEEK_CUR || whence == SEEK_END,
    ensures
        final(env).wf(),
        fseek_done(
            *old(env),
            *final(env),
            file_ptr as int,
            offset as int,
            whence as int,
            r as int,
        ),
{
    set_errno(env, 0);
    let fd: i32 = fd_of(env, file_ptr);
    let position: i64 = posix_io::lseek(env, fd, offset, whence);
    if position == -1 {
        return -1;
    }
    let ghost moved = *env;
    assert(repositioned(
        old(env).with_errno(0),
        moved,
        fd as int,
        lseek_target(*old(env), fd as int, offset as int, whence as int),
    ));
    clear_pushbacks(env, file_ptr);
    0
}

/// `int fseek(FILE *file, long offset, int whence);`
pub fn fseek(env: &mut Environment, file_ptr: MutPtr, offset: i32, whence: i32) -> (r: i32)
    requires
        old(env).wf(),
        old(env).mem.valid(file_ptr as int, 4),
        whence == SEEK_SET || whence == SEEK_CUR || whence == SEEK_END,
    ensures
        final(env).wf(),
        fseek_done(
            *old(env),
            *final(env),
            file_ptr as int,
            offset as int,
            whence as int,
            r as int,
        ),
{
    fseeko(env, file_ptr, offset as i64, whence)
}

/// What `ftello` does.
pub open spec fn ftell_done(
    before: Environment,
    after: Environment,
    file_ptr: int,
    r: int,
) -> bool {
    let fd = stream_fd(before, file_ptr);
    match lseek_error(before, fd, 0, SEEK_CUR as int) {
        Some(e) => r == -1 && after == before.with_errno(e),
        None => {
            &&& r == before.fs.position(before.file(fd))
            &&& repositioned(before.with_errno(0), after, fd, r)
        },
    }
}

pub fn ftello(env: &mut Environment, file_ptr: MutPtr) -> (r: off_t)
    requires
        old(env).wf(),
        old(env).mem.valid(file_ptr as int, 4),
    ensures
        final(env).wf(),
        ftell_done(*old(env), *final(env), file_ptr as int, r as int),
{
    set_errno(env, 0);
    let fd: i32 = fd_of(env, file_ptr);
    posix_io::lseek(env, fd, 0, SEEK_CUR)
}

/// `long ftell(FILE *file);`, of a position that fits.
pub fn ftell(env: &mut Environment, file_ptr: MutPtr) -> (r: i32)
    requires
        old(env).wf(),
        old(env).mem.valid(file_ptr as int, 4),
        ({
            let fd = stream_fd(*old(env), file_ptr as int);
            lseek_error(*old(env), fd, 0, SEEK_CUR as int) is None ==> old(env).fs.position(
                old(env).file(fd),
            ) <= i32::MAX
        }),
    ensures
        final(env).wf(),
        ftell_done(*old(env), *final(env), file_ptr as int, r as int),
{
    ftello(env, file_ptr) as i32
}

/// `void rewind(FILE *file);`
pub fn rewind(env: &mut Environment, file_ptr: MutPtr)
    requires
        old(env).wf(),
        old(env).mem.valid(file_ptr as int, 4),
    ensures
        final(env).wf(),
        exists|cleared: Environment, r: int|
            {
                &&& #[trigger] stream_set(
                    old(env).with_errno(0),
                    cleared,
                    file_ptr as int,
                    pushed(*old(env), file_ptr as int),
                    false,
                )
                &&& #[trigger] fseek_done(
                    cleared,
                    *final(env),
                    file_ptr as int,
                    0,
                    SEEK_SET as int,
                    r,
                )
            },
{
    set_errno(env, 0);
    set_stream_error(env, file_ptr, false);
    let ghost cleared = *env;
    assert(stream_set(
        old(env).with_errno(0),
        cleared,
        file_ptr as int,
        pushed(*old(env), file_ptr as int),
        false,
    ));
    let r: i32 = fseek(env, file_ptr, 0, SEEK_SET);
    assert(fseek_done(cleared, *env, file_ptr as int, 0, SEEK_SET as int, r as int));
}

/// A stream that can be closed: one whose state is known and whose `FILE` was
/// not freed.
pub open spec fn stream_open(env: Environment, file_ptr: int) -> bool {
    &&& env.libc_state.stdio.file_streams@.contains_key(file_ptr as u32)
    &&& env.mem.in_chunk(file_ptr)
}

/// What `fclose` does: the stream is forgotten, its `FILE` freed and its
/// descriptor closed. What is no stream, or was closed before, is left alone.
pub open spec fn fclose_done(
    before: Environment,
    after: Environment,
    file_ptr: int,
    r: int,
) -> bool {
    if file_ptr == 0 || !stream_open(before, file_ptr) {
        r == EOF && after == before.with_errno(0)
    } else {
        exists|freed: Environment, c: int|
            {
                &&& #[trigger] stream_forgotten(before, freed, file_ptr)
                &&& #[trigger] close_done(freed, after, stream_fd(before, file_ptr), c)
                &&& r == if c == 0 {
                    0
                } else {
                    EOF as int
                }
            }
    }
}

/// The stream's state is gone and its `FILE` is freed.
pub open spec fn stream_forgotten(before: Environment, after: Environment, file_ptr: int) -> bool {
    &&& after == before.with_errno(0).with_mem(after.mem).with_stdio(
        State {
            file_streams: after.libc_state.stdio.file_streams,
            ..before.libc_state.stdio
        },
    )
    &&& after.mem.released(before.mem, file_ptr as u32)
    &&& after.libc_state.stdio.file_streams@ == before.libc_state.stdio.file_streams@.remove(
        file_ptr as u32,
    )
}

/// `int fclose(FILE *file);`
pub fn fclose(env: &mut Environment, file_ptr: MutPtr) -> (r: i32)
    requires
        old(env).wf(),
        stream_open(*old(env), file_ptr as int) ==> old(env).mem.valid(file_ptr as int, 4),
    ensures
        final(env).wf(),
        fclose_done(*old(env), *final(env), file_ptr as int, r as int),
{
    set_errno(env, 0);
    if file_ptr == 0 {
        return EOF;
    }
    // A second close of the same stream, or one of an unknown stream.
    if !env.libc_state.stdio.file_streams.contains_key(&file_ptr) || !env.mem.is_in_chunk(
        file_ptr,
    ) {
        return EOF;
    }
    let fd: i32 = fd_of(env, file_ptr);
    let _ = env.libc_state.stdio.file_streams.remove(&file_ptr);
    env.mem.free(file_ptr);
    let ghost freed = *env;
    assert(freed.libc_state.stdio.file_streams@
        =~= old(env).libc_state.stdio.file_streams@.remove(file_ptr));
    assert(stream_forgotten(*old(env), freed, file_ptr as int));
    let c: i32 = posix_io::close(env, fd);
    assert(close_done(freed, *env, stream_fd(*old(env), file_ptr as int), c as int));
    if c == 0 {
        0
    } else {
        EOF
    }
}

/// `int ferror(FILE *file);`
pub fn ferror(env: &mut Environment, file_ptr: MutPtr) -> (r: i32)
    requires
        old(env).wf(),
    ensures
        final(env).wf(),
        r == if errored(*old(env), file_ptr as int) {
            1i32
        } else {
            0
        },
        stream_set(
            old(env).with_errno(0),
            *final(env),
            file_ptr as int,
            pushed(*old(env), file_ptr as int),
            errored(*old(env), file_ptr as int),
        ),
{
    set_errno(env, 0);
    let o: &mut FILEHostObject = env.libc_state.stdio.get_file_host_obj_mut(file_ptr);
    if o.error {
        1
    } else {
        0
    }
}

/// The file position at `pos`.
pub open spec fn position_at(mem: Mem, pos: int) -> int {
    signed64(le_u64(mem@, pos))
}

/// `int fsetpos(FILE *file, const fpos_t *pos);`
pub fn fsetpos(env: &mut Environment, file_ptr: MutPtr, pos: ConstPtr) -> (r: i32)
    requires
        old(env).wf(),
        old(env).mem.valid(file_ptr as int, 4),
        old(env).mem.valid(pos as int, 8),
    ensures
        final(env).wf(),
        fseek_done(
            *old(env),
            *final(env),
            file_ptr as int,
            position_at(old(env).mem, pos as int),
            SEEK_SET as int,
            r as int,
        ),
{
    let offset: i64 = env.mem.read_i64(pos);
    fseeko(env, file_ptr, offset, SEEK_SET)
}

/// What `fgetpos` does.
pub open spec fn fgetpos_done(
    before: Environment,
    after: Environment,
    file_ptr: int,
    pos: int,
    r: int,
) -> bool {
    exists|told: Environment, position: int| #[trigger]
        ftell_done(before, told, file_ptr, position) && (if position == -1 {
            r == -1 && after == told
        } else {
            &&& r == 0
            &&& after == told.with_mem(after.mem)
            &&& after.mem.stored(told.mem, pos, le_bytes(position, 8))
        })
}

/// `int fgetpos(FILE *file, fpos_t *pos);`
pub fn fgetpos(env: &mut Environment, file_ptr: MutPtr, pos: MutPtr) -> (r: i32)
    requires
        old(env).wf(),
        old(env).mem.valid(file_ptr as int, 4),
        old(env).mem.valid(pos as int, 8),
    ensures
        final(env).wf(),
        fgetpos_done(*old(env), *final(env), file_ptr as int, pos as int, r as int),
{
    let res: i64 = ftello(env, file_ptr);
    if res == -1 {
        return -1;
    }
    env.mem.write_i64(pos, res);
    0
}

/// `int feof(FILE *file);`
pub fn feof(env: &mut Environment, file_ptr: MutPtr) -> (r: i32)
    requires
        old(env).wf(),
        old(env).mem.valid(file_ptr as int, 4),
    ensures
        final(env).wf(),
        *final(env) == old(env).with_errno(0),
        ({
            let fd = stream_fd(*old(env), file_ptr as int);
            r == if old(env).fd_open(fd) && !old(env).object(fd).reached_eof {
                0i32
            } else {
                1
            }
        }),
{
    set_errno(env, 0);
    let fd: i32 = fd_of(env, file_ptr);
    posix_io::eof(env, fd)
}

/// `void clearerr(FILE *file);`
pub fn clearerr(env: &mut Environment, file_ptr: MutPtr)
    requires
        old(env).wf(),
        old(env).mem.valid(file_ptr as int, 4),
    ensures
        final(env).wf(),
        exists|cleared: Environment|
            {
                let fd = stream_fd(*old(env), file_ptr as int);
                &&& #[trigger] stream_set(
                    old(env).with_errno(0),
                    cleared,
                    file_ptr as int,
                    pushed(*old(env), file_ptr as int),
                    false,
                )
                &&& if cleared.fd_open(fd) {
                    &&& *final(env) == cleared.with_posix_io(final(env).libc_state.posix_io)
                    &&& posix_io::object_set(
                        cleared,
                        *final(env),
                        fd,
                        (posix_io::PosixFileHostObject {
                            reached_eof: false,
                            ..cleared.object(fd)
                        }),
                    )
                } else {
                    *final(env) == cleared
                }
            },
{
    set_errno(env, 0);
    set_stream_error(env, file_ptr, false);
    let ghost cleared = *env;
    assert(stream_set(
        old(env).with_errno(0),
        cleared,
        file_ptr as int,
        pushed(*old(env), file_ptr as int),
        false,
    ));
    let fd: i32 = fd_of(env, file_ptr);
    posix_io::clearerr(env, fd)
}

/// `int fflush(FILE *file);`
pub fn fflush(env: &mut Environment, file_ptr: MutPtr) -> (r: i32)
    requires
        old(env).wf(),
        old(env).mem.valid(file_ptr as int, 4),
    ensures
        final(env).wf(),
        *final(env) == old(env).with_errno(0),
        ({
            let fd = stream_fd(*old(env), file_ptr as int);
            r == if old(env).fd_open(fd) && old(env).fs.fault(
                old(env).file(fd),
                FileOp::Flush,
            ) is None {
                0
            } else {
                -1
            }
        }),
{
    set_errno(env, 0);
    let fd: i32 = fd_of(env, file_ptr);
    posix_io::fflush(env, fd)
}

/// `int puts(const char *s);`
pub fn puts(env: &mut Environment, s: ConstPtr) -> (r: i32)
    requires
        old(env).wf(),
        old(env).mem.valid(s as int, 0),
    ensures
        final(env).wf(),
        r == 0,
        *final(env) == old(env).with_errno(0).with_console(final(env).console),
        final(env).console == (Console { text: final(env).console.text, ..old(env).console }),
        final(env).console.text@ == if old(env).console.broken {
            old(env).console.text@
        } else {
            old(env).console.text@ + old(env).mem.cstr(s as int).push(0x0a)
        },
{
    set_errno(env, 0);
    let mut line: Vec<u8> = env.mem.cstr_at(s);
    line.push(0x0a);
    env.console.write_all(&line);
    0
}

/// `int putchar(int c);`
pub fn putchar(env: &mut Environment, c: u8) -> (r: i32)
    requires
        old(env).wf(),
    ensures
        final(env).wf(),
        r == 0,
        *final(env) == old(env).with_errno(0).with_console(final(env).console),
        console_put(old(env).console, final(env).console, seq![c]),
{
    set_errno(env, 0);
    let byte: Vec<u8> = vec![c];
    assert(byte@ =~= seq![c]);
    let _ = env.console.write(&byte);
    0
}

/// The `errno` of a refused removal.
pub open spec fn remove_errno(e: FsError) -> i32 {
    match e {
        FsError::DirectoryNotEmpty => ENOTEMPTY,
        FsError::DoesNotExist | FsError::NonexistentParentDir => ENOENT,
        FsError::InvalidParentDir => ENOTDIR,
        FsError::AccessDenied | FsError::ReadonlyParentDir => EACCES,
        FsError::AlreadyExist => EINVAL,
    }
}

/// What `remove` does.
pub open spec fn remove_done(before: Environment, after: Environment, path: int, r: int) -> bool {
    let text = before.mem.cstr(path);
    if path == 0 || !valid_utf8(text) {
        r == -1 && after == before.with_errno(ENOENT)
    } else {
        match before.fs.remove_error(decode_utf8(text)) {
            Some(e) => r == -1 && after == before.with_errno(remove_errno(e)),
            None => {
                &&& r == 0
                &&& after == before.with_errno(0).with_fs(
                    Fs { nodes: after.fs.nodes, ..before.fs },
                )
                &&& after.fs.nodes@ == before.fs.nodes@.remove(
                    before.fs.place(decode_utf8(text))->Node_0 as int,
                )
            },
        }
    }
}

/// `int remove(const char *path);`: removes a file, or an empty directory.
pub fn remove(env: &mut Environment, path: ConstPtr) -> (r: i32)
    requires
        old(env).wf(),
        path != 0 ==> old(env).mem.valid(path as int, 0),
    ensures
        final(env).wf(),
        remove_done(*old(env), *final(env), path as int, r as int),
{
    set_errno(env, 0);
    if path == 0 {
        set_errno(env, ENOENT);
        return -1;
    }
    let chars: Vec<char> = match env.mem.cstr_at_utf8(path) {
        Some(text) => chars_of(text.as_str()),
        None => {
            set_errno(env, ENOENT);
            return -1;
        },
    };
    match env.fs.remove(&chars) {
        Ok(()) => 0,
        Err(e) => {
            let errno: i32 = match e {
                FsError::DirectoryNotEmpty => ENOTEMPTY,
                FsError::DoesNotExist | FsError::NonexistentParentDir => ENOENT,
                FsError::InvalidParentDir => ENOTDIR,
                FsError::AccessDenied | FsError::ReadonlyParentDir => EACCES,
                FsError::AlreadyExist => EINVAL,
            };
            set_errno(env, errno);
            -1
        },
    }
}

/// What the name of every temporary file starts with: `/tmp/touchHLE_tmp_`.
pub open spec fn tmp_prefix() -> Seq<u8> {
    seq![
        0x2fu8,
        0x74u8,
        0x6du8,
        0x70u8,
        0x2fu8,
        0x74u8,
        0x6fu8,
        0x75u8,
        0x63u8,
        0x68u8,
        0x48u8,
        0x4cu8,
        0x45u8,
        0x5fu8,
        0x74u8,
        0x6du8,
        0x70u8,
        0x5fu8,
    ]
}

/// The name of the temporary file number `count` of the process `pid`.
pub open spec fn tmp_name(pid: u32, count: u32) -> Seq<u8> {
    (tmp_prefix() + decimal(pid as nat)).push(0x5f) + decimal(count as nat)
}

/// The mode with which a temporary file is opened: `w+b`.
pub open spec fn tmp_mode() -> Seq<u8> {
    seq![0x77u8, 0x2bu8, 0x62u8]
}

pub fn tmp_file_name(pid: u32, count: u32) -> (r: Vec<u8>)
    ensures
        r@ == tmp_name(pid, count),
        r@.len() <= 39,
{
    let mut name: Vec<u8> = vec![
        0x2f,
        0x74,
        0x6d,
        0x70,
        0x2f,
        0x74,
        0x6f,
        0x75,
        0x63,
        0x68,
        0x48,
        0x4c,
        0x45,
        0x5f,
        0x74,
        0x6d,
        0x70,
        0x5f,
    ];
    assert(name@ =~= tmp_prefix());
    push_decimal(&mut name, pid);
    name.push(0x5f);
    push_decimal(&mut name, count);
    proof {
        lemma_decimal_len(pid as nat);
        lemma_decimal_len(count as nat);
    }
    name
}

/// A C string was put into a new chunk at `ptr`.
pub open spec fn cstr_placed(
    before: Environment,
    after: Environment,
    ptr: u32,
    text: Seq<u8>,
) -> bool {
    &&& after == before.with_mem(after.mem)
    &&& after.mem.placed(before.mem, ptr, text.push(0))
}

/// The chunk at `ptr` was freed.
pub open spec fn chunk_freed(before: Environment, after: Environment, ptr: u32) -> bool {
    &&& after == before.with_mem(after.mem)
    &&& after.mem.bytes == before.mem.bytes
    &&& after.mem.chunk_removed(before.mem, ptr)
}

/// A file was opened by a name and a mode that lay in chunks of their own for
/// that long.
pub open spec fn tmp_opened(
    before: Environment,
    after: Environment,
    name: Seq<u8>,
    file: int,
) -> bool {
    exists|
        named: Environment,
        ready: Environment,
        opened: Environment,
        mid: Environment,
        name_ptr: u32,
        mode_ptr: u32,
    |
        {
            &&& #[trigger] cstr_placed(before, named, name_ptr, name)
            &&& #[trigger] cstr_placed(named, ready, mode_ptr, tmp_mode())
            &&& #[trigger] fopen_done(ready, opened, name_ptr as int, mode_ptr as int, file)
            &&& #[trigger] chunk_freed(opened, mid, name_ptr)
            &&& chunk_freed(mid, after, mode_ptr)
        }
}

/// A file was removed by a name that lay in a chunk of its own for that long.
pub open spec fn tmp_removed(before: Environment, after: Environment, name: Seq<u8>) -> bool {
    exists|named: Environment, removed: Environment, name_ptr: u32, c: int|
        {
            &&& #[trigger] cstr_placed(before, named, name_ptr, name)
            &&& #[trigger] remove_done(named, removed, name_ptr as int, c)
            &&& chunk_freed(removed, after, name_ptr)
        }
}

/// The environment once a temporary file was counted.
pub open spec fn tmp_counted(before: Environment) -> Environment {
    let count = before.libc_state.stdio.tmpfile_counter;
    before.with_errno(0).with_stdio(
        State {
            tmpfile_counter: if count == u32::MAX {
                0
            } else {
                (count + 1) as u32
            },
            ..before.libc_state.stdio
        },
    )
}

/// What `tmpfile` does: a file with a name of its own is opened, and the name
/// is removed while the file stays open.
pub open spec fn tmpfile_done(before: Environment, after: Environment, pid: u32, r: int) -> bool {
    let name = tmp_name(pid, before.libc_state.stdio.tmpfile_counter);
    exists|opened: Environment| #[trigger]
        tmp_opened(tmp_counted(before), opened, name, r) && (if r == 0 {
            after == opened
        } else {
            tmp_removed(opened, after, name)
        })
}

/// Opens the file `name` as a temporary file.
fn open_tmp(env: &mut Environment, name: &Vec<u8>) -> (r: MutPtr)
    requires
        old(env).wf(),
        has_free_fd(*old(env)),
        name@.len() <= 39,
        old(env).mem.has_room(80),
    ensures
        final(env).wf(),
        tmp_opened(*old(env), *final(env), name@, r as int),
        final(env).mem.has_room(name@.len() as int + 1),
{
    let ghost start = *env;
    let ghost n = name@.len() as int + 1;
    let ghost h = heap_size(n);
    let ghost room = choose|a: int| #[trigger] start.mem.fits(a, 80);
    proof {
        assert(start.mem.fits(room, 80));
        assert(h <= 48);
        assert(start.mem.fits(room, n));
    }
    let name_ptr: u32 = env.mem.alloc_and_write_cstr(name);
    let ghost named = *env;
    proof {
        lemma_room_left(start.mem, named.mem, name_ptr, n, room, 80);
        lemma_chunk_added(start.mem, named.mem, name_ptr, n);
        assert(named.mem.fits(room + h, 4));
    }
    assert(cstr_placed(start, named, name_ptr, name@));
    let mode: Vec<u8> = vec![0x77, 0x2b, 0x62];
    assert(mode@ =~= tmp_mode());
    let mode_ptr: u32 = env.mem.alloc_and_write_cstr(&mode);
    let ghost ready = *env;
    proof {
        lemma_room_left(named.mem, ready.mem, mode_ptr, 4, room + h, 80 - h);
        lemma_chunk_added(named.mem, ready.mem, mode_ptr, 4);
        assert(ready.mem.fits(room + h + 16, 4));
        lemma_distinct(named.mem, name_ptr, n, mode_ptr, 4);
    }
    assert(cstr_placed(named, ready, mode_ptr, tmp_mode()));
    let file_ptr: u32 = fopen(env, name_ptr, mode_ptr);
    let ghost opened = *env;
    assert(fopen_done(ready, opened, name_ptr as int, mode_ptr as int, file_ptr as int));
    free_tmp_chunks(env, name_ptr, Ghost(ready), Ghost(n), mode_ptr, file_ptr);
    file_ptr
}

/// Frees the chunks that held the name and the mode of a temporary file.
fn free_tmp_chunks(
    env: &mut Environment,
    name_ptr: MutPtr,
    Ghost(ready): Ghost<Environment>,
    Ghost(n): Ghost<int>,
    mode_ptr: MutPtr,
    file_ptr: MutPtr,
)
    requires
        old(env).wf(),
        ready.wf(),
        0 < n <= 40,
        name_ptr != mode_ptr,
        ready.mem.allocated(mode_ptr as int),
        ready.mem.chunks@.contains(
            (crate::mem::Chunk { base: name_ptr, size: heap_size(n) as u32 }),
        ),
        fopen_done(ready, *old(env), name_ptr as int, mode_ptr as int, file_ptr as int),
    ensures
        final(env).wf(),
        exists|mid: Environment| #[trigger]
            chunk_freed(*old(env), mid, name_ptr) && chunk_freed(mid, *final(env), mode_ptr),
        final(env).mem.has_room(n),
{
    let ghost opened = *env;
    let ghost c = crate::mem::Chunk { base: name_ptr, size: heap_size(n) as u32 };
    proof {
        lemma_fopen_keeps_chunks(
            ready,
            opened,
            name_ptr as int,
            mode_ptr as int,
            file_ptr as int,
        );
        assert(opened.mem.chunks@.contains(c));
        let i = choose|i: int| 0 <= i < opened.mem.chunks@.len() && opened.mem.chunks@[i] == c;
        assert(opened.mem.chunks@[i].base == name_ptr);
        assert(opened.mem.allocated(mode_ptr as int));
    }
    env.mem.free(name_ptr);
    let ghost mid = *env;
    proof {
        lemma_chunk_removed(opened.mem, mid.mem, name_ptr);
        lemma_freed_room(opened.mem, mid.mem, name_ptr, c.size);
        assert(mid.mem.allocated(mode_ptr as int));
    }
    assert(chunk_freed(opened, mid, name_ptr));
    env.mem.free(mode_ptr);
    proof {
        lemma_room_kept(mid.mem, env.mem, mode_ptr, name_ptr as int, heap_size(n));
        assert(env.mem.fits(name_ptr as int, n));
    }
}

/// Removes the file `name`.
fn remove_tmp(env: &mut Environment, name: &Vec<u8>)
    requires
        old(env).wf(),
        name@.len() <= 39,
        old(env).mem.has_room(name@.len() as int + 1),
    ensures
        final(env).wf(),
        tmp_removed(*old(env), *final(env), name@),
{
    let name_ptr: u32 = env.mem.alloc_and_write_cstr(name);
    let ghost named = *env;
    proof {
        lemma_chunk_added(old(env).mem, named.mem, name_ptr, name@.len() as int + 1);
    }
    assert(cstr_placed(*old(env), named, name_ptr, name@));
    let c: i32 = remove(env, name_ptr);
    let ghost removed = *env;
    assert(remove_done(named, removed, name_ptr as int, c as int));
    env.mem.free(name_ptr);
}

/// `FILE *tmpfile(void);`, in the host process `pid`.
pub fn tmpfile(env: &mut Environment, pid: u32) -> (r: MutPtr)
    requires
        old(env).wf(),
        has_free_fd(*old(env)),
        old(env).mem.has_room(80),
    ensures
        final(env).wf(),
        tmpfile_done(*old(env), *final(env), pid, r as int),
{
    set_errno(env, 0);
    let count: u32 = env.libc_state.stdio.tmpfile_counter;
    env.libc_state.stdio.tmpfile_counter = if count == u32::MAX {
        0
    } else {
        count + 1
    };
    assert(*env == tmp_counted(*old(env)));
    let name: Vec<u8> = tmp_file_name(pid, count);
    let file_ptr: u32 = open_tmp(env, &name);
    assert(tmp_opened(tmp_counted(*old(env)), *env, name@, file_ptr as int));
    if file_ptr == 0 {
        return 0;
    }
    remove_tmp(env, &name);
    file_ptr
}

/// What is live before an `fopen` is live after it.
proof fn lemma_fopen_keeps_chunks(
    before: Environment,
    after: Environment,
    filename: int,
    mode: int,
    r: int,
)
    requires
        fopen_done(before, after, filename, mode, r),
    ensures
        forall|c: crate::mem::Chunk|
            before.mem.chunks@.contains(c) ==> #[trigger] after.mem.chunks@.contains(c),
        forall|a: int| before.mem.allocated(a) ==> #[trigger] after.mem.allocated(a),
        after.mem@.len() == before.mem@.len(),
{
    match mode_flags(before.mem.cstr(mode)) {
        None => {},
        Some(flags) => {
            let (opened, fd): (Environment, int) = choose|opened: Environment, fd: int| #[trigger]
                open_done(before, opened, filename, flags, fd) && (if fd == -1 {
                    r == 0 && after == opened
                } else {
                    &&& stream_set(opened.with_mem(after.mem), after, r, Seq::empty(), false)
                    &&& after.mem.placed(opened.mem, r as u32, le_bytes(unsigned32(fd), 4))
                    &&& r > 0
                });
            if fd != -1 {
                crate::mem::lemma_le_bytes_len(unsigned32(fd), 4);
                lemma_chunk_added(opened.mem, after.mem, r as u32, 4);
            }
        },
    }
}

/// A new chunk is not where another one is.
proof fn lemma_distinct(before: Mem, held: u32, size: int, ptr: u32, n: int)
    requires
        before.wf(),
        0 < size <= u32::MAX - 16,
        before.chunks@.contains(
            (crate::mem::Chunk { base: held, size: heap_size(size) as u32 }),
        ),
        before.fits(ptr as int, n),
        n > 0,
    ensures
        ptr != held,
{
    let c = crate::mem::Chunk { base: held, size: heap_size(size) as u32 };
    let i = choose|i: int| 0 <= i < before.chunks@.len() && before.chunks@[i] == c;
    assert(before.chunks@[i] == c);
}

/// Where a standard stream is found by its symbol: the address of a pointer to
/// a `FILE` with the descriptor `fd`, which is a stream from then on.
pub fn standard_stream_pointer(env: &mut Environment, fd: posix_io::FileDescriptor) -> (r:
    ConstVoidPtr)
    requires
        old(env).wf(),
        0 <= fd < 3,
        old(env).mem.has_room(32),
    ensures
        final(env).wf(),
        exists|mid: Mem, file: u32|
            {
                &&& #[trigger] mid.placed(old(env).mem, file, le_bytes(fd as int, 4))
                &&& #[trigger] final(env).mem.placed(mid, r, le_bytes(file as int, 4))
                &&& stream_set(
                    old(env).with_mem(final(env).mem),
                    *final(env),
                    file as int,
                    Seq::empty(),
                    false,
                )
            },
{
    let ghost room = choose|a: int| #[trigger] env.mem.fits(a, 32);
    assert(env.mem.fits(room, 4));
    let file: u32 = env.mem.alloc_and_write(&le_word(fd as u32));
    let ghost mid = env.mem;
    proof {
        lemma_room_left(old(env).mem, mid, file, 4, room, 32);
        assert(mid.fits(room + 16, 4));
    }
    let r: u32 = env.mem.alloc_and_write(&le_word(file));
    assert(mid.placed(old(env).mem, file, le_bytes(fd as int, 4)));
    add_stream(env, file);
    r
}

/// Makes a stream of a `FILE`.
fn add_stream(env: &mut Environment, file: MutPtr)
    requires
        old(env).wf(),
    ensures
        final(env).wf(),
        stream_set(*old(env), *final(env), file as int, Seq::empty(), false),
{
    let pushbacks: Vec<u8> = Vec::new();
    assert(pushbacks@ =~= Seq::empty());
    env.libc_state.stdio.file_streams.insert(file, FILEHostObject { pushbacks, error: false });
}

/// Size of the `FILE` struct that older programs index an array of: `&f[0]` is
/// stdin, `&f[1]` stdout and `&f[2]` stderr. Only the first four bytes, the
/// descriptor, are used.
pub const DARWIN_SFILE_SIZE: u32 = 88;

/// The contents of the array of standard streams.
pub open spec fn sfile_bytes() -> Seq<u8> {
    Seq::new(
        264,
        |i: int|
            if i == 88 {
                1u8
            } else if i == 176 {
                2u8
            } else {
                0u8
            },
    )
}

/// The three entries of the array at `r` were made streams.
pub open spec fn array_streams(before: Environment, after: Environment, r: int) -> bool {
    exists|first: Environment, second: Environment|
        {
            &&& #[trigger] stream_set(before, first, r, Seq::empty(), false)
            &&& #[trigger] stream_set(first, second, r + 88, Seq::empty(), false)
            &&& stream_set(second, after, r + 176, Seq::empty(), false)
        }
}

/// The array of the three standard streams.
pub fn standard_stream_array(env: &mut Environment) -> (r: ConstVoidPtr)
    requires
        old(env).wf(),
        old(env).mem.has_room(264),
    ensures
        final(env).wf(),
        final(env).mem.placed(old(env).mem, r, sfile_bytes()),
        array_streams(old(env).with_mem(final(env).mem), *final(env), r as int),
{
    let mut data: Vec<u8> = Vec::new();
    data.resize(264, 0);
    data[88] = 1;
    data[176] = 2;
    assert(data@ =~= sfile_bytes());
    let r: u32 = env.mem.alloc_and_write(&data);
    let ghost placed = *env;
    add_stream(env, r);
    let ghost first = *env;
    add_stream(env, r + 88);
    let ghost second = *env;
    add_stream(env, r + 176);
    assert(stream_set(placed, first, r as int, Seq::empty(), false));
    assert(stream_set(first, second, r + 88, Seq::empty(), false));
    r
}

/// `void setbuf(FILE *stream, char *buf);`: streams have no buffer to replace.
pub fn setbuf(env: &mut Environment, _stream: MutPtr, _buf: ConstPtr)
    ensures
        *final(env) == old(env).with_errno(0),
{
    set_errno(env, 0);
}

/// `int setvbuf(FILE *stream, char *buf, int mode, size_t size);`: streams have
/// no buffer to replace.
pub fn setvbuf(
    env: &mut Environment,
    _stream: MutVoidPtr,
    _buf: MutVoidPtr,
    _mode: i32,
    _size: GuestUSize,
) -> (r: i32)
    ensures
        *final(env) == *old(env),
        r == 0,
{
    0
}

/// `int fileno(FILE *file);`
pub fn fileno(env: &mut Environment, file_ptr: MutPtr) -> (r: posix_io::FileDescriptor)
    requires
        old(env).wf(),
        old(env).mem.valid(file_ptr as int, 4),
    ensures
        *final(env) == *old(env),
        r == stream_fd(*old(env), file_ptr as int),
{
    fd_of(env, file_ptr)
}

/// `flockfile()`: acquire ownership of a FILE stream for thread-safe I/O.
///
/// Guest threads do not run at the same time, so the calling thread always has
/// exclusive access.
pub fn flockfile(env: &mut Environment, _file_ptr: MutPtr)
    ensures
        *final(env) == *old(env),
{
}

/// `funlockfile()`: release ownership of a FILE stream.
pub fn funlockfile(env: &mut Environment, _file_ptr: MutPtr)
    ensures
        *final(env) == *old(env),
{
}

/// `ftrylockfile()`: try to acquire ownership of a FILE stream, which is always
/// available.
pub fn ftrylockfile(env: &mut Environment, _file_ptr: MutPtr) -> (r: i32)
    ensures
        *final(env) == *old(env),
        r == 0,
{
    0
}

/// What `fwrite` wrote, all that it was given or a part of it, is what an
/// `fread` of as much gives back, after `fseek` to where the write began.
pub proof fn law_fread_gives_back_fwrite(
    before: Environment,
    written: Environment,
    sought: Environment,
    read: Environment,
    k: usize,
    file_ptr: int,
    from: int,
    to: int,
    size: int,
    w: int,
    n: int,
)
    requires
        before.wf(),
        before.mem.valid(file_ptr, 4),
        before.fd_open(stream_fd(before, file_ptr)),
        before.file(stream_fd(before, file_ptr)) == GuestFile::Open(k),
        before.fs.fault(GuestFile::Open(k), FileOp::Read) is None,
        0 < size <= i32::MAX,
        before.mem.valid(from, size),
        before.mem.valid(to, w),
        fwrite_done(before, written, from, 1, size, file_ptr, w),
        w > 0,
        fseek_done(
            written,
            sought,
            file_ptr,
            before.fs.write_start(k as int),
            SEEK_SET as int,
            0,
        ),
        fread_done(sought, read, to, 1, w, file_ptr, n),
    ensures
        n == w,
        read.mem@.subrange(to, to + w) == before.mem@.subrange(from, from + w),
{
    let fd = stream_fd(before, file_ptr);
    let start = before.fs.write_start(k as int);
    let (put, m): (Environment, int) = choose|put: Environment, m: int| #[trigger]
        write_done(before, put, fd, from, size, m) && (if m == -1 {
            w == 0 && stream_set(put, written, file_ptr, pushed(put, file_ptr), true)
        } else {
            w == m / 1 && written == put
        });
    assert(m == w && written == put);
    let moved = choose|moved: Environment|
        {
            &&& #[trigger] repositioned(
                written.with_errno(0),
                moved,
                fd,
                lseek_target(written, fd, start, SEEK_SET as int),
            )
            &&& stream_set(moved, sought, file_ptr, Seq::empty(), errored(written, file_ptr))
        };
    let data = bytes_from(before.mem, from, size).take(w);
    assert(data =~= before.mem@.subrange(from, from + w));
    assert(written.fs.read_bytes_at(k as int, start, w) =~= data);
    assert(pushed(sought, file_ptr) =~= Seq::empty());
    let taken = choose|taken: Environment| #[trigger]
        pushbacks_taken(sought, taken, to, w, file_ptr) && fread_rest_done(
            taken,
            read,
            to,
            w,
            0,
            1,
            file_ptr,
            n,
        );
    assert(taken.mem@ =~= sought.mem@);
    assert(taken.fs.read_bytes(k as int, w) =~= data);
    let (got, c): (Environment, int) = choose|got: Environment, c: int| #[trigger]
        read_done(taken, got, fd, to, w, c) && (if c == -1 {
            &&& stream_set(got, read, file_ptr, pushed(got, file_ptr), true)
            &&& n == 0int / 1
        } else {
            read == got && n == (c + 0) / 1
        });
    assert(c == w);
    assert(read.mem@.subrange(to, to + w) =~= data);
}

/// A stream that was closed is closed for good: a second `fclose` gives `EOF`,
/// frees nothing and closes nothing.
pub proof fn law_fclose_once(
    before: Environment,
    closed: Environment,
    after: Environment,
    file_ptr: int,
    r: int,
)
    requires
        0 < file_ptr <= u32::MAX,
        fclose_done(before, closed, file_ptr, 0),
        fclose_done(closed, after, file_ptr, r),
    ensures
        r == EOF,
        after == closed.with_errno(0),
{
    let (freed, c): (Environment, int) = choose|freed: Environment, c: int|
        {
            &&& #[trigger] stream_forgotten(before, freed, file_ptr)
            &&& #[trigger] close_done(freed, closed, stream_fd(before, file_ptr), c)
            &&& 0 == if c == 0 {
                0
            } else {
                EOF as int
            }
        };
    assert(stream_forgotten(before, freed, file_ptr));
    assert(!closed.libc_state.stdio.file_streams@.contains_key(file_ptr as u32));
}

/// An address that no chunk of the heap covers, such as one that was freed, is
/// no stream, whatever else was done with it.
pub proof fn law_freed_is_no_stream(
    before: Environment,
    after: Environment,
    file_ptr: int,
    r: int,
)
    requires
        !before.mem.in_chunk(file_ptr),
        fclose_done(before, after, file_ptr, r),
    ensures
        r == EOF,
        after == before.with_errno(0),
{
}

} // verus!
