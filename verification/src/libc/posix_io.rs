//! POSIX I/O functions (`fcntl.h`, parts of `unistd.h`, etc)
use vstd::prelude::*;

use crate::environment::{Console, Environment};
use crate::fs::{FileOp, Fs, GuestFile, IoErrorKind};
use crate::text::{chars_of, lossy_text, string_bytes, string_of, utf8_bytes, utf8_lossy};
use crate::libc::path_search::{find_open_target, open_target};
use crate::fs::GuestOpenOptions;
use vstd::utf8::{decode_utf8, encode_utf8, valid_utf8};
use crate::libc::errno::{
    EEXIST, ENOENT,
    set_errno, EBADF, EINTR, EINVAL, EIO, EISDIR, EMFILE, EOVERFLOW, ESPIPE,
};
use crate::mem::{
    le_bytes, le_u16, le_u32, le_u64, signed16, signed32, signed64, to_signed16, to_signed32,
    ConstPtr, ConstVoidPtr, GuestISize, GuestUSize, Mem, MutPtr, MutVoidPtr,
};

verus! {

/// File descriptor type.
/// This alias is for readability, POSIX just uses `int`.
pub type FileDescriptor = i32;

pub const STDIN_FILENO: FileDescriptor = 0;

pub const STDOUT_FILENO: FileDescriptor = 1;

pub const STDERR_FILENO: FileDescriptor = 2;

const NORMAL_FILENO_BASE: FileDescriptor = 3;

pub type off_t = i64;

pub const SEEK_SET: i32 = 0;

pub const SEEK_CUR: i32 = 1;

pub const SEEK_END: i32 = 2;

/// Flags bitfield for `open`.
/// This alias is for readability, POSIX just uses `int`.
pub type OpenFlag = i32;

pub const O_RDONLY: OpenFlag = 0x0;

pub const O_WRONLY: OpenFlag = 0x1;

pub const O_RDWR: OpenFlag = 0x2;

pub const O_ACCMODE: OpenFlag = 0x3;

pub const O_NONBLOCK: OpenFlag = 0x4;

pub const O_APPEND: OpenFlag = 0x8;

pub const O_SHLOCK: OpenFlag = 0x10;

pub const O_NOFOLLOW: OpenFlag = 0x100;

pub const O_CREAT: OpenFlag = 0x200;

pub const O_TRUNC: OpenFlag = 0x400;

pub const O_EXCL: OpenFlag = 0x800;

pub const O_NOCTTY: OpenFlag = 0x20000;

/// File control command flags.
/// This alias is for readability, POSIX just uses `int`.
pub type FileControlCommand = i32;

pub const F_DUPFD: FileControlCommand = 0;

pub const F_GETFD: FileControlCommand = 1;

pub const F_SETFD: FileControlCommand = 2;

pub const F_GETFL: FileControlCommand = 3;

pub const F_SETFL: FileControlCommand = 4;

pub const F_GETLK: FileControlCommand = 7;

pub const F_SETLK: FileControlCommand = 8;

pub const F_SETLKW: FileControlCommand = 9;

pub const F_CHKCLEAN: FileControlCommand = 41;

pub const F_PREALLOCATE: FileControlCommand = 42;

pub const F_SETSIZE: FileControlCommand = 43;

pub const F_RDADVISE: FileControlCommand = 44;

pub const F_RDAHEAD: FileControlCommand = 45;

pub const F_TRUNCATEOVERSIZE: FileControlCommand = 46;

pub const F_NOCACHE: FileControlCommand = 48;

pub const F_GETPATH: FileControlCommand = 50;

pub const F_FULLFSYNC: FileControlCommand = 51;

pub const F_PATHPKG_CHECK: FileControlCommand = 52;

pub const F_ADDSIGS: FileControlCommand = 59;

pub const F_ADDFILESIGS: FileControlCommand = 61;

pub const F_DUPFD_CLOEXEC: FileControlCommand = 67;

pub const F_SETNOSIGPIPE: FileControlCommand = 73;

pub const F_GETNOSIGPIPE: FileControlCommand = 74;

pub const F_ADDFILESIGS_FOR_DYLD_SIM: FileControlCommand = 83;

pub const F_BARRIERFSYNC: FileControlCommand = 85;

pub const F_ADDFILESIGS_RETURN: FileControlCommand = 97;

pub const F_ADDFILESUPPL: FileControlCommand = 99;

/// File Descriptor flags.
/// This alias is for readability, POSIX just uses `int`.
pub type FDFlag = i32;

pub const FD_CLOEXEC: FDFlag = 1;

pub type FLockFlag = i32;

pub const LOCK_SH: FLockFlag = 1;

pub const LOCK_EX: FLockFlag = 2;

pub const LOCK_NB: FLockFlag = 4;

pub const LOCK_UN: FLockFlag = 8;

/// Record Locking flags.
/// This alias is for readability, POSIX just uses `short`
pub type RecordLockingFlag = i16;

pub const F_RDLCK: RecordLockingFlag = 1;

pub const F_UNLCK: RecordLockingFlag = 2;

pub const F_WRLCK: RecordLockingFlag = 3;

/// No descriptor table is longer: the last slot's descriptor is the largest
/// `i32`.
pub const MAX_FILES: usize = 0x7fff_fffd;

pub struct State {
    /// File descriptors _other than stdin, stdout, and stderr_
    pub files: Vec<Option<PosixFileHostObject>>,
}

impl Default for State {
    fn default() -> (r: State)
        ensures
            r.files@.len() == 0,
    {
        State {
            files: Vec::new(),
        }
    }
}

/// A single byte-range advisory lock recorded against a file descriptor.
///
/// The byte range is `start..end` (half-open) with `end == i64::MAX`
/// representing "to the end of the file", the convention POSIX uses when
/// the length in a request is zero.
#[derive(Clone, Copy, Debug, PartialEq, Eq, Structural)]
pub struct LockRange {
    pub start: i64,
    /// Exclusive end; `i64::MAX` means "until EOF / unlimited".
    pub end: i64,
    pub lock_type: i16,
}

pub struct PosixFileHostObject {
    pub file: GuestFile,
    pub needs_flush: bool,
    pub reached_eof: bool,
    /// FD flags (FD_CLOEXEC etc.)
    pub flags: i32,
    /// File status flags (O_RDONLY, O_WRONLY, O_RDWR, O_APPEND, O_NONBLOCK)
    pub status_flags: i32,
    /// Guest path this fd was opened with (for F_GETPATH)
    pub path: Option<String>,
    /// Advisory byte-range locks currently held on this descriptor. Released
    /// when it is closed.
    pub locks: Vec<LockRange>,
    /// Whole-file advisory lock held via `flock`. `Some(F_RDLCK)` for
    /// `LOCK_SH`, `Some(F_WRLCK)` for `LOCK_EX`, `None` for unlocked.
    pub flock_state: Option<i16>,
}

/// A record-lock request as it lies in guest memory.
#[derive(Clone, Copy, Debug, PartialEq, Eq, Structural)]
pub struct flock {
    pub start: off_t,
    pub len: off_t,
    pub pid: i32,
    pub lock_type: i16,
    pub whence: i16,
}

/// The bytes that a `flock` takes in guest memory.
pub const FLOCK_SIZE: u32 = 24;

impl LockRange {
    /// The range holds the byte `b`.
    pub open spec fn covers(&self, b: int) -> bool {
        self.start <= b < self.end
    }

    pub fn overlaps(&self, other: &LockRange) -> (r: bool)
        ensures
            r == (self.start < other.end && other.start < self.end),
    {
        self.start < other.end && other.start < self.end
    }
}

/// What is left of `existing` when `release` is taken out of it.
pub open spec fn rest_of_lock(existing: LockRange, release: LockRange) -> Seq<LockRange> {
    if !(existing.start < release.end && release.start < existing.end) {
        seq![existing]
    } else {
        (if existing.start < release.start {
            seq![LockRange { end: release.start, ..existing }]
        } else {
            Seq::empty()
        }) + (if existing.end > release.end {
            seq![LockRange { start: release.end, ..existing }]
        } else {
            Seq::empty()
        })
    }
}

/// What is left of `locks`, in order, when `release` is taken out of each.
pub open spec fn rest_of_locks(locks: Seq<LockRange>, release: LockRange) -> Seq<LockRange>
    decreases locks.len(),
{
    if locks.len() == 0 {
        Seq::empty()
    } else {
        rest_of_locks(locks.drop_last(), release) + rest_of_lock(locks.last(), release)
    }
}

/// Some lock of type `t` in `locks` holds the byte `b`.
pub open spec fn byte_locked(locks: Seq<LockRange>, b: int, t: i16) -> bool {
    exists|i: int|
        0 <= i < locks.len() && (#[trigger] locks[i]).covers(b) && locks[i].lock_type == t
}

proof fn lemma_byte_locked_concat(a: Seq<LockRange>, c: Seq<LockRange>, b: int, t: i16)
    ensures
        byte_locked(a + c, b, t) <==> byte_locked(a, b, t) || byte_locked(c, b, t),
{
    let s = a + c;
    if byte_locked(a, b, t) {
        let i = choose|i: int|
            0 <= i < a.len() && (#[trigger] a[i]).covers(b) && a[i].lock_type == t;
        assert(s[i] == a[i]);
    }
    if byte_locked(c, b, t) {
        let i = choose|i: int|
            0 <= i < c.len() && (#[trigger] c[i]).covers(b) && c[i].lock_type == t;
        assert(s[a.len() + i] == c[i]);
    }
    if byte_locked(s, b, t) {
        let i = choose|i: int|
            0 <= i < s.len() && (#[trigger] s[i]).covers(b) && s[i].lock_type == t;
        if i < a.len() {
            assert(a[i] == s[i]);
        } else {
            assert(c[i - a.len()] == s[i]);
        }
    }
}

proof fn lemma_rest_of_lock_bytes(existing: LockRange, release: LockRange, b: int, t: i16)
    ensures
        byte_locked(rest_of_lock(existing, release), b, t) <==> existing.covers(b)
            && existing.lock_type == t && !release.covers(b),
{
    let rest = rest_of_lock(existing, release);
    if existing.start < release.end && release.start < existing.end {
        let before = if existing.start < release.start {
            seq![LockRange { end: release.start, ..existing }]
        } else {
            Seq::empty()
        };
        let after = if existing.end > release.end {
            seq![LockRange { start: release.end, ..existing }]
        } else {
            Seq::empty()
        };
        lemma_byte_locked_concat(before, after, b, t);
        if before.len() == 1 {
            assert(before[0].end == release.start);
        }
        if after.len() == 1 {
            assert(after[0].start == release.end);
        }
    } else {
        assert(rest[0] == existing);
    }
}

/// Releasing a range takes the lock off exactly the bytes of the range: a byte
/// is locked afterwards if it was locked before and lies outside.
pub proof fn law_release_bytes(locks: Seq<LockRange>, release: LockRange, b: int, t: i16)
    ensures
        byte_locked(rest_of_locks(locks, release), b, t) <==> byte_locked(locks, b, t)
            && !release.covers(b),
    decreases locks.len(),
{
    if locks.len() > 0 {
        let front = locks.drop_last();
        law_release_bytes(front, release, b, t);
        lemma_rest_of_lock_bytes(locks.last(), release, b, t);
        lemma_byte_locked_concat(
            rest_of_locks(front, release),
            rest_of_lock(locks.last(), release),
            b,
            t,
        );
        lemma_byte_locked_concat(front, seq![locks.last()], b, t);
        assert(front + seq![locks.last()] =~= locks);
        assert(seq![locks.last()][0] == locks.last());
    }
}

/// Drop the portion of every range in `locks` that overlaps `release`,
/// splitting ranges as necessary. Used to implement F_UNLCK (which may
/// release a sub-range of a previously-held lock).
pub fn release_range_from_locks(locks: &mut Vec<LockRange>, release: &LockRange)
    ensures
        final(locks)@ == rest_of_locks(old(locks)@, *release),
{
    let mut new_locks: Vec<LockRange> = Vec::new();
    let n: usize = locks.len();
    let mut i: usize = 0;
    assert(locks@.take(0) =~= Seq::empty());
    while i < n
        invariant
            i <= n == locks@.len(),
            *locks == *old(locks),
            new_locks@ == rest_of_locks(locks@.take(i as int), *release),
        decreases n - i,
    {
        let existing: LockRange = locks[i];
        let ghost before = new_locks@;
        assert(locks@.take(i + 1).drop_last() =~= locks@.take(i as int));
        if !existing.overlaps(release) {
            new_locks.push(existing);
        } else {
            // Keep the portion strictly before `release`, if any.
            if existing.start < release.start {
                new_locks.push(
                    LockRange {
                        start: existing.start,
                        end: release.start,
                        lock_type: existing.lock_type,
                    },
                );
            }
            // Keep the portion strictly after `release`, if any.
            if existing.end > release.end {
                new_locks.push(
                    LockRange {
                        start: release.end,
                        end: existing.end,
                        lock_type: existing.lock_type,
                    },
                );
            }
        }
        assert(new_locks@ =~= before + rest_of_lock(existing, *release));
        i = i + 1;
    }
    assert(locks@.take(n as int) =~= locks@);
    *locks = new_locks;
}

/// The first free slot of the descriptor table from `from` on; the slots
/// behind its end are free.
pub open spec fn lowest_free(files: Seq<Option<PosixFileHostObject>>, from: int) -> int
    decreases files.len() - from,
{
    if from < 0 || from >= files.len() || files[from] is None {
        from
    } else {
        lowest_free(files, from + 1)
    }
}

/// `after` is `before` with `o` put into slot `i`, where the slots between the
/// end of `before` and `i` are free.
pub open spec fn slot_filled(
    before: Seq<Option<PosixFileHostObject>>,
    after: Seq<Option<PosixFileHostObject>>,
    i: int,
    o: PosixFileHostObject,
) -> bool {
    &&& after.len() == if i < before.len() {
        before.len() as int
    } else {
        i + 1
    }
    &&& after[i] == Some(o)
    &&& forall|j: int|
        #![trigger after[j]]
        0 <= j < after.len() && j != i ==> after[j] == (if j < before.len() {
            before[j]
        } else {
            None
        })
}

/// The free slot that is found is free, and every slot before it is taken.
pub proof fn law_lowest_free(files: Seq<Option<PosixFileHostObject>>, from: int)
    requires
        0 <= from,
    ensures
        from <= lowest_free(files, from),
        lowest_free(files, from) < files.len() ==> files[lowest_free(files, from)] is None,
        forall|j: int| from <= j < lowest_free(files, from) ==> j < files.len() && files[j] is Some,
        lowest_free(files, from) <= files.len() || lowest_free(files, from) == from,
    decreases files.len() - from,
{
    if from < files.len() && files[from] is Some {
        law_lowest_free(files, from + 1);
    }
}

proof fn lemma_lowest_free_is(files: Seq<Option<PosixFileHostObject>>, from: int, k: int)
    requires
        0 <= from <= k,
        k >= files.len() || files[k] is None,
        forall|j: int| from <= j < k ==> j < files.len() && (#[trigger] files[j]) is Some,
    ensures
        lowest_free(files, from) == k,
    decreases k - from,
{
    if from < k {
        assert(files[from] is Some);
        lemma_lowest_free_is(files, from + 1, k);
    }
}

impl State {
    /// The table is not too long for descriptors to be `i32`, and every slot
    /// that is in use names an open file of `fs`.
    pub open spec fn wf(&self, fs: Fs) -> bool {
        &&& self.files@.len() <= MAX_FILES
        &&& forall|i: int|
            #![trigger self.files@[i]]
            0 <= i < self.files@.len() && self.files@[i] is Some ==> fs.has(
                self.files@[i]->0.file,
            )
    }

    pub open spec fn fd_open(&self, fd: int) -> bool {
        &&& fd >= 3
        &&& fd - 3 < self.files@.len()
        &&& self.files@[fd - 3] is Some
    }

    pub fn file_for_fd(&mut self, fd: FileDescriptor) -> (r: Option<&mut PosixFileHostObject>)
        ensures
            r is Some <==> old(self).fd_open(fd as int),
            match r {
                Some(o) => {
                    &&& *o == old(self).files@[fd - 3]->0
                    &&& final(self).files@ == old(self).files@.update(fd - 3, Some(*final(o)))
                },
                None => *final(self) == *old(self),
            },
    {
        if fd < NORMAL_FILENO_BASE {
            return None;
        }
        let i: usize = fd_to_file_idx(fd);
        if i < self.files.len() && self.files[i].is_some() {
            match &mut self.files[i] {
                Some(o) => Some(o),
                None => None,
            }
        } else {
            None
        }
    }

    /// Whether `fd` refers to a currently-open regular file descriptor (i.e.
    /// not one of the std streams, and not a closed/invalid descriptor).
    pub fn is_fd_open(&self, fd: FileDescriptor) -> (r: bool)
        ensures
            r == self.fd_open(fd as int),
    {
        if fd < NORMAL_FILENO_BASE {
            return false;
        }
        let i: usize = fd_to_file_idx(fd);
        i < self.files.len() && self.files[i].is_some()
    }
}

pub fn file_idx_to_fd(idx: usize) -> (r: FileDescriptor)
    requires
        idx < MAX_FILES,
    ensures
        r == idx + 3,
{
    idx as FileDescriptor + NORMAL_FILENO_BASE
}

/// The table index that the descriptor `fd` counts to, in the arithmetic of
/// `usize`. Descriptors below the table's first have an index behind any
/// table, and the three lowest `i32`, which have none, count as 0.
pub open spec fn file_idx(fd: int) -> int {
    if fd >= 3 {
        fd - 3
    } else if fd < i32::MIN + 3 {
        0
    } else {
        usize::MAX + 1 + (fd - 3)
    }
}

pub fn fd_to_file_idx(fd: FileDescriptor) -> (r: usize)
    ensures
        r == file_idx(fd as int),
{
    match fd.checked_sub(NORMAL_FILENO_BASE) {
        None => 0,
        Some(d) => {
            if d >= 0 {
                d as usize
            } else {
                usize::MAX - (-(d + 1)) as usize
            }
        },
    }
}

impl State {
    /// The file that `fd` stands for.
    pub fn guest_file(&self, fd: FileDescriptor) -> (r: Option<GuestFile>)
        ensures
            r == (if self.fd_open(fd as int) {
                Some(self.files@[fd - 3]->0.file)
            } else {
                None
            }),
    {
        if fd < NORMAL_FILENO_BASE {
            return None;
        }
        let i: usize = fd_to_file_idx(fd);
        if i < self.files.len() {
            match &self.files[i] {
                Some(o) => Some(o.file),
                None => None,
            }
        } else {
            None
        }
    }
}

impl State {
    /// The descriptor flags and the status flags of `fd`.
    fn flags_of(&self, fd: FileDescriptor) -> (r: Option<(i32, i32)>)
        ensures
            r == (if self.fd_open(fd as int) {
                Some((self.files@[fd - 3]->0.flags, self.files@[fd - 3]->0.status_flags))
            } else {
                None
            }),
    {
        if !self.is_fd_open(fd) {
            return None;
        }
        match &self.files[fd_to_file_idx(fd)] {
            Some(o) => Some((o.flags, o.status_flags)),
            None => None,
        }
    }
}

/// `after` is the table `before` with the object of `fd` replaced by `o`.
pub open spec fn object_set(
    before: Environment,
    after: Environment,
    fd: int,
    o: PosixFileHostObject,
) -> bool {
    after.files() == before.files().update(fd - 3, Some(o))
}

/// The descriptor's `reached_eof` becomes `value`.
fn set_reached_eof(env: &mut Environment, fd: FileDescriptor, value: bool)
    requires
        old(env).wf(),
        old(env).fd_open(fd as int),
    ensures
        final(env).wf(),
        *final(env) == old(env).with_posix_io(final(env).libc_state.posix_io),
        object_set(
            *old(env),
            *final(env),
            fd as int,
            (PosixFileHostObject { reached_eof: value, ..old(env).object(fd as int) }),
        ),
{
    if let Some(o) = env.libc_state.posix_io.file_for_fd(fd) {
        o.reached_eof = value;
    }
}

/// The `errno` of a refused question for the position or the length.
pub open spec fn tell_errno(e: IoErrorKind) -> i32 {
    match e {
        IoErrorKind::IsADirectory => EISDIR,
        _ => EIO,
    }
}

/// The `errno` of a refused seek.
pub open spec fn seek_errno(e: IoErrorKind) -> i32 {
    match e {
        IoErrorKind::InvalidInput => EINVAL,
        IoErrorKind::IsADirectory => EISDIR,
        _ => EIO,
    }
}

/// Where `whence` counts from.
pub open spec fn seek_base(fs: Fs, file: GuestFile, whence: int) -> int {
    if whence == SEEK_SET {
        0
    } else if whence == SEEK_CUR {
        fs.position(file)
    } else {
        fs.contents(file).len() as int
    }
}

/// The `errno` with which a seek on `file` fails.
pub open spec fn seek_error(fs: Fs, file: GuestFile, offset: int, whence: int) -> Option<i32> {
    let target = seek_base(fs, file, whence) + offset;
    if !fs.seekable(file) {
        Some(ESPIPE)
    } else if whence == SEEK_CUR && fs.fault(file, FileOp::Tell) is Some {
        Some(tell_errno(fs.fault(file, FileOp::Tell)->0))
    } else if whence == SEEK_END && fs.fault(file, FileOp::Len) is Some {
        Some(tell_errno(fs.fault(file, FileOp::Len)->0))
    } else if whence != SEEK_SET && whence != SEEK_CUR && whence != SEEK_END {
        Some(EINVAL)
    } else if target < 0 {
        Some(EINVAL)
    } else if target > i64::MAX {
        Some(EOVERFLOW)
    } else if fs.fault(file, FileOp::Seek) is Some {
        Some(seek_errno(fs.fault(file, FileOp::Seek)->0))
    } else {
        None
    }
}

/// The `errno` with which `lseek` fails.
pub open spec fn lseek_error(env: Environment, fd: int, offset: int, whence: int) -> Option<i32> {
    if !env.fd_open(fd) {
        Some(EBADF)
    } else {
        seek_error(env.fs, env.file(fd), offset, whence)
    }
}

/// Where `lseek` leads.
pub open spec fn lseek_target(env: Environment, fd: int, offset: int, whence: int) -> int {
    seek_base(env.fs, env.file(fd), whence) + offset
}

/// The descriptor's position moved to `position`, and the end of its file is
/// no longer taken as reached.
pub open spec fn repositioned(
    before: Environment,
    after: Environment,
    fd: int,
    position: int,
) -> bool {
    &&& after == before.with_fs(after.fs).with_posix_io(after.libc_state.posix_io)
    &&& after.fs.moved(before.fs, before.file(fd), position)
    &&& object_set(
        before,
        after,
        fd,
        PosixFileHostObject { reached_eof: false, ..before.object(fd) },
    )
}

fn errno_of_tell(e: IoErrorKind) -> (r: i32)
    ensures
        r == tell_errno(e),
{
    match e {
        IoErrorKind::IsADirectory => EISDIR,
        _ => EIO,
    }
}

fn errno_of_seek(e: IoErrorKind) -> (r: i32)
    ensures
        r == seek_errno(e),
{
    match e {
        IoErrorKind::InvalidInput => EINVAL,
        IoErrorKind::IsADirectory => EISDIR,
        _ => EIO,
    }
}

/// What `lseek` does.
pub open spec fn lseek_done(
    before: Environment,
    after: Environment,
    fd: int,
    offset: int,
    whence: int,
    r: int,
) -> bool {
    match lseek_error(before, fd, offset, whence) {
        Some(e) => r == -1 && after == before.with_errno(e),
        None => {
            &&& r == lseek_target(before, fd, offset, whence)
            &&& repositioned(before, after, fd, r)
        },
    }
}

pub fn lseek(env: &mut Environment, fd: FileDescriptor, offset: off_t, whence: i32) -> (r: off_t)
    requires
        old(env).wf(),
    ensures
        final(env).wf(),
        lseek_done(
            *old(env),
            *final(env),
            fd as int,
            offset as int,
            whence as int,
            r as int,
        ),
{
    let file: GuestFile = match env.libc_state.posix_io.guest_file(fd) {
        Some(file) => file,
        None => {
            set_errno(env, EBADF);
            return -1;
        },
    };
    if !env.fs.is_seekable(file) {
        set_errno(env, ESPIPE);
        return -1;
    }
    let start_position: u64 = match whence {
        SEEK_SET => 0,
        SEEK_CUR => match env.fs.stream_position(file) {
            Ok(pos) => pos,
            Err(e) => {
                set_errno(env, errno_of_tell(e));
                return -1;
            },
        },
        SEEK_END => match env.fs.stream_len(file) {
            Ok(len) => len,
            Err(e) => {
                set_errno(env, errno_of_tell(e));
                return -1;
            },
        },
        _ => {
            set_errno(env, EINVAL);
            return -1;
        },
    };
    proof {
        if let GuestFile::Open(k) = file {
            assert(env.fs.opens@[k as int].position <= i64::MAX);
        }
    }
    let seek_position: u64 = match start_position.checked_add_signed(offset) {
        Some(position) => position,
        None => {
            let errno: i32 = if offset >= 0 {
                EOVERFLOW
            } else {
                EINVAL
            };
            set_errno(env, errno);
            return -1;
        },
    };
    if seek_position > i64::MAX as u64 {
        set_errno(env, EOVERFLOW);
        return -1;
    }
    match env.fs.seek_to(file, seek_position) {
        Ok(new_offset) => {
            set_reached_eof(env, fd, false);
            new_offset as i64
        },
        Err(e) => {
            set_errno(env, errno_of_seek(e));
            -1
        },
    }
}

/// What `read` does.
pub open spec fn read_done(
    before: Environment,
    after: Environment,
    fd: int,
    buffer: int,
    size: int,
    r: int,
) -> bool {
    if buffer == 0 {
        r == -1 && after == before.with_errno(0)
    } else if !before.fd_open(fd) {
        r == -1 && after == before.with_errno(EBADF)
    } else {
        let file = before.file(fd);
        match before.fs.fault(file, FileOp::Read) {
            Some(IoErrorKind::IsADirectory) => r == 0 && after == before.with_errno(EISDIR),
            Some(_) => r == -1 && after == before.with_errno(0),
            None => {
                let data = before.fs.read_bytes(file->Open_0 as int, size);
                let at_end = data.len() == 0 && size != 0;
                let o = before.object(fd);
                &&& after == before.with_errno(0).with_mem(after.mem).with_fs(
                    after.fs,
                ).with_posix_io(after.libc_state.posix_io)
                &&& after.mem.stored(before.mem, buffer, data)
                &&& after.fs.moved(before.fs, file, before.fs.position(file) + data.len())
                &&& object_set(
                    before,
                    after,
                    fd,
                    PosixFileHostObject { reached_eof: o.reached_eof || at_end, ..o },
                )
                &&& r == if data.len() <= i32::MAX {
                    data.len() as int
                } else {
                    -1
                }
            },
        }
    }
}

pub fn read(
    env: &mut Environment,
    fd: FileDescriptor,
    buffer: MutVoidPtr,
    size: GuestUSize,
) -> (r: GuestISize)
    requires
        old(env).wf(),
        buffer != 0 && old(env).fd_open(fd as int) ==> old(env).mem.valid(
            buffer as int,
            size as int,
        ),
    ensures
        final(env).wf(),
        read_done(*old(env), *final(env), fd as int, buffer as int, size as int, r as int),
{
    set_errno(env, 0);
    if buffer == 0 {
        return -1;
    }
    let file: GuestFile = match env.libc_state.posix_io.guest_file(fd) {
        Some(file) => file,
        None => {
            set_errno(env, EBADF);
            return -1;
        },
    };
    match env.fs.read_file(file, size as usize) {
        Ok(data) => {
            let bytes_read: usize = data.len();
            env.mem.write_bytes(buffer, &data);
            if bytes_read == 0 && size != 0 {
                set_reached_eof(env, fd, true);
            } else {
                assert(env.files() =~= env.files().update(fd - 3, env.files()[fd - 3]));
            }
            if bytes_read <= 0x7fff_ffff {
                bytes_read as i32
            } else {
                -1
            }
        },
        Err(e) => match e {
            IoErrorKind::IsADirectory => {
                set_errno(env, EISDIR);
                0
            },
            _ => -1,
        },
    }
}

/// What a write to an open descriptor does.
pub open spec fn write_file_done(
    before: Environment,
    after: Environment,
    file: GuestFile,
    data: Seq<u8>,
    r: int,
) -> bool {
    match before.fs.write_fault(file, data.len() as int) {
        Some(_) => r == -1 && after == before.with_errno(0),
        None => {
            let n = before.fs.write_count(file->Open_0 as int, data.len() as int);
            &&& after == before.with_errno(0).with_fs(after.fs)
            &&& after.fs.written(before.fs, file, data.take(n))
            &&& r == if n <= i32::MAX {
                n
            } else {
                -1
            }
        },
    }
}

/// The bytes at `ptr`, where none are wanted of no matter which address.
pub open spec fn bytes_from(mem: Mem, ptr: int, n: int) -> Seq<u8> {
    if n == 0 {
        Seq::empty()
    } else {
        mem@.subrange(ptr, ptr + n)
    }
}

/// What `write` does.
pub open spec fn write_done(
    before: Environment,
    after: Environment,
    fd: int,
    buffer: int,
    size: int,
    r: int,
) -> bool {
    let data = bytes_from(before.mem, buffer, size);
    if fd == STDOUT_FILENO || fd == STDERR_FILENO {
        &&& after == before.with_errno(0).with_console(after.console)
        &&& after.console == (Console { text: after.console.text, ..before.console })
        &&& after.console.text@ == before.console.text@ + encode_utf8(lossy_text(data))
        &&& r == signed32(size)
    } else if !before.fd_open(fd) {
        r == -1 && after == before.with_errno(EBADF)
    } else {
        write_file_done(before, after, before.file(fd), data, r)
    }
}

/// The buffer of a write is guest memory, where it is looked at, and what is
/// printed can be printed.
pub open spec fn write_buffer_valid(env: Environment, fd: int, buffer: int, size: int) -> bool {
    let prints = fd == STDOUT_FILENO || fd == STDERR_FILENO;
    &&& prints || env.fd_open(fd) ==> env.mem.valid(buffer, size) || size == 0
    &&& prints ==> !env.console.broken
}

pub fn write(
    env: &mut Environment,
    fd: FileDescriptor,
    buffer: ConstVoidPtr,
    size: GuestUSize,
) -> (r: GuestISize)
    requires
        old(env).wf(),
        write_buffer_valid(*old(env), fd as int, buffer as int, size as int),
    ensures
        final(env).wf(),
        write_done(*old(env), *final(env), fd as int, buffer as int, size as int, r as int),
{
    set_errno(env, 0);
    if fd == STDOUT_FILENO || fd == STDERR_FILENO {
        let data: Vec<u8> = env.mem.bytes_at(buffer, size);
        assert(data@ =~= bytes_from(env.mem, buffer as int, size as int));
        env.console.write_all(&string_bytes(&utf8_lossy(&data)));
        return to_signed32(size);
    }
    let file: GuestFile = match env.libc_state.posix_io.guest_file(fd) {
        Some(file) => file,
        None => {
            set_errno(env, EBADF);
            return -1;
        },
    };
    let data: Vec<u8> = env.mem.bytes_at(buffer, size);
    assert(data@ =~= bytes_from(env.mem, buffer as int, size as int));
    match env.fs.write_file(file, &data) {
        Ok(bytes_written) => {
            if bytes_written <= 0x7fff_ffff {
                bytes_written as i32
            } else {
                -1
            }
        },
        Err(_) => -1,
    }
}

pub fn eof(env: &mut Environment, fd: FileDescriptor) -> (r: i32)
    requires
        old(env).wf(),
    ensures
        *final(env) == *old(env),
        r == if old(env).fd_open(fd as int) && !old(env).object(fd as int).reached_eof {
            0i32
        } else {
            1
        },
{
    if !env.libc_state.posix_io.is_fd_open(fd) {
        return 1;
    }
    match &env.libc_state.posix_io.files[fd_to_file_idx(fd)] {
        Some(o) => {
            if o.reached_eof {
                1
            } else {
                0
            }
        },
        None => 1,
    }
}

/// The end of the descriptor's file is no longer taken as reached.
pub open spec fn clearerr_done(before: Environment, after: Environment, fd: int) -> bool {
    if before.fd_open(fd) {
        &&& after == before.with_errno(0).with_posix_io(after.libc_state.posix_io)
        &&& object_set(
            before,
            after,
            fd,
            PosixFileHostObject { reached_eof: false, ..before.object(fd) },
        )
    } else {
        after == before.with_errno(0)
    }
}

pub fn clearerr(env: &mut Environment, fd: FileDescriptor)
    requires
        old(env).wf(),
    ensures
        final(env).wf(),
        clearerr_done(*old(env), *final(env), fd as int),
{
    set_errno(env, 0);
    if env.libc_state.posix_io.is_fd_open(fd) {
        set_reached_eof(env, fd, false);
    }
}

pub fn fflush(env: &mut Environment, fd: FileDescriptor) -> (r: i32)
    requires
        old(env).wf(),
    ensures
        final(env).wf(),
        *final(env) == old(env).with_errno(0),
        r == if old(env).fd_open(fd as int) && old(env).fs.fault(
            old(env).file(fd as int),
            FileOp::Flush,
        ) is None {
            0
        } else {
            -1
        },
{
    set_errno(env, 0);
    match env.libc_state.posix_io.guest_file(fd) {
        Some(file) => match env.fs.get_fault(file, FileOp::Flush) {
            None => 0,
            Some(_) => -1,
        },
        None => -1,
    }
}

/// What `close` does.
pub open spec fn close_done(before: Environment, after: Environment, fd: int, r: int) -> bool {
    if 0 <= fd < 3 {
        r == 0 && after == before
    } else if !before.fd_open(fd) {
        r == -1 && after == before.with_errno(EBADF)
    } else {
        let o = before.object(fd);
        &&& r == 0
        &&& after == (Environment {
            libc_state: crate::libc::State {
                posix_io: after.libc_state.posix_io,
                socket: after.libc_state.socket,
                ..before.libc_state
            },
            ..before
        }).with_fs(after.fs)
        &&& after.files() == before.files().update(fd - 3, None)
        &&& if o.file == GuestFile::Socket {
            &&& after.libc_state.socket.closed@ == before.libc_state.socket.closed@.push(fd as i32)
            &&& after.fs == before.fs
        } else {
            &&& after.libc_state.socket == before.libc_state.socket
            &&& if o.needs_flush && before.fs.fault(o.file, FileOp::Sync) is None {
                after.fs.synced(before.fs, o.file)
            } else {
                after.fs == before.fs
            }
        }
    }
}

pub fn close(env: &mut Environment, fd: FileDescriptor) -> (r: i32)
    requires
        old(env).wf(),
    ensures
        final(env).wf(),
        close_done(*old(env), *final(env), fd as int, r as int),
        fd >= 3 ==> !final(env).fd_open(fd as int),
{
    if fd < 0 {
        set_errno(env, EBADF);
        return -1;
    }
    if fd < NORMAL_FILENO_BASE {
        return 0;
    }
    if env.libc_state.posix_io.is_fd_open(fd) {
        let i: usize = fd_to_file_idx(fd);
        let taken: Option<PosixFileHostObject> = env.libc_state.posix_io.files[i].take();
        if let Some(o) = taken {
            match o.file {
                GuestFile::Socket => {
                    env.libc_state.socket.closed.push(fd);
                },
                _ => {
                    if o.needs_flush {
                        let _ = env.fs.sync_all(o.file);
                    }
                },
            }
            return 0;
        }
    }
    set_errno(env, EBADF);
    -1
}

/// What `pread` does: a read at `offset` that leaves the position alone.
pub open spec fn pread_done(
    before: Environment,
    after: Environment,
    fd: int,
    buffer: int,
    size: int,
    offset: int,
    r: int,
) -> bool {
    let file = before.file(fd);
    let position = before.fs.position(file);
    match lseek_error(before, fd, 0, SEEK_CUR as int) {
        Some(e) => r == -1 && after == before.with_errno(e),
        None => match lseek_error(before, fd, offset, SEEK_SET as int) {
            Some(e) => r == -1 && repositioned(before.with_errno(e), after, fd, position),
            None => if buffer == 0 {
                r == -1 && repositioned(before.with_errno(0), after, fd, position)
            } else {
                match before.fs.fault(file, FileOp::Read) {
                    Some(IoErrorKind::IsADirectory) => r == 0 && repositioned(
                        before.with_errno(EISDIR),
                        after,
                        fd,
                        position,
                    ),
                    Some(_) => r == -1 && repositioned(before.with_errno(0), after, fd, position),
                    None => {
                        let data = before.fs.read_bytes_at(file->Open_0 as int, offset, size);
                        &&& repositioned(
                            before.with_errno(0).with_mem(after.mem),
                            after,
                            fd,
                            position,
                        )
                        &&& after.mem.stored(before.mem, buffer, data)
                        &&& r == if data.len() <= i32::MAX {
                            data.len() as int
                        } else {
                            -1
                        }
                    },
                }
            },
        },
    }
}

pub fn pread(
    env: &mut Environment,
    fd: FileDescriptor,
    buffer: MutVoidPtr,
    size: GuestUSize,
    offset: off_t,
) -> (r: GuestISize)
    requires
        old(env).wf(),
        buffer != 0 && old(env).fd_open(fd as int) ==> old(env).mem.valid(
            buffer as int,
            size as int,
        ),
    ensures
        final(env).wf(),
        pread_done(
            *old(env),
            *final(env),
            fd as int,
            buffer as int,
            size as int,
            offset as int,
            r as int,
        ),
{
    let original_position: i64 = lseek(env, fd, 0, SEEK_CUR);
    if original_position == -1 {
        return -1;
    }
    if lseek(env, fd, offset, SEEK_SET) == -1 {
        return -1;
    }
    let bytes_read: i32 = read(env, fd, buffer, size);
    if lseek(env, fd, original_position, SEEK_SET) == -1 {
        return -1;
    }
    proof {
        if let GuestFile::Open(k) = old(env).file(fd as int) {
            let k = k as int;
            assert(env.fs.opens@ =~= old(env).fs.opens@.update(k, env.fs.opens@[k]));
            assert(env.files() =~= old(env).files().update(fd - 3, env.files()[fd - 3]));
        }
    }
    bytes_read
}

/// What `pwrite` does: a write at `offset` that leaves the position alone.
pub open spec fn pwrite_done(
    before: Environment,
    after: Environment,
    fd: int,
    buffer: int,
    size: int,
    offset: int,
    r: int,
) -> bool {
    let file = before.file(fd);
    let position = before.fs.position(file);
    let data = bytes_from(before.mem, buffer, size);
    match lseek_error(before, fd, 0, SEEK_CUR as int) {
        Some(e) => r == -1 && after == before.with_errno(e),
        None => match lseek_error(before, fd, offset, SEEK_SET as int) {
            Some(e) => r == -1 && repositioned(before.with_errno(e), after, fd, position),
            None => match before.fs.write_fault_at(file, offset, size) {
                Some(_) => r == -1 && repositioned(before.with_errno(0), after, fd, position),
                None => {
                    let k = file->Open_0 as int;
                    let n = before.fs.write_count(k, size);
                    let i = before.fs.opens@[k].inode as int;
                    let inodes = after.fs.inodes;
                    &&& repositioned(
                        before.with_errno(0).with_fs(Fs { inodes, ..before.fs }),
                        after,
                        fd,
                        position,
                    )
                    &&& if n == 0 {
                        inodes == before.fs.inodes
                    } else {
                        after.fs.inode_set(
                            before.fs,
                            i,
                            crate::fs::spliced(
                                before.fs.inodes@[i].data@,
                                before.fs.write_start_at(k, offset),
                                data.take(n),
                            ),
                            true,
                        )
                    }
                    &&& r == if n <= i32::MAX {
                        n
                    } else {
                        -1
                    }
                },
            },
        },
    }
}

pub fn pwrite(
    env: &mut Environment,
    fd: FileDescriptor,
    buffer: ConstVoidPtr,
    size: GuestUSize,
    offset: off_t,
) -> (r: GuestISize)
    requires
        old(env).wf(),
        write_buffer_valid(*old(env), fd as int, buffer as int, size as int),
    ensures
        final(env).wf(),
        pwrite_done(
            *old(env),
            *final(env),
            fd as int,
            buffer as int,
            size as int,
            offset as int,
            r as int,
        ),
{
    let original_position: i64 = lseek(env, fd, 0, SEEK_CUR);
    if original_position == -1 {
        return -1;
    }
    if lseek(env, fd, offset, SEEK_SET) == -1 {
        return -1;
    }
    let bytes_written: i32 = write(env, fd, buffer, size);
    if lseek(env, fd, original_position, SEEK_SET) == -1 {
        return -1;
    }
    proof {
        if let GuestFile::Open(k) = old(env).file(fd as int) {
            let k = k as int;
            assert(env.fs.opens@ =~= old(env).fs.opens@.update(k, env.fs.opens@[k]));
            assert(env.files() =~= old(env).files().update(fd - 3, env.files()[fd - 3]));
        }
    }
    bytes_written
}

/// A descriptor is left for a new file.
pub open spec fn has_free_fd(env: Environment) -> bool {
    lowest_free(env.files(), 0) < MAX_FILES
}

/// Puts `o` into the first free slot from `from` on.
fn fill_slot(env: &mut Environment, from: usize, o: PosixFileHostObject) -> (r: usize)
    requires
        old(env).wf(),
        old(env).fs.has(o.file),
        lowest_free(old(env).files(), from as int) < MAX_FILES,
    ensures
        final(env).wf(),
        *final(env) == old(env).with_posix_io(final(env).libc_state.posix_io),
        r == lowest_free(old(env).files(), from as int),
        slot_filled(old(env).files(), final(env).files(), r as int, o),
{
    let n: usize = env.libc_state.posix_io.files.len();
    let mut i: usize = from;
    while i < n && env.libc_state.posix_io.files[i].is_some()
        invariant
            *env == *old(env),
            n == env.libc_state.posix_io.files@.len(),
            from <= i,
            from < n ==> i <= n,
            from >= n ==> i == from,
            forall|j: int|
                from <= j < i ==> j < n && (#[trigger] env.libc_state.posix_io.files@[j]) is Some,
        decreases n - i,
    {
        i = i + 1;
    }
    proof {
        lemma_lowest_free_is(env.files(), from as int, i as int);
    }
    if i < n {
        env.libc_state.posix_io.files[i] = Some(o);
        return i;
    }
    while env.libc_state.posix_io.files.len() < i
        invariant
            *env == old(env).with_posix_io(env.libc_state.posix_io),
            n == old(env).files().len() <= env.files().len() <= i < MAX_FILES,
            forall|j: int|
                #![trigger env.files()[j]]
                0 <= j < env.files().len() ==> env.files()[j] == (if j < n {
                    old(env).files()[j]
                } else {
                    None
                }),
        decreases i - env.files().len(),
    {
        env.libc_state.posix_io.files.push(None);
    }
    env.libc_state.posix_io.files.push(Some(o));
    proof {
        assert(env.libc_state.posix_io.wf(env.fs)) by {
            assert forall|j: int|
                #![trigger env.libc_state.posix_io.files@[j]]
                0 <= j < env.libc_state.posix_io.files@.len()
                    && env.libc_state.posix_io.files@[j] is Some implies env.fs.has(
                env.libc_state.posix_io.files@[j]->0.file,
            ) by {
                if j < n {
                    assert(env.files()[j] == old(env).libc_state.posix_io.files@[j]);
                }
            }
        }
    }
    i
}

pub fn find_or_create_fd(env: &mut Environment, host_object: PosixFileHostObject) -> (r:
    FileDescriptor)
    requires
        old(env).wf(),
        old(env).fs.has(host_object.file),
        has_free_fd(*old(env)),
    ensures
        final(env).wf(),
        *final(env) == old(env).with_posix_io(final(env).libc_state.posix_io),
        r == lowest_free(old(env).files(), 0) + 3,
        slot_filled(old(env).files(), final(env).files(), r - 3, host_object),
        !old(env).fd_open(r as int),
{
    proof {
        law_lowest_free(env.files(), 0);
    }
    let idx: usize = fill_slot(env, 0, host_object);
    file_idx_to_fd(idx)
}

/// A descriptor with nothing locked and its end not reached.
pub open spec fn is_fresh_object(o: PosixFileHostObject, file: GuestFile) -> bool {
    &&& o.file == file
    &&& !o.reached_eof
    &&& o.locks@ == Seq::<LockRange>::empty()
    &&& o.flock_state is None
}

/// The lowest free descriptor was given to a new socket.
pub open spec fn socket_made(before: Environment, after: Environment, r: int) -> bool {
    let o = after.object(r);
    &&& after == before.with_posix_io(after.libc_state.posix_io)
    &&& r == lowest_free(before.files(), 0) + 3
    &&& slot_filled(before.files(), after.files(), r - 3, o)
    &&& is_fresh_object(o, GuestFile::Socket)
    &&& !o.needs_flush
    &&& o.flags == 0
    &&& o.status_flags == O_RDWR
    &&& o.path is None
}

pub fn find_or_create_socket(env: &mut Environment) -> (r: FileDescriptor)
    requires
        old(env).wf(),
        has_free_fd(*old(env)),
    ensures
        final(env).wf(),
        socket_made(*old(env), *final(env), r as int),
        !old(env).fd_open(r as int),
{
    let locks: Vec<LockRange> = Vec::new();
    assert(locks@ =~= Seq::empty());
    find_or_create_fd(
        env,
        PosixFileHostObject {
            file: GuestFile::Socket,
            needs_flush: false,
            reached_eof: false,
            flags: 0,
            status_flags: O_RDWR,
            path: None,
            locks,
            flock_state: None,
        },
    )
}

pub fn is_socket(env: &mut Environment, fd: FileDescriptor) -> (r: bool)
    requires
        old(env).wf(),
    ensures
        *final(env) == *old(env),
        r == (old(env).fd_open(fd as int) && old(env).file(fd as int) == GuestFile::Socket),
{
    match env.libc_state.posix_io.guest_file(fd) {
        Some(GuestFile::Socket) => true,
        _ => false,
    }
}

/// What `flock` does.
pub open spec fn flock_done(
    before: Environment,
    after: Environment,
    fd: int,
    operation: FLockFlag,
    r: int,
) -> bool {
    let op = operation & !LOCK_NB;
    if !before.fd_open(fd) {
        r == -1 && after == before.with_errno(EBADF)
    } else if op != LOCK_UN && op != LOCK_SH && op != LOCK_EX {
        r == -1 && after == before.with_errno(EINVAL)
    } else {
        let state = if op == LOCK_UN {
            None
        } else if op == LOCK_SH {
            Some(F_RDLCK)
        } else {
            Some(F_WRLCK)
        };
        &&& r == 0
        &&& after == before.with_errno(0).with_posix_io(after.libc_state.posix_io)
        &&& object_set(
            before,
            after,
            fd,
            PosixFileHostObject { flock_state: state, ..before.object(fd) },
        )
    }
}

/// `int flock(int fd, int operation);`: BSD-style whole-file advisory
/// locking.
///
/// Such locks only contend between *different* processes. The guest is a
/// single process, so any number of locks within it can coexist. The
/// operation is still validated, and the lock is recorded with the descriptor
/// and released when that is closed.
pub fn flock(env: &mut Environment, fd: FileDescriptor, operation: FLockFlag) -> (r: i32)
    requires
        old(env).wf(),
    ensures
        final(env).wf(),
        flock_done(*old(env), *final(env), fd as int, operation, r as int),
{
    set_errno(env, 0);
    if !env.libc_state.posix_io.is_fd_open(fd) {
        set_errno(env, EBADF);
        return -1;
    }
    let op: i32 = operation & !LOCK_NB;
    let new_state: Option<i16> = match op {
        LOCK_UN => None,
        LOCK_SH => Some(F_RDLCK),
        LOCK_EX => Some(F_WRLCK),
        _ => {
            set_errno(env, EINVAL);
            return -1;
        },
    };
    if let Some(file) = env.libc_state.posix_io.file_for_fd(fd) {
        file.flock_state = new_state;
    }
    0
}

/// The `errno` of a refused sync, where it counts as a failure.
pub open spec fn sync_errno(e: IoErrorKind) -> Option<i32> {
    match e {
        IoErrorKind::PermissionDenied => None,
        IoErrorKind::Unsupported => Some(EINVAL),
        IoErrorKind::Interrupted => Some(EINTR),
        _ => Some(EIO),
    }
}

pub fn fsync(env: &mut Environment, fd: FileDescriptor) -> (r: i32)
    requires
        old(env).wf(),
    ensures
        final(env).wf(),
        if !old(env).fd_open(fd as int) {
            r == -1 && *final(env) == old(env).with_errno(EBADF)
        } else {
            match old(env).fs.fault(old(env).file(fd as int), FileOp::Sync) {
                None => {
                    &&& r == 0
                    &&& *final(env) == old(env).with_fs(final(env).fs)
                    &&& final(env).fs.synced(old(env).fs, old(env).file(fd as int))
                },
                Some(e) => match sync_errno(e) {
                    None => r == 0 && *final(env) == *old(env),
                    Some(errno) => r == -1 && *final(env) == old(env).with_errno(errno),
                },
            }
        },
{
    let file: GuestFile = match env.libc_state.posix_io.guest_file(fd) {
        Some(file) => file,
        None => {
            set_errno(env, EBADF);
            return -1;
        },
    };
    match env.fs.sync_all(file) {
        Ok(()) => 0,
        Err(e) => {
            match e {
                IoErrorKind::PermissionDenied => {
                    return 0;
                },
                IoErrorKind::Unsupported => set_errno(env, EINVAL),
                IoErrorKind::Interrupted => set_errno(env, EINTR),
                _ => set_errno(env, EIO),
            }
            -1
        },
    }
}

/// The `errno` of a refused change of length.
pub open spec fn set_len_errno(e: IoErrorKind) -> i32 {
    match e {
        IoErrorKind::PermissionDenied => EBADF,
        IoErrorKind::InvalidInput => EINVAL,
        _ => EIO,
    }
}

/// What `ftruncate` does.
pub open spec fn ftruncate_done(
    before: Environment,
    after: Environment,
    fd: int,
    len: int,
    r: int,
) -> bool {
    if len < 0 {
        r == -1 && after == before.with_errno(EINVAL)
    } else if !before.fd_open(fd) {
        r == -1 && after == before.with_errno(EBADF)
    } else {
        let file = before.file(fd);
        match before.fs.set_len_fault(file, len) {
            Some(e) => r == -1 && after == before.with_errno(set_len_errno(e)),
            None => {
                &&& r == 0
                &&& after == before.with_errno(0).with_fs(
                    Fs { inodes: after.fs.inodes, ..before.fs },
                )
                &&& after.fs.inode_set(
                    before.fs,
                    before.fs.opens@[file->Open_0 as int].inode as int,
                    crate::fs::resized(before.fs.contents(file), len),
                    true,
                )
            },
        }
    }
}

pub fn ftruncate(env: &mut Environment, fd: FileDescriptor, len: off_t) -> (r: i32)
    requires
        old(env).wf(),
    ensures
        final(env).wf(),
        ftruncate_done(*old(env), *final(env), fd as int, len as int, r as int),
{
    set_errno(env, 0);
    if len < 0 {
        set_errno(env, EINVAL);
        return -1;
    }
    let file: GuestFile = match env.libc_state.posix_io.guest_file(fd) {
        Some(file) => file,
        None => {
            set_errno(env, EBADF);
            return -1;
        },
    };
    match env.fs.set_len(file, len as u64) {
        Ok(()) => 0,
        Err(e) => {
            let errno: i32 = match e {
                IoErrorKind::PermissionDenied => EBADF,
                IoErrorKind::InvalidInput => EINVAL,
                _ => EIO,
            };
            set_errno(env, errno);
            -1
        },
    }
}

/// The address of the `i`th piece of a `writev`.
pub open spec fn iov_base(mem: Mem, iov: int, i: int) -> int {
    le_u32(mem@, iov + 8 * i)
}

/// The length of the `i`th piece of a `writev`.
pub open spec fn iov_len(mem: Mem, iov: int, i: int) -> int {
    le_u32(mem@, iov + 8 * i + 4)
}

/// The two's complement sum of two 32-bit values.
pub open spec fn wrapped_sum(a: int, b: int) -> int {
    if a + b > i32::MAX {
        a + b - 0x1_0000_0000
    } else if a + b < i32::MIN {
        a + b + 0x1_0000_0000
    } else {
        a + b
    }
}

/// What `writev` does from the `i`th piece on, with `sum` bytes written before:
/// the pieces are written in order up to the first that fails.
pub open spec fn writev_done(
    before: Environment,
    after: Environment,
    fd: int,
    iov: int,
    i: int,
    iovcnt: int,
    sum: int,
    r: int,
) -> bool
    decreases iovcnt - i,
{
    if i >= iovcnt {
        r == sum && after == before
    } else {
        exists|mid: Environment, n: int| #[trigger]
            write_done(
                before,
                mid,
                fd,
                iov_base(before.mem, iov, i),
                iov_len(before.mem, iov, i),
                n,
            ) && (if n == -1 {
                r == -1 && after == mid
            } else {
                writev_done(mid, after, fd, iov, i + 1, iovcnt, wrapped_sum(sum, n), r)
            })
    }
}

proof fn lemma_writev_step(
    start: Environment,
    before: Environment,
    mid: Environment,
    fd: int,
    iov: int,
    i: int,
    iovcnt: int,
    sum: int,
    n: int,
)
    requires
        0 <= i < iovcnt,
        write_done(
            before,
            mid,
            fd,
            iov_base(before.mem, iov, i),
            iov_len(before.mem, iov, i),
            n,
        ),
        forall|after: Environment, r: int| #[trigger]
            writev_done(before, after, fd, iov, i, iovcnt, sum, r) ==> writev_done(
                start,
                after,
                fd,
                iov,
                0,
                iovcnt,
                0,
                r,
            ),
    ensures
        n == -1 ==> writev_done(start, mid, fd, iov, 0, iovcnt, 0, -1),
        n != -1 ==> forall|after: Environment, r: int| #[trigger]
            writev_done(mid, after, fd, iov, i + 1, iovcnt, wrapped_sum(sum, n), r)
                ==> writev_done(start, after, fd, iov, 0, iovcnt, 0, r),
{
    if n == -1 {
        assert(writev_done(before, mid, fd, iov, i, iovcnt, sum, -1));
    } else {
        assert forall|after: Environment, r: int| #[trigger]
            writev_done(mid, after, fd, iov, i + 1, iovcnt, wrapped_sum(sum, n), r) implies
            writev_done(start, after, fd, iov, 0, iovcnt, 0, r) by {
            assert(writev_done(before, after, fd, iov, i, iovcnt, sum, r));
        }
    }
}

pub fn writev(env: &mut Environment, fd: FileDescriptor, iov: ConstPtr, iovcnt: i32) -> (r:
    GuestISize)
    requires
        old(env).wf(),
        0 <= iovcnt,
        iovcnt > 0 ==> old(env).mem.valid(iov as int, 8 * iovcnt),
        forall|i: int|
            #![trigger iov_base(old(env).mem, iov as int, i)]
            0 <= i < iovcnt ==> write_buffer_valid(
                *old(env),
                fd as int,
                iov_base(old(env).mem, iov as int, i),
                iov_len(old(env).mem, iov as int, i),
            ),
    ensures
        final(env).wf(),
        writev_done(*old(env), *final(env), fd as int, iov as int, 0, iovcnt as int, 0, r as int),
{
    let mut i: i32 = 0;
    let mut written_bytes: i32 = 0;
    while i != iovcnt
        invariant
            env.wf(),
            0 <= i <= iovcnt,
            iovcnt > 0 ==> old(env).mem.valid(iov as int, 8 * iovcnt),
            env.mem == old(env).mem,
            env.console.broken == old(env).console.broken,
            fd >= 3 ==> (env.fd_open(fd as int) <==> old(env).fd_open(fd as int)),
            forall|i: int|
                #![trigger iov_base(old(env).mem, iov as int, i)]
                0 <= i < iovcnt ==> write_buffer_valid(
                    *old(env),
                    fd as int,
                    iov_base(old(env).mem, iov as int, i),
                    iov_len(old(env).mem, iov as int, i),
                ),
            forall|after: Environment, r: int| #[trigger]
                writev_done(
                    *env,
                    after,
                    fd as int,
                    iov as int,
                    i as int,
                    iovcnt as int,
                    written_bytes as int,
                    r,
                ) ==> writev_done(
                    *old(env),
                    after,
                    fd as int,
                    iov as int,
                    0,
                    iovcnt as int,
                    0,
                    r,
                ),
        decreases iovcnt - i,
    {
        let ghost before = *env;
        let base: u32 = env.mem.read_u32(iov + 8 * i as u32);
        let len: u32 = env.mem.read_u32(iov + 8 * i as u32 + 4);
        assert(base == iov_base(old(env).mem, iov as int, i as int));
        assert(len == iov_len(old(env).mem, iov as int, i as int));
        let bytes_written: i32 = write(env, fd, base, len);
        proof {
            lemma_writev_step(
                *old(env),
                before,
                *env,
                fd as int,
                iov as int,
                i as int,
                iovcnt as int,
                written_bytes as int,
                bytes_written as int,
            );
        }
        if bytes_written == -1 {
            return -1;
        }
        let total: i32 = written_bytes.wrapping_add(bytes_written);
        assert(total == wrapped_sum(written_bytes as int, bytes_written as int));
        written_bytes = total;
        i = i + 1;
    }
    assert(writev_done(
        *env,
        *env,
        fd as int,
        iov as int,
        i as int,
        iovcnt as int,
        written_bytes as int,
        written_bytes as int,
    ));
    written_bytes
}

/// The lock request at `ptr`.
pub open spec fn flock_at(mem: Mem, ptr: int) -> flock {
    flock {
        start: signed64(le_u64(mem@, ptr)) as i64,
        len: signed64(le_u64(mem@, ptr + 8)) as i64,
        pid: signed32(le_u32(mem@, ptr + 16)) as i32,
        lock_type: signed16(le_u16(mem@, ptr + 20)) as i16,
        whence: signed16(le_u16(mem@, ptr + 22)) as i16,
    }
}

fn read_flock(mem: &Mem, ptr: ConstPtr) -> (r: flock)
    requires
        mem.wf(),
        mem.valid(ptr as int, FLOCK_SIZE as int),
    ensures
        r == flock_at(*mem, ptr as int),
{
    flock {
        start: mem.read_i64(ptr),
        len: mem.read_i64(ptr + 8),
        pid: mem.read_i32(ptr + 16),
        lock_type: to_signed16(mem.read_u16(ptr + 20)),
        whence: to_signed16(mem.read_u16(ptr + 22)),
    }
}

/// Where the range of a lock request starts, before its length is looked at.
pub open spec fn lock_start(env: Environment, fd: int, lock: flock) -> int {
    let file = env.file(fd);
    if lock.whence == SEEK_CUR {
        (if env.fs.fault(file, FileOp::Tell) is None {
            env.fs.position(file)
        } else {
            0
        }) + lock.start
    } else if lock.whence == SEEK_END {
        (if env.fs.fault(file, FileOp::Len) is None {
            env.fs.contents(file).len() as int
        } else {
            0
        }) + lock.start
    } else {
        lock.start as int
    }
}

/// The byte range that a lock request stands for, or the `errno` that refuses
/// it.
pub open spec fn lock_range(env: Environment, fd: int, lock: flock) -> Result<LockRange, i32> {
    let start = lock_start(env, fd, lock);
    if lock.lock_type != F_RDLCK && lock.lock_type != F_UNLCK && lock.lock_type != F_WRLCK {
        Err(EINVAL)
    } else if lock.whence != SEEK_SET && lock.whence != SEEK_CUR && lock.whence != SEEK_END {
        Err(EINVAL)
    } else if lock.whence != SEEK_SET && !env.fd_open(fd) {
        Err(EBADF)
    } else if start < 0 {
        Err(EINVAL)
    } else if lock.len == 0 {
        Ok(LockRange { start: start as i64, end: i64::MAX, lock_type: lock.lock_type })
    } else if lock.len > 0 {
        if start + lock.len > i64::MAX {
            Err(EOVERFLOW)
        } else {
            Ok(
                LockRange {
                    start: start as i64,
                    end: (start + lock.len) as i64,
                    lock_type: lock.lock_type,
                },
            )
        }
    } else if start + lock.len < 0 {
        Err(EINVAL)
    } else {
        Ok(
            LockRange {
                start: (start + lock.len) as i64,
                end: start as i64,
                lock_type: lock.lock_type,
            },
        )
    }
}

/// The start of the range is a file offset, where it is computed.
pub open spec fn lock_start_fits(env: Environment, fd: int, lock: flock) -> bool {
    (lock.lock_type == F_RDLCK || lock.lock_type == F_UNLCK || lock.lock_type == F_WRLCK)
        && env.fd_open(fd) ==> i64::MIN <= lock_start(env, fd, lock) <= i64::MAX
}

/// A range that a request stands for has its start at or before its end, and
/// starts in the file.
pub proof fn law_lock_range_ordered(env: Environment, fd: int, lock: flock)
    requires
        lock_range(env, fd, lock) is Ok,
        lock_start_fits(env, fd, lock),
    ensures
        0 <= lock_range(env, fd, lock)->Ok_0.start <= lock_range(env, fd, lock)->Ok_0.end,
{
}

/// Resolve a lock request to an absolute byte range
/// `[start, end)` (with `end == i64::MAX` for "to EOF / unlimited").
pub fn resolve_lock_range(env: &mut Environment, fd: FileDescriptor, lock: &flock) -> (r: Result<
    LockRange,
    i32,
>)
    requires
        old(env).wf(),
        lock_start_fits(*old(env), fd as int, *lock),
    ensures
        *final(env) == *old(env),
        r == lock_range(*old(env), fd as int, *lock),
{
    let lock_type: i16 = lock.lock_type;
    if lock_type != F_RDLCK && lock_type != F_UNLCK && lock_type != F_WRLCK {
        return Err(EINVAL);
    }
    let lock_start: i64 = match lock.whence as i32 {
        SEEK_SET => lock.start,
        SEEK_CUR => {
            let file: GuestFile = match env.libc_state.posix_io.guest_file(fd) {
                Some(file) => file,
                None => {
                    return Err(EBADF);
                },
            };
            let file_position: u64 = match env.fs.stream_position(file) {
                Ok(position) => position,
                Err(_) => 0,
            };
            assert(file matches GuestFile::Open(k) ==> env.fs.opens@[k as int].position
                <= i64::MAX);
            file_position as i64 + lock.start
        },
        SEEK_END => {
            let file: GuestFile = match env.libc_state.posix_io.guest_file(fd) {
                Some(file) => file,
                None => {
                    return Err(EBADF);
                },
            };
            let size: u64 = match env.fs.stream_len(file) {
                Ok(len) => len,
                Err(_) => 0,
            };
            size as i64 + lock.start
        },
        _ => {
            return Err(EINVAL);
        },
    };
    if lock_start < 0 {
        return Err(EINVAL);
    }
    // A zero length locks to the end of the file, and a negative one the bytes
    // before the start.
    if lock.len == 0 {
        Ok(LockRange { start: lock_start, end: i64::MAX, lock_type })
    } else if lock.len > 0 {
        match lock_start.checked_add(lock.len) {
            Some(end) => Ok(LockRange { start: lock_start, end, lock_type }),
            None => Err(EOVERFLOW),
        }
    } else {
        let new_start: i64 = lock_start + lock.len;
        if new_start < 0 {
            return Err(EINVAL);
        }
        Ok(LockRange { start: new_start, end: lock_start, lock_type })
    }
}

/// The commands that set or clear a record lock.
pub open spec fn is_set_lock(cmd: int) -> bool {
    cmd == F_SETLK || cmd == F_SETLKW
}

/// The commands that duplicate a descriptor.
pub open spec fn is_dup(cmd: int) -> bool {
    cmd == F_DUPFD || cmd == F_DUPFD_CLOEXEC
}

/// The commands that are accepted and change nothing.
pub open spec fn is_hint(cmd: int) -> bool {
    ||| cmd == F_NOCACHE
    ||| cmd == F_RDADVISE
    ||| cmd == F_RDAHEAD
    ||| cmd == F_PREALLOCATE
    ||| cmd == F_TRUNCATEOVERSIZE
    ||| cmd == F_SETSIZE
    ||| cmd == F_FULLFSYNC
    ||| cmd == F_BARRIERFSYNC
    ||| cmd == F_PATHPKG_CHECK
    ||| cmd == F_CHKCLEAN
    ||| cmd == F_ADDSIGS
    ||| cmd == F_ADDFILESIGS
    ||| cmd == F_ADDFILESIGS_FOR_DYLD_SIM
    ||| cmd == F_ADDFILESIGS_RETURN
    ||| cmd == F_ADDFILESUPPL
    ||| cmd == F_SETNOSIGPIPE
    ||| cmd == F_GETNOSIGPIPE
}

/// The locks of a descriptor after `requested` was set: it replaces what it
/// overlaps, or only clears it.
pub open spec fn locks_after(locks: Seq<LockRange>, requested: LockRange) -> Seq<LockRange> {
    let rest = rest_of_locks(locks, requested);
    if requested.lock_type == F_UNLCK {
        rest
    } else {
        rest.push(requested)
    }
}

/// After a lock was set, each byte of its range is locked with its type and no
/// other, and every other byte is locked as before.
pub proof fn law_set_lock_bytes(locks: Seq<LockRange>, requested: LockRange, b: int, t: i16)
    ensures
        byte_locked(locks_after(locks, requested), b, t) <==> if requested.covers(b) {
            t == requested.lock_type && t != F_UNLCK
        } else {
            byte_locked(locks, b, t)
        },
{
    let rest = rest_of_locks(locks, requested);
    law_release_bytes(locks, requested, b, t);
    lemma_byte_locked_concat(rest, seq![requested], b, t);
    assert(rest + seq![requested] =~= rest.push(requested));
    assert(seq![requested][0] == requested);
}

/// What the path command stores: up to 1023 bytes of the path and a NUL, or
/// zeros where the path is not known.
pub open spec fn path_bytes(path: Option<String>) -> Seq<u8> {
    match path {
        Some(p) => {
            let bytes = encode_utf8(p@);
            if bytes.len() <= 1023 {
                bytes.push(0)
            } else {
                bytes.take(1023).push(0)
            }
        },
        None => Seq::new(1024, |i: int| 0u8),
    }
}

/// The path that is recorded in slot `idx`.
pub open spec fn slot_path(files: Seq<Option<PosixFileHostObject>>, idx: int) -> Option<String> {
    if 0 <= idx < files.len() && files[idx] is Some {
        files[idx]->0.path
    } else {
        None
    }
}

/// The slot from which a duplicate looks for a place.
pub open spec fn dup_from(min_fd: int) -> int {
    if min_fd >= 3 {
        min_fd - 3
    } else {
        0
    }
}

/// What the last argument of `fcntl` points at is guest memory, where the
/// command looks at it.
pub open spec fn fcntl_arg_valid(env: Environment, fd: int, cmd: int, arg: int) -> bool {
    &&& fd < 0 || env.fd_open(fd) ==> {
        &&& cmd == F_GETLK || is_set_lock(cmd) ==> {
            &&& env.mem.valid(arg, FLOCK_SIZE as int)
            &&& lock_start_fits(env, fd, flock_at(env.mem, arg))
        }
        &&& cmd == F_GETPATH ==> env.mem.valid(
            arg,
            path_bytes(slot_path(env.files(), file_idx(fd))).len() as int,
        )
    }
    &&& env.fd_open(fd) && is_dup(cmd) ==> lowest_free(
        env.files(),
        dup_from(signed32(arg)),
    ) < MAX_FILES
}

/// What the lock commands of `fcntl` do.
pub open spec fn fcntl_lock_done(
    before: Environment,
    after: Environment,
    fd: int,
    cmd: int,
    arg: int,
    r: int,
) -> bool {
    match lock_range(before, fd, flock_at(before.mem, arg)) {
        Err(e) => r == -1 && after == before.with_errno(e),
        Ok(requested) => {
            &&& r == 0
            &&& if cmd == F_GETLK {
                &&& after == before.with_errno(0).with_mem(after.mem)
                &&& after.mem.stored(before.mem, arg + 20, le_bytes(F_UNLCK as int, 2))
            } else if !before.fd_open(fd) {
                after == before.with_errno(0)
            } else {
                let locks = after.object(fd).locks;
                &&& after == before.with_errno(0).with_posix_io(after.libc_state.posix_io)
                &&& object_set(
                    before,
                    after,
                    fd,
                    PosixFileHostObject { locks, ..before.object(fd) },
                )
                &&& locks@ == locks_after(before.object(fd).locks@, requested)
            }
        },
    }
}

/// What the duplicating commands of `fcntl` do.
pub open spec fn fcntl_dup_done(
    before: Environment,
    after: Environment,
    fd: int,
    cmd: int,
    arg: int,
    r: int,
) -> bool {
    if !before.fd_open(fd) {
        r == -1 && after == before.with_errno(EBADF)
    } else if before.fs.fault(before.file(fd), FileOp::Clone) is Some {
        r == -1 && after == before.with_errno(EMFILE)
    } else {
        let source = before.object(fd);
        let o = after.object(r);
        &&& r == lowest_free(before.files(), dup_from(signed32(arg))) + 3
        &&& after == before.with_errno(0).with_posix_io(after.libc_state.posix_io)
        &&& slot_filled(before.files(), after.files(), r - 3, o)
        &&& is_fresh_object(o, source.file)
        &&& !o.needs_flush
        &&& o.flags == if cmd == F_DUPFD_CLOEXEC {
            FD_CLOEXEC
        } else {
            0
        }
        &&& o.status_flags == source.status_flags
        &&& o.path == source.path
    }
}

/// What `fcntl` does.
pub open spec fn fcntl_done(
    before: Environment,
    after: Environment,
    fd: int,
    cmd: int,
    arg: int,
    r: int,
) -> bool {
    let o = before.object(fd);
    if fd >= 3 && !before.fd_open(fd) {
        r == -1 && after == before.with_errno(EBADF)
    } else if 0 <= fd < 3 {
        &&& after == before.with_errno(0)
        &&& r == if cmd == F_GETFL && fd != STDIN_FILENO {
            O_WRONLY
        } else {
            0
        }
    } else if cmd == F_GETFD || cmd == F_GETFL {
        if fd < 0 {
            r == -1 && after == before.with_errno(EBADF)
        } else {
            &&& after == before.with_errno(0)
            &&& r == if cmd == F_GETFD {
                o.flags
            } else {
                o.status_flags
            }
        }
    } else if cmd == F_SETFD || cmd == F_SETFL {
        let word = signed32(arg) as i32;
        let changed = if cmd == F_SETFD {
            PosixFileHostObject { flags: word, ..o }
        } else {
            PosixFileHostObject {
                status_flags: (o.status_flags & O_ACCMODE) | (word & !O_ACCMODE),
                ..o
            }
        };
        &&& r == 0
        &&& if fd < 0 {
            after == before.with_errno(0)
        } else {
            &&& after == before.with_errno(0).with_posix_io(after.libc_state.posix_io)
            &&& object_set(before, after, fd, changed)
        }
    } else if cmd == F_GETLK || is_set_lock(cmd) {
        fcntl_lock_done(before, after, fd, cmd, arg, r)
    } else if is_dup(cmd) {
        fcntl_dup_done(before, after, fd, cmd, arg, r)
    } else if cmd == F_GETPATH {
        &&& r == 0
        &&& after == before.with_errno(0).with_mem(after.mem)
        &&& after.mem.stored(
            before.mem,
            arg,
            path_bytes(slot_path(before.files(), file_idx(fd))),
        )
    } else if is_hint(cmd) {
        r == 0 && after == before.with_errno(0)
    } else {
        r == -1 && after == before.with_errno(EINVAL)
    }
}

/// Setting the status flags keeps the access mode.
pub proof fn law_setfl_keeps_access_mode(status_flags: i32, word: i32)
    ensures
        ((status_flags & O_ACCMODE) | (word & !O_ACCMODE)) & O_ACCMODE == status_flags & O_ACCMODE,
        ((status_flags & O_ACCMODE) | (word & !O_ACCMODE)) & !O_ACCMODE == word & !O_ACCMODE,
{
    assert(((status_flags & 3i32) | (word & !3i32)) & 3i32 == status_flags & 3i32) by (bit_vector);
    assert(((status_flags & 3i32) | (word & !3i32)) & !3i32 == word & !3i32) by (bit_vector);
}

/// The lock commands of `fcntl`.
fn fcntl_lock(env: &mut Environment, fd: FileDescriptor, cmd: FileControlCommand, arg: u32) -> (r:
    i32)
    requires
        old(env).wf(),
        old(env).errno() == 0,
        cmd == F_GETLK || is_set_lock(cmd as int),
        old(env).mem.valid(arg as int, FLOCK_SIZE as int),
        lock_start_fits(*old(env), fd as int, flock_at(old(env).mem, arg as int)),
    ensures
        final(env).wf(),
        fcntl_lock_done(*old(env), *final(env), fd as int, cmd as int, arg as int, r as int),
{
    let lock: flock = read_flock(&env.mem, arg);
    let requested: LockRange = match resolve_lock_range(env, fd, &lock) {
        Ok(range) => range,
        Err(error_code) => {
            set_errno(env, error_code);
            return -1;
        },
    };
    if cmd == F_GETLK {
        // No other process could hold a lock that blocks the request.
        env.mem.write_u16(arg + 20, F_UNLCK as u16);
        return 0;
    }
    if let Some(file) = env.libc_state.posix_io.file_for_fd(fd) {
        // A new lock from the same owner promotes or demotes the existing one.
        release_range_from_locks(&mut file.locks, &requested);
        if requested.lock_type != F_UNLCK {
            file.locks.push(requested);
        }
    }
    0
}

/// The duplicating commands of `fcntl`.
fn fcntl_dup(env: &mut Environment, fd: FileDescriptor, cmd: FileControlCommand, arg: u32) -> (r:
    i32)
    requires
        old(env).wf(),
        old(env).errno() == 0,
        is_dup(cmd as int),
        old(env).fd_open(fd as int) ==> lowest_free(
            old(env).files(),
            dup_from(signed32(arg as int)),
        ) < MAX_FILES,
    ensures
        final(env).wf(),
        fcntl_dup_done(*old(env), *final(env), fd as int, cmd as int, arg as int, r as int),
{
    let min_fd: i32 = to_signed32(arg);
    if !env.libc_state.posix_io.is_fd_open(fd) {
        set_errno(env, EBADF);
        return -1;
    }
    let locks: Vec<LockRange> = Vec::new();
    assert(locks@ =~= Seq::empty());
    let flags: i32 = if cmd == F_DUPFD_CLOEXEC {
        FD_CLOEXEC
    } else {
        0
    };
    let host_object: PosixFileHostObject = match &env.libc_state.posix_io.files[fd_to_file_idx(
        fd,
    )] {
        Some(source) => PosixFileHostObject {
            file: source.file,
            needs_flush: false,
            reached_eof: false,
            flags,
            status_flags: source.status_flags,
            path: source.path.clone(),
            locks,
            flock_state: None,
        },
        None => {
            return -1;
        },
    };
    if env.fs.get_fault(host_object.file, FileOp::Clone).is_some() {
        set_errno(env, EMFILE);
        return -1;
    }
    let min_idx: usize = if min_fd >= NORMAL_FILENO_BASE {
        fd_to_file_idx(min_fd)
    } else {
        0
    };
    let idx: usize = fill_slot(env, min_idx, host_object);
    file_idx_to_fd(idx)
}

/// The path command of `fcntl`.
fn fcntl_get_path(env: &mut Environment, fd: FileDescriptor, buf: MutPtr)
    requires
        old(env).wf(),
        old(env).mem.valid(
            buf as int,
            path_bytes(slot_path(old(env).files(), file_idx(fd as int))).len() as int,
        ),
    ensures
        final(env).wf(),
        *final(env) == old(env).with_mem(final(env).mem),
        final(env).mem.stored(
            old(env).mem,
            buf as int,
            path_bytes(slot_path(old(env).files(), file_idx(fd as int))),
        ),
{
    let idx: usize = fd_to_file_idx(fd);
    let ghost path = slot_path(env.files(), idx as int);
    let mut bytes: Vec<u8> = Vec::new();
    let known: bool = if idx < env.libc_state.posix_io.files.len() {
        match &env.libc_state.posix_io.files[idx] {
            Some(o) => match &o.path {
                Some(p) => {
                    bytes = string_bytes(p);
                    true
                },
                None => false,
            },
            None => false,
        }
    } else {
        false
    };
    if known {
        if bytes.len() > 1023 {
            bytes.truncate(1023);
        }
        bytes.push(0);
        assert(bytes@ =~= path_bytes(path));
        env.mem.write_bytes(buf, &bytes);
    } else {
        env.mem.zero_bytes(buf, 1024);
    }
}

/// `int fcntl(int fd, int cmd, ...);`, with the one word that may follow the
/// command as `arg`.
pub fn fcntl(env: &mut Environment, fd: FileDescriptor, cmd: FileControlCommand, arg: u32) -> (r:
    i32)
    requires
        old(env).wf(),
        fcntl_arg_valid(*old(env), fd as int, cmd as int, arg as int),
    ensures
        final(env).wf(),
        fcntl_done(*old(env), *final(env), fd as int, cmd as int, arg as int, r as int),
{
    set_errno(env, 0);
    if fd >= NORMAL_FILENO_BASE && !env.libc_state.posix_io.is_fd_open(fd) {
        set_errno(env, EBADF);
        return -1;
    }
    // The standard streams are always open. Their flags are those that the
    // streams' roles suggest, and other commands are accepted as no-ops.
    if 0 <= fd && fd < NORMAL_FILENO_BASE {
        if cmd == F_GETFL && fd != STDIN_FILENO {
            return O_WRONLY;
        }
        return 0;
    }
    match cmd {
        F_GETFD => match env.libc_state.posix_io.flags_of(fd) {
            Some((flags, status_flags)) => {
                return flags;
            },
            None => {
                set_errno(env, EBADF);
                return -1;
            },
        },
        F_SETFD => {
            // There is no `exec`, so close-on-exec has no effect; the flags are
            // stored for F_GETFD.
            if let Some(file) = env.libc_state.posix_io.file_for_fd(fd) {
                file.flags = to_signed32(arg);
            }
        },
        F_GETFL => match env.libc_state.posix_io.flags_of(fd) {
            Some((flags, status_flags)) => {
                return status_flags;
            },
            None => {
                set_errno(env, EBADF);
                return -1;
            },
        },
        F_SETFL => {
            let flags: i32 = to_signed32(arg);
            if let Some(file) = env.libc_state.posix_io.file_for_fd(fd) {
                let access: i32 = file.status_flags & O_ACCMODE;
                file.status_flags = access | (flags & !O_ACCMODE);
            }
        },
        F_GETLK | F_SETLK | F_SETLKW => {
            return fcntl_lock(env, fd, cmd, arg);
        },
        F_DUPFD | F_DUPFD_CLOEXEC => {
            return fcntl_dup(env, fd, cmd, arg);
        },
        F_GETPATH => {
            fcntl_get_path(env, fd, arg);
        },
        F_NOCACHE
        | F_RDADVISE
        | F_RDAHEAD
        | F_PREALLOCATE
        | F_TRUNCATEOVERSIZE
        | F_SETSIZE
        | F_FULLFSYNC
        | F_BARRIERFSYNC
        | F_PATHPKG_CHECK
        | F_CHKCLEAN
        | F_ADDSIGS
        | F_ADDFILESIGS
        | F_ADDFILESIGS_FOR_DYLD_SIM
        | F_ADDFILESIGS_RETURN
        | F_ADDFILESUPPL
        | F_SETNOSIGPIPE
        | F_GETNOSIGPIPE => {},
        _ => {
            set_errno(env, EINVAL);
            return -1;
        },
    }
    0
}

/// What the flags of an `open` ask of the file system.
pub open spec fn open_options(flags: OpenFlag) -> GuestOpenOptions {
    let access = flags & O_ACCMODE;
    GuestOpenOptions {
        read: access == O_RDONLY || access == O_RDWR,
        write: access == O_WRONLY || access == O_RDWR,
        append: flags & O_APPEND != 0,
        create: flags & O_CREAT != 0,
        truncate: flags & O_TRUNC != 0,
    }
}

/// The flags name one of the three access modes.
pub open spec fn access_mode_valid(flags: OpenFlag) -> bool {
    let access = flags & O_ACCMODE;
    access == O_RDONLY || access == O_WRONLY || access == O_RDWR
}

/// The path that opening `path` with `flags` opens.
pub open spec fn target_of(env: Environment, path: int, flags: OpenFlag) -> Seq<char> {
    open_target(
        env.fs,
        env.bundle.bundle_path@,
        decode_utf8(env.mem.cstr(path)),
        flags & O_CREAT != 0,
    )
}

/// How opening `path` fails: with this `errno`, or with `errno` as it was.
pub open spec fn open_error(env: Environment, path: int, flags: OpenFlag) -> Option<Option<i32>> {
    if path == 0 {
        Some(None)
    } else if !access_mode_valid(flags) {
        Some(Some(EINVAL))
    } else if !valid_utf8(env.mem.cstr(path)) {
        Some(None)
    } else if flags & O_EXCL != 0 && flags & O_CREAT != 0 && env.fs.path_exists(
        target_of(env, path, flags),
    ) {
        Some(Some(EEXIST))
    } else if !env.fs.can_open(target_of(env, path, flags), open_options(flags)) {
        Some(Some(ENOENT))
    } else {
        None
    }
}

/// What the new descriptor of an `open` stands for.
pub open spec fn opened_object(o: PosixFileHostObject, target: Seq<char>, flags: OpenFlag) -> bool {
    &&& !o.reached_eof
    &&& o.needs_flush == (flags & O_ACCMODE != O_RDONLY)
    &&& o.flags == 0
    &&& o.status_flags == flags & (O_ACCMODE | O_APPEND | O_NONBLOCK)
    &&& o.path is Some
    &&& o.path->0@ == target
    &&& o.locks@ == Seq::<LockRange>::empty()
    &&& o.flock_state == if flags & O_SHLOCK != 0 {
        Some(F_RDLCK)
    } else {
        None
    }
}

/// What `open_direct` does.
pub open spec fn open_done(
    before: Environment,
    after: Environment,
    path: int,
    flags: OpenFlag,
    r: int,
) -> bool {
    match open_error(before, path, flags) {
        Some(None) => r == -1 && after == before,
        Some(Some(e)) => r == -1 && after == before.with_errno(e),
        None => {
            let target = target_of(before, path, flags);
            let o = after.object(r);
            &&& r == lowest_free(before.files(), 0) + 3
            &&& after == before.with_errno(
                if flags & O_SHLOCK != 0 {
                    0
                } else {
                    before.errno()
                },
            ).with_fs(after.fs).with_posix_io(after.libc_state.posix_io)
            &&& after.fs.opened(before.fs, target, open_options(flags), o.file)
            &&& slot_filled(before.files(), after.files(), r - 3, o)
            &&& opened_object(o, target, flags)
        },
    }
}

/// The guest memory and the descriptors that an `open` needs are there.
pub open spec fn open_ready(env: Environment, path: int) -> bool {
    &&& path != 0 ==> env.mem.valid(path, 0)
    &&& has_free_fd(env)
}

/// More open files leave the descriptors in order.
proof fn lemma_opens_kept(before: Environment, fs: Fs)
    requires
        before.wf(),
        fs.opens@.len() >= before.fs.opens@.len(),
    ensures
        before.libc_state.posix_io.wf(fs),
{
}

pub fn open_direct(env: &mut Environment, path: ConstPtr, flags: i32) -> (r: FileDescriptor)
    requires
        old(env).wf(),
        open_ready(*old(env), path as int),
    ensures
        final(env).wf(),
        open_done(*old(env), *final(env), path as int, flags, r as int),
        r == -1 || r >= 3 && final(env).fd_open(r as int),
{
    if path == 0 {
        return -1;
    }
    let access: i32 = flags & O_ACCMODE;
    if access != O_RDONLY && access != O_WRONLY && access != O_RDWR {
        set_errno(env, EINVAL);
        return -1;
    }
    let needs_flush: bool = access != O_RDONLY;
    let options: GuestOpenOptions = GuestOpenOptions {
        read: access == O_RDONLY || access == O_RDWR,
        write: access == O_WRONLY || access == O_RDWR,
        append: flags & O_APPEND != 0,
        create: flags & O_CREAT != 0,
        truncate: flags & O_TRUNC != 0,
    };
    let path_chars: Vec<char> = match env.mem.cstr_at_utf8(path) {
        Some(text) => chars_of(text.as_str()),
        None => {
            return -1;
        },
    };
    let target: Vec<char> = find_open_target(
        &env.fs,
        &env.bundle.bundle_path,
        &path_chars,
        flags & O_CREAT != 0,
    );
    // A file that must be new is refused if it is there.
    if flags & O_EXCL != 0 && flags & O_CREAT != 0 && env.fs.has_path(&target) {
        set_errno(env, EEXIST);
        return -1;
    }
    let file: GuestFile = match env.fs.open_with_options(&target, options) {
        Ok(file) => file,
        Err(()) => {
            set_errno(env, ENOENT);
            return -1;
        },
    };
    let locks: Vec<LockRange> = Vec::new();
    assert(locks@ =~= Seq::empty());
    proof {
        lemma_opens_kept(*old(env), env.fs);
        law_lowest_free(old(env).files(), 0);
    }
    let res: i32 = find_or_create_fd(
        env,
        PosixFileHostObject {
            file,
            needs_flush,
            reached_eof: false,
            flags: 0,
            status_flags: flags & (O_ACCMODE | O_APPEND | O_NONBLOCK),
            path: Some(string_of(&target)),
            locks,
            flock_state: None,
        },
    );
    if flags & O_SHLOCK != 0 {
        let ghost mid = *env;
        let _ = flock(env, res, LOCK_SH);
        proof {
            assert(1i32 & !4i32 == 1i32) by (bit_vector);
            assert(slot_filled(
                old(env).files(),
                env.files(),
                res - 3,
                env.object(res as int),
            )) by {
                assert forall|j: int|
                    #![trigger env.files()[j]]
                    0 <= j < env.files().len() && j != res - 3 implies env.files()[j] == (if j
                    < old(env).files().len() {
                    old(env).files()[j]
                } else {
                    None
                }) by {
                    assert(env.files()[j] == mid.files()[j]);
                }
            }
        }
    }
    res
}

/// `int open(const char *path, int flags, ...);`
pub fn open(env: &mut Environment, path: ConstPtr, flags: i32) -> (r: FileDescriptor)
    requires
        old(env).wf(),
        open_ready(*old(env), path as int),
    ensures
        final(env).wf(),
        open_done(old(env).with_errno(0), *final(env), path as int, flags, r as int),
{
    set_errno(env, 0);
    open_direct(env, path, flags)
}

/// The flags with which `creat` opens.
pub const CREAT_FLAGS: OpenFlag = 0x601;

/// `creat(path, mode)` opens for writing, and makes or empties the file.
pub fn creat(env: &mut Environment, path: ConstPtr, _mode: u32) -> (r: i32)
    requires
        old(env).wf(),
        open_ready(*old(env), path as int),
    ensures
        final(env).wf(),
        open_done(*old(env), *final(env), path as int, CREAT_FLAGS, r as int),
{
    open_direct(env, path, CREAT_FLAGS)
}

/// `creat` opens for writing only, and makes or empties the file.
pub proof fn lemma_creat_flags()
    ensures
        open_options(CREAT_FLAGS) == (GuestOpenOptions {
            read: false,
            write: true,
            append: false,
            create: true,
            truncate: true,
        }),
{
    assert(0x601i32 & 3i32 == 1i32) by (bit_vector);
    assert(0x601i32 & 8i32 == 0i32) by (bit_vector);
    assert(0x601i32 & 0x200i32 == 0x200i32) by (bit_vector);
    assert(0x601i32 & 0x400i32 == 0x400i32) by (bit_vector);
}

pub fn truncate(env: &mut Environment, path_ptr: ConstPtr, len: off_t) -> (r: i32)
    requires
        old(env).wf(),
        old(env).mem.valid(path_ptr as int, 0),
        has_free_fd(*old(env)),
    ensures
        final(env).wf(),
        if !valid_utf8(old(env).mem.cstr(path_ptr as int)) {
            r == -1 && *final(env) == old(env).with_errno(0)
        } else {
            exists|opened: Environment, fd: int| #[trigger]
                open_done(old(env).with_errno(0), opened, path_ptr as int, O_WRONLY, fd) && (if fd
                    < 0 {
                    r == -1 && *final(env) == opened
                } else {
                    exists|cut: Environment| #[trigger]
                        ftruncate_done(opened, cut, fd, len as int, r as int) && close_done(
                            cut,
                            *final(env),
                            fd,
                            0,
                        )
                })
        },
{
    set_errno(env, 0);
    if env.mem.cstr_at_utf8(path_ptr).is_none() {
        return -1;
    }
    let fd: i32 = open_direct(env, path_ptr, O_WRONLY);
    if fd < 0 {
        return -1;
    }
    let res: i32 = ftruncate(env, fd, len);
    close(env, fd);
    res
}

/// The path that a C string names.
fn path_at(mem: &Mem, ptr: ConstPtr) -> (r: Option<Vec<char>>)
    requires
        mem.wf(),
        mem.valid(ptr as int, 0),
    ensures
        r is Some <==> valid_utf8(mem.cstr(ptr as int)),
        r matches Some(p) ==> p@ == decode_utf8(mem.cstr(ptr as int)),
{
    match mem.cstr_at_utf8(ptr) {
        Some(text) => Some(chars_of(text.as_str())),
        None => None,
    }
}

/// The `errno` with which `rename` fails.
pub open spec fn rename_error(env: Environment, old_path: int, new_path: int) -> Option<i32> {
    let from = env.mem.cstr(old_path);
    let to = env.mem.cstr(new_path);
    if old_path == 0 || new_path == 0 {
        Some(EINVAL)
    } else if !valid_utf8(from) || !valid_utf8(to) {
        Some(EINVAL)
    } else if decode_utf8(from).len() == 0 || decode_utf8(to).len() == 0 {
        Some(ENOENT)
    } else if !env.fs.can_rename(decode_utf8(from), decode_utf8(to)) {
        Some(ENOENT)
    } else {
        None
    }
}

/// `int rename(const char *old, const char *new);`
pub fn rename(env: &mut Environment, old_path: ConstPtr, new_path: ConstPtr) -> (r: i32)
    requires
        old(env).wf(),
        old_path != 0 ==> old(env).mem.valid(old_path as int, 0),
        new_path != 0 ==> old(env).mem.valid(new_path as int, 0),
    ensures
        final(env).wf(),
        match rename_error(*old(env), old_path as int, new_path as int) {
            Some(e) => r == -1 && *final(env) == old(env).with_errno(e),
            None => {
                &&& r == 0
                &&& *final(env) == old(env).with_errno(0).with_fs(final(env).fs)
                &&& final(env).fs.renamed(
                    old(env).fs,
                    decode_utf8(old(env).mem.cstr(old_path as int)),
                    decode_utf8(old(env).mem.cstr(new_path as int)),
                )
            },
        },
{
    set_errno(env, 0);
    if old_path == 0 || new_path == 0 {
        set_errno(env, EINVAL);
        return -1;
    }
    let (from, to): (Vec<char>, Vec<char>) = match (
        path_at(&env.mem, old_path),
        path_at(&env.mem, new_path),
    ) {
        (Some(from), Some(to)) => (from, to),
        _ => {
            set_errno(env, EINVAL);
            return -1;
        },
    };
    if from.len() == 0 || to.len() == 0 {
        set_errno(env, ENOENT);
        return -1;
    }
    match env.fs.rename(&from, &to) {
        Ok(_) => 0,
        Err(_) => {
            set_errno(env, ENOENT);
            -1
        },
    }
}

/// `char *getcwd(char *buf, size_t size);`
pub fn getcwd(env: &mut Environment, buf_ptr: MutPtr, buf_size: GuestUSize) -> (r: MutPtr)
    requires
        old(env).wf(),
        ({
            let wd = encode_utf8(old(env).fs.working_directory@);
            &&& wd.len() < u32::MAX
            &&& buf_ptr == 0 && old(env).fs.path_is_dir(old(env).fs.working_directory@)
                ==> old(env).mem.has_room(wd.len() as int + 1)
            &&& buf_ptr != 0 && buf_size > wd.len() ==> old(env).mem.valid(
                buf_ptr as int,
                wd.len() as int + 1,
            )
        }),
    ensures
        final(env).wf(),
        *final(env) == old(env).with_mem(final(env).mem),
        ({
            let wd = encode_utf8(old(env).fs.working_directory@);
            if !old(env).fs.path_is_dir(old(env).fs.working_directory@) {
                r == 0 && final(env).mem == old(env).mem
            } else if buf_ptr == 0 {
                r != 0 && final(env).mem.placed(old(env).mem, r, wd.push(0))
            } else if buf_size < wd.len() + 1 {
                r == 0 && final(env).mem == old(env).mem
            } else {
                r == buf_ptr && final(env).mem.stored(old(env).mem, buf_ptr as int, wd.push(0))
            }
        }),
{
    if !env.fs.is_dir(&env.fs.working_directory) {
        return 0;
    }
    let working_directory: Vec<u8> = utf8_bytes(&env.fs.working_directory);
    if buf_ptr == 0 {
        return env.mem.alloc_and_write_cstr(&working_directory);
    }
    let res_size: u32 = working_directory.len() as u32 + 1;
    if buf_size < res_size {
        return 0;
    }
    env.mem.write_cstr(buf_ptr, &working_directory);
    buf_ptr
}

/// `int chdir(const char *path);`
///
/// A path that is not text counts as empty, and an empty path is refused.
pub fn chdir(env: &mut Environment, path_ptr: ConstPtr) -> (r: i32)
    requires
        old(env).wf(),
        old(env).mem.valid(path_ptr as int, 0),
    ensures
        final(env).wf(),
        ({
            let text = old(env).mem.cstr(path_ptr as int);
            let path = decode_utf8(text);
            if !valid_utf8(text) || path.len() == 0 {
                r == -1 && *final(env) == old(env).with_errno(ENOENT)
            } else if !old(env).fs.path_is_dir(path) {
                r == -1 && *final(env) == old(env).with_errno(0)
            } else {
                &&& r == 0
                &&& *final(env) == old(env).with_errno(0).with_fs(
                    (Fs { working_directory: final(env).fs.working_directory, ..old(env).fs }),
                )
                &&& final(env).fs.working_directory@ == old(env).fs.full_path(path)
            }
        }),
{
    set_errno(env, 0);
    let path: Vec<char> = match path_at(&env.mem, path_ptr) {
        Some(path) => path,
        None => Vec::new(),
    };
    if path.len() == 0 {
        set_errno(env, ENOENT);
        return -1;
    }
    match env.fs.change_working_directory(&path) {
        Ok(_) => 0,
        Err(()) => -1,
    }
}

} // verus!
