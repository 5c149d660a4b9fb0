//! Paths, commands and file attributes.
use vstd::prelude::*;
use vstd::utf8::{decode_utf8, encode_utf8, valid_utf8};

use crate::environment::Environment;
use crate::fs::{dirs_added, Fs};
use crate::libc::errno::set_errno;
use crate::libc::posix_io::FileDescriptor;
use crate::mem::{
    le_bytes, le_u32, ConstPtr, ConstVoidPtr, GuestUSize, Mem, MutPtr, MutVoidPtr,
};
use crate::paths::{join, join_parts, resolve, resolve_path, texts};
use crate::text::{chars_of, utf8_bytes, utf8_string};

verus! {

/// `char *realpath(const char *file_name, char *resolve_name);`, of a path that
/// is text.
pub fn realpath(env: &mut Environment, file_name: ConstPtr, resolve_name: MutPtr) -> (r: MutPtr)
    requires
        old(env).wf(),
        old(env).mem.valid(file_name as int, 0),
        valid_utf8(old(env).mem.cstr(file_name as int)),
        ({
            let path = decode_utf8(old(env).mem.cstr(file_name as int));
            old(env).mem.valid(
                resolve_name as int,
                encode_utf8(old(env).fs.full_path(path)).len() as int + 1,
            )
        }),
    ensures
        final(env).wf(),
        r == resolve_name,
        *final(env) == old(env).with_mem(final(env).mem),
        ({
            let path = decode_utf8(old(env).mem.cstr(file_name as int));
            final(env).mem.stored(
                old(env).mem,
                resolve_name as int,
                encode_utf8(old(env).fs.full_path(path)).push(0),
            )
        }),
{
    let path: Vec<char> = match env.mem.cstr_at_utf8(file_name) {
        Some(text) => chars_of(text.as_str()),
        None => Vec::new(),
    };
    let parts: Vec<Vec<char>> = resolve_path(&env.fs.working_directory, &path);
    let result: Vec<char> = join_parts(&parts, parts.len());
    assert(texts(parts@).take(parts@.len() as int) =~= texts(parts@));
    let bytes: Vec<u8> = utf8_bytes(&result);
    env.mem.write_cstr(resolve_name, &bytes);
    resolve_name
}

/// `int _NSGetExecutablePath(char *buf, uint32_t *bufsize);`
///
/// Writes the path of the currently running executable into `buf`. On entry
/// `*bufsize` is the capacity of `buf`; on success the path (including the
/// trailing NUL byte) is written and 0 is returned. If the buffer is too
/// small, `*bufsize` is updated to the required capacity and -1 is returned.
pub fn _NSGetExecutablePath(env: &mut Environment, buf: MutPtr, bufsize: MutPtr) -> (r: i32)
    requires
        old(env).wf(),
        bufsize != 0 ==> old(env).mem.valid(bufsize as int, 4),
        ({
            let path = encode_utf8(old(env).bundle.executable_path@);
            &&& path.len() < u32::MAX
            &&& bufsize != 0 && buf != 0 && le_u32(old(env).mem@, bufsize as int) > path.len()
                ==> old(env).mem.valid(buf as int, path.len() as int + 1)
        }),
    ensures
        final(env).wf(),
        ({
            let path = encode_utf8(old(env).bundle.executable_path@);
            let required = path.len() as int + 1;
            if bufsize == 0 {
                r == -1 && *final(env) == *old(env)
            } else if le_u32(old(env).mem@, bufsize as int) < required {
                &&& r == -1
                &&& *final(env) == old(env).with_mem(final(env).mem)
                &&& final(env).mem.stored(old(env).mem, bufsize as int, le_bytes(required, 4))
            } else if buf == 0 {
                r == -1 && *final(env) == *old(env)
            } else {
                &&& r == 0
                &&& *final(env) == old(env).with_mem(final(env).mem)
                &&& path_and_size_stored(
                    old(env).mem,
                    final(env).mem,
                    buf as int,
                    bufsize as int,
                    path,
                )
            }
        }),
{
    if bufsize == 0 {
        return -1;
    }
    let path: Vec<u8> = utf8_bytes(&env.bundle.executable_path);
    let required: u32 = path.len() as u32 + 1;
    let provided: u32 = env.mem.read_u32(bufsize);
    if provided < required {
        env.mem.write_u32(bufsize, required);
        return -1;
    }
    if buf == 0 {
        return -1;
    }
    env.mem.write_cstr(buf, &path);
    let ghost mid = env.mem;
    assert(mid.stored(old(env).mem, buf as int, path@.push(0)));
    env.mem.write_u32(bufsize, required);
    0
}

/// A path was stored, and then its size with the NUL.
pub open spec fn path_and_size_stored(
    before: Mem,
    after: Mem,
    buf: int,
    bufsize: int,
    path: Seq<u8>,
) -> bool {
    exists|mid: Mem| #[trigger]
        mid.stored(before, buf, path.push(0)) && after.stored(
            mid,
            bufsize,
            le_bytes(path.len() as int + 1, 4),
        )
}

/// White space, as Unicode knows it.
pub open spec fn is_white(c: char) -> bool {
    let v = c as u32;
    ||| 0x09 <= v <= 0x0d
    ||| v == 0x20
    ||| v == 0x85
    ||| v == 0xa0
    ||| v == 0x1680
    ||| 0x2000 <= v <= 0x200a
    ||| v == 0x2028
    ||| v == 0x2029
    ||| v == 0x202f
    ||| v == 0x205f
    ||| v == 0x3000
}

/// The words of `s` that white space ends, and what follows the last white
/// space.
pub open spec fn scan_words(s: Seq<char>) -> (Seq<Seq<char>>, Seq<char>)
    decreases s.len(),
{
    if s.len() == 0 {
        (Seq::empty(), Seq::empty())
    } else {
        let (done, rest) = scan_words(s.drop_last());
        if is_white(s.last()) {
            (
                if rest.len() == 0 {
                    done
                } else {
                    done.push(rest)
                },
                Seq::empty(),
            )
        } else {
            (done, rest.push(s.last()))
        }
    }
}

/// The words between the white space of `s`.
pub open spec fn words_of(s: Seq<char>) -> Seq<Seq<char>> {
    let (done, rest) = scan_words(s);
    if rest.len() == 0 {
        done
    } else {
        done.push(rest)
    }
}

fn is_white_char(c: char) -> (r: bool)
    ensures
        r == is_white(c),
{
    let v: u32 = c as u32;
    (0x09 <= v && v <= 0x0d) || v == 0x20 || v == 0x85 || v == 0xa0 || v == 0x1680 || (0x2000 <= v
        && v <= 0x200a) || v == 0x2028 || v == 0x2029 || v == 0x202f || v == 0x205f || v == 0x3000
}

fn split_words(s: &Vec<char>) -> (r: Vec<Vec<char>>)
    ensures
        texts(r@) == words_of(s@),
{
    let mut done: Vec<Vec<char>> = Vec::new();
    let mut rest: Vec<char> = Vec::new();
    let n: usize = s.len();
    let mut i: usize = 0;
    assert(texts(done@) =~= Seq::empty());
    while i < n
        invariant
            i <= n == s@.len(),
            (texts(done@), rest@) == scan_words(s@.take(i as int)),
        decreases n - i,
    {
        let ghost before = done@;
        assert(s@.take(i + 1).drop_last() =~= s@.take(i as int));
        if is_white_char(s[i]) {
            if rest.len() > 0 {
                let ghost word = rest@;
                done.push(rest);
                assert(texts(done@) =~= texts(before).push(word));
            }
            rest = Vec::new();
        } else {
            rest.push(s[i]);
        }
        i = i + 1;
    }
    assert(s@.take(n as int) =~= s@);
    if rest.len() > 0 {
        let ghost before = done@;
        let ghost word = rest@;
        done.push(rest);
        assert(texts(done@) =~= texts(before).push(word));
    }
    done
}

/// The command that makes directories.
pub open spec fn is_mkdir(word: Seq<char>) -> bool {
    word == seq!['m', 'k', 'd', 'i', 'r']
}

/// The first word from `from` on that is no flag.
pub open spec fn first_argument(words: Seq<Seq<char>>, from: int) -> Option<Seq<char>>
    decreases words.len() - from,
{
    if from < 0 || from >= words.len() {
        None
    } else if words[from].len() > 0 && words[from][0] == '-' {
        first_argument(words, from + 1)
    } else {
        Some(words[from])
    }
}

/// What `system` does with the words of a command: of all commands only the
/// one that makes directories is known, and others do nothing.
pub open spec fn command_done(
    before: Environment,
    after: Environment,
    words: Seq<Seq<char>>,
    r: int,
) -> bool {
    if words.len() == 0 || !is_mkdir(words[0]) {
        r == 0 && after == before
    } else {
        match first_argument(words, 1) {
            None => r == 1 && after == before,
            Some(path) => {
                &&& r == 0 || r == 1
                &&& after == before.with_fs(after.fs)
                &&& dirs_added(
                    before.fs,
                    after.fs,
                    resolve(before.fs.working_directory@, path),
                    0,
                    r == 0,
                )
            },
        }
    }
}

/// The text of a command; bytes that are not text count as none.
pub open spec fn command_text(mem: Mem, cmd: int) -> Seq<char> {
    if valid_utf8(mem.cstr(cmd)) {
        decode_utf8(mem.cstr(cmd))
    } else {
        Seq::empty()
    }
}

fn find_argument(words: &Vec<Vec<char>>) -> (r: Option<usize>)
    requires
        words@.len() > 0,
    ensures
        match first_argument(texts(words@), 1) {
            Some(w) => r is Some && r->0 < words@.len() && words@[r->0 as int]@ == w,
            None => r is None,
        },
{
    let n: usize = words.len();
    let mut i: usize = 1;
    while i < n
        invariant
            1 <= i <= n == words@.len(),
            first_argument(texts(words@), 1) == first_argument(texts(words@), i as int),
        decreases n - i,
    {
        if words[i].len() > 0 && words[i][0] == '-' {
            i = i + 1;
        } else {
            return Some(i);
        }
    }
    None
}

/// `int system(const char *cmd);`
pub fn system(env: &mut Environment, cmd: ConstPtr) -> (r: i32)
    requires
        old(env).wf(),
        cmd != 0 ==> old(env).mem.valid(cmd as int, 0),
    ensures
        final(env).wf(),
        if cmd == 0 {
            r == 1 && *final(env) == *old(env)
        } else {
            command_done(
                *old(env),
                *final(env),
                words_of(command_text(old(env).mem, cmd as int)),
                r as int,
            )
        },
{
    if cmd == 0 {
        return 1;
    }
    let text: Vec<char> = match env.mem.cstr_at_utf8(cmd) {
        Some(text) => chars_of(text.as_str()),
        None => {
            let none: Vec<char> = Vec::new();
            assert(none@ =~= Seq::empty());
            none
        },
    };
    assert(text@ == command_text(env.mem, cmd as int));
    let words: Vec<Vec<char>> = split_words(&text);
    if words.len() == 0 {
        return 0;
    }
    let first: &Vec<char> = &words[0];
    let mkdir: bool = first.len() == 5 && first[0] == 'm' && first[1] == 'k' && first[2] == 'd'
        && first[3] == 'i' && first[4] == 'r';
    proof {
        assert(texts(words@)[0] == first@);
        if mkdir {
            assert(first@ =~= seq!['m', 'k', 'd', 'i', 'r']);
        }
    }
    if !mkdir {
        return 0;
    }
    let k: usize = match find_argument(&words) {
        Some(k) => k,
        None => {
            return 1;
        },
    };
    let ghost fs = env.fs;
    let made: Result<(), ()> = env.fs.create_dir_all(&words[k]);
    proof {
        lemma_opens_same(fs, env.fs, resolve(fs.working_directory@, words@[k as int]@), 0, made is Ok);
    }
    match made {
        Ok(_) => 0,
        Err(_) => 1,
    }
}

/// Making directories leaves the open files alone.
proof fn lemma_opens_same(before: Fs, after: Fs, parts: Seq<Seq<char>>, i: int, ok: bool)
    requires
        dirs_added(before, after, parts, i, ok),
        0 <= i,
    ensures
        after.opens == before.opens,
    decreases parts.len() - i,
{
    if i < parts.len() {
        let path = join(parts.take(i + 1));
        if before.path_exists(path) {
            if before.path_is_dir(path) {
                lemma_opens_same(before, after, parts, i + 1, ok);
            }
        } else if before.dir_writable(before.parent_path(path)) {
            assert(crate::fs::next_dir_added(before, after, parts, i, ok));
            let mid = choose|mid: Fs| #[trigger]
                crate::fs::dir_added(before, mid, join(parts.take(i + 1))) && dirs_added(
                    mid,
                    after,
                    parts,
                    i + 1,
                    ok,
                );
            lemma_opens_same(mid, after, parts, i + 1, ok);
        }
    }
}

/// The text that stands for the C string at `ptr` in a message: the string
/// itself, or what is wrong with it.
pub open spec fn message_text(mem: Mem, ptr: int) -> Seq<char> {
    if ptr == 0 {
        "(null)"@
    } else if valid_utf8(mem.cstr(ptr)) {
        decode_utf8(mem.cstr(ptr))
    } else {
        "(invalid utf-8)"@
    }
}

/// Reads the C string at `ptr` for a message.
pub fn read_cstr_safe(env: &mut Environment, ptr: ConstPtr) -> (r: String)
    requires
        old(env).wf(),
        ptr != 0 ==> old(env).mem.valid_cstr(ptr as int),
    ensures
        *final(env) == *old(env),
        r@ == message_text(old(env).mem, ptr as int),
{
    if ptr == 0 {
        return "(null)".to_owned();
    }
    let bytes: Vec<u8> = env.mem.cstr_at(ptr);
    match utf8_string(bytes) {
        Some(s) => s,
        None => "(invalid utf-8)".to_owned(),
    }
}

/// No attribute has the name.
pub const ENOATTR: i32 = 93;

/// `int setxattr(...);`: accepted, and not stored.
pub fn setxattr(
    env: &mut Environment,
    _path: ConstPtr,
    _name: ConstPtr,
    _value: ConstVoidPtr,
    _size: GuestUSize,
    _position: u32,
    _options: i32,
) -> (r: i32)
    ensures
        *final(env) == *old(env),
        r == 0,
{
    0
}

/// `int fsetxattr(...);`: accepted, and not stored.
pub fn fsetxattr(
    env: &mut Environment,
    _fd: FileDescriptor,
    _name: ConstPtr,
    _value: ConstVoidPtr,
    _size: GuestUSize,
    _position: u32,
    _options: i32,
) -> (r: i32)
    ensures
        *final(env) == *old(env),
        r == 0,
{
    0
}

/// `ssize_t getxattr(...);`: there are no attributes.
pub fn getxattr(
    env: &mut Environment,
    _path: ConstPtr,
    _name: ConstPtr,
    _value: MutVoidPtr,
    _size: GuestUSize,
    _position: u32,
    _options: i32,
) -> (r: i32)
    ensures
        *final(env) == old(env).with_errno(ENOATTR),
        r == -1,
{
    set_errno(env, ENOATTR);
    -1
}

/// `ssize_t fgetxattr(...);`: there are no attributes.
pub fn fgetxattr(
    env: &mut Environment,
    _fd: FileDescriptor,
    _name: ConstPtr,
    _value: MutVoidPtr,
    _size: GuestUSize,
    _position: u32,
    _options: i32,
) -> (r: i32)
    ensures
        *final(env) == old(env).with_errno(ENOATTR),
        r == -1,
{
    set_errno(env, ENOATTR);
    -1
}

/// `int removexattr(...);`: there are no attributes.
pub fn removexattr(env: &mut Environment, _path: ConstPtr, _name: ConstPtr, _options: i32) -> (r:
    i32)
    ensures
        *final(env) == old(env).with_errno(ENOATTR),
        r == -1,
{
    set_errno(env, ENOATTR);
    -1
}

/// `int fremovexattr(...);`: there are no attributes.
pub fn fremovexattr(env: &mut Environment, _fd: FileDescriptor, _name: ConstPtr, _options: i32) -> (r:
    i32)
    ensures
        *final(env) == old(env).with_errno(ENOATTR),
        r == -1,
{
    set_errno(env, ENOATTR);
    -1
}

/// The list of attributes is empty; its first byte is cleared where there is
/// room.
pub open spec fn list_cleared(
    before: Environment,
    after: Environment,
    namebuf: int,
    size: int,
) -> bool {
    if namebuf != 0 && size > 0 {
        &&& after == before.with_mem(after.mem)
        &&& after.mem.stored(before.mem, namebuf, seq![0u8])
    } else {
        after == before
    }
}

/// `ssize_t listxattr(...);`: there are no attributes.
pub fn listxattr(
    env: &mut Environment,
    _path: ConstPtr,
    namebuf: MutPtr,
    size: GuestUSize,
    _options: i32,
) -> (r: i32)
    requires
        old(env).wf(),
        namebuf != 0 && size > 0 ==> old(env).mem.valid(namebuf as int, 1),
    ensures
        final(env).wf(),
        r == 0,
        list_cleared(*old(env), *final(env), namebuf as int, size as int),
{
    if namebuf != 0 && size > 0 {
        env.mem.write_u8(namebuf, 0);
    }
    0
}

/// `ssize_t flistxattr(...);`: there are no attributes.
pub fn flistxattr(
    env: &mut Environment,
    _fd: FileDescriptor,
    namebuf: MutPtr,
    size: GuestUSize,
    _options: i32,
) -> (r: i32)
    requires
        old(env).wf(),
        namebuf != 0 && size > 0 ==> old(env).mem.valid(namebuf as int, 1),
    ensures
        final(env).wf(),
        r == 0,
        list_cleared(*old(env), *final(env), namebuf as int, size as int),
{
    if namebuf != 0 && size > 0 {
        env.mem.write_u8(namebuf, 0);
    }
    0
}

} // verus!
