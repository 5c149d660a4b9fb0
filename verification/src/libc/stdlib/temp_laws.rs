//! What temporary files and directories are made, and where their names go.
use vstd::prelude::*;
use vstd::utf8::{decode_utf8, valid_utf8};

use crate::environment::Environment;
use crate::fs::{NodeKind, Place};
use crate::libc::posix_io::open_done;
use crate::libc::stdio::{
    chunk_freed, cstr_placed, fopen_done, remove_done, tmp_counted, tmp_mode, tmp_name, tmp_opened,
    tmp_removed, tmpfile_done,
};
use crate::libc::stdlib::allocation::{aligned_in, free_done};
use crate::libc::stdlib::temp::{
    dir_made, law_mkstemp_is_new, mkdtemp_done, mkdtemp_tries, mkstemp_done, mkstemp_tries,
    suffix_filled, suffix_of, template_ready,
};
use crate::mem::{heap_size, law_store_load_cstr, le_u32, Chunk, Mem};

verus! {

/// What `mkdtemp` gives is the template, in which now stands the name of a new
/// directory, in one that can be written, or null, with nothing made and `EEXIST`
/// (17) or `EINVAL` (22) set.
pub proof fn law_mkdtemp_new(
    before: Environment,
    after: Environment,
    template: int,
    at: int,
    tries: int,
    r: int,
)
    requires
        template != 0,
        mkdtemp_tries(before, after, template, at, tries, r),
    ensures
        r == 0 || r == template,
        r == 0 ==> after.fs == before.fs && (after.libc_state.errno.value == 17
            || after.libc_state.errno.value == 22),
        r == template ==> {
            let text = after.mem.cstr(template);
            let path = decode_utf8(text);
            let n = before.fs.nodes@.len() as int;
            &&& valid_utf8(text)
            &&& !before.fs.path_exists(path)
            &&& before.fs.dir_writable(before.fs.parent_path(path))
            &&& after.fs.nodes@.len() == n + 1
            &&& after.fs.nodes@[n].kind == NodeKind::Directory
            &&& after.fs.nodes@[n].dir@ == before.fs.parent_path(path)
            &&& after.fs.nodes@[n].name@ == before.fs.last_name(path)
            &&& after.fs.nodes@[n].writable
            &&& forall|i: int| 0 <= i < n ==> #[trigger] after.fs.nodes@[i] == before.fs.nodes@[i]
            &&& after.fs.inodes == before.fs.inodes
        },
    decreases tries,
{
    if tries > 0 {
        let filled = choose|filled: Environment| #[trigger]
            suffix_filled(before, filled, at) && ({
                let text = filled.mem.cstr(template);
                let path = decode_utf8(text);
                if !valid_utf8(text) {
                    r == 0 && after == filled.with_errno(22)
                } else if filled.fs.path_exists(path) || !filled.fs.dir_writable(
                    filled.fs.parent_path(path),
                ) {
                    mkdtemp_tries(filled, after, template, at, tries - 1, r)
                } else {
                    r == template && dir_made(filled, after, path)
                }
            });
        assert(filled.fs == before.fs);
        let text = filled.mem.cstr(template);
        let path = decode_utf8(text);
        if valid_utf8(text) && (filled.fs.path_exists(path) || !filled.fs.dir_writable(
            filled.fs.parent_path(path),
        )) {
            law_mkdtemp_new(filled, after, template, at, tries - 1, r);
        }
    }
}

/// A template that is ready is tried 128 times, from where its six characters
/// stand, and a name that can be made is made at once.
pub proof fn law_mkdtemp_tries(before: Environment, after: Environment, template: int, r: int)
    requires
        template != 0,
        template_ready(before.mem, template),
        mkdtemp_done(before, after, template, r),
    ensures
        mkdtemp_tries(
            before.with_errno(0),
            after,
            template,
            suffix_of(before.mem, template),
            128,
            r,
        ),
        (forall|filled: Environment| #[trigger]
            suffix_filled(before.with_errno(0), filled, suffix_of(before.mem, template)) ==> {
                let text = filled.mem.cstr(template);
                let path = decode_utf8(text);
                &&& valid_utf8(text)
                &&& !filled.fs.path_exists(path)
                &&& filled.fs.dir_writable(filled.fs.parent_path(path))
            }) ==> r == template,
{
    let start = before.with_errno(0);
    let at = suffix_of(before.mem, template);
    let filled = choose|filled: Environment| #[trigger]
        suffix_filled(start, filled, at) && ({
            let text = filled.mem.cstr(template);
            let path = decode_utf8(text);
            if !valid_utf8(text) {
                r == 0 && after == filled.with_errno(22)
            } else if filled.fs.path_exists(path) || !filled.fs.dir_writable(
                filled.fs.parent_path(path),
            ) {
                mkdtemp_tries(filled, after, template, at, 127, r)
            } else {
                r == template && dir_made(filled, after, path)
            }
        });
    assert(suffix_filled(start, filled, at));
}

/// `mkstemp` opens a file that it makes (`0x800` and `0x200`) for reading and
/// writing (2), and tries 128 names.
pub proof fn law_mkstemp_opens(before: Environment, after: Environment, template: int, r: int)
    requires
        mkstemp_done(before, after, template, r),
    ensures
        r >= 0 ==> exists|named: Environment|
            named.fs == before.fs && #[trigger] open_done(named, after, template, 0xa02, r),
        template_ready(before.mem, template) ==> mkstemp_tries(
            before.with_errno(0),
            after,
            template,
            suffix_of(before.mem, template),
            128,
            r,
        ),
{
    if r >= 0 {
        law_mkstemp_is_new(before, after, template, r);
        let named = choose|named: Environment|
            named.fs == before.fs && #[trigger] open_done(named, after, template, 0xa02, r);
        assert(open_done(named, after, template, 0xa02, r));
    }
}

/// An address that was aligned inside of a chunk, whose own address stands in the
/// word before it, gives that chunk back.
pub proof fn law_free_aligned(before: Mem, after: Mem, ptr: u32, c: Chunk)
    requires
        0x1000 <= ptr < 0xfff0_0000,
        !before.allocated(ptr as int),
        before.valid(ptr - 4, 4),
        before.chunks@.contains(c),
        le_u32(before@, ptr - 4) == c.base,
        c.base < ptr < c.base + c.size,
        free_done(before, after, ptr),
    ensures
        after.bytes == before.bytes,
        exists|k: int|
            0 <= k < before.chunks@.len() && before.chunks@[k].base == c.base && after.chunks@
                == #[trigger] before.chunks@.remove(k),
{
    assert(aligned_in(before, ptr as int, c));
    let d = choose|d: Chunk| #[trigger]
        aligned_in(before, ptr as int, d) && after.released(before, d.base);
    let i = choose|i: int| 0 <= i < before.chunks@.len() && before.chunks@[i] == c;
    assert(before.chunks@[i].base == c.base);
    assert(before.allocated(c.base as int));
}

/// An address that is in no chunk and was aligned in none is left alone.
pub proof fn law_free_nothing(before: Mem, after: Mem, ptr: u32)
    requires
        !before.allocated(ptr as int),
        before.valid(ptr - 4, 4),
        forall|c: Chunk| #[trigger]
            before.chunks@.contains(c) ==> c.base != le_u32(before@, ptr - 4) || !(c.base < ptr
                < c.base + c.size),
        free_done(before, after, ptr),
    ensures
        after == before,
{
}

/// A temporary file is counted, whether or not it could be opened: the next one
/// has the number behind it, or 0 behind the largest.
pub proof fn law_tmpfile_counts(before: Environment, after: Environment, pid: u32, r: int)
    requires
        tmpfile_done(before, after, pid, r),
    ensures
        ({
            let b = before.libc_state.stdio.tmpfile_counter;
            let a = after.libc_state.stdio.tmpfile_counter;
            a == if b == 0xffff_ffff {
                0
            } else {
                b + 1
            }
        }),
        r == 0 ==> tmp_opened(
            tmp_counted(before),
            after,
            tmp_name(pid, before.libc_state.stdio.tmpfile_counter),
            0,
        ),
        r != 0 ==> exists|opened: Environment| #[trigger]
            tmp_removed(
                opened,
                after,
                tmp_name(pid, before.libc_state.stdio.tmpfile_counter),
            ) && tmp_opened(
                tmp_counted(before),
                opened,
                tmp_name(pid, before.libc_state.stdio.tmpfile_counter),
                r,
            ),
{
    let name = tmp_name(pid, before.libc_state.stdio.tmpfile_counter);
    let opened = choose|opened: Environment| #[trigger]
        tmp_opened(tmp_counted(before), opened, name, r) && (if r == 0 {
            after == opened
        } else {
            tmp_removed(opened, after, name)
        });
    assert(tmp_opened(tmp_counted(before), opened, name, r));
}

/// The name of a temporary file is gone from its directory, and no other name is;
/// the bytes of the files stay for those that have them open.
pub proof fn law_tmp_removed(
    before: Environment,
    after: Environment,
    name: Seq<u8>,
    k: usize,
)
    requires
        before.wf(),
        tmp_removed(before, after, name),
        forall|i: int| 0 <= i < name.len() ==> #[trigger] name[i] != 0,
        valid_utf8(name),
        before.fs.place(decode_utf8(name)) == Place::Node(k),
        before.fs.remove_error(decode_utf8(name)) is None,
        k < before.fs.nodes@.len(),
    ensures
        after.fs.nodes@ == before.fs.nodes@.remove(k as int),
        after.fs.inodes == before.fs.inodes,
        after.fs.opens == before.fs.opens,
        after.mem.chunks@.len() == before.mem.chunks@.len(),
{
    let (named, removed, name_ptr, c) = choose|
        named: Environment,
        removed: Environment,
        name_ptr: u32,
        c: int,
    |
        {
            &&& #[trigger] cstr_placed(before, named, name_ptr, name)
            &&& #[trigger] remove_done(named, removed, name_ptr as int, c)
            &&& chunk_freed(removed, after, name_ptr)
        };
    assert(heap_size(name.len() as int + 1) >= name.len() + 1);
    assert(name_ptr > 0 && name_ptr + name.len() + 1 <= before.mem@.len());
    law_store_load_cstr(before.mem@, name_ptr as int, name);
    assert(named.mem.cstr(name_ptr as int) == name);
}

proof fn lemma_mode_at(before: Environment, after: Environment, ptr: u32)
    requires
        cstr_placed(before, after, ptr, tmp_mode()),
    ensures
        after.mem.cstr(ptr as int) == tmp_mode(),
        after.fs == before.fs,
{
    let mode = tmp_mode();
    assert(heap_size(mode.len() as int + 1) >= mode.len() + 1);
    law_store_load_cstr(before.mem@, ptr as int, mode);
}

proof fn lemma_freed(before: Environment, after: Environment, ptr: u32)
    requires
        chunk_freed(before, after, ptr),
    ensures
        after.fs == before.fs,
        after.libc_state == before.libc_state,
        after.mem.chunks@.len() + 1 == before.mem.chunks@.len(),
{
}

/// A temporary file is opened by its name with the mode of temporary files, and
/// what held the two is given back.
#[verifier::rlimit(40)]
pub proof fn law_tmp_opened(before: Environment, after: Environment, name: Seq<u8>, file: int)
    requires
        tmp_opened(before, after, name, file),
    ensures
        exists|ready: Environment, opened: Environment, name_ptr: u32, mode_ptr: u32|
            {
                &&& #[trigger] fopen_done(ready, opened, name_ptr as int, mode_ptr as int, file)
                &&& ready.mem.cstr(mode_ptr as int) == tmp_mode()
                &&& ready.fs == before.fs
                &&& after.fs == opened.fs
                &&& after.libc_state == opened.libc_state
                &&& after.mem.chunks@.len() + 2 == opened.mem.chunks@.len()
            },
{
    let (named, ready, opened, mid, name_ptr, mode_ptr) = choose|
        named: Environment,
        ready: Environment,
        opened: Environment,
        mid: Environment,
        name_ptr: u32,
        mode_ptr: u32,
    |
        {
            &&& #[trigger] cstr_placed(before, named, name_ptr, name)
            &&& #[trigger] cstr_placed(named, ready, mode_ptr, tmp_mode())
            &&& #[trigger] fopen_done(ready, opened, name_ptr as int, mode_ptr as int, file)
            &&& #[trigger] chunk_freed(opened, mid, name_ptr)
            &&& chunk_freed(mid, after, mode_ptr)
        };
    lemma_mode_at(named, ready, mode_ptr);
    lemma_freed(opened, mid, name_ptr);
    lemma_freed(mid, after, mode_ptr);
    assert(fopen_done(ready, opened, name_ptr as int, mode_ptr as int, file));
}

} // verus!
