//! `mktemp` and its relatives: names for temporary files and directories.
use vstd::prelude::*;
use vstd::utf8::{decode_utf8, valid_utf8};

use crate::environment::Environment;
use crate::fs::{Fs, NodeKind};
use crate::libc::errno::{set_errno, EEXIST, EINVAL, ENOENT, ENOTDIR};
use crate::libc::posix_io::{
    has_free_fd, law_lowest_free, open_direct, open_done, open_error, target_of, OpenFlag,
};
use crate::libc::stdlib::random::{arc4_after, arc4random, random_after};
use crate::mem::{cstr_len, overlay, Mem, MutPtr};
use crate::text::chars_of;

verus! {

/// The character that a random number stands for: an upper or lower case
/// letter or a digit.
pub open spec fn mktemp_char(r: u32) -> u8 {
    let k = r % 62;
    if k < 26 {
        (0x41 + k) as u8
    } else if k < 52 {
        (0x61 + k - 26) as u8
    } else {
        (0x30 + k - 52) as u8
    }
}

/// The six characters that follow the generator's state.
pub open spec fn template_fill(state: u32) -> Seq<u8> {
    Seq::new(6, |i: int| mktemp_char(random_after(state, (i + 1) as nat)))
}

/// The C string at `template` is text that ends in six `X`.
pub open spec fn template_ready(mem: Mem, template: int) -> bool {
    let s = mem.cstr(template);
    &&& valid_utf8(s)
    &&& s.len() >= 6
    &&& forall|i: int| s.len() - 6 <= i < s.len() ==> s[i] == 0x58
}

/// Six random characters were stored at `at`.
pub open spec fn suffix_filled(before: Environment, after: Environment, at: int) -> bool {
    &&& after == arc4_after(before, 6).with_mem(after.mem)
    &&& after.mem.stored(
        before.mem,
        at,
        template_fill(before.libc_state.stdlib.arc4random),
    )
}

/// Where the six `X` of a template stand.
pub open spec fn suffix_of(mem: Mem, template: int) -> int {
    template + cstr_len(mem@, template) - 6
}

/// The six `X` were replaced by random characters.
pub open spec fn template_filled(before: Environment, after: Environment, template: int) -> bool {
    suffix_filled(before, after, suffix_of(before.mem, template))
}

fn mktemp_char_of(r: u32) -> (c: u8)
    ensures
        c == mktemp_char(r),
{
    let k: u8 = (r % 62) as u8;
    if k < 26 {
        0x41 + k
    } else if k < 52 {
        0x61 + (k - 26)
    } else {
        0x30 + (k - 52)
    }
}

/// Where the six `X` at the end of a template stand, if it ends in them.
fn find_suffix(env: &Environment, template: MutPtr) -> (r: Option<u32>)
    requires
        env.wf(),
        env.mem.valid(template as int, 0),
    ensures
        r is Some <==> template_ready(env.mem, template as int),
        r matches Some(at) ==> {
            &&& at == cstr_len(env.mem@, template as int) - 6
            &&& template + at + 6 <= env.mem@.len()
        },
{
    let text: Vec<u8> = env.mem.cstr_at(template);
    if env.mem.cstr_at_utf8(template).is_none() {
        return None;
    }
    let len: usize = text.len();
    if len < 6 {
        return None;
    }
    let mut i: usize = len - 6;
    while i < len
        invariant
            6 <= len == text@.len(),
            len - 6 <= i <= len,
            forall|k: int| len - 6 <= k < i ==> text@[k] == 0x58,
            text@ == env.mem.cstr(template as int),
        decreases len - i,
    {
        if text[i] != 0x58 {
            return None;
        }
        i = i + 1;
    }
    proof {
        lemma_cstr_bytes(env.mem@, template as int);
    }
    Some((len - 6) as u32)
}

/// Stores six random characters.
fn fill_suffix(env: &mut Environment, at: MutPtr)
    requires
        old(env).wf(),
        old(env).mem.valid(at as int, 6),
    ensures
        final(env).wf(),
        suffix_filled(*old(env), *final(env), at as int),
        final(env).mem@.len() == old(env).mem@.len(),
{
    let ghost state = env.libc_state.stdlib.arc4random;
    let mut k: u32 = 0;
    proof {
        assert(*env == arc4_after(*old(env), 0).with_mem(env.mem));
        assert(env.mem@ =~= overlay(old(env).mem@, at as int, template_fill(state).take(0)));
    }
    while k < 6
        invariant
            k <= 6,
            env.wf(),
            0 < at,
            at + 6 <= env.mem@.len(),
            env.mem@.len() == old(env).mem@.len(),
            state == old(env).libc_state.stdlib.arc4random,
            *env == arc4_after(*old(env), k as nat).with_mem(env.mem),
            env.mem.chunks == old(env).mem.chunks,
            env.mem@ == overlay(old(env).mem@, at as int, template_fill(state).take(k as int)),
        decreases 6 - k,
    {
        let r: u32 = arc4random(env);
        let c: u8 = mktemp_char_of(r);
        env.mem.write_u8(at + k, c);
        proof {
            reveal_with_fuel(random_after, 2);
            assert(r == random_after(state, (k + 1) as nat));
            assert(template_fill(state)[k as int] == c);
            assert(env.mem@ =~= overlay(
                old(env).mem@,
                at as int,
                template_fill(state).take(k + 1),
            ));
        }
        k = k + 1;
    }
    assert(template_fill(state).take(6) =~= template_fill(state));
}

/// Replaces the six `X` at the end of a template, and gives their offset.
pub fn fill_template_xxxxxx(env: &mut Environment, template: MutPtr) -> (r: Option<u32>)
    requires
        old(env).wf(),
        old(env).mem.valid(template as int, 0),
    ensures
        final(env).wf(),
        r is Some <==> template_ready(old(env).mem, template as int),
        r matches Some(at) ==> {
            &&& at == cstr_len(old(env).mem@, template as int) - 6
            &&& template_filled(*old(env), *final(env), template as int)
        },
        r is None ==> *final(env) == *old(env),
        final(env).mem@.len() == old(env).mem@.len(),
{
    match find_suffix(env, template) {
        Some(at) => {
            fill_suffix(env, template + at);
            Some(at)
        },
        None => None,
    }
}

/// The flags with which `mkstemp` opens: for reading and writing, and only a
/// file that it makes.
pub const MKSTEMP_FLAGS: OpenFlag = 0xa02;

/// How often a name is tried.
pub const MKTEMP_TRIES: u32 = 128;

/// What the attempts of `mkstemp` do when `tries` are left: each stores another
/// name, whose last six characters stand at `at`.
pub open spec fn mkstemp_tries(
    before: Environment,
    after: Environment,
    template: int,
    at: int,
    tries: int,
    r: int,
) -> bool
    decreases tries,
{
    if tries <= 0 {
        r == -1 && after == before.with_errno(EEXIST)
    } else {
        exists|filled: Environment, opened: Environment, fd: int|
            {
                &&& #[trigger] suffix_filled(before, filled, at)
                &&& #[trigger] open_done(filled, opened, template, MKSTEMP_FLAGS, fd)
                &&& if fd >= 0 {
                    r == fd && after == opened
                } else if opened.errno() == ENOENT || opened.errno() == ENOTDIR {
                    r == -1 && after == opened
                } else {
                    mkstemp_tries(opened, after, template, at, tries - 1, r)
                }
            }
    }
}

/// What `mkstemp` does: a template that does not end in six `X` is refused, and
/// otherwise names are tried until one is new.
pub open spec fn mkstemp_done(
    before: Environment,
    after: Environment,
    template: int,
    r: int,
) -> bool {
    if !template_ready(before.mem, template) {
        r == -1 && after == before.with_errno(EINVAL)
    } else {
        mkstemp_tries(
            before.with_errno(0),
            after,
            template,
            suffix_of(before.mem, template),
            MKTEMP_TRIES as int,
            r,
        )
    }
}

/// `int mkstemp(char *template);`: makes a file with a name of its own, and
/// opens it.
pub fn mkstemp(env: &mut Environment, template: MutPtr) -> (r: i32)
    requires
        old(env).wf(),
        old(env).mem.valid(template as int, 0),
        template_ready(old(env).mem, template as int) ==> has_free_fd(*old(env)),
    ensures
        final(env).wf(),
        mkstemp_done(*old(env), *final(env), template as int, r as int),
{
    set_errno(env, 0);
    let at: u32 = match find_suffix(env, template) {
        Some(offset) => template + offset,
        None => {
            set_errno(env, EINVAL);
            return -1;
        },
    };
    let ghost start = *env;
    let mut tries: u32 = MKTEMP_TRIES;
    while tries > 0
        invariant
            env.wf(),
            env.mem.valid(template as int, 0),
            env.mem.valid(at as int, 6),
            has_free_fd(*env),
            tries <= MKTEMP_TRIES,
            start == old(env).with_errno(0),
            template_ready(old(env).mem, template as int),
            at == suffix_of(old(env).mem, template as int),
            forall|after: Environment, r: int| #[trigger]
                mkstemp_tries(*env, after, template as int, at as int, tries as int, r)
                    ==> mkstemp_tries(
                    start,
                    after,
                    template as int,
                    at as int,
                    MKTEMP_TRIES as int,
                    r,
                ),
        decreases tries,
    {
        let ghost before = *env;
        fill_suffix(env, at);
        let ghost filled = *env;
        let fd: i32 = open_direct(env, template, MKSTEMP_FLAGS);
        let ghost opened = *env;
        assert(suffix_filled(before, filled, at as int));
        assert(open_done(filled, opened, template as int, MKSTEMP_FLAGS, fd as int));
        proof {
            law_lowest_free(filled.files(), 0);
        }
        if fd >= 0 {
            assert(mkstemp_tries(
                before,
                *env,
                template as int,
                at as int,
                tries as int,
                fd as int,
            ));
            return fd;
        }
        // A hard error (missing directory etc.) is not worth another try.
        let errno: i32 = env.libc_state.errno.value;
        if errno == ENOENT || errno == ENOTDIR {
            assert(mkstemp_tries(before, *env, template as int, at as int, tries as int, -1));
            return -1;
        }
        proof {
            assert forall|after: Environment, r: int| #[trigger]
                mkstemp_tries(
                    opened,
                    after,
                    template as int,
                    at as int,
                    tries - 1,
                    r,
                ) implies mkstemp_tries(
                start,
                after,
                template as int,
                at as int,
                MKTEMP_TRIES as int,
                r,
            ) by {
                assert(mkstemp_tries(
                    before,
                    after,
                    template as int,
                    at as int,
                    tries as int,
                    r,
                ));
            }
        }
        tries = tries - 1;
    }
    let ghost last = *env;
    set_errno(env, EEXIST);
    assert(mkstemp_tries(last, *env, template as int, at as int, 0, -1));
    -1
}

/// A directory was made where `path` names none.
pub open spec fn dir_made(before: Environment, after: Environment, path: Seq<char>) -> bool {
    &&& !before.fs.path_exists(path)
    &&& before.fs.dir_writable(before.fs.parent_path(path))
    &&& after == before.with_fs(Fs { nodes: after.fs.nodes, ..before.fs })
    &&& after.fs.node_pushed(before.fs, path, NodeKind::Directory)
}

/// What the attempts of `mkdtemp` do when `tries` are left: each stores another
/// name, whose last six characters stand at `at`.
pub open spec fn mkdtemp_tries(
    before: Environment,
    after: Environment,
    template: int,
    at: int,
    tries: int,
    r: int,
) -> bool
    decreases tries,
{
    if tries <= 0 {
        r == 0 && after == before.with_errno(EEXIST)
    } else {
        exists|filled: Environment| #[trigger]
            suffix_filled(before, filled, at) && ({
                let text = filled.mem.cstr(template);
                let path = decode_utf8(text);
                if !valid_utf8(text) {
                    r == 0 && after == filled.with_errno(EINVAL)
                } else if filled.fs.path_exists(path) || !filled.fs.dir_writable(
                    filled.fs.parent_path(path),
                ) {
                    mkdtemp_tries(filled, after, template, at, tries - 1, r)
                } else {
                    r == template && dir_made(filled, after, path)
                }
            })
    }
}

/// What `mkdtemp` does: a template that does not end in six `X` is refused, and
/// otherwise names are tried until one is new.
pub open spec fn mkdtemp_done(
    before: Environment,
    after: Environment,
    template: int,
    r: int,
) -> bool {
    if !template_ready(before.mem, template) {
        r == 0 && after == before.with_errno(EINVAL)
    } else {
        mkdtemp_tries(
            before.with_errno(0),
            after,
            template,
            suffix_of(before.mem, template),
            MKTEMP_TRIES as int,
            r,
        )
    }
}

/// `char *mkdtemp(char *template);`: makes a directory with a name of its own.
pub fn mkdtemp(env: &mut Environment, template: MutPtr) -> (r: MutPtr)
    requires
        old(env).wf(),
        old(env).mem.valid(template as int, 0),
    ensures
        final(env).wf(),
        mkdtemp_done(*old(env), *final(env), template as int, r as int),
{
    set_errno(env, 0);
    let at: u32 = match find_suffix(env, template) {
        Some(offset) => template + offset,
        None => {
            set_errno(env, EINVAL);
            return 0;
        },
    };
    let ghost start = *env;
    let mut tries: u32 = MKTEMP_TRIES;
    while tries > 0
        invariant
            env.wf(),
            env.mem.valid(template as int, 0),
            env.mem.valid(at as int, 6),
            tries <= MKTEMP_TRIES,
            start == old(env).with_errno(0),
            template_ready(old(env).mem, template as int),
            at == suffix_of(old(env).mem, template as int),
            forall|after: Environment, r: int| #[trigger]
                mkdtemp_tries(*env, after, template as int, at as int, tries as int, r)
                    ==> mkdtemp_tries(
                    start,
                    after,
                    template as int,
                    at as int,
                    MKTEMP_TRIES as int,
                    r,
                ),
        decreases tries,
    {
        let ghost before = *env;
        fill_suffix(env, at);
        let ghost filled = *env;
        assert(suffix_filled(before, filled, at as int));
        let path: Vec<char> = match env.mem.cstr_at_utf8(template) {
            Some(text) => chars_of(text.as_str()),
            None => {
                set_errno(env, EINVAL);
                assert(mkdtemp_tries(before, *env, template as int, at as int, tries as int, 0));
                return 0;
            },
        };
        match env.fs.create_dir(&path) {
            Ok(_) => {
                assert(mkdtemp_tries(
                    before,
                    *env,
                    template as int,
                    at as int,
                    tries as int,
                    template as int,
                ));
                return template;
            },
            Err(_) => {},
        }
        proof {
            assert forall|after: Environment, r: int| #[trigger]
                mkdtemp_tries(
                    filled,
                    after,
                    template as int,
                    at as int,
                    tries - 1,
                    r,
                ) implies mkdtemp_tries(
                start,
                after,
                template as int,
                at as int,
                MKTEMP_TRIES as int,
                r,
            ) by {
                assert(mkdtemp_tries(
                    before,
                    after,
                    template as int,
                    at as int,
                    tries as int,
                    r,
                ));
            }
        }
        tries = tries - 1;
    }
    let ghost last = *env;
    set_errno(env, EEXIST);
    assert(mkdtemp_tries(last, *env, template as int, at as int, 0, 0));
    0
}

/// `char *mktemp(char *template);`: fills the template, and makes no file.
pub fn mktemp(env: &mut Environment, template: MutPtr) -> (r: MutPtr)
    requires
        old(env).wf(),
        old(env).mem.valid(template as int, 0),
    ensures
        final(env).wf(),
        if template_ready(old(env).mem, template as int) {
            r == template && template_filled(old(env).with_errno(0), *final(env), template as int)
        } else {
            r == 0 && *final(env) == old(env).with_errno(EINVAL)
        },
{
    set_errno(env, 0);
    if fill_template_xxxxxx(env, template).is_none() {
        set_errno(env, EINVAL);
        return 0;
    }
    template
}

/// A name that is taken is followed by the next one: where the first name that
/// `mkstemp` tries exists, the call does not fail for that, but gives what trying
/// on from there gives, with the next six characters at the same place.
pub proof fn law_mkstemp_retries(
    before: Environment,
    after: Environment,
    template: int,
    r: int,
)
    requires
        mkstemp_done(before, after, template, r),
        template_ready(before.mem, template),
        forall|filled: Environment| #[trigger]
            template_filled(before.with_errno(0), filled, template) ==> open_error(
                filled,
                template,
                MKSTEMP_FLAGS,
            ) == Some(Some(EEXIST)),
    ensures
        exists|filled: Environment|
            {
                &&& #[trigger] template_filled(before.with_errno(0), filled, template)
                &&& mkstemp_tries(
                    filled.with_errno(EEXIST),
                    after,
                    template,
                    suffix_of(before.mem, template),
                    MKTEMP_TRIES - 1,
                    r,
                )
            },
{
    let start = before.with_errno(0);
    let at = suffix_of(before.mem, template);
    let (filled, opened, fd): (Environment, Environment, int) = choose|
        filled: Environment,
        opened: Environment,
        fd: int,
    |
        {
            &&& #[trigger] suffix_filled(start, filled, at)
            &&& #[trigger] open_done(filled, opened, template, MKSTEMP_FLAGS, fd)
            &&& if fd >= 0 {
                r == fd && after == opened
            } else if opened.errno() == ENOENT || opened.errno() == ENOTDIR {
                r == -1 && after == opened
            } else {
                mkstemp_tries(opened, after, template, at, MKTEMP_TRIES - 1, r)
            }
        };
    assert(template_filled(start, filled, template));
    assert(opened == filled.with_errno(EEXIST));
}

/// A file that `mkstemp` makes has a name that was not there: the files were as
/// before the call until that name was found free, and then it was opened.
pub proof fn law_mkstemp_is_new(before: Environment, after: Environment, template: int, r: int)
    requires
        mkstemp_done(before, after, template, r),
        r >= 0,
    ensures
        exists|named: Environment|
            {
                &&& named.fs == before.fs
                &&& !before.fs.path_exists(target_of(named, template, MKSTEMP_FLAGS))
                &&& #[trigger] open_done(named, after, template, MKSTEMP_FLAGS, r)
            },
{
    lemma_tries_new(
        before.with_errno(0),
        after,
        template,
        suffix_of(before.mem, template),
        MKTEMP_TRIES as int,
        r,
    );
}

proof fn lemma_tries_new(
    before: Environment,
    after: Environment,
    template: int,
    at: int,
    tries: int,
    r: int,
)
    requires
        mkstemp_tries(before, after, template, at, tries, r),
        r >= 0,
    ensures
        exists|named: Environment|
            {
                &&& named.fs == before.fs
                &&& !before.fs.path_exists(target_of(named, template, MKSTEMP_FLAGS))
                &&& #[trigger] open_done(named, after, template, MKSTEMP_FLAGS, r)
            },
    decreases tries,
{
    if tries > 0 {
        let (filled, opened, fd): (Environment, Environment, int) = choose|
            filled: Environment,
            opened: Environment,
            fd: int,
        |
            {
                &&& #[trigger] suffix_filled(before, filled, at)
                &&& #[trigger] open_done(filled, opened, template, MKSTEMP_FLAGS, fd)
                &&& if fd >= 0 {
                    r == fd && after == opened
                } else if opened.errno() == ENOENT || opened.errno() == ENOTDIR {
                    r == -1 && after == opened
                } else {
                    mkstemp_tries(opened, after, template, at, tries - 1, r)
                }
            };
        assert(filled.fs == before.fs);
        if fd >= 0 {
            assert(0xa02i32 & 0x800i32 != 0 && 0xa02i32 & 0x200i32 != 0) by (bit_vector);
            assert(open_error(filled, template, MKSTEMP_FLAGS) is None);
            assert(open_done(filled, after, template, MKSTEMP_FLAGS, r));
        } else {
            law_lowest_free(filled.files(), 0);
            assert(opened.fs == before.fs);
            lemma_tries_new(opened, after, template, at, tries - 1, r);
        }
    }
}

/// The characters that fill a template are letters and digits.
pub proof fn law_fill_characters(state: u32, i: int)
    requires
        0 <= i < 6,
    ensures
        ({
            let c = template_fill(state)[i];
            0x30 <= c <= 0x39 || 0x41 <= c <= 0x5a || 0x61 <= c <= 0x7a
        }),
{
}

/// A filled template keeps its length, and all but its last six characters.
pub proof fn law_fill_keeps_prefix(before: Environment, after: Environment, template: int)
    requires
        before.wf(),
        before.mem.valid_cstr(template),
        template_ready(before.mem, template),
        template_filled(before, after, template),
    ensures
        ({
            let s = before.mem.cstr(template);
            let t = after.mem.cstr(template);
            let fill = template_fill(before.libc_state.stdlib.arc4random);
            &&& t == s.take(s.len() - 6) + fill
            &&& t.len() == s.len()
        }),
{
    let s = before.mem.cstr(template);
    let n = cstr_len(before.mem@, template);
    let fill = template_fill(before.libc_state.stdlib.arc4random);
    lemma_cstr_bytes(before.mem@, template);
    assert forall|i: int| template <= i < template + n implies after.mem@[i] != 0 by {
        if i >= template + n - 6 {
            law_fill_characters(
                before.libc_state.stdlib.arc4random,
                i - (template + n - 6),
            );
        } else {
            assert(before.mem@[i] != 0);
        }
    }
    crate::mem::lemma_cstr_len_is(after.mem@, template, n);
    assert(after.mem.cstr(template) =~= s.take(s.len() - 6) + fill);
}

proof fn lemma_cstr_bytes(s: Seq<u8>, at: int)
    requires
        0 <= at <= s.len(),
    ensures
        at + cstr_len(s, at) <= s.len(),
        at + cstr_len(s, at) < s.len() ==> s[at + cstr_len(s, at)] == 0,
        forall|i: int| at <= i < at + cstr_len(s, at) ==> s[i] != 0,
    decreases s.len() - at,
{
    if at < s.len() && s[at] != 0 {
        lemma_cstr_bytes(s, at + 1);
    }
}

} // verus!
