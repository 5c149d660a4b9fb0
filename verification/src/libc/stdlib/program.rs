//! Environment variables, what runs when the program ends, and what the
//! compiler's run-time support asks for.
use vstd::prelude::*;
use vstd::utf8::valid_utf8;

use crate::environment::{same_bytes, EnvVar, Environment};
use crate::libc;
use crate::libc::errno::{set_errno, EINVAL};
use crate::mem::{le_bytes, le_u32, ConstPtr, ConstVoidPtr, GuestUSize, Mem, MutPtr};

verus! {

/// The address of a guest function, with its lowest bit set for Thumb code.
pub type GuestFunction = u32;

/// The value of the variable `name`, from the entry `from` on.
pub open spec fn lookup_var(vars: Seq<EnvVar>, name: Seq<u8>, from: int) -> Option<MutPtr>
    decreases vars.len() - from,
{
    if from < 0 || from >= vars.len() {
        None
    } else if vars[from].name@ == name {
        Some(vars[from].value)
    } else {
        lookup_var(vars, name, from + 1)
    }
}

/// The value of the variable `name`.
pub open spec fn var(env: Environment, name: Seq<u8>) -> Option<MutPtr> {
    lookup_var(env.env_vars@, name, 0)
}

proof fn lemma_lookup_found(vars: Seq<EnvVar>, name: Seq<u8>, from: int, k: int)
    requires
        0 <= from <= k < vars.len(),
        vars[k].name@ == name,
        forall|i: int| from <= i < k ==> (#[trigger] vars[i]).name@ != name,
    ensures
        lookup_var(vars, name, from) == Some(vars[k].value),
    decreases k - from,
{
    if from < k {
        lemma_lookup_found(vars, name, from + 1, k);
    }
}

proof fn lemma_lookup_missing(vars: Seq<EnvVar>, name: Seq<u8>, from: int)
    requires
        0 <= from,
        forall|i: int| from <= i < vars.len() ==> (#[trigger] vars[i]).name@ != name,
    ensures
        lookup_var(vars, name, from) is None,
    decreases vars.len() - from,
{
    if from < vars.len() {
        lemma_lookup_missing(vars, name, from + 1);
    }
}

proof fn lemma_lookup_some(vars: Seq<EnvVar>, name: Seq<u8>, from: int) -> (k: int)
    requires
        0 <= from,
        lookup_var(vars, name, from) is Some,
    ensures
        from <= k < vars.len(),
        vars[k].name@ == name,
        lookup_var(vars, name, from) == Some(vars[k].value),
        forall|i: int| from <= i < k ==> (#[trigger] vars[i]).name@ != name,
    decreases vars.len() - from,
{
    if vars[from].name@ == name {
        from
    } else {
        lemma_lookup_some(vars, name, from + 1)
    }
}

/// Where the variable `name` stands.
fn find_var(vars: &Vec<EnvVar>, name: &Vec<u8>) -> (r: Option<usize>)
    ensures
        match r {
            Some(k) => {
                &&& k < vars@.len()
                &&& vars@[k as int].name@ == name@
                &&& lookup_var(vars@, name@, 0) == Some(vars@[k as int].value)
                &&& forall|i: int| 0 <= i < k ==> (#[trigger] vars@[i]).name@ != name@
            },
            None => {
                &&& lookup_var(vars@, name@, 0) is None
                &&& forall|i: int| 0 <= i < vars@.len() ==> (#[trigger] vars@[i]).name@ != name@
            },
        },
{
    let n: usize = vars.len();
    let mut i: usize = 0;
    while i < n
        invariant
            i <= n == vars@.len(),
            forall|k: int| 0 <= k < i ==> (#[trigger] vars@[k]).name@ != name@,
        decreases n - i,
    {
        if same_bytes(&vars[i].name, name) {
            proof {
                lemma_lookup_found(vars@, name@, 0, i as int);
            }
            return Some(i);
        }
        i = i + 1;
    }
    proof {
        lemma_lookup_missing(vars@, name@, 0);
    }
    None
}

/// `char *getenv(const char *name);`
pub fn getenv(env: &mut Environment, name: ConstPtr) -> (r: MutPtr)
    requires
        old(env).wf(),
        old(env).mem.valid(name as int, 0),
    ensures
        *final(env) == *old(env),
        r == match var(*old(env), old(env).mem.cstr(name as int)) {
            Some(value) => value,
            None => 0,
        },
{
    let name_bytes: Vec<u8> = env.mem.cstr_at(name);
    match find_var(&env.env_vars, &name_bytes) {
        Some(k) => env.env_vars[k].value,
        None => 0,
    }
}

/// The variables are those of `before`, but `name` has the value `value`.
pub open spec fn var_set(
    before: Environment,
    after: Environment,
    name: Seq<u8>,
    value: Option<MutPtr>,
) -> bool {
    forall|n: Seq<u8>| #[trigger]
        var(after, n) == (if n == name {
            value
        } else {
            var(before, n)
        })
}

/// No two entries have the same name.
pub open spec fn names_distinct(vars: Seq<EnvVar>) -> bool {
    forall|i: int, j: int|
        #![trigger vars[i], vars[j]]
        0 <= i < j < vars.len() ==> vars[i].name@ != vars[j].name@
}

/// The variable `name` was given the value `value`, once `freed` was left of
/// the memory.
pub open spec fn var_stored(
    before: Environment,
    after: Environment,
    freed: Mem,
    name: Seq<u8>,
    value: Seq<u8>,
) -> bool {
    exists|ptr: u32| #[trigger]
        after.mem.placed(freed, ptr, value.push(0)) && after == before.with_errno(0).with_mem(
            after.mem,
        ).with_env_vars(after.env_vars) && var_set(before, after, name, Some(ptr))
}

/// The variable `name`, whose value was at `existing`, was given another one.
pub open spec fn var_replaced(
    before: Environment,
    after: Environment,
    existing: u32,
    name: Seq<u8>,
    value: Seq<u8>,
) -> bool {
    exists|freed: Mem| #[trigger]
        freed.released(before.mem, existing) && var_stored(before, after, freed, name, value)
}

/// What `setenv` does.
pub open spec fn setenv_done(
    before: Environment,
    after: Environment,
    name: Seq<u8>,
    value: Seq<u8>,
    overwrite: int,
) -> bool {
    match var(before, name) {
        Some(existing) => if overwrite == 0 {
            after == before.with_errno(0)
        } else {
            var_replaced(before, after, existing, name, value)
        },
        None => var_stored(before, after, before.mem, name, value),
    }
}

proof fn lemma_var_updated(vars: Seq<EnvVar>, after: Seq<EnvVar>, k: int, name: Seq<u8>)
    requires
        0 <= k < vars.len(),
        after.len() == vars.len(),
        vars[k].name@ == name,
        after[k].name@ == name,
        forall|i: int| 0 <= i < vars.len() && i != k ==> (#[trigger] after[i]) == vars[i],
        forall|i: int| 0 <= i < k ==> (#[trigger] vars[i]).name@ != name,
    ensures
        forall|n: Seq<u8>| #[trigger]
            lookup_var(after, n, 0) == (if n == name {
                Some(after[k].value)
            } else {
                lookup_var(vars, n, 0)
            }),
{
    assert forall|n: Seq<u8>| #[trigger] lookup_var(after, n, 0) == (if n == name {
        Some(after[k].value)
    } else {
        lookup_var(vars, n, 0)
    }) by {
        if n == name {
            lemma_lookup_found(after, n, 0, k);
        } else {
            lemma_lookup_same(vars, after, k, n, 0);
        }
    }
}

proof fn lemma_lookup_same(vars: Seq<EnvVar>, after: Seq<EnvVar>, k: int, n: Seq<u8>, from: int)
    requires
        0 <= from,
        0 <= k < vars.len(),
        after.len() == vars.len(),
        vars[k].name@ != n,
        after[k].name@ != n,
        forall|i: int| 0 <= i < vars.len() && i != k ==> (#[trigger] after[i]) == vars[i],
    ensures
        lookup_var(after, n, from) == lookup_var(vars, n, from),
    decreases vars.len() - from,
{
    if from < vars.len() {
        if from != k {
            assert(after[from] == vars[from]);
        }
        lemma_lookup_same(vars, after, k, n, from + 1);
    }
}

proof fn lemma_lookup_pushed(vars: Seq<EnvVar>, v: EnvVar, n: Seq<u8>, from: int)
    requires
        0 <= from <= vars.len(),
    ensures
        lookup_var(vars.push(v), n, from) == (match lookup_var(vars, n, from) {
            Some(value) => Some(value),
            None => if v.name@ == n {
                Some(v.value)
            } else {
                None
            },
        }),
    decreases vars.len() - from,
{
    let after = vars.push(v);
    if from < vars.len() {
        assert(after[from] == vars[from]);
        lemma_lookup_pushed(vars, v, n, from + 1);
    } else {
        assert(after[from] == v);
        assert(lookup_var(after, n, from + 1) is None);
    }
}

proof fn lemma_lookup_removed(vars: Seq<EnvVar>, k: int, n: Seq<u8>)
    requires
        names_distinct(vars),
        0 <= k < vars.len(),
    ensures
        lookup_var(vars.remove(k), n, 0) == (if n == vars[k].name@ {
            None
        } else {
            lookup_var(vars, n, 0)
        }),
{
    let after = vars.remove(k);
    assert forall|i: int| 0 <= i < after.len() implies (#[trigger] after[i]) == vars[if i < k {
        i
    } else {
        i + 1
    }] by {}
    if n == vars[k].name@ {
        assert forall|i: int| 0 <= i < after.len() implies (#[trigger] after[i]).name@ != n by {
            if i < k {
                assert(vars[i].name@ != vars[k].name@);
            } else {
                assert(vars[k].name@ != vars[i + 1].name@);
            }
        }
        lemma_lookup_missing(after, n, 0);
    } else if lookup_var(vars, n, 0) is Some {
        let j = lemma_lookup_some(vars, n, 0);
        let m = if j < k {
            j
        } else {
            j - 1
        };
        assert(after[m] == vars[j]);
        assert forall|i: int| 0 <= i < m implies (#[trigger] after[i]).name@ != n by {
            assert(vars[if i < k {
                i
            } else {
                i + 1
            }].name@ != n);
        }
        lemma_lookup_found(after, n, 0, m);
    } else {
        assert forall|i: int| 0 <= i < after.len() implies (#[trigger] after[i]).name@ != n by {
            let j = if i < k {
                i
            } else {
                i + 1
            };
            if vars[j].name@ == n {
                lemma_lookup_exists(vars, n, 0, j);
            }
        }
        lemma_lookup_missing(after, n, 0);
    }
}

proof fn lemma_lookup_exists(vars: Seq<EnvVar>, n: Seq<u8>, from: int, j: int)
    requires
        0 <= from <= j < vars.len(),
        vars[j].name@ == n,
    ensures
        lookup_var(vars, n, from) is Some,
    decreases j - from,
{
    if from < j && vars[from].name@ != n {
        lemma_lookup_exists(vars, n, from + 1, j);
    }
}

/// There is room for `n` bytes once what is at `ptr` was freed.
pub open spec fn room_once_freed(mem: Mem, ptr: u32, n: int) -> bool {
    forall|freed: Mem| #[trigger] freed.released(mem, ptr) ==> freed.has_room(n)
}

/// The guest memory that `setenv` needs is there. A variable that exists and is
/// not to be overwritten needs none; the value of one that is overwritten is
/// freed first.
pub open spec fn setenv_ready(env: Environment, name: Seq<u8>, value: int, overwrite: int) -> bool {
    let n = env.mem.cstr(value).len() as int + 1;
    var(env, name) is Some && overwrite == 0 || {
        &&& env.mem.valid(value, 0)
        &&& n <= u32::MAX
        &&& match var(env, name) {
            Some(existing) => room_once_freed(env.mem, existing, n),
            None => env.mem.has_room(n),
        }
    }
}

/// `int setenv(const char *name, const char *value, int overwrite);`
pub fn setenv(env: &mut Environment, name: ConstPtr, value: ConstPtr, overwrite: i32) -> (r: i32)
    requires
        old(env).wf(),
        names_distinct(old(env).env_vars@),
        old(env).mem.valid(name as int, 0),
        setenv_ready(
            *old(env),
            old(env).mem.cstr(name as int),
            value as int,
            overwrite as int,
        ),
    ensures
        final(env).wf(),
        names_distinct(final(env).env_vars@),
        r == 0,
        setenv_done(
            *old(env),
            *final(env),
            old(env).mem.cstr(name as int),
            old(env).mem.cstr(value as int),
            overwrite as int,
        ),
{
    set_errno(env, 0);
    let name_bytes: Vec<u8> = env.mem.cstr_at(name);
    let ghost vars = env.env_vars@;
    match find_var(&env.env_vars, &name_bytes) {
        Some(k) => {
            if overwrite == 0 {
                return 0;
            }
            let value_bytes: Vec<u8> = env.mem.cstr_at(value);
            let existing: u32 = env.env_vars[k].value;
            env.mem.free(existing);
            let ghost freed = env.mem;
            assert(var(*old(env), name_bytes@) == Some(existing));
            assert(freed.released(old(env).mem, existing));
            let ptr: u32 = env.mem.alloc_and_write_cstr(&value_bytes);
            env.env_vars[k].value = ptr;
            proof {
                lemma_var_updated(vars, env.env_vars@, k as int, name_bytes@);
                assert(names_distinct(env.env_vars@)) by {
                    assert forall|i: int, j: int|
                        #![trigger env.env_vars@[i], env.env_vars@[j]]
                        0 <= i < j < env.env_vars@.len() implies env.env_vars@[i].name@
                        != env.env_vars@[j].name@ by {
                        assert(vars[i].name@ != vars[j].name@);
                    }
                }
                assert(var_set(*old(env), *env, name_bytes@, Some(ptr)));
                assert(env.mem.placed(freed, ptr, value_bytes@.push(0)));
                assert(var_stored(*old(env), *env, freed, name_bytes@, value_bytes@));
                assert(var_replaced(*old(env), *env, existing, name_bytes@, value_bytes@));
            }
        },
        None => {
            let value_bytes: Vec<u8> = env.mem.cstr_at(value);
            let ptr: u32 = env.mem.alloc_and_write_cstr(&value_bytes);
            let ghost v = EnvVar { name: name_bytes, value: ptr };
            env.env_vars.push(EnvVar { name: name_bytes, value: ptr });
            proof {
                assert forall|n: Seq<u8>| #[trigger] var(*env, n) == (if n == name_bytes@ {
                    Some(ptr)
                } else {
                    var(*old(env), n)
                }) by {
                    lemma_lookup_pushed(vars, v, n, 0);
                }
            }
        },
    }
    0
}

/// `int unsetenv(const char *name);`
pub fn unsetenv(env: &mut Environment, name: ConstPtr) -> (r: i32)
    requires
        old(env).wf(),
        names_distinct(old(env).env_vars@),
        old(env).mem.valid(name as int, 0),
    ensures
        final(env).wf(),
        names_distinct(final(env).env_vars@),
        match var(*old(env), old(env).mem.cstr(name as int)) {
            Some(existing) => {
                &&& r == 0
                &&& *final(env) == old(env).with_errno(0).with_mem(final(env).mem).with_env_vars(
                    final(env).env_vars,
                )
                &&& final(env).mem.released(old(env).mem, existing)
                &&& var_set(*old(env), *final(env), old(env).mem.cstr(name as int), None)
            },
            None => r == -1 && *final(env) == old(env).with_errno(EINVAL),
        },
{
    set_errno(env, 0);
    let name_bytes: Vec<u8> = env.mem.cstr_at(name);
    let ghost vars = env.env_vars@;
    match find_var(&env.env_vars, &name_bytes) {
        Some(k) => {
            let existing: u32 = env.env_vars[k].value;
            env.mem.free(existing);
            let _ = env.env_vars.remove(k);
            proof {
                let after = env.env_vars@;
                assert(after == vars.remove(k as int));
                assert forall|n: Seq<u8>| #[trigger] var(*env, n) == (if n == name_bytes@ {
                    None
                } else {
                    var(*old(env), n)
                }) by {
                    lemma_lookup_removed(vars, k as int, n);
                }
                assert forall|i: int, j: int|
                    #![trigger after[i], after[j]]
                    0 <= i < j < after.len() implies after[i].name@ != after[j].name@ by {
                    let p = if i < k {
                        i
                    } else {
                        i + 1
                    };
                    let q = if j < k {
                        j
                    } else {
                        j + 1
                    };
                    assert(vars[p].name@ != vars[q].name@);
                }
            }
            0
        },
        None => {
            set_errno(env, EINVAL);
            -1
        },
    }
}

/// `int putenv(char *string);`: accepted, and ignored.
pub fn putenv(env: &mut Environment, string: MutPtr) -> (r: i32)
    requires
        old(env).wf(),
        string != 0 ==> old(env).mem.valid(string as int, 0),
    ensures
        final(env).wf(),
        if string == 0 || !valid_utf8(old(env).mem.cstr(string as int)) {
            r == -1 && *final(env) == old(env).with_errno(EINVAL)
        } else {
            r == 0 && *final(env) == *old(env)
        },
{
    if string == 0 {
        set_errno(env, EINVAL);
        return -1;
    }
    if env.mem.cstr_at_utf8(string).is_none() {
        set_errno(env, EINVAL);
        return -1;
    }
    0
}

/// A variable that was set is the one that is read, and other variables keep
/// their values.
pub proof fn law_setenv_getenv(
    before: Environment,
    after: Environment,
    name: Seq<u8>,
    value: Seq<u8>,
    other: Seq<u8>,
)
    requires
        before.wf(),
        after.wf(),
        setenv_done(before, after, name, value, 1),
        forall|i: int| 0 <= i < value.len() ==> value[i] != 0,
        other != name,
    ensures
        var(after, name) matches Some(p) && after.mem.cstr(p as int) == value,
        var(after, other) == var(before, other),
{
    let freed = match var(before, name) {
        Some(existing) => choose|freed: Mem| #[trigger]
            freed.released(before.mem, existing) && var_stored(before, after, freed, name, value),
        None => before.mem,
    };
    assert(var_stored(before, after, freed, name, value));
    let ptr = choose|ptr: u32| #[trigger]
        after.mem.placed(freed, ptr, value.push(0)) && after == before.with_errno(0).with_mem(
            after.mem,
        ).with_env_vars(after.env_vars) && var_set(before, after, name, Some(ptr));
    crate::mem::law_store_load_cstr(freed@, ptr as int, value);
    assert(var(after, name) == Some(ptr));
    assert(var(after, other) == var(before, other));
}

/// `int atexit(void (*func)(void));`
pub fn atexit(env: &mut Environment, func: GuestFunction) -> (r: i32)
    ensures
        r == 0,
        *final(env) == old(env).with_errno(0).with_stdlib(
            (libc::stdlib::State {
                atexit_handlers: final(env).libc_state.stdlib.atexit_handlers,
                ..old(env).libc_state.stdlib
            }),
        ),
        final(env).libc_state.stdlib.atexit_handlers@
            == old(env).libc_state.stdlib.atexit_handlers@.push(func),
{
    set_errno(env, 0);
    env.libc_state.stdlib.atexit_handlers.push(func);
    0
}

/// `void exit(int code);`, up to the end of the process: gives the functions
/// that are to be called before it, those registered last first.
pub fn exit(env: &mut Environment, _exit_code: i32) -> (r: Vec<GuestFunction>)
    ensures
        *final(env) == old(env).with_errno(0).with_stdlib(
            (libc::stdlib::State {
                atexit_handlers: final(env).libc_state.stdlib.atexit_handlers,
                ..old(env).libc_state.stdlib
            }),
        ),
        final(env).libc_state.stdlib.atexit_handlers@ == Seq::<GuestFunction>::empty(),
        r@ == old(env).libc_state.stdlib.atexit_handlers@.reverse(),
{
    set_errno(env, 0);
    let ghost all = env.libc_state.stdlib.atexit_handlers@;
    let mut handlers: Vec<GuestFunction> = Vec::new();
    core::mem::swap(&mut handlers, &mut env.libc_state.stdlib.atexit_handlers);
    assert(env.libc_state.stdlib.atexit_handlers@ =~= Seq::empty());
    let mut calls: Vec<GuestFunction> = Vec::new();
    let n: usize = handlers.len();
    let mut i: usize = 0;
    while i < n
        invariant
            i <= n == handlers@.len(),
            handlers@ == all,
            calls@.len() == i,
            forall|k: int| 0 <= k < i ==> calls@[k] == all[n - 1 - k],
        decreases n - i,
    {
        calls.push(handlers[n - 1 - i]);
        i = i + 1;
    }
    assert(calls@ =~= all.reverse());
    calls
}

/// The part of a sorted array in which a binary search goes on.
#[derive(Clone, Copy, Debug, PartialEq, Eq, Structural)]
pub struct SearchRange {
    pub low: u32,
    pub len: u32,
}

impl SearchRange {
    /// The item that is compared next.
    pub open spec fn middle(&self) -> int {
        self.low + self.len / 2
    }

    /// Where the search goes on, when the key comes behind the middle item
    /// (`order > 0`) or before it (`order < 0`).
    pub open spec fn narrowed(self, order: int) -> SearchRange {
        if order > 0 {
            SearchRange {
                low: (self.middle() + 1) as u32,
                len: (self.len - self.len / 2 - 1) as u32,
            }
        } else {
            SearchRange { len: self.len / 2, ..self }
        }
    }
}

/// What a binary search does next.
#[derive(Clone, Copy, Debug, PartialEq, Eq, Structural)]
pub enum SearchStep {
    /// Compare the key with the item at this address.
    Compare(ConstVoidPtr),
    /// The item at this address is the key.
    Found(ConstVoidPtr),
    NotFound,
}

/// The first step of `void *bsearch(key, items, item_count, item_size, compare);`.
pub fn bsearch(items: ConstVoidPtr, item_count: GuestUSize, item_size: GuestUSize) -> (r: (
    SearchRange,
    SearchStep,
))
    requires
        items + item_size * item_count <= u32::MAX,
    ensures
        r.0 == (SearchRange { low: 0, len: item_count }),
        r.1 == search_step(items as int, item_size as int, r.0),
{
    let range: SearchRange = SearchRange { low: 0, len: item_count };
    (range, bsearch_probe(items, item_size, range, Ghost(item_count as int)))
}

/// The step that a search in `range` takes.
pub open spec fn search_step(items: int, item_size: int, range: SearchRange) -> SearchStep {
    if range.len == 0 {
        SearchStep::NotFound
    } else {
        SearchStep::Compare((items + item_size * range.middle()) as u32)
    }
}

fn bsearch_probe(
    items: ConstVoidPtr,
    item_size: GuestUSize,
    range: SearchRange,
    Ghost(count): Ghost<int>,
) -> (r: SearchStep)
    requires
        items + item_size * count <= u32::MAX,
        range.low + range.len <= count <= u32::MAX,
    ensures
        r == search_step(items as int, item_size as int, range),
{
    if range.len == 0 {
        return SearchStep::NotFound;
    }
    let middle: u32 = range.low + range.len / 2;
    assert(0 <= item_size * middle <= item_size * count) by (nonlinear_arith)
        requires
            0 <= item_size,
            0 <= middle <= count,
    ;
    SearchStep::Compare(items + item_size * middle)
}

/// The next step of a binary search, once the key was compared with the middle
/// item of `range`.
pub fn bsearch_next(
    items: ConstVoidPtr,
    item_count: GuestUSize,
    item_size: GuestUSize,
    range: SearchRange,
    order: i32,
) -> (r: (SearchRange, SearchStep))
    requires
        items + item_size * item_count <= u32::MAX,
        range.low + range.len <= item_count,
        range.len > 0,
    ensures
        if order == 0 {
            r == (range, SearchStep::Found((items + item_size * range.middle()) as u32))
        } else {
            &&& r.0 == range.narrowed(order as int)
            &&& r.1 == search_step(items as int, item_size as int, r.0)
            &&& r.0.low + r.0.len <= range.low + range.len
            &&& r.0.len < range.len
        },
{
    let half: u32 = range.len / 2;
    if order == 0 {
        let middle: u32 = range.low + half;
        assert(0 <= item_size * middle <= item_size * item_count) by (nonlinear_arith)
            requires
                0 <= item_size,
                0 <= middle <= item_count,
        ;
        return (range, SearchStep::Found(items + item_size * middle));
    }
    let next: SearchRange = if order > 0 {
        SearchRange { low: range.low + half + 1, len: range.len - half - 1 }
    } else {
        SearchRange { low: range.low, len: half }
    };
    (next, bsearch_probe(items, item_size, next, Ghost(item_count as int)))
}

/// The index at which a search in `range` ends, when `order` says how the key
/// compares with each item.
pub open spec fn search_result(order: Seq<int>, range: SearchRange) -> Option<int>
    decreases range.len,
{
    if range.len == 0 {
        None
    } else if order[range.middle()] == 0 {
        Some(range.middle())
    } else {
        search_result(order, range.narrowed(order[range.middle()]))
    }
}

/// In a sorted array a binary search finds an item that is the key, if there
/// is one, and finds none otherwise.
pub proof fn law_bsearch_finds(order: Seq<int>, range: SearchRange)
    requires
        range.low + range.len <= order.len() <= u32::MAX,
        forall|i: int, j: int| 0 <= i < j < order.len() ==> #[trigger] order[i] >= #[trigger] order[j],
        forall|i: int|
            0 <= i < order.len() && #[trigger] order[i] == 0 ==> range.low <= i < range.low
                + range.len,
    ensures
        match search_result(order, range) {
            Some(k) => 0 <= k < order.len() && order[k] == 0,
            None => forall|i: int| 0 <= i < order.len() ==> #[trigger] order[i] != 0,
        },
    decreases range.len,
{
    if range.len > 0 && order[range.middle()] != 0 {
        let m = range.middle();
        let next = range.narrowed(order[m]);
        assert forall|i: int|
            0 <= i < order.len() && #[trigger] order[i] == 0 implies next.low <= i < next.low
            + next.len by {
            if order[m] > 0 && i < m {
                assert(order[i] >= order[m]);
            }
            if order[m] < 0 && i > m {
                assert(order[m] >= order[i]);
            }
        }
        law_bsearch_finds(order, next);
    }
}

/// A call of a guest function with one argument, which is to be made.
#[derive(Clone, Copy, Debug, PartialEq, Eq, Structural)]
pub struct BlockCall {
    pub func: GuestFunction,
    pub block: ConstVoidPtr,
}

/// The function of the block at `block`.
pub open spec fn block_call(mem: Mem, block: u32) -> BlockCall {
    BlockCall { func: le_u32(mem@, block + 12) as u32, block }
}

/// `void dispatch_once(long *predicate, void (^block)(void));`: the block is to
/// be called the first time only.
pub fn dispatch_once(env: &mut Environment, predicate: MutPtr, block: ConstVoidPtr) -> (r: Option<
    BlockCall,
>)
    requires
        old(env).wf(),
        old(env).mem.valid(predicate as int, 4),
        le_u32(old(env).mem@, predicate as int) == 0 ==> old(env).mem.valid(block as int, 16),
    ensures
        final(env).wf(),
        if le_u32(old(env).mem@, predicate as int) == 0 {
            &&& *final(env) == old(env).with_mem(final(env).mem)
            &&& final(env).mem.stored(
                old(env).mem,
                predicate as int,
                le_bytes(0xffff_ffff, 4),
            )
            &&& r == Some(block_call(final(env).mem, block))
        } else {
            r is None && *final(env) == *old(env)
        },
{
    if env.mem.read_u32(predicate) != 0 {
        return None;
    }
    env.mem.write_u32(predicate, 0xffff_ffff);
    let func: u32 = env.mem.read_u32(block + 12);
    Some(BlockCall { func, block })
}

/// After a first `dispatch_once` a second one on the same predicate calls
/// nothing.
pub proof fn law_dispatch_once(before: Mem, after: Mem, predicate: int)
    requires
        0 <= predicate,
        predicate + 4 <= before@.len(),
        after.stored(before, predicate, le_bytes(0xffff_ffff, 4)),
    ensures
        le_u32(after@, predicate) != 0,
{
    crate::mem::law_store_load_u32(before@, predicate, 0xffff_ffff);
}

/// `void dispatch_async(dispatch_queue_t queue, void (^block)(void));`: the
/// block is to be called on a thread of its own.
pub fn dispatch_async(env: &mut Environment, _queue: ConstVoidPtr, block: ConstVoidPtr) -> (r:
    BlockCall)
    requires
        old(env).wf(),
        old(env).mem.valid(block as int, 16),
    ensures
        *final(env) == *old(env),
        r == block_call(old(env).mem, block),
{
    BlockCall { func: env.mem.read_u32(block + 12), block }
}

/// A guard that is zero is taken: one is returned, and the guard is set.
pub fn __cxa_guard_acquire(env: &mut Environment, guard: MutPtr) -> (r: i32)
    requires
        old(env).wf(),
        old(env).mem.valid(guard as int, 1),
    ensures
        final(env).wf(),
        if old(env).mem@[guard as int] == 0 {
            &&& r == 1
            &&& *final(env) == old(env).with_mem(final(env).mem)
            &&& final(env).mem.stored(old(env).mem, guard as int, seq![1u8])
        } else {
            r == 0 && *final(env) == *old(env)
        },
{
    if env.mem.read_u8(guard) == 0 {
        env.mem.write_u8(guard, 1);
        return 1;
    }
    0
}

pub fn __cxa_guard_release(env: &mut Environment, guard: MutPtr)
    requires
        old(env).wf(),
        old(env).mem.valid(guard as int, 1),
    ensures
        final(env).wf(),
        *final(env) == old(env).with_mem(final(env).mem),
        final(env).mem.stored(old(env).mem, guard as int, seq![2u8]),
{
    env.mem.write_u8(guard, 2);
}

pub fn __cxa_guard_abort(env: &mut Environment, guard: MutPtr)
    requires
        old(env).wf(),
        old(env).mem.valid(guard as int, 1),
    ensures
        final(env).wf(),
        *final(env) == old(env).with_mem(final(env).mem),
        final(env).mem.stored(old(env).mem, guard as int, seq![0u8]),
{
    env.mem.write_u8(guard, 0);
}

/// How many frames are looked at before unwinding gives up.
pub const UNWIND_FRAMES: u32 = 30;

/// The return address in the frame at `fp` lies in the program.
pub open spec fn frame_returns(mem: Mem, fp: int) -> bool {
    0 < le_u32(mem@, fp + 4) < 0x1000_0000
}

/// The first of `n` frames from `fp` on whose return address lies in the
/// program. Frames are linked, and zero ends the chain.
pub open spec fn returning_frame(mem: Mem, fp: int, n: int) -> Option<int>
    decreases n,
{
    if n <= 0 || fp == 0 {
        None
    } else if frame_returns(mem, fp) {
        Some(fp)
    } else {
        returning_frame(mem, le_u32(mem@, fp), n - 1)
    }
}

/// Every frame that is looked at is guest memory.
pub open spec fn frames_valid(mem: Mem, fp: int, n: int) -> bool
    decreases n,
{
    n <= 0 || fp == 0 || (mem.valid(fp, 8) && fp + 8 <= u32::MAX && (frame_returns(mem, fp)
        || frames_valid(mem, le_u32(mem@, fp), n - 1)))
}

/// What unwinding does: the program goes on behind the call in the first frame
/// that returns into it, as if that call had returned zero.
pub open spec fn unwound(before: Environment, after: Environment) -> bool {
    match returning_frame(before.mem, before.cpu.regs@[7] as int, UNWIND_FRAMES as int) {
        None => after == before,
        Some(fp) => {
            &&& after == before.with_cpu(after.cpu)
            &&& after.cpu.regs@ == before.cpu.regs@.update(
                7,
                le_u32(before.mem@, fp) as u32,
            ).update(13, (fp + 8) as u32).update(0, 0)
            &&& after.cpu.branch_to == Some(le_u32(before.mem@, fp + 4) as u32)
        },
    }
}

fn unwind(env: &mut Environment)
    requires
        old(env).wf(),
        old(env).cpu.wf(),
        frames_valid(old(env).mem, old(env).cpu.regs@[7] as int, UNWIND_FRAMES as int),
    ensures
        final(env).wf(),
        final(env).cpu.wf(),
        unwound(*old(env), *final(env)),
{
    let mut fp: u32 = env.cpu.regs[7];
    let mut left: u32 = UNWIND_FRAMES;
    while left > 0 && fp != 0
        invariant
            *env == *old(env),
            env.wf(),
            env.cpu.wf(),
            left <= UNWIND_FRAMES,
            frames_valid(env.mem, fp as int, left as int),
            returning_frame(env.mem, env.cpu.regs@[7] as int, UNWIND_FRAMES as int)
                == returning_frame(env.mem, fp as int, left as int),
        decreases left,
    {
        let prev_fp: u32 = env.mem.read_u32(fp);
        let lr: u32 = env.mem.read_u32(fp + 4);
        if lr > 0 && lr < 0x1000_0000 {
            env.cpu.regs[7] = prev_fp;
            env.cpu.regs[13] = fp + 8;
            env.cpu.regs[0] = 0;
            env.cpu.branch_to = Some(lr);
            return;
        }
        fp = prev_fp;
        left = left - 1;
    }
}

pub fn _Unwind_SjLj_RaiseException(env: &mut Environment, _ex: ConstVoidPtr) -> (r: i32)
    requires
        old(env).wf(),
        old(env).cpu.wf(),
        frames_valid(old(env).mem, old(env).cpu.regs@[7] as int, UNWIND_FRAMES as int),
    ensures
        final(env).wf(),
        r == 0,
        unwound(*old(env), *final(env)),
{
    unwind(env);
    0
}

pub fn _Unwind_SjLj_Resume(env: &mut Environment, _ex: ConstVoidPtr)
    requires
        old(env).wf(),
        old(env).cpu.wf(),
        frames_valid(old(env).mem, old(env).cpu.regs@[7] as int, UNWIND_FRAMES as int),
    ensures
        final(env).wf(),
        unwound(*old(env), *final(env)),
{
    unwind(env);
}

pub fn _Unwind_SjLj_Resume_or_Rethrow(env: &mut Environment, _ex: ConstVoidPtr) -> (r: i32)
    requires
        old(env).wf(),
        old(env).cpu.wf(),
        frames_valid(old(env).mem, old(env).cpu.regs@[7] as int, UNWIND_FRAMES as int),
    ensures
        final(env).wf(),
        r == 0,
        unwound(*old(env), *final(env)),
{
    unwind(env);
    0
}

} // verus!
