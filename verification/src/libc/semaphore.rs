//! `semaphore.h`
use std::collections::HashMap;
use vstd::prelude::*;
use vstd::utf8::{decode_utf8, valid_utf8};

use crate::environment::{Environment, ThreadId};
use crate::libc::errno::{set_errno, EINVAL};
use crate::libc::posix_io::{O_CREAT, O_EXCL};
use crate::mem::{le_bytes, lemma_le_bytes_4, signed32, to_signed32, ConstPtr, MutPtr};
use crate::text::{chars_of, same_chars};

verus! {

broadcast use vstd::std_specs::hash::group_hash_axioms;

pub type kern_return_t = i32;

pub const KERN_SUCCESS: kern_return_t = 0;

pub const KERN_OPERATION_TIMED_OUT: kern_return_t = 49;

pub const KERN_INVALID_ARGUMENT: kern_return_t = 4;

/// `mach_timespec_t` from `<mach/mach_time.h>`. Distinct from POSIX
/// `struct timespec`: both fields are unsigned 32-bit, and the field order
/// is the same (seconds, then nanoseconds).
#[derive(Copy, Clone, Debug, PartialEq, Eq, Structural)]
pub struct mach_timespec_t {
    pub tv_sec: u32,
    pub tv_nsec: u32,
}

pub type sem_t = i32;

/// Defined as -1 while having a type of `sem_t *`.
pub const SEM_FAILED: MutPtr = u32::MAX;

pub struct SemaphoreHostObject {
    pub value: i32,
    /// The threads that wait, the one that waits longest first.
    pub waiting: Vec<ThreadId>,
    pub guest_sem: Option<MutPtr>,
    pub named: bool,
}

/// A name of a semaphore.
pub struct SemaphoreName {
    pub name: Vec<char>,
    /// An entry of `State::semaphores`.
    pub index: usize,
}

pub struct State {
    /// Every semaphore that was made. Names and guest addresses share them.
    pub semaphores: Vec<SemaphoreHostObject>,
    pub named_semaphores: Vec<SemaphoreName>,
    /// By guest address, an entry of `semaphores`.
    pub open_semaphores: HashMap<MutPtr, usize>,
}

impl Default for State {
    fn default() -> (r: State)
        ensures
            r.semaphores@.len() == 0,
            r.named_semaphores@.len() == 0,
            r.open_semaphores@ == Map::<MutPtr, usize>::empty(),
    {
        State {
            semaphores: Vec::new(),
            named_semaphores: Vec::new(),
            open_semaphores: HashMap::new(),
        }
    }
}

impl State {
    /// Names and guest addresses lead to semaphores, and no two names are the
    /// same.
    pub open spec fn wf(&self) -> bool {
        &&& forall|i: int|
            #![trigger self.named_semaphores@[i]]
            0 <= i < self.named_semaphores@.len() ==> self.named_semaphores@[i].index
                < self.semaphores@.len()
        &&& forall|p: MutPtr| #[trigger]
            self.open_semaphores@.contains_key(p) ==> self.open_semaphores@[p]
                < self.semaphores@.len()
        &&& forall|i: int, j: int|
            #![trigger self.named_semaphores@[i], self.named_semaphores@[j]]
            0 <= i < j < self.named_semaphores@.len() ==> self.named_semaphores@[i].name@
                != self.named_semaphores@[j].name@
    }

    /// The semaphore at a guest address.
    pub open spec fn at(&self, sem: MutPtr) -> SemaphoreHostObject {
        self.semaphores@[self.open_semaphores@[sem] as int]
    }

    pub open spec fn is_open(&self, sem: MutPtr) -> bool {
        self.open_semaphores@.contains_key(sem)
    }

    /// The semaphore number `i` is replaced by one with this value and these
    /// waiting threads.
    pub open spec fn set(
        &self,
        before: State,
        i: int,
        value: int,
        waiting: Seq<ThreadId>,
    ) -> bool {
        &&& *self == State { semaphores: self.semaphores, ..before }
        &&& self.semaphores@ == before.semaphores@.update(i, self.semaphores@[i])
        &&& self.semaphores@[i] == SemaphoreHostObject {
            value: value as i32,
            waiting: self.semaphores@[i].waiting,
            ..before.semaphores@[i]
        }
        &&& self.semaphores@[i].waiting@ == waiting
    }
}

/// The index of the name `name`, from the entry `from` on.
pub open spec fn name_index(names: Seq<SemaphoreName>, name: Seq<char>, from: int) -> Option<int>
    decreases names.len() - from,
{
    if from < 0 || from >= names.len() {
        None
    } else if names[from].name@ == name {
        Some(from)
    } else {
        name_index(names, name, from + 1)
    }
}

proof fn lemma_name_index_is(names: Seq<SemaphoreName>, name: Seq<char>, from: int, k: int)
    requires
        0 <= from <= k <= names.len(),
        forall|i: int| from <= i < k ==> (#[trigger] names[i]).name@ != name,
        k < names.len() ==> names[k].name@ == name,
    ensures
        name_index(names, name, from) == if k < names.len() {
            Some(k)
        } else {
            None
        },
    decreases k - from,
{
    if from < k {
        lemma_name_index_is(names, name, from + 1, k);
    }
}

fn find_name(names: &Vec<SemaphoreName>, name: &Vec<char>) -> (r: Option<usize>)
    ensures
        match name_index(names@, name@, 0) {
            Some(k) => (r matches Some(i) && i == k) && 0 <= k < names@.len() && names@[k].name@ == name@,
            None => r is None && forall|i: int|
                0 <= i < names@.len() ==> (#[trigger] names@[i]).name@ != name@,
        },
{
    let n: usize = names.len();
    let mut i: usize = 0;
    while i < n
        invariant
            i <= n == names@.len(),
            forall|k: int| 0 <= k < i ==> (#[trigger] names@[k]).name@ != name@,
        decreases n - i,
    {
        if same_chars(&names[i].name, name) {
            proof {
                lemma_name_index_is(names@, name@, 0, i as int);
            }
            return Some(i);
        }
        i = i + 1;
    }
    proof {
        lemma_name_index_is(names@, name@, 0, n as int);
    }
    None
}

/// A semaphore without waiting threads.
pub open spec fn is_fresh(o: SemaphoreHostObject, value: int, named: bool) -> bool {
    &&& o.value == signed32(value)
    &&& o.waiting@ == Seq::<ThreadId>::empty()
    &&& o.named == named
}

/// What `sem_init` does: a semaphore is made, unless there is one.
pub open spec fn sem_init_done(
    before: Environment,
    after: Environment,
    sem: MutPtr,
    value: int,
) -> bool {
    let b = before.libc_state.semaphore;
    let a = after.libc_state.semaphore;
    if b.is_open(sem) {
        after == before.with_errno(0)
    } else {
        let i = b.semaphores@.len() as int;
        &&& after == before.with_errno(0).with_semaphore(a)
        &&& a.named_semaphores == b.named_semaphores
        &&& a.semaphores@ == b.semaphores@.push(a.semaphores@[i])
        &&& a.open_semaphores@ == b.open_semaphores@.insert(sem, i as usize)
        &&& is_fresh(a.semaphores@[i], value, false)
        &&& a.semaphores@[i].guest_sem == Some(sem)
    }
}

/// `int sem_init(sem_t *sem, int pshared, unsigned int value);`, of a semaphore
/// that processes do not share.
pub fn sem_init(env: &mut Environment, sem: MutPtr, pshared: i32, value: u32) -> (r: i32)
    requires
        old(env).wf(),
        pshared == 0,
    ensures
        final(env).wf(),
        r == 0,
        sem_init_done(*old(env), *final(env), sem, value as int),
{
    set_errno(env, 0);
    if env.libc_state.semaphore.open_semaphores.contains_key(&sem) {
        return 0;
    }
    let i: usize = env.libc_state.semaphore.semaphores.len();
    let waiting: Vec<ThreadId> = Vec::new();
    assert(waiting@ =~= Seq::empty());
    env.libc_state.semaphore.semaphores.push(
        SemaphoreHostObject {
            value: to_signed32(value),
            waiting,
            guest_sem: Some(sem),
            named: false,
        },
    );
    env.libc_state.semaphore.open_semaphores.insert(sem, i);
    0
}

/// What `sem_destroy` does.
pub open spec fn sem_destroy_done(
    before: Environment,
    after: Environment,
    sem: MutPtr,
    r: int,
) -> bool {
    let b = before.libc_state.semaphore;
    let a = after.libc_state.semaphore;
    if b.is_open(sem) {
        &&& r == 0
        &&& after == before.with_semaphore(
            State { open_semaphores: a.open_semaphores, ..b },
        )
        &&& a.open_semaphores@ == b.open_semaphores@.remove(sem)
    } else {
        r == EINVAL && after == before
    }
}

/// `int sem_destroy(sem_t *sem);`, of a semaphore without a name.
pub fn sem_destroy(env: &mut Environment, sem: MutPtr) -> (r: i32)
    requires
        old(env).wf(),
        old(env).libc_state.semaphore.is_open(sem) ==> !old(env).libc_state.semaphore.at(sem).named,
    ensures
        final(env).wf(),
        sem_destroy_done(*old(env), *final(env), sem, r as int),
{
    if !env.libc_state.semaphore.open_semaphores.contains_key(&sem) {
        return EINVAL;
    }
    let _ = env.libc_state.semaphore.open_semaphores.remove(&sem);
    assert(env.libc_state.semaphore.open_semaphores@
        =~= old(env).libc_state.semaphore.open_semaphores@.remove(sem));
    0
}

/// The named semaphore that `sem_open` opens, or none where it fails: one that
/// is there is opened with `O_EXCL` only, and one that is not is made with
/// `O_CREAT` only.
pub open spec fn sem_open_fails(env: Environment, name: Seq<char>, oflag: i32) -> bool {
    match name_index(env.libc_state.semaphore.named_semaphores@, name, 0) {
        Some(_) => oflag & O_EXCL == 0,
        None => oflag & O_CREAT == 0,
    }
}

/// The semaphore number `i` got the guest address `r`, in a new chunk.
pub open spec fn sem_opened(
    before: Environment,
    after: Environment,
    i: int,
    r: MutPtr,
) -> bool {
    let b = before.libc_state.semaphore;
    let a = after.libc_state.semaphore;
    &&& after == before.with_mem(after.mem).with_semaphore(a)
    &&& after.mem.placed(before.mem, r, le_bytes(0, 4))
    &&& a.named_semaphores == b.named_semaphores
    &&& a.open_semaphores@ == b.open_semaphores@.insert(r, i as usize)
    &&& a.semaphores@ == b.semaphores@.update(
        i,
        SemaphoreHostObject { guest_sem: Some(r), ..b.semaphores@[i] },
    )
}

/// A named semaphore was made.
pub open spec fn sem_named(
    before: Environment,
    after: Environment,
    name: Seq<char>,
    value: int,
) -> bool {
    let b = before.libc_state.semaphore;
    let a = after.libc_state.semaphore;
    let i = b.semaphores@.len() as int;
    let n = b.named_semaphores@.len() as int;
    &&& after == before.with_semaphore(a)
    &&& a.open_semaphores == b.open_semaphores
    &&& a.semaphores@ == b.semaphores@.push(a.semaphores@[i])
    &&& is_fresh(a.semaphores@[i], value, true)
    &&& a.semaphores@[i].guest_sem is None
    &&& a.named_semaphores@ == b.named_semaphores@.push(a.named_semaphores@[n])
    &&& a.named_semaphores@[n].name@ == name
    &&& a.named_semaphores@[n].index == i
}

/// `sem_open` gives a semaphore a guest address that it did not have.
pub open spec fn sem_open_makes(env: Environment, name: Seq<char>, oflag: i32) -> bool {
    let s = env.libc_state.semaphore;
    !sem_open_fails(env, name, oflag) && match name_index(s.named_semaphores@, name, 0) {
        Some(k) => s.semaphores@[s.named_semaphores@[k].index as int].guest_sem is None,
        None => true,
    }
}

/// What `sem_open` does.
pub open spec fn sem_open_done(
    before: Environment,
    after: Environment,
    name: Seq<char>,
    oflag: i32,
    value: int,
    r: MutPtr,
) -> bool {
    let s = before.libc_state.semaphore;
    let start = before.with_errno(0);
    if sem_open_fails(before, name, oflag) {
        r == SEM_FAILED && after == start
    } else {
        match name_index(s.named_semaphores@, name, 0) {
            Some(k) => {
                let i = s.named_semaphores@[k].index as int;
                match s.semaphores@[i].guest_sem {
                    Some(sem) => r == sem && after == start,
                    None => sem_opened(start, after, i, r),
                }
            },
            None => exists|named: Environment| #[trigger]
                sem_named(start, named, name, value) && sem_opened(
                    named,
                    after,
                    s.semaphores@.len() as int,
                    r,
                ),
        }
    }
}

/// Gives the semaphore number `i` a guest address.
fn open_semaphore(env: &mut Environment, i: usize) -> (r: MutPtr)
    requires
        old(env).wf(),
        i < old(env).libc_state.semaphore.semaphores@.len(),
        old(env).mem.has_room(4),
    ensures
        final(env).wf(),
        sem_opened(*old(env), *final(env), i as int, r),
{
    let zero: Vec<u8> = vec![0, 0, 0, 0];
    proof {
        lemma_le_bytes_4(0);
        assert(zero@ =~= le_bytes(0, 4));
    }
    let sem: u32 = env.mem.alloc_and_write(&zero);
    env.libc_state.semaphore.semaphores[i].guest_sem = Some(sem);
    env.libc_state.semaphore.open_semaphores.insert(sem, i);
    assert(env.libc_state.semaphore.semaphores@
        =~= old(env).libc_state.semaphore.semaphores@.update(
        i as int,
        SemaphoreHostObject {
            guest_sem: Some(sem),
            ..old(env).libc_state.semaphore.semaphores@[i as int]
        },
    ));
    sem
}

/// `sem_t *sem_open(const char *name, int oflag, mode_t mode, unsigned value);`
pub fn sem_open(env: &mut Environment, name: ConstPtr, oflag: i32, _mode: u16, value: u32) -> (r:
    MutPtr)
    requires
        old(env).wf(),
        old(env).mem.valid(name as int, 0),
        valid_utf8(old(env).mem.cstr(name as int)),
        sem_open_makes(
            *old(env),
            decode_utf8(old(env).mem.cstr(name as int)),
            oflag,
        ) ==> old(env).mem.has_room(4),
    ensures
        final(env).wf(),
        sem_open_done(
            *old(env),
            *final(env),
            decode_utf8(old(env).mem.cstr(name as int)),
            oflag,
            value as int,
            r,
        ),
{
    set_errno(env, 0);
    let ghost start = *env;
    let sem_name: Vec<char> = match env.mem.cstr_at_utf8(name) {
        Some(text) => chars_of(text.as_str()),
        None => Vec::new(),
    };
    let ghost text = sem_name@;
    match find_name(&env.libc_state.semaphore.named_semaphores, &sem_name) {
        Some(k) => {
            if oflag & O_EXCL == 0 {
                return SEM_FAILED;
            }
            let i: usize = env.libc_state.semaphore.named_semaphores[k].index;
            match env.libc_state.semaphore.semaphores[i].guest_sem {
                Some(sem) => sem,
                None => open_semaphore(env, i),
            }
        },
        None => {
            if oflag & O_CREAT == 0 {
                return SEM_FAILED;
            }
            let i: usize = env.libc_state.semaphore.semaphores.len();
            let waiting: Vec<ThreadId> = Vec::new();
            assert(waiting@ =~= Seq::empty());
            env.libc_state.semaphore.semaphores.push(
                SemaphoreHostObject {
                    value: to_signed32(value),
                    waiting,
                    guest_sem: None,
                    named: true,
                },
            );
            env.libc_state.semaphore.named_semaphores.push(
                SemaphoreName { name: sem_name, index: i },
            );
            let ghost named = *env;
            assert(sem_named(start, named, text, value as int));
            assert(env.libc_state.semaphore.wf()) by {
                let b = start.libc_state.semaphore;
                let a = env.libc_state.semaphore;
                assert forall|p: MutPtr| #[trigger]
                    a.open_semaphores@.contains_key(p) implies a.open_semaphores@[p]
                    < a.semaphores@.len() by {
                    assert(b.open_semaphores@.contains_key(p));
                }
            }
            open_semaphore(env, i)
        },
    }
}

/// A semaphore is decremented where its value is above zero. Otherwise the
/// current thread waits, if it is to, and is then counted when another thread
/// increments the semaphore.
pub open spec fn decremented(
    before: Environment,
    after: Environment,
    sem: MutPtr,
    wait: bool,
    r: bool,
) -> bool {
    let b = before.libc_state.semaphore;
    let a = after.libc_state.semaphore;
    let i = b.open_semaphores@[sem] as int;
    let o = b.semaphores@[i];
    if o.value > 0 {
        r && after == before.with_semaphore(a) && a.set(b, i, o.value - 1, o.waiting@)
    } else if wait {
        r && after == before.with_semaphore(a) && a.set(
            b,
            i,
            o.value as int,
            o.waiting@.push(before.current_thread),
        )
    } else {
        !r && after == before
    }
}

/// The thread that waits longest goes on; without one the value grows.
pub open spec fn incremented(before: Environment, after: Environment, sem: MutPtr) -> bool {
    let b = before.libc_state.semaphore;
    let a = after.libc_state.semaphore;
    let i = b.open_semaphores@[sem] as int;
    let o = b.semaphores@[i];
    &&& after == before.with_semaphore(a)
    &&& if o.waiting@.len() > 0 {
        a.set(b, i, o.value as int, o.waiting@.drop_first())
    } else {
        a.set(b, i, o.value + 1, o.waiting@)
    }
}

impl Environment {
    /// Takes one off a semaphore, or waits for that.
    pub fn sem_decrement(&mut self, sem: MutPtr, wait_for_lock: bool) -> (r: bool)
        requires
            old(self).wf(),
            old(self).libc_state.semaphore.is_open(sem),
        ensures
            final(self).wf(),
            decremented(*old(self), *final(self), sem, wait_for_lock, r),
    {
        let i: usize = match self.libc_state.semaphore.open_semaphores.get(&sem) {
            Some(i) => *i,
            None => {
                return false;
            },
        };
        let thread: ThreadId = self.current_thread;
        let value: i32 = self.libc_state.semaphore.semaphores[i].value;
        if value > 0 {
            self.libc_state.semaphore.semaphores[i].value = value - 1;
            return true;
        }
        if wait_for_lock {
            self.libc_state.semaphore.semaphores[i].waiting.push(thread);
            return true;
        }
        false
    }

    /// Adds one to a semaphore, or lets a waiting thread go on.
    pub fn sem_increment(&mut self, sem: MutPtr)
        requires
            old(self).wf(),
            old(self).libc_state.semaphore.is_open(sem),
            old(self).libc_state.semaphore.at(sem).value < i32::MAX,
        ensures
            final(self).wf(),
            incremented(*old(self), *final(self), sem),
    {
        let i: usize = match self.libc_state.semaphore.open_semaphores.get(&sem) {
            Some(i) => *i,
            None => {
                return;
            },
        };
        if self.libc_state.semaphore.semaphores[i].waiting.len() > 0 {
            let _ = self.libc_state.semaphore.semaphores[i].waiting.remove(0);
            assert(self.libc_state.semaphore.semaphores@[i as int].waiting@
                =~= old(self).libc_state.semaphore.semaphores@[i as int].waiting@.drop_first());
        } else {
            let value: i32 = self.libc_state.semaphore.semaphores[i].value;
            self.libc_state.semaphore.semaphores[i].value = value + 1;
        }
    }
}

/// `int sem_post(sem_t *sem);`
pub fn sem_post(env: &mut Environment, sem: MutPtr) -> (r: i32)
    requires
        old(env).wf(),
        old(env).libc_state.semaphore.is_open(sem),
        old(env).libc_state.semaphore.at(sem).value < i32::MAX,
    ensures
        final(env).wf(),
        r == 0,
        incremented(old(env).with_errno(0), *final(env), sem),
{
    set_errno(env, 0);
    env.sem_increment(sem);
    0
}

/// `int sem_wait(sem_t *sem);`
pub fn sem_wait(env: &mut Environment, sem: MutPtr) -> (r: i32)
    requires
        old(env).wf(),
        old(env).libc_state.semaphore.is_open(sem),
    ensures
        final(env).wf(),
        r == 0,
        decremented(old(env).with_errno(0), *final(env), sem, true, true),
{
    set_errno(env, 0);
    let _ = env.sem_decrement(sem, true);
    0
}

/// `int sem_trywait(sem_t *sem);`
pub fn sem_trywait(env: &mut Environment, sem: MutPtr) -> (r: i32)
    requires
        old(env).wf(),
        old(env).libc_state.semaphore.is_open(sem),
    ensures
        final(env).wf(),
        r == 0 || r == -1,
        decremented(old(env).with_errno(0), *final(env), sem, false, r == 0),
{
    set_errno(env, 0);
    if env.sem_decrement(sem, false) {
        0
    } else {
        -1
    }
}

/// What `semaphore_timedwait` comes to at first.
#[derive(Copy, Clone, Debug, PartialEq, Eq, Structural)]
pub enum TimedWait {
    Done(kern_return_t),
    /// The current thread waits for no more than this many nanoseconds.
    Block(u128),
}

/// A point in time, in nanoseconds.
pub open spec fn nanoseconds(t: mach_timespec_t) -> int {
    t.tv_sec * 1_000_000_000 + t.tv_nsec
}

/// `semaphore_timedwait` from `<mach/semaphore.h>`, up to where the thread may
/// have to wait.
///
/// This is a Mach kernel primitive, distinct from POSIX `sem_wait`/
/// `sem_timedwait`: it takes a `mach_timespec_t` (absolute deadline, wall
/// clock) rather than a relative `struct timespec`, and it returns a
/// `kern_return_t` (`KERN_SUCCESS` / `KERN_OPERATION_TIMED_OUT` /
/// `KERN_INVALID_ARGUMENT`) rather than the POSIX `0`/`-1` + `errno`
/// convention. `now` is the current time in nanoseconds since the UNIX epoch.
pub fn semaphore_timedwait(
    env: &mut Environment,
    sem: MutPtr,
    wait_time: mach_timespec_t,
    now: u128,
) -> (r: TimedWait)
    requires
        old(env).wf(),
    ensures
        final(env).wf(),
        ({
            let s = old(env).libc_state.semaphore;
            if !s.is_open(sem) {
                r == TimedWait::Done(KERN_INVALID_ARGUMENT) && *final(env) == *old(env)
            } else if s.at(sem).value > 0 {
                &&& r == TimedWait::Done(KERN_SUCCESS)
                &&& decremented(*old(env), *final(env), sem, false, true)
            } else {
                &&& r == TimedWait::Block(
                    if nanoseconds(wait_time) > now {
                        (nanoseconds(wait_time) - now) as u128
                    } else {
                        0
                    },
                )
                &&& decremented(*old(env), *final(env), sem, true, true)
            }
        }),
{
    if !env.libc_state.semaphore.open_semaphores.contains_key(&sem) {
        return TimedWait::Done(KERN_INVALID_ARGUMENT);
    }
    if env.sem_decrement(sem, false) {
        return TimedWait::Done(KERN_SUCCESS);
    }
    let deadline: u128 = wait_time.tv_sec as u128 * 1_000_000_000 + wait_time.tv_nsec as u128;
    // A deadline in the past expires at once.
    let left: u128 = if deadline > now {
        deadline - now
    } else {
        0
    };
    let _ = env.sem_decrement(sem, true);
    TimedWait::Block(left)
}

/// The threads without `thread`, in order.
pub open spec fn without_thread(threads: Seq<ThreadId>, thread: ThreadId) -> Seq<ThreadId>
    decreases threads.len(),
{
    if threads.len() == 0 {
        Seq::empty()
    } else if threads.last() == thread {
        without_thread(threads.drop_last(), thread)
    } else {
        without_thread(threads.drop_last(), thread).push(threads.last())
    }
}

fn drop_thread(threads: &Vec<ThreadId>, thread: ThreadId) -> (r: Vec<ThreadId>)
    ensures
        r@ == without_thread(threads@, thread),
{
    let mut r: Vec<ThreadId> = Vec::new();
    let n: usize = threads.len();
    let mut i: usize = 0;
    assert(threads@.take(0) =~= Seq::empty());
    while i < n
        invariant
            i <= n == threads@.len(),
            r@ == without_thread(threads@.take(i as int), thread),
        decreases n - i,
    {
        assert(threads@.take(i + 1).drop_last() =~= threads@.take(i as int));
        if threads[i] != thread {
            r.push(threads[i]);
        }
        i = i + 1;
    }
    assert(threads@.take(n as int) =~= threads@);
    r
}

/// The end of a `semaphore_timedwait` that had to wait: `acquired` where the
/// semaphore was incremented in time. A thread that waited in vain is no
/// longer counted.
pub fn semaphore_timedwait_end(env: &mut Environment, sem: MutPtr, acquired: bool) -> (r:
    kern_return_t)
    requires
        old(env).wf(),
        old(env).libc_state.semaphore.is_open(sem),
    ensures
        final(env).wf(),
        ({
            let b = old(env).libc_state.semaphore;
            let a = final(env).libc_state.semaphore;
            let i = b.open_semaphores@[sem] as int;
            if acquired {
                r == KERN_SUCCESS && *final(env) == *old(env)
            } else {
                &&& r == KERN_OPERATION_TIMED_OUT
                &&& *final(env) == old(env).with_semaphore(a)
                &&& a.set(
                    b,
                    i,
                    b.semaphores@[i].value as int,
                    without_thread(b.semaphores@[i].waiting@, old(env).current_thread),
                )
            }
        }),
{
    if acquired {
        return KERN_SUCCESS;
    }
    let i: usize = match env.libc_state.semaphore.open_semaphores.get(&sem) {
        Some(i) => *i,
        None => {
            return KERN_OPERATION_TIMED_OUT;
        },
    };
    let thread: ThreadId = env.current_thread;
    let waiting: Vec<ThreadId> = drop_thread(
        &env.libc_state.semaphore.semaphores[i].waiting,
        thread,
    );
    env.libc_state.semaphore.semaphores[i].waiting = waiting;
    KERN_OPERATION_TIMED_OUT
}

/// `int sem_close(sem_t *sem);`, of a named semaphore that is open: its guest
/// address is freed, and the semaphore stays under its name.
pub fn sem_close(env: &mut Environment, sem: MutPtr) -> (r: i32)
    requires
        old(env).wf(),
        old(env).libc_state.semaphore.is_open(sem),
        old(env).libc_state.semaphore.at(sem).named,
        old(env).libc_state.semaphore.at(sem).guest_sem is Some,
    ensures
        final(env).wf(),
        r == 0,
        ({
            let b = old(env).libc_state.semaphore;
            let a = final(env).libc_state.semaphore;
            let i = b.open_semaphores@[sem] as int;
            &&& *final(env) == old(env).with_errno(0).with_mem(final(env).mem).with_semaphore(a)
            &&& final(env).mem.released(old(env).mem, b.at(sem).guest_sem->0)
            &&& a.named_semaphores == b.named_semaphores
            &&& a.open_semaphores@ == b.open_semaphores@.remove(sem)
            &&& a.semaphores@ == b.semaphores@.update(
                i,
                (SemaphoreHostObject { guest_sem: None, ..b.semaphores@[i] }),
            )
        }),
{
    set_errno(env, 0);
    let i: usize = match env.libc_state.semaphore.open_semaphores.remove(&sem) {
        Some(i) => i,
        None => 0,
    };
    proof {
        let b = old(env).libc_state.semaphore;
        assert(env.libc_state.semaphore.open_semaphores@ =~= b.open_semaphores@.remove(sem));
        assert(i == b.open_semaphores@[sem]);
    }
    let guest_sem: Option<MutPtr> = env.libc_state.semaphore.semaphores[i].guest_sem;
    if let Some(p) = guest_sem {
        env.mem.free(p);
    }
    env.libc_state.semaphore.semaphores[i].guest_sem = None;
    assert(env.libc_state.semaphore.semaphores@
        =~= old(env).libc_state.semaphore.semaphores@.update(
        i as int,
        SemaphoreHostObject {
            guest_sem: None,
            ..old(env).libc_state.semaphore.semaphores@[i as int]
        },
    ));
    0
}

/// `int sem_unlink(const char *name);`: the name is forgotten, and the semaphore
/// stays where it is open.
pub fn sem_unlink(env: &mut Environment, name: ConstPtr) -> (r: i32)
    requires
        old(env).wf(),
        old(env).mem.valid(name as int, 0),
        valid_utf8(old(env).mem.cstr(name as int)),
    ensures
        final(env).wf(),
        r == 0,
        ({
            let b = old(env).libc_state.semaphore;
            let a = final(env).libc_state.semaphore;
            match name_index(
                b.named_semaphores@,
                decode_utf8(old(env).mem.cstr(name as int)),
                0,
            ) {
                Some(k) => {
                    &&& *final(env) == old(env).with_errno(0).with_semaphore(
                        (State { named_semaphores: a.named_semaphores, ..b }),
                    )
                    &&& a.named_semaphores@ == b.named_semaphores@.remove(k)
                },
                None => *final(env) == old(env).with_errno(0),
            }
        }),
{
    set_errno(env, 0);
    let sem_name: Vec<char> = match env.mem.cstr_at_utf8(name) {
        Some(text) => chars_of(text.as_str()),
        None => Vec::new(),
    };
    if let Some(k) = find_name(&env.libc_state.semaphore.named_semaphores, &sem_name) {
        let _ = env.libc_state.semaphore.named_semaphores.remove(k);
        proof {
            let b = old(env).libc_state.semaphore.named_semaphores@;
            let a = env.libc_state.semaphore.named_semaphores@;
            assert(a == b.remove(k as int));
            assert forall|i: int| 0 <= i < a.len() implies (#[trigger] a[i]) == (if i < k {
                b[i]
            } else {
                b[i + 1]
            }) by {}
            assert(env.libc_state.semaphore.wf()) by {
                assert forall|i: int, j: int|
                    #![trigger a[i], a[j]]
                    0 <= i < j < a.len() implies a[i].name@ != a[j].name@ by {
                    if i < k {
                        if j < k {
                            assert(b[i].name@ != b[j].name@);
                        } else {
                            assert(b[i].name@ != b[j + 1].name@);
                        }
                    } else {
                        assert(b[i + 1].name@ != b[j + 1].name@);
                    }
                }
            }
        }
    }
    0
}

/// Shortcut for host code to make an unnamed semaphore. Destroy with
/// host_destroy_semaphore, not sem_destroy
pub fn host_create_semaphore(env: &mut Environment, value: u32) -> (r: MutPtr)
    requires
        old(env).wf(),
        old(env).mem.has_room(4),
    ensures
        final(env).wf(),
        exists|placed: Environment| #[trigger]
            cell_placed(*old(env), placed, r) && sem_init_done(
                placed,
                *final(env),
                r,
                value as int,
            ),
{
    let zero: Vec<u8> = vec![0, 0, 0, 0];
    proof {
        lemma_le_bytes_4(0);
        assert(zero@ =~= le_bytes(0, 4));
    }
    let sem: u32 = env.mem.alloc_and_write(&zero);
    assert(cell_placed(*old(env), *env, sem));
    let _ = sem_init(env, sem, 0, value);
    sem
}

/// A zero word was put into a new chunk at `ptr`.
pub open spec fn cell_placed(before: Environment, after: Environment, ptr: MutPtr) -> bool {
    &&& after == before.with_mem(after.mem)
    &&& after.mem.placed(before.mem, ptr, le_bytes(0, 4))
}

pub fn host_destroy_semaphore(env: &mut Environment, sem: MutPtr)
    requires
        old(env).wf(),
        old(env).libc_state.semaphore.is_open(sem) ==> !old(env).libc_state.semaphore.at(sem).named,
    ensures
        final(env).wf(),
        exists|destroyed: Environment, r: int| #[trigger]
            sem_destroy_done(*old(env), destroyed, sem, r) && *final(env) == destroyed.with_mem(
                final(env).mem,
            ) && final(env).mem.released(destroyed.mem, sem),
{
    let r: i32 = sem_destroy(env, sem);
    assert(sem_destroy_done(*old(env), *env, sem, r as int));
    env.mem.free(sem);
}

/// Posting undoes a wait that did not block: the semaphore has its value back.
pub proof fn law_wait_post(
    before: Environment,
    waited: Environment,
    posted: Environment,
    sem: MutPtr,
)
    requires
        before.wf(),
        before.libc_state.semaphore.is_open(sem),
        before.libc_state.semaphore.at(sem).value > 0,
        before.libc_state.semaphore.at(sem).waiting@.len() == 0,
        decremented(before, waited, sem, true, true),
        incremented(waited, posted, sem),
    ensures
        posted.libc_state.semaphore.at(sem).value == before.libc_state.semaphore.at(sem).value,
        posted.libc_state.semaphore.at(sem).waiting@
            == before.libc_state.semaphore.at(sem).waiting@,
{
}

/// A thread that waits is the one that a post lets go on, if none waited
/// before it; the value does not change.
pub proof fn law_post_wakes(
    before: Environment,
    waited: Environment,
    posted: Environment,
    sem: MutPtr,
)
    requires
        before.wf(),
        before.libc_state.semaphore.is_open(sem),
        before.libc_state.semaphore.at(sem).value <= 0,
        before.libc_state.semaphore.at(sem).waiting@.len() == 0,
        decremented(before, waited, sem, true, true),
        incremented(waited, posted, sem),
    ensures
        waited.libc_state.semaphore.at(sem).waiting@ == seq![before.current_thread],
        posted.libc_state.semaphore.at(sem).waiting@.len() == 0,
        posted.libc_state.semaphore.at(sem).value == before.libc_state.semaphore.at(sem).value,
{
    assert(waited.libc_state.semaphore.at(sem).waiting@ =~= seq![before.current_thread]);
}

/// Making a semaphore where there is one changes nothing but `errno`.
pub proof fn law_sem_init_twice(
    before: Environment,
    once: Environment,
    twice: Environment,
    sem: MutPtr,
    value: int,
    other: int,
)
    requires
        before.wf(),
        sem_init_done(before, once, sem, value),
        sem_init_done(once, twice, sem, other),
    ensures
        twice == once.with_errno(0),
{
}

/// What was made with a name is found under it again, until it is unlinked.
pub proof fn law_sem_open_again(
    before: Environment,
    opened: Environment,
    again: Environment,
    name: Seq<char>,
    flags: i32,
    more: i32,
    value: int,
    other: int,
    r: MutPtr,
    s: MutPtr,
)
    requires
        before.wf(),
        name_index(before.libc_state.semaphore.named_semaphores@, name, 0) is None,
        flags & O_CREAT != 0,
        more & O_EXCL != 0,
        sem_open_done(before, opened, name, flags, value, r),
        sem_open_done(opened, again, name, more, other, s),
    ensures
        s == r,
        again == opened.with_errno(0),
{
    let b = before.libc_state.semaphore;
    let named = choose|named: Environment| #[trigger]
        sem_named(before.with_errno(0), named, name, value) && sem_opened(
            named,
            opened,
            b.semaphores@.len() as int,
            r,
        );
    let names = opened.libc_state.semaphore.named_semaphores@;
    let k = b.named_semaphores@.len() as int;
    assert forall|i: int| 0 <= i < k implies (#[trigger] names[i]).name@ != name by {
        if names[i].name@ == name {
            lemma_name_found(b.named_semaphores@, name, 0, i);
        }
    }
    lemma_name_index_is(names, name, 0, k);
}

proof fn lemma_name_found(names: Seq<SemaphoreName>, name: Seq<char>, from: int, k: int)
    requires
        0 <= from <= k < names.len(),
        names[k].name@ == name,
    ensures
        name_index(names, name, from) is Some,
    decreases k - from,
{
    if from < k && names[from].name@ != name {
        lemma_name_found(names, name, from + 1, k);
    }
}

} // verus!
