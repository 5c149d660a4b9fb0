//! What semaphores count, whom they keep waiting, and under which names they are
//! found.
use vstd::prelude::*;

use crate::environment::{Environment, ThreadId};
use crate::libc::semaphore::{
    decremented, incremented, mach_timespec_t, name_index, nanoseconds, sem_destroy_done,
    sem_init_done, sem_named, sem_open_done, sem_opened, without_thread, SemaphoreHostObject,
    SemaphoreName,
};
use crate::mem::MutPtr;

verus! {

/// The semaphore that lies at the address.
pub open spec fn semaphore_at(env: Environment, sem: MutPtr) -> SemaphoreHostObject {
    let s = env.libc_state.semaphore;
    s.semaphores@[s.open_semaphores@[sem] as int]
}

pub open spec fn semaphore_open(env: Environment, sem: MutPtr) -> bool {
    env.libc_state.semaphore.open_semaphores@.contains_key(sem)
}

/// The semaphores but for that at the address are as they were.
pub open spec fn other_semaphores_kept(
    before: Environment,
    after: Environment,
    sem: MutPtr,
) -> bool {
    let b = before.libc_state.semaphore;
    let a = after.libc_state.semaphore;
    &&& a.open_semaphores == b.open_semaphores
    &&& a.named_semaphores == b.named_semaphores
    &&& a.semaphores@.len() == b.semaphores@.len()
    &&& forall|i: int|
        0 <= i < b.semaphores@.len() && i != b.open_semaphores@[sem] ==> #[trigger] a.semaphores@[i]
            == b.semaphores@[i]
}

/// A new semaphore has the value that it was given, nobody waits for it, and it
/// has no name.
pub proof fn law_sem_init(before: Environment, after: Environment, sem: MutPtr, value: int)
    requires
        before.wf(),
        !semaphore_open(before, sem),
        0 <= value < 0x8000_0000,
        before.libc_state.semaphore.semaphores@.len() < 0xffff_ffff,
        sem_init_done(before, after, sem, value),
    ensures
        semaphore_open(after, sem),
        semaphore_at(after, sem).value == value,
        semaphore_at(after, sem).waiting@.len() == 0,
        !semaphore_at(after, sem).named,
        forall|p: MutPtr| #[trigger]
            semaphore_open(before, p) ==> semaphore_open(after, p) && semaphore_at(after, p)
                == semaphore_at(before, p),
        after.libc_state.errno.value == 0,
{
    let n = before.libc_state.semaphore.semaphores.len();
    assert(n == before.libc_state.semaphore.semaphores@.len());
    assert forall|p: MutPtr| #[trigger] semaphore_open(before, p) implies semaphore_open(after, p)
        && semaphore_at(after, p) == semaphore_at(before, p) by {
        assert(before.libc_state.semaphore.wf());
        assert(before.libc_state.semaphore.open_semaphores@.contains_key(p));
    }
}

/// A semaphore that was destroyed is not open any more; what is none is refused
/// with 22.
pub proof fn law_sem_destroy(before: Environment, after: Environment, sem: MutPtr, r: int)
    requires
        sem_destroy_done(before, after, sem, r),
    ensures
        semaphore_open(before, sem) ==> r == 0 && !semaphore_open(after, sem),
        !semaphore_open(before, sem) ==> r == 22 && after == before,
        forall|p: MutPtr| #[trigger]
            semaphore_open(before, p) && p != sem ==> semaphore_open(after, p) && semaphore_at(
                after,
                p,
            ) == semaphore_at(before, p),
{
}

/// Waiting takes one from a value above zero. At zero the thread waits behind
/// those that wait, or is told that it would have to, and the value stays.
pub proof fn law_wait(
    before: Environment,
    after: Environment,
    sem: MutPtr,
    wait: bool,
    r: bool,
)
    requires
        before.wf(),
        semaphore_open(before, sem),
        decremented(before, after, sem, wait, r),
    ensures
        ({
            let b = semaphore_at(before, sem);
            let a = semaphore_at(after, sem);
            &&& b.value > 0 ==> r && a.value == b.value - 1 && a.waiting@ == b.waiting@
            &&& b.value <= 0 && wait ==> {
                &&& r
                &&& a.value == b.value
                &&& a.waiting@.len() == b.waiting@.len() + 1
                &&& a.waiting@[b.waiting@.len() as int] == before.current_thread
                &&& forall|i: int|
                    0 <= i < b.waiting@.len() ==> #[trigger] a.waiting@[i] == b.waiting@[i]
            }
            &&& b.value <= 0 && !wait ==> !r && after == before
            &&& a.named == b.named && a.guest_sem == b.guest_sem
        }),
        other_semaphores_kept(before, after, sem),
        after.mem == before.mem,
{
    assert(before.libc_state.semaphore.wf());
    assert(before.libc_state.semaphore.open_semaphores@.contains_key(sem));
}

/// Posting lets the thread go on that waits longest, or else adds one to the
/// value.
pub proof fn law_post(before: Environment, after: Environment, sem: MutPtr)
    requires
        before.wf(),
        semaphore_open(before, sem),
        semaphore_at(before, sem).value < 0x7fff_ffff,
        incremented(before, after, sem),
    ensures
        ({
            let b = semaphore_at(before, sem);
            let a = semaphore_at(after, sem);
            if b.waiting@.len() > 0 {
                &&& a.value == b.value
                &&& a.waiting@.len() == b.waiting@.len() - 1
                &&& forall|i: int|
                    0 <= i < a.waiting@.len() ==> #[trigger] a.waiting@[i] == b.waiting@[i + 1]
            } else {
                a.value == b.value + 1 && a.waiting@.len() == 0
            }
        }),
        other_semaphores_kept(before, after, sem),
        after.mem == before.mem,
{
    assert(before.libc_state.semaphore.wf());
    assert(before.libc_state.semaphore.open_semaphores@.contains_key(sem));
}

/// A name is found where it first stands.
pub proof fn law_name_index(names: Seq<SemaphoreName>, name: Seq<char>, from: int, i: int)
    requires
        0 <= from <= i <= names.len(),
        i < names.len() ==> names[i].name@ == name,
        forall|j: int| from <= j < i ==> (#[trigger] names[j]).name@ != name,
    ensures
        name_index(names, name, from) == if i < names.len() {
            Some(i)
        } else {
            None
        },
    decreases i - from,
{
    if from < i {
        law_name_index(names, name, from + 1, i);
    }
}

/// Opening a name that is not there makes a semaphore with the value, where the
/// flags ask for it (`0x200`), and fails otherwise; nobody waits for it.
pub proof fn law_sem_open_new(
    before: Environment,
    after: Environment,
    name: Seq<char>,
    oflag: i32,
    value: int,
    r: MutPtr,
)
    requires
        before.wf(),
        0 <= value < 0x8000_0000,
        forall|j: int|
            0 <= j < before.libc_state.semaphore.named_semaphores@.len() ==> (
            #[trigger] before.libc_state.semaphore.named_semaphores@[j]).name@ != name,
        sem_open_done(before, after, name, oflag, value, r),
    ensures
        oflag & 0x200 == 0 ==> {
            &&& r == 0xffff_ffff
            &&& after.libc_state.semaphore == before.libc_state.semaphore
            &&& after.mem == before.mem
        },
        oflag & 0x200 != 0 ==> {
            let names = after.libc_state.semaphore.named_semaphores@;
            let n = before.libc_state.semaphore.named_semaphores@.len() as int;
            &&& semaphore_open(after, r)
            &&& semaphore_at(after, r).value == value
            &&& semaphore_at(after, r).waiting@.len() == 0
            &&& semaphore_at(after, r).named
            &&& semaphore_at(after, r).guest_sem == Some(r)
            &&& names.len() == n + 1
            &&& names[n].name@ == name
            &&& names[n].index == after.libc_state.semaphore.open_semaphores@[r]
        },
        after.libc_state.errno.value == 0,
{
    let s = before.libc_state.semaphore;
    let k = s.semaphores.len();
    assert(k == s.semaphores@.len());
    law_name_index(s.named_semaphores@, name, 0, s.named_semaphores@.len() as int);
    if oflag & 0x200 != 0 {
        let named = choose|named: Environment| #[trigger]
            sem_named(before.with_errno(0), named, name, value)
                && sem_opened(named, after, s.semaphores@.len() as int, r);
        assert(named.libc_state.semaphore.semaphores@.len() == s.semaphores@.len() + 1);
        let m = named.libc_state.semaphore.semaphores.len();
        assert(m == named.libc_state.semaphore.semaphores@.len());
    }
}

/// Opening a name that is there gives the semaphore of that name, where the flags
/// say so (`0x800`), and fails otherwise. One that has an address keeps it.
pub proof fn law_sem_open_named(
    before: Environment,
    after: Environment,
    name: Seq<char>,
    oflag: i32,
    value: int,
    r: MutPtr,
    k: int,
)
    requires
        before.wf(),
        0 <= k < before.libc_state.semaphore.named_semaphores@.len(),
        before.libc_state.semaphore.named_semaphores@[k].name@ == name,
        forall|j: int|
            0 <= j < k ==> (#[trigger] before.libc_state.semaphore.named_semaphores@[j]).name@
                != name,
        sem_open_done(before, after, name, oflag, value, r),
    ensures
        oflag & 0x800 == 0 ==> r == 0xffff_ffff && after.libc_state.semaphore
            == before.libc_state.semaphore && after.mem == before.mem,
        oflag & 0x800 != 0 ==> {
            let i = before.libc_state.semaphore.named_semaphores@[k].index as int;
            let o = before.libc_state.semaphore.semaphores@[i];
            &&& o.guest_sem is Some ==> r == o.guest_sem->0 && after.libc_state.semaphore
                == before.libc_state.semaphore
            &&& o.guest_sem is None ==> {
                &&& semaphore_open(after, r)
                &&& after.libc_state.semaphore.open_semaphores@[r] == i
                &&& semaphore_at(after, r).value == o.value
                &&& semaphore_at(after, r).waiting@ == o.waiting@
                &&& semaphore_at(after, r).guest_sem == Some(r)
            }
        },
{
    let s = before.libc_state.semaphore;
    law_name_index(s.named_semaphores@, name, 0, k);
    let n = s.semaphores.len();
    assert(n == s.semaphores@.len());
    assert(s.named_semaphores@[k].index < s.semaphores@.len());
}

/// A time in nanoseconds is its seconds and its nanoseconds together.
pub proof fn law_nanoseconds(t: mach_timespec_t)
    ensures
        nanoseconds(t) - t.tv_nsec == 1_000_000_000 * t.tv_sec,
{
}

/// Taking a thread from those that wait leaves all others, and in order.
pub proof fn law_without_thread(a: Seq<ThreadId>, b: Seq<ThreadId>, thread: ThreadId)
    requires
        forall|i: int| 0 <= i < a.len() ==> #[trigger] a[i] != thread,
        forall|i: int| 0 <= i < b.len() ==> #[trigger] b[i] != thread,
    ensures
        without_thread(a.push(thread) + b, thread) == a + b,
        without_thread(a, thread) == a,
    decreases b.len(),
{
    lemma_without_none(a, thread);
    let s = a.push(thread) + b;
    if b.len() == 0 {
        assert(s =~= a.push(thread));
        assert(s.drop_last() =~= a);
        assert(a + b =~= a);
    } else {
        let front = b.drop_last();
        assert(b[b.len() - 1] != thread);
        assert forall|i: int| 0 <= i < front.len() implies #[trigger] front[i] != thread by {
            assert(front[i] == b[i]);
        }
        law_without_thread(a, front, thread);
        assert(s.drop_last() =~= a.push(thread) + front);
        assert((a + front).push(b.last()) =~= a + b);
    }
}

proof fn lemma_without_none(a: Seq<ThreadId>, thread: ThreadId)
    requires
        forall|i: int| 0 <= i < a.len() ==> #[trigger] a[i] != thread,
    ensures
        without_thread(a, thread) == a,
    decreases a.len(),
{
    if a.len() > 0 {
        let front = a.drop_last();
        assert(a[a.len() - 1] != thread);
        assert forall|i: int| 0 <= i < front.len() implies #[trigger] front[i] != thread by {
            assert(front[i] == a[i]);
        }
        lemma_without_none(front, thread);
        assert(front.push(a.last()) =~= a);
    } else {
        assert(without_thread(a, thread) =~= a);
    }
}

} // verus!
