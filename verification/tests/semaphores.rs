//! Semaphores.
use hyperhle::environment::{Bundle, Environment};
use hyperhle::fs::Fs;
use hyperhle::libc::errno::EINVAL;
use hyperhle::libc::posix_io::{O_CREAT, O_EXCL};
use hyperhle::libc::semaphore;
use hyperhle::libc::semaphore::{
    mach_timespec_t, TimedWait, KERN_INVALID_ARGUMENT, KERN_OPERATION_TIMED_OUT, KERN_SUCCESS,
    SEM_FAILED,
};
use hyperhle::mem::Mem;
use hyperhle::objc::KnownClasses;

fn chars(s: &str) -> Vec<char> {
    s.chars().collect()
}

fn guest() -> Environment {
    let bundle = Bundle {
        bundle_path: chars("/App.app"),
        executable_path: chars("/App.app/App"),
        bundle_identifier: b"org.example.app".to_vec(),
    };
    let classes = KnownClasses {
        ns_dictionary: 0x10,
        ns_mutable_dictionary: 0x20,
        cg_context: 0x30,
        cg_data_provider: 0x40,
        cg_font: 0x50,
    };
    let mut env = Environment::new(Mem::new(0x40000), Fs::new(1 << 20), bundle, classes);
    env.fs.create_dir(&chars("/App.app")).unwrap();
    env
}

fn cstr(env: &mut Environment, s: &str) -> u32 {
    env.mem.alloc_and_write_cstr(&s.as_bytes().to_vec())
}

#[test]
fn waiting_and_posting() {
    let mut env = guest();
    let sem = env.mem.allocate(4);
    assert_eq!(semaphore::sem_init(&mut env, sem, 0, 1), 0);
    assert_eq!(semaphore::sem_wait(&mut env, sem), 0);
    assert_eq!(semaphore::sem_trywait(&mut env, sem), -1);
    assert_eq!(semaphore::sem_post(&mut env, sem), 0);
    assert_eq!(semaphore::sem_trywait(&mut env, sem), 0);
    assert_eq!(env.libc_state.semaphore.semaphores[0].value, 0);
    assert_eq!(semaphore::sem_destroy(&mut env, sem), 0);
    assert_eq!(semaphore::sem_destroy(&mut env, sem), EINVAL);
}

#[test]
fn a_post_wakes_the_first_waiter() {
    let mut env = guest();
    let sem = env.mem.allocate(4);
    semaphore::sem_init(&mut env, sem, 0, 0);
    env.current_thread = 5;
    semaphore::sem_wait(&mut env, sem);
    env.current_thread = 6;
    semaphore::sem_wait(&mut env, sem);
    assert_eq!(env.libc_state.semaphore.semaphores[0].waiting, vec![5, 6]);
    semaphore::sem_post(&mut env, sem);
    assert_eq!(env.libc_state.semaphore.semaphores[0].waiting, vec![6]);
}

#[test]
fn named_semaphores() {
    let mut env = guest();
    let name = cstr(&mut env, "/lock");
    let a = semaphore::sem_open(&mut env, name, O_CREAT, 0, 3);
    assert_ne!(a, SEM_FAILED);
    assert_eq!(semaphore::sem_open(&mut env, name, O_CREAT, 0, 9), SEM_FAILED);
    let b = semaphore::sem_open(&mut env, name, O_CREAT | O_EXCL, 0, 1);
    assert_eq!(a, b);
    assert_eq!(env.libc_state.semaphore.semaphores[0].value, 3);
    let other = cstr(&mut env, "/none");
    assert_eq!(semaphore::sem_open(&mut env, other, 0, 0, 1), SEM_FAILED);
    assert_eq!(semaphore::sem_close(&mut env, a), 0);
    assert_eq!(semaphore::sem_unlink(&mut env, name), 0);
    assert!(env.libc_state.semaphore.named_semaphores.is_empty());
}

#[test]
fn timed_waits() {
    let mut env = guest();
    let sem = semaphore::host_create_semaphore(&mut env, 1);
    let at = mach_timespec_t { tv_sec: 10, tv_nsec: 5 };
    assert_eq!(
        semaphore::semaphore_timedwait(&mut env, sem, at, 0),
        TimedWait::Done(KERN_SUCCESS)
    );
    assert_eq!(
        semaphore::semaphore_timedwait(&mut env, sem, at, 9_000_000_000),
        TimedWait::Block(1_000_000_005)
    );
    assert_eq!(
        semaphore::semaphore_timedwait_end(&mut env, sem, false),
        KERN_OPERATION_TIMED_OUT
    );
    assert!(env.libc_state.semaphore.semaphores[0].waiting.is_empty());
    assert_eq!(
        semaphore::semaphore_timedwait(&mut env, sem, at, 11_000_000_000),
        TimedWait::Block(0)
    );
    assert_eq!(semaphore::semaphore_timedwait_end(&mut env, sem, true), KERN_SUCCESS);
    assert_eq!(
        semaphore::semaphore_timedwait(&mut env, 0x9999, at, 0),
        TimedWait::Done(KERN_INVALID_ARGUMENT)
    );
    semaphore::host_destroy_semaphore(&mut env, sem);
    assert!(env.libc_state.semaphore.open_semaphores.is_empty());
}
