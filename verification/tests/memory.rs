//! Guest memory and its heap.
use hyperhle::environment::{Bundle, Environment};
use hyperhle::fs::Fs;
use hyperhle::heap::round_heap_size;
use hyperhle::libc::errno::{EINVAL, ENOMEM};
use hyperhle::libc::stdlib::allocation;
use hyperhle::mem::Mem;
use hyperhle::mem::{to_signed32, to_unsigned32};
use hyperhle::objc::KnownClasses;

fn chars(s: &str) -> Vec<char> {
    s.chars().collect()
}

fn guest() -> Environment {
    let bundle = Bundle {
        bundle_path: chars("/App.app"),
        executable_path: chars("/App.app/App"),
        bundle_identifier: b"org.example.app".to_vec(),
    };
    let classes = KnownClasses {
        ns_dictionary: 0x10,
        ns_mutable_dictionary: 0x20,
        cg_context: 0x30,
        cg_data_provider: 0x40,
        cg_font: 0x50,
    };
    let mut env = Environment::new(Mem::new(0x40000), Fs::new(1 << 20), bundle, classes);
    env.fs.create_dir(&chars("/App.app")).unwrap();
    env
}

#[test]
fn stored_values_are_loaded() {
    let mut mem = Mem::new(0x100);
    mem.write_u32(0x10, 0x1234_5678);
    assert_eq!(mem.read_u32(0x10), 0x1234_5678);
    assert_eq!(mem.bytes_at(0x10, 4), vec![0x78, 0x56, 0x34, 0x12]);
    assert_eq!(mem.read_u16(0x11), 0x3456);
    mem.write_i64(0x20, -2);
    assert_eq!(mem.read_i64(0x20), -2);
    assert_eq!(mem.read_i32(0x20), -2);
    assert_eq!(mem.read_u32(0x10), 0x1234_5678);
    mem.write_cstr(0x30, &b"text".to_vec());
    assert_eq!(mem.cstr_at(0x30), b"text".to_vec());
    assert_eq!(mem.cstr_at_utf8(0x30), Some("text".to_string()));
    mem.write_bytes(0x30, &vec![0xff, 0]);
    assert_eq!(mem.cstr_at_utf8(0x30), None);
    assert_eq!(to_signed32(0xffff_ffff), -1);
    assert_eq!(to_unsigned32(-1), 0xffff_ffff);
}

#[test]
fn chunks_do_not_overlap() {
    let mut mem = Mem::new(0x4000);
    let a = mem.allocate(10);
    let b = mem.allocate(10);
    assert!(a != 0 && b != 0);
    assert!(a + 10 <= b || b + 10 <= a);
    assert_eq!(a % 16, 0);
    assert_eq!(mem.malloc_size(a), 16);
    assert_eq!(round_heap_size(17), 32);
    assert!(mem.is_known_allocation(a));
    mem.free(a);
    assert!(!mem.is_known_allocation(a));
    assert_eq!(mem.allocate(10), a);
    assert_eq!(mem.allocate(0x10000), 0);
}

#[test]
fn guest_allocation() {
    let mut env = guest();
    let p = allocation::malloc(&mut env, 20);
    env.mem.write_bytes(p, &vec![7; 20]);
    let q = allocation::realloc(&mut env, p, 40);
    assert_eq!(env.mem.bytes_at(q, 20), vec![7; 20]);
    assert_eq!(allocation::malloc_size(&mut env, q), 48);
    let z = allocation::calloc(&mut env, 3, 5);
    assert_eq!(env.mem.bytes_at(z, 15), vec![0; 15]);
    assert_ne!(allocation::calloc(&mut env, 0, 0), 0);
    assert_eq!(allocation::malloc(&mut env, 0x1000_0000), 0);
    assert_eq!(env.libc_state.errno.value, ENOMEM);
    allocation::free(&mut env, q);
    allocation::free(&mut env, 0);
    assert!(!env.mem.is_known_allocation(q));
}

#[test]
fn aligned_allocation() {
    let mut env = guest();
    let cell = env.mem.allocate(4);
    assert_eq!(allocation::posix_memalign(&mut env, cell, 256, 100), 0);
    let p = env.mem.read_u32(cell);
    assert_eq!(p % 256, 0);
    let between = env.mem.allocate(40);
    env.mem.free(cell);
    let cell = env.mem.allocate(4);
    let chunks = env.mem.chunks.len();
    allocation::free(&mut env, p);
    assert_eq!(env.mem.chunks.len(), chunks - 1);
    assert!(env.mem.is_known_allocation(between));
    assert_eq!(allocation::posix_memalign(&mut env, cell, 24, 100), EINVAL);
    assert_eq!(allocation::posix_memalign(&mut env, cell, 2, 100), EINVAL);
    assert_eq!(allocation::posix_memalign(&mut env, 0, 16, 100), EINVAL);
    assert_eq!(allocation::posix_memalign(&mut env, cell, 16, 0x7fff_ffff), ENOMEM);
    assert_eq!(env.libc_state.errno.value, 0);
    let page = allocation::valloc(&mut env, 10);
    assert_eq!(page % 4096, 0);
}
