//! `stdlib.h` and what stands beside it.
use hyperhle::environment::{Bundle, Environment};
use hyperhle::fs::Fs;
use hyperhle::libc::errno::EINVAL;
use hyperhle::libc::stdlib::arith;
use hyperhle::libc::stdlib::convert;
use hyperhle::libc::stdlib::files;
use hyperhle::libc::stdlib::ints;
use hyperhle::libc::stdlib::ints::TextSource;
use hyperhle::libc::stdlib::numbers;
use hyperhle::libc::stdlib::program;
use hyperhle::libc::stdlib::program::SearchStep;
use hyperhle::libc::stdlib::random;
use hyperhle::libc::stdlib::stubs;
use hyperhle::libc::stdlib::temp;
use hyperhle::libc::stdlib::uuid;
use hyperhle::mem::Mem;
use hyperhle::objc::KnownClasses;

fn chars(s: &str) -> Vec<char> {
    s.chars().collect()
}

fn guest() -> Environment {
    let bundle = Bundle {
        bundle_path: chars("/App.app"),
        executable_path: chars("/App.app/App"),
        bundle_identifier: b"org.example.app".to_vec(),
    };
    let classes = KnownClasses {
        ns_dictionary: 0x10,
        ns_mutable_dictionary: 0x20,
        cg_context: 0x30,
        cg_data_provider: 0x40,
        cg_font: 0x50,
    };
    let mut env = Environment::new(Mem::new(0x40000), Fs::new(1 << 20), bundle, classes);
    env.fs.create_dir(&chars("/App.app")).unwrap();
    env
}

fn cstr(env: &mut Environment, s: &str) -> u32 {
    env.mem.alloc_and_write_cstr(&s.as_bytes().to_vec())
}

fn indexed(text: &[u8]) -> TextSource {
    TextSource { chars: text.to_vec(), at: 0, indexed: true }
}

fn stream(text: &[u8]) -> TextSource {
    TextSource { chars: text.to_vec(), at: 0, indexed: false }
}

#[test]
fn integers_are_parsed() {
    let mut env = guest();
    let end = env.mem.allocate(4);
    let s = cstr(&mut env, "  -42x");
    assert_eq!(ints::strtol(&mut env, s, end, 10), -42);
    assert_eq!(env.mem.read_u32(end), s + 5);
    assert_eq!(ints::atoi(&mut env, s), -42);
    assert_eq!(ints::strtoul(&mut env, s, end, 10), 42u32.wrapping_neg());
    let s = cstr(&mut env, "0x1fZ");
    assert_eq!(ints::strtoul(&mut env, s, end, 0), 31);
    assert_eq!(env.mem.read_u32(end), s + 4);
    let s = cstr(&mut env, "017");
    assert_eq!(ints::strtol(&mut env, s, end, 0), 15);
    let s = cstr(&mut env, "08");
    assert_eq!(ints::strtol(&mut env, s, end, 0), 0);
    assert_eq!(env.mem.read_u32(end), s + 1);
    let s = cstr(&mut env, "99999999999");
    assert_eq!(ints::strtoul(&mut env, s, end, 10), u32::MAX);
    assert_eq!(ints::strtol(&mut env, s, end, 10), i32::MAX);
    assert_eq!(ints::strtoull(&mut env, s, end, 10), 99_999_999_999);
    let s = cstr(&mut env, "none");
    assert_eq!(ints::strtol(&mut env, s, end, 10), 0);
    assert_eq!(env.mem.read_u32(end), s);
    let scan = |text: &[u8], base, max| {
        ints::str_to_int_inner_generic::<i32>(&mut indexed(text), 0, base, max)
    };
    assert_eq!(scan(b"12345", 10, 3), Ok((123, 3)));
    assert_eq!(scan(b"zz", 36, 9), Ok((1295, 2)));
    assert_eq!(scan(b"-", 10, 9), Err(()));
}

#[test]
fn floating_point_texts() {
    let text = numbers::number_text(&mut indexed(b"  -1.5e3abc"), 0);
    assert_eq!(text.spaces, 2);
    assert_eq!(text.text, b"-1.5e3".to_vec());
    let (digits, point) = numbers::split_digits(&b"12.345".to_vec());
    assert_eq!(digits, b"12345".to_vec());
    assert_eq!(point, 2);
    let mut env = guest();
    let decpt = env.mem.allocate(4);
    let sign = env.mem.allocate(4);
    let p = numbers::_fcvt(&mut env, &b"3.25".to_vec(), true, decpt, sign);
    assert_eq!(env.mem.cstr_at(p), b"325".to_vec());
    assert_eq!(env.mem.read_i32(decpt), 1);
    assert_eq!(env.mem.read_i32(sign), 1);
}

#[test]
fn division() {
    let mut env = guest();
    let r = arith::div(&mut env, -7, 2);
    assert_eq!((r.quot, r.rem), (-3, -1));
    assert_eq!(arith::__divsi3(&mut env, 7, -2), -3);
    assert_eq!(arith::__modsi3(&mut env, 7, -2), 1);
    assert_eq!(arith::__umodsi3(&mut env, 7, 4), 3);
    assert_eq!(arith::__divdi3(&mut env, -9, 2), -4);
    assert_eq!(arith::__moddi3(&mut env, -9, 2), -1);
    assert_eq!(arith::__muldi3(&mut env, u64::MAX, 2), u64::MAX - 1);
    let rem = env.mem.allocate(4);
    assert_eq!(arith::__udivmodsi4(&mut env, 17, 5, rem), 3);
    assert_eq!(env.mem.read_u32(rem), 2);
}

#[test]
fn generators() {
    let mut env = guest();
    assert_eq!(random::prng(1), 270369);
    assert_eq!(random::prng(0), 270369);
    random::srand(&mut env, 1);
    assert_eq!(random::rand(&mut env), 270369);
    random::srandom(&mut env, 1);
    assert_eq!(random::random(&mut env), 270369);
    assert_eq!(random::arc4random(&mut env), 270369);
    for _ in 0..100 {
        assert!(random::arc4random_uniform(&mut env, 6) < 6);
    }
    assert_eq!(random::arc4random_uniform(&mut env, 0), 0);
}

#[test]
fn the_48_bit_generator() {
    let mut env = guest();
    random::srand48(&mut env, 0);
    let mut state: u64 = 0x330e;
    for _ in 0..10 {
        state = state.wrapping_mul(0x5_deec_e66d).wrapping_add(0xb) & 0xffff_ffff_ffff;
        assert_eq!(random::lrand48(&mut env), (state >> 17) as i32);
    }
    let cell = env.mem.allocate(6);
    random::write_xsubi(&mut env, cell, 0x1234_5678_9abc);
    assert_eq!(random::pack_xsubi(&env, cell), 0x1234_5678_9abc);
    let before = env.libc_state.stdlib.drand48.state;
    assert!(random::nrand48(&mut env, cell) >= 0);
    assert_eq!(env.libc_state.stdlib.drand48.state, before);
}

#[test]
fn environment_variables() {
    let mut env = guest();
    let name = cstr(&mut env, "HOME");
    let value = cstr(&mut env, "/root");
    let other = cstr(&mut env, "/other");
    assert_eq!(program::getenv(&mut env, name), 0);
    assert_eq!(program::setenv(&mut env, name, value, 1), 0);
    let p = program::getenv(&mut env, name);
    assert_eq!(env.mem.cstr_at(p), b"/root".to_vec());
    assert_eq!(program::setenv(&mut env, name, other, 0), 0);
    let p = program::getenv(&mut env, name);
    assert_eq!(env.mem.cstr_at(p), b"/root".to_vec());
    assert_eq!(program::setenv(&mut env, name, other, 1), 0);
    let p = program::getenv(&mut env, name);
    assert_eq!(env.mem.cstr_at(p), b"/other".to_vec());
    assert_eq!(program::unsetenv(&mut env, name), 0);
    assert_eq!(program::getenv(&mut env, name), 0);
}

#[test]
fn handlers_run_last_first() {
    let mut env = guest();
    assert_eq!(program::atexit(&mut env, 0x100), 0);
    assert_eq!(program::atexit(&mut env, 0x200), 0);
    assert_eq!(program::exit(&mut env, 0), vec![0x200, 0x100]);
}

#[test]
fn binary_search() {
    let items = [2, 4, 6, 8, 10];
    for key in 0..12 {
        let (mut range, mut step) = program::bsearch(0x1000, 5, 4);
        let found = loop {
            match step {
                SearchStep::Compare(at) => {
                    let item: i32 = items[((at - 0x1000) / 4) as usize];
                    let next = program::bsearch_next(0x1000, 5, 4, range, key - item);
                    range = next.0;
                    step = next.1;
                }
                SearchStep::Found(at) => break Some(items[((at - 0x1000) / 4) as usize]),
                SearchStep::NotFound => break None,
            }
        };
        assert_eq!(found, items.iter().copied().find(|i| *i == key));
    }
}

#[test]
fn blocks_run_once() {
    let mut env = guest();
    let predicate = env.mem.calloc(4);
    let block = env.mem.calloc(16);
    env.mem.write_u32(block + 12, 0x4001);
    let call = program::dispatch_once(&mut env, predicate, block);
    assert_eq!(call.unwrap().func, 0x4001);
    assert!(program::dispatch_once(&mut env, predicate, block).is_none());
}

#[test]
fn temporary_names() {
    let mut env = guest();
    let template = cstr(&mut env, "/App.app/fileXXXXXX");
    assert_eq!(temp::fill_template_xxxxxx(&mut env, template), Some(13));
    let name = env.mem.cstr_at(template);
    assert_eq!(&name[..13], b"/App.app/file");
    assert!(name[13..].iter().all(|c| c.is_ascii_alphanumeric()));
    let template = cstr(&mut env, "/App.app/fileXXXXXX");
    assert_eq!(temp::mkstemp(&mut env, template), 3);
    let bad = cstr(&mut env, "/App.app/fileXXXXX");
    assert_eq!(temp::mkstemp(&mut env, bad), -1);
    assert_eq!(env.libc_state.errno.value, EINVAL);
    let template = cstr(&mut env, "/App.app/dirXXXXXX");
    assert_eq!(temp::mkdtemp(&mut env, template), template);
    let name: Vec<char> = env.mem.cstr_at_utf8(template).unwrap().chars().collect();
    assert!(env.fs.is_dir(&name));
}

#[test]
fn real_paths() {
    let mut env = guest();
    let name = cstr(&mut env, "a/../b");
    let out = env.mem.allocate(64);
    assert_eq!(files::realpath(&mut env, name, out), out);
    assert_eq!(env.mem.cstr_at(out), b"/b".to_vec());
    let size = env.mem.allocate(4);
    env.mem.write_u32(size, 64);
    assert_eq!(files::_NSGetExecutablePath(&mut env, out, size), 0);
    assert_eq!(env.mem.cstr_at(out), b"/App.app/App".to_vec());
    env.mem.write_u32(size, 4);
    assert_eq!(files::_NSGetExecutablePath(&mut env, out, size), -1);
    assert_eq!(files::read_cstr_safe(&mut env, name), "a/../b".to_string());
}

#[test]
fn multibyte_characters() {
    let mut env = guest();
    let s = cstr(&mut env, "\u{e9}x");
    let wide = env.mem.allocate(32);
    assert_eq!(convert::mbtowc_l(&mut env, wide, s, 4, 0), 2);
    assert_eq!(env.mem.read_u32(wide), 0xe9);
    assert_eq!(convert::mbtowc_l(&mut env, 0, s + 1, 4, 0), -1);
    let s = cstr(&mut env, "ab");
    assert_eq!(convert::mbstowcs(&mut env, wide, s, 8), 2);
    assert_eq!(env.mem.read_u32(wide + 4), 'b' as u32);
    let narrow = env.mem.allocate(8);
    assert_eq!(convert::wcstombs(&mut env, narrow, wide, 8), 2);
    assert_eq!(env.mem.cstr_at(narrow), b"ab".to_vec());
    env.mem.write_u32(wide, '1' as u32);
    env.mem.write_u32(wide + 4, '7' as u32);
    assert_eq!(convert::wcstoul(&mut env, wide, 0, 8), 15);
    assert_eq!(convert::wcstr_at(&env.mem, wide), vec!['1', '7']);
    env.mem.write_u32(wide, 0xe9);
    assert_eq!(convert::wcstr_at(&env.mem, wide), vec!['\u{e9}', '7']);
}

#[test]
fn unique_identifiers() {
    let mut env = guest();
    let p = uuid::CFUUIDCreate(&mut env, 0);
    let text = uuid::uuid_string_at(&env, p);
    assert_eq!(text.len(), 36);
    assert_eq!(text[8], b'-');
    assert_eq!(text[14], b'4');
    assert!(b"89AB".contains(&text[19].to_ascii_uppercase()));
    uuid::CFUUIDRelease(&mut env, p);
    assert!(!env.mem.is_known_allocation(p));
}

#[test]
fn fixed_answers() {
    let mut env = guest();
    assert_eq!(stubs::inflateReset2(&mut env, 0, 15), 0);
    assert_eq!(stubs::_Block_copy(&mut env, 0x77), 0x77);
    assert!(stubs::__stack_chk_fail(&mut env).len() > 0);
}

#[test]
fn seeds_and_limbs() {
    let mut env = guest();
    let cell = env.mem.allocate(14);
    random::write_xsubi(&mut env, cell, 0x1234_abcd_330e);
    let old = random::seed48(&mut env, cell);
    assert_eq!(random::pack_xsubi(&env, old), 0x1234_abcd_330e);
    let first = random::mrand48(&mut env);
    random::write_xsubi(&mut env, cell, 0x1234_abcd_330e);
    assert_eq!(random::jrand48(&mut env, cell), first);
    random::write_xsubi(&mut env, cell, 5);
    random::write_xsubi(&mut env, cell + 6, 3);
    env.mem.write_u16(cell + 12, 7);
    random::lcong48(&mut env, cell);
    assert_eq!(random::drand48_bits(&mut env), 3 * 5 + 7);
    random::write_xsubi(&mut env, cell, 100);
    assert_eq!(random::erand48_bits(&mut env, cell), 307);
    assert_eq!(random::pack_xsubi(&env, cell), 307);
}

#[test]
fn guards() {
    let mut env = guest();
    let guard = env.mem.calloc(8);
    assert_eq!(program::__cxa_guard_acquire(&mut env, guard), 1);
    program::__cxa_guard_release(&mut env, guard);
    assert_eq!(program::__cxa_guard_acquire(&mut env, guard), 0);
}

#[test]
fn commands() {
    let mut env = guest();
    assert_eq!(files::system(&mut env, 0), 1);
    let command = cstr(&mut env, "ls /");
    assert_eq!(files::system(&mut env, command), 0);
    let command = cstr(&mut env, "  mkdir -p\u{3000}/App.app/a/b ");
    assert_eq!(files::system(&mut env, command), 0);
    assert!(env.fs.is_dir(&chars("/App.app/a/b")));
    let command = cstr(&mut env, "mkdir -p");
    assert_eq!(files::system(&mut env, command), 1);
    let command = cstr(&mut env, "   ");
    assert_eq!(files::system(&mut env, command), 0);
}

#[test]
fn ends_of_numbers_are_stored() {
    let mut env = guest();
    let s = cstr(&mut env, " 2.5kg");
    let end = env.mem.allocate(4);
    let number = numbers::number_text_at(&env, s);
    assert_eq!(number.text, b"2.5".to_vec());
    numbers::store_number_end(&mut env, s, end, &number, true);
    assert_eq!(env.mem.read_u32(end), s + 4);
    numbers::store_number_end(&mut env, s, end, &number, false);
    assert_eq!(env.mem.read_u32(end), s);
    let buf = env.mem.allocate(16);
    assert_eq!(numbers::_gcvt(&mut env, &b"2.50".to_vec(), buf), buf);
    assert_eq!(env.mem.cstr_at(buf), b"2.50".to_vec());
    let (digits, point) = numbers::split_digits(&b"0.5".to_vec());
    assert_eq!((digits, point), (b"5".to_vec(), 0));
}

#[test]
fn taken_names_are_tried_again() {
    let mut env = guest();
    let state = env.libc_state.stdlib.arc4random;
    let first = cstr(&mut env, "/App.app/fileXXXXXX");
    assert_eq!(temp::mkstemp(&mut env, first), 3);
    env.libc_state.stdlib.arc4random = state;
    let second = cstr(&mut env, "/App.app/fileXXXXXX");
    assert_eq!(temp::mkstemp(&mut env, second), 4);
    assert_ne!(env.mem.cstr_at(first), env.mem.cstr_at(second));
    let state = env.libc_state.stdlib.arc4random;
    let first = cstr(&mut env, "/App.app/dirXXXXXX");
    assert_eq!(temp::mkdtemp(&mut env, first), first);
    env.libc_state.stdlib.arc4random = state;
    let second = cstr(&mut env, "/App.app/dirXXXXXX");
    assert_eq!(temp::mkdtemp(&mut env, second), second);
    assert_ne!(env.mem.cstr_at(first), env.mem.cstr_at(second));
    for name in [first, second] {
        let path: Vec<char> = env.mem.cstr_at_utf8(name).unwrap().chars().collect();
        assert!(env.fs.is_dir(&path));
    }
}

#[test]
fn numbers_end_where_they_end() {
    let mut env = guest();
    let end = env.mem.allocate(4);
    let s = 0x40000 - 3;
    env.mem.write_bytes(s, &b"12x".to_vec());
    assert_eq!(ints::strtoul(&mut env, s, end, 10), 12);
    assert_eq!(env.mem.read_u32(end), s + 2);
}

#[test]
fn wide_characters_over_their_source() {
    let mut env = guest();
    let s = env.mem.allocate(16);
    env.mem.write_bytes(s, &b"ab\0".to_vec());
    assert_eq!(convert::mbstowcs(&mut env, s, s, 2), 2);
    assert_eq!(env.mem.read_u32(s), 'a' as u32);
    assert_eq!(env.mem.read_u32(s + 4), 0);
}

#[test]
fn scans_consume_what_they_take() {
    let scan = |text: &[u8], base, max| {
        let mut source = stream(text);
        let r = ints::str_to_int_inner_generic::<i32>(&mut source, 0, base, max);
        (r, source.at)
    };
    assert_eq!(scan(b"  -42x", 10, 0), (Ok((-42, 5)), 5));
    assert_eq!(scan(b"0x1fz", 0, 0), (Ok((31, 4)), 4));
    assert_eq!(scan(b"0xz", 16, 0), (Err(()), 2));
    assert_eq!(scan(b" +x", 10, 0), (Err(()), 2));
    assert_eq!(scan(b"   ", 10, 0), (Err(()), 3));
    assert_eq!(scan(b"12345", 10, 3), (Ok((123, 3)), 3));
    assert_eq!(scan(b"0178", 8, 0), (Ok((15, 4)), 3));
    assert_eq!(scan(b"0178", 0, 0), (Ok((15, 4)), 3));
    assert_eq!(scan(b"0777", 8, 3), (Ok((7, 3)), 2));
    let mut source = stream(b"7 8");
    assert_eq!(ints::str_to_int_inner_generic::<u32>(&mut source, 0, 10, 0), Ok((7, 1)));
    assert_eq!(ints::count_whitespace_generic(&mut source, 0), Ok(1));
    assert_eq!(ints::str_to_int_inner_generic::<u32>(&mut source, 0, 10, 0), Ok((8, 1)));
    assert_eq!(ints::count_whitespace_generic(&mut source, 0), Err(0));
    let mut source = indexed(b"ab 017");
    assert_eq!(ints::str_to_int_inner_generic::<u32>(&mut source, 2, 8, 0), Ok((15, 4)));
    assert_eq!(source.at, 0);
    let mut source = stream(b" -1.5e+x");
    let text = numbers::number_text(&mut source, 0);
    assert_eq!((text.spaces, text.text, source.at), (1, b"-1.5e+".to_vec(), 7));
}

#[test]
fn variables_that_stay_need_no_room() {
    let mut env = guest();
    let name = cstr(&mut env, "HOME");
    let value = cstr(&mut env, "/root");
    let other = cstr(&mut env, "/user");
    assert_eq!(program::setenv(&mut env, name, value, 1), 0);
    while env.mem.allocate(16) != 0 {}
    assert_eq!(program::setenv(&mut env, name, other, 0), 0);
    let p = program::getenv(&mut env, name);
    assert_eq!(env.mem.cstr_at(p), b"/root".to_vec());
    assert_eq!(program::setenv(&mut env, name, other, 1), 0);
    let p = program::getenv(&mut env, name);
    assert_eq!(env.mem.cstr_at(p), b"/user".to_vec());
}
