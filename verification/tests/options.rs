//! `getopt` and its relatives.
use hyperhle::environment::{Bundle, Environment};
use hyperhle::fs::Fs;
use hyperhle::libc::getopt;
use hyperhle::mem::Mem;
use hyperhle::objc::KnownClasses;

fn chars(s: &str) -> Vec<char> {
    s.chars().collect()
}

fn guest() -> Environment {
    let bundle = Bundle {
        bundle_path: chars("/App.app"),
        executable_path: chars("/App.app/App"),
        bundle_identifier: b"org.example.app".to_vec(),
    };
    let classes = KnownClasses {
        ns_dictionary: 0x10,
        ns_mutable_dictionary: 0x20,
        cg_context: 0x30,
        cg_data_provider: 0x40,
        cg_font: 0x50,
    };
    let mut env = Environment::new(Mem::new(0x40000), Fs::new(1 << 20), bundle, classes);
    env.fs.create_dir(&chars("/App.app")).unwrap();
    env
}

fn cstr(env: &mut Environment, s: &str) -> u32 {
    env.mem.alloc_and_write_cstr(&s.as_bytes().to_vec())
}

fn argv(env: &mut Environment, words: &[&str]) -> u32 {
    let list = env.mem.allocate(4 * words.len() as u32 + 4);
    for (i, word) in words.iter().enumerate() {
        let p = cstr(env, word);
        env.mem.write_u32(list + 4 * i as u32, p);
    }
    env.mem.write_u32(list + 4 * words.len() as u32, 0);
    list
}

struct Cells {
    optarg: u32,
    optind: u32,
    optopt: u32,
}

fn cells(env: &mut Environment) -> Cells {
    let optarg = getopt::optarg_ptr(env);
    let optind = getopt::optind_ptr(env);
    let opterr = getopt::opterr_ptr(env);
    let optopt = getopt::optopt_ptr(env);
    assert_eq!(env.mem.read_i32(optind), 1);
    assert_eq!(env.mem.read_i32(opterr), 1);
    Cells { optarg, optind, optopt }
}

#[test]
fn short_options() {
    let mut env = guest();
    let c = cells(&mut env);
    let list = argv(&mut env, &["prog", "-ab", "-cvalue", "-c", "next", "rest"]);
    let opts = cstr(&mut env, "abc:");
    assert_eq!(getopt::getopt(&mut env, 6, list, opts), 'a' as i32);
    assert_eq!(env.mem.read_i32(c.optind), 1);
    assert_eq!(getopt::getopt(&mut env, 6, list, opts), 'b' as i32);
    assert_eq!(env.mem.read_i32(c.optind), 2);
    assert_eq!(getopt::getopt(&mut env, 6, list, opts), 'c' as i32);
    let p = env.mem.read_u32(c.optarg);
    assert_eq!(env.mem.cstr_at(p), b"value".to_vec());
    assert_eq!(getopt::getopt(&mut env, 6, list, opts), 'c' as i32);
    let p = env.mem.read_u32(c.optarg);
    assert_eq!(env.mem.cstr_at(p), b"next".to_vec());
    assert_eq!(getopt::getopt(&mut env, 6, list, opts), -1);
    assert_eq!(env.mem.read_i32(c.optind), 5);
}

#[test]
fn unknown_and_incomplete_short_options() {
    let mut env = guest();
    let c = cells(&mut env);
    let list = argv(&mut env, &["prog", "-x", "-c"]);
    let opts = cstr(&mut env, ":c:");
    assert_eq!(getopt::getopt(&mut env, 3, list, opts), '?' as i32);
    assert_eq!(env.mem.read_i32(c.optopt), 'x' as i32);
    assert_eq!(getopt::getopt(&mut env, 3, list, opts), ':' as i32);
    assert_eq!(env.mem.read_i32(c.optopt), 'c' as i32);
    assert_eq!(getopt::getopt(&mut env, 3, list, opts), -1);
}

#[test]
fn a_double_dash_ends_the_options() {
    let mut env = guest();
    let c = cells(&mut env);
    let list = argv(&mut env, &["prog", "--", "-a"]);
    let opts = cstr(&mut env, "a");
    assert_eq!(getopt::getopt(&mut env, 3, list, opts), -1);
    assert_eq!(env.mem.read_i32(c.optind), 2);
}

fn long_options(env: &mut Environment, flag: u32) -> u32 {
    let table = env.mem.allocate(64);
    let rows = [("verbose", 0, 0, 'v' as u32), ("output", 1, 0, 'o' as u32), ("flag", 0, flag, 9)];
    for (i, (name, has_arg, flag, val)) in rows.iter().enumerate() {
        let p = cstr(env, name);
        let at = table + 16 * i as u32;
        env.mem.write_u32(at, p);
        env.mem.write_u32(at + 4, *has_arg);
        env.mem.write_u32(at + 8, *flag);
        env.mem.write_u32(at + 12, *val);
    }
    env.mem.write_bytes(table + 48, &vec![0; 16]);
    table
}

#[test]
fn long_options_are_found() {
    let mut env = guest();
    let c = cells(&mut env);
    let cell = env.mem.allocate(4);
    let table = long_options(&mut env, cell);
    let index = env.mem.allocate(4);
    let list = argv(&mut env, &["prog", "--verb", "--output=file", "--flag", "--nope", "-v"]);
    let opts = cstr(&mut env, "v");
    assert_eq!(getopt::getopt_long(&mut env, 6, list, opts, table, index), 'v' as i32);
    assert_eq!(env.mem.read_i32(index), 0);
    assert_eq!(getopt::getopt_long(&mut env, 6, list, opts, table, index), 'o' as i32);
    let p = env.mem.read_u32(c.optarg);
    assert_eq!(env.mem.cstr_at(p), b"file".to_vec());
    assert_eq!(getopt::getopt_long(&mut env, 6, list, opts, table, index), 0);
    assert_eq!(env.mem.read_i32(cell), 9);
    assert_eq!(getopt::getopt_long(&mut env, 6, list, opts, table, index), '?' as i32);
    assert_eq!(getopt::getopt_long(&mut env, 6, list, opts, table, index), 'v' as i32);
    assert_eq!(getopt::getopt_long(&mut env, 6, list, opts, table, index), -1);
}

#[test]
fn long_only_falls_back_to_short_options() {
    let mut env = guest();
    let _ = cells(&mut env);
    let table = long_options(&mut env, 0);
    let list = argv(&mut env, &["prog", "-output", "x", "-v"]);
    let opts = cstr(&mut env, "vz");
    assert_eq!(getopt::getopt_long_only(&mut env, 4, list, opts, table, 0), 'o' as i32);
    assert_eq!(getopt::getopt_long_only(&mut env, 4, list, opts, table, 0), 'v' as i32);
    assert_eq!(getopt::getopt_long_only(&mut env, 4, list, opts, table, 0), -1);
    let list = argv(&mut env, &["prog", "-z"]);
    let optind = env.libc_state.getopt.optind_ptr.unwrap();
    env.mem.write_i32(optind, 1);
    assert_eq!(getopt::getopt_long_only(&mut env, 2, list, opts, table, 0), 'z' as i32);
}

#[test]
fn a_table_is_read_for_long_words_only() {
    let mut env = guest();
    let c = cells(&mut env);
    let list = argv(&mut env, &["prog"]);
    let opts = cstr(&mut env, "v");
    assert_eq!(getopt::getopt_long(&mut env, 1, list, opts, 0, 0), -1);
    let list = argv(&mut env, &["prog", "-v", "rest"]);
    assert_eq!(getopt::getopt_long(&mut env, 3, list, opts, 0, 0), 'v' as i32);
    assert_eq!(getopt::getopt_long(&mut env, 3, list, opts, 0, 0), -1);
    assert_eq!(env.mem.read_i32(c.optind), 2);
}
