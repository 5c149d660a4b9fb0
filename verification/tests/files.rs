//! Files, descriptors and streams.
use hyperhle::environment::{Bundle, Environment};
use hyperhle::fs::{Fs, FsNode, GuestOpenOptions, Inode, IoErrorKind, NodeKind, Place};
use hyperhle::libc::errno::{
    EBADF, EEXIST, EINTR, EINVAL, EIO, EISDIR, EMFILE, ENOENT, ENOTEMPTY, EOVERFLOW, ESPIPE,
};
use hyperhle::libc::path_search::{
    bundle_relative_path, case_insensitive_path, find_open_target, first_equal,
};
use hyperhle::libc::posix_io;
use hyperhle::libc::posix_io::{
    LockRange, FD_CLOEXEC, F_DUPFD, F_DUPFD_CLOEXEC, F_GETFD, F_GETFL, F_GETLK, F_GETPATH, F_RDLCK,
    F_SETFD, F_SETFL, F_SETLK, F_UNLCK, F_WRLCK, LOCK_EX, LOCK_SH, LOCK_UN, O_APPEND, O_CREAT,
    O_EXCL, O_NONBLOCK, O_RDONLY, O_RDWR, O_TRUNC, O_WRONLY, SEEK_CUR, SEEK_END, SEEK_SET,
};
use hyperhle::libc::stdio;
use hyperhle::libc::stdio::EOF;
use hyperhle::mem::Mem;
use hyperhle::objc::KnownClasses;
use hyperhle::paths::{join_parts, resolve_path, split_parts};

fn chars(s: &str) -> Vec<char> {
    s.chars().collect()
}

fn text(c: &Vec<char>) -> String {
    c.iter().collect()
}

fn guest() -> Environment {
    let bundle = Bundle {
        bundle_path: chars("/App.app"),
        executable_path: chars("/App.app/App"),
        bundle_identifier: b"org.example.app".to_vec(),
    };
    let classes = KnownClasses {
        ns_dictionary: 0x10,
        ns_mutable_dictionary: 0x20,
        cg_context: 0x30,
        cg_data_provider: 0x40,
        cg_font: 0x50,
    };
    let mut env = Environment::new(Mem::new(0x20000), Fs::new(1 << 20), bundle, classes);
    env.fs.create_dir(&chars("/App.app")).unwrap();
    env
}

fn add_file(env: &mut Environment, dir: &str, name: &str, data: &[u8]) {
    env.fs.inodes.push(Inode { data: data.to_vec(), dirty: false });
    let inode = env.fs.inodes.len() - 1;
    env.fs.nodes.push(FsNode {
        dir: chars(dir),
        name: chars(name),
        kind: NodeKind::File(inode),
        writable: true,
    });
}

fn cstr(env: &mut Environment, s: &str) -> u32 {
    env.mem.alloc_and_write_cstr(&s.as_bytes().to_vec())
}

fn open(env: &mut Environment, path: &str, flags: i32) -> i32 {
    let p = cstr(env, path);
    posix_io::open(env, p, flags)
}

fn put(env: &mut Environment, data: &[u8]) -> u32 {
    env.mem.alloc_and_write(&data.to_vec())
}

fn errno(env: &Environment) -> i32 {
    env.libc_state.errno.value
}

#[test]
fn paths_are_resolved() {
    let parts = split_parts(&chars("/a//b/"));
    assert_eq!(parts.iter().map(text).collect::<Vec<_>>().join("|"), "a|b");
    let resolved = resolve_path(&chars("/home/user"), &chars("../x/./y"));
    assert_eq!(text(&join_parts(&resolved, resolved.len())), "/home/x/y");
    let absolute = resolve_path(&chars("/home/user"), &chars("/a/../../b"));
    assert_eq!(text(&join_parts(&absolute, absolute.len())), "/b");
    let again = resolve_path(&chars("/other"), &join_parts(&absolute, absolute.len()));
    assert_eq!(text(&join_parts(&again, again.len())), "/b");
    assert_eq!(text(&join_parts(&Vec::new(), 0)), "/");
}

#[test]
fn written_bytes_are_read_back() {
    let mut env = guest();
    let fd = open(&mut env, "/App.app/notes", O_RDWR | O_CREAT);
    assert_eq!(fd, 3);
    let data = put(&mut env, b"hello world");
    assert_eq!(posix_io::write(&mut env, fd, data, 11), 11);
    assert_eq!(posix_io::lseek(&mut env, fd, 0, SEEK_SET), 0);
    let back = env.mem.allocate(16);
    assert_eq!(posix_io::read(&mut env, fd, back, 11), 11);
    assert_eq!(env.mem.bytes_at(back, 11), b"hello world".to_vec());
    assert_eq!(posix_io::eof(&mut env, fd), 0);
    assert_eq!(posix_io::read(&mut env, fd, back, 1), 0);
    assert_ne!(posix_io::eof(&mut env, fd), 0);
    posix_io::clearerr(&mut env, fd);
    assert_eq!(posix_io::eof(&mut env, fd), 0);
    assert_eq!(posix_io::close(&mut env, fd), 0);
    assert_eq!(posix_io::close(&mut env, fd), -1);
    assert_eq!(errno(&env), EBADF);
}

#[test]
fn positioned_transfers_leave_the_position() {
    let mut env = guest();
    let fd = open(&mut env, "/App.app/notes", O_RDWR | O_CREAT);
    let data = put(&mut env, b"abcdef");
    assert_eq!(posix_io::pwrite(&mut env, fd, data, 6, 2), 6);
    assert_eq!(posix_io::lseek(&mut env, fd, 0, SEEK_CUR), 0);
    let back = env.mem.allocate(8);
    assert_eq!(posix_io::pread(&mut env, fd, back, 8, 0), 8);
    assert_eq!(env.mem.bytes_at(back, 8), b"\0\0abcdef".to_vec());
    assert_eq!(posix_io::lseek(&mut env, fd, 0, SEEK_CUR), 0);
    assert_eq!(posix_io::pread(&mut env, fd, back, 8, -1), -1);
    assert_eq!(errno(&env), EINVAL);
}

#[test]
fn seeking() {
    let mut env = guest();
    add_file(&mut env, "/App.app", "data", b"0123456789");
    let fd = open(&mut env, "/App.app/data", O_RDONLY);
    assert_eq!(posix_io::lseek(&mut env, fd, -3, SEEK_END), 7);
    assert_eq!(posix_io::lseek(&mut env, fd, 1, SEEK_CUR), 8);
    assert_eq!(posix_io::lseek(&mut env, fd, 20, SEEK_SET), 20);
    assert_eq!(posix_io::lseek(&mut env, fd, -1, SEEK_SET), -1);
    assert_eq!(errno(&env), EINVAL);
    assert_eq!(posix_io::lseek(&mut env, fd, 0, 7), -1);
    assert_eq!(errno(&env), EINVAL);
    assert_eq!(posix_io::lseek(&mut env, 77, 0, SEEK_SET), -1);
    assert_eq!(errno(&env), EBADF);
    assert_eq!(posix_io::lseek(&mut env, 1, 0, SEEK_SET), -1);
    assert_eq!(errno(&env), EBADF);
}

#[test]
fn opening_fails() {
    let mut env = guest();
    assert_eq!(open(&mut env, "/App.app/missing", O_RDONLY), -1);
    assert_eq!(errno(&env), ENOENT);
    let fd = open(&mut env, "/App.app/new", O_WRONLY | O_CREAT | O_EXCL);
    assert_eq!(fd, 3);
    assert_eq!(open(&mut env, "/App.app/new", O_WRONLY | O_CREAT | O_EXCL), -1);
    assert_eq!(errno(&env), EEXIST);
    assert_eq!(open(&mut env, "/App.app", O_WRONLY), -1);
    assert_eq!(posix_io::open(&mut env, 0, O_RDONLY), -1);
}

#[test]
fn descriptors_are_duplicated() {
    let mut env = guest();
    add_file(&mut env, "/App.app", "data", b"0123456789");
    let fd = open(&mut env, "/App.app/data", O_RDONLY);
    let second = posix_io::fcntl(&mut env, fd, F_DUPFD, 0);
    assert_eq!(second, 4);
    assert_eq!(posix_io::lseek(&mut env, fd, 4, SEEK_SET), 4);
    assert_eq!(posix_io::lseek(&mut env, second, 0, SEEK_CUR), 4);
    assert_eq!(posix_io::close(&mut env, fd), 0);
    assert_eq!(posix_io::lseek(&mut env, second, 0, SEEK_CUR), 4);
    let third = posix_io::fcntl(&mut env, second, F_DUPFD_CLOEXEC, 0);
    assert_eq!(third, 3);
    assert_eq!(posix_io::fcntl(&mut env, third, F_GETFD, 0), FD_CLOEXEC);
    let far = posix_io::fcntl(&mut env, second, F_DUPFD, 10);
    assert_eq!(far, 10);
    assert_eq!(posix_io::fcntl(&mut env, 99, F_DUPFD, 0), -1);
    assert_eq!(errno(&env), EBADF);
}

#[test]
fn descriptor_flags() {
    let mut env = guest();
    let fd = open(&mut env, "/App.app/data", O_RDWR | O_CREAT);
    assert_eq!(posix_io::fcntl(&mut env, fd, F_GETFD, 0), 0);
    assert_eq!(posix_io::fcntl(&mut env, fd, F_SETFD, FD_CLOEXEC as u32), 0);
    assert_eq!(posix_io::fcntl(&mut env, fd, F_GETFD, 0), FD_CLOEXEC);
    assert_eq!(
        posix_io::fcntl(&mut env, fd, F_SETFL, (O_APPEND | O_NONBLOCK | O_WRONLY) as u32),
        0
    );
    let flags = posix_io::fcntl(&mut env, fd, F_GETFL, 0);
    assert_eq!(flags & 3, O_RDWR);
    assert_eq!(flags & (O_APPEND | O_NONBLOCK), O_APPEND | O_NONBLOCK);
    let buffer = env.mem.allocate(1024);
    assert_eq!(posix_io::fcntl(&mut env, fd, F_GETPATH, buffer), 0);
    assert_eq!(env.mem.cstr_at(buffer), b"/App.app/data".to_vec());
    assert_eq!(posix_io::fcntl(&mut env, fd, 12345, 0), -1);
    assert_eq!(errno(&env), EINVAL);
}

fn write_lock(env: &mut Environment, at: u32, start: i64, len: i64, kind: i16, whence: i16) {
    env.mem.write_i64(at, start);
    env.mem.write_i64(at + 8, len);
    env.mem.write_i32(at + 16, 0);
    env.mem.write_u16(at + 20, kind as u16);
    env.mem.write_u16(at + 22, whence as u16);
}

#[test]
fn record_locks() {
    let mut env = guest();
    add_file(&mut env, "/App.app", "data", b"0123456789");
    let fd = open(&mut env, "/App.app/data", O_RDWR);
    let lock = env.mem.allocate(24);
    write_lock(&mut env, lock, 2, 6, F_WRLCK, SEEK_SET as i16);
    assert_eq!(posix_io::fcntl(&mut env, fd, F_SETLK, lock), 0);
    write_lock(&mut env, lock, 4, 2, F_UNLCK, SEEK_SET as i16);
    assert_eq!(posix_io::fcntl(&mut env, fd, F_SETLK, lock), 0);
    let held = env.libc_state.posix_io.files[0].as_ref().unwrap().locks.clone();
    assert_eq!(held.len(), 2);
    assert_eq!((held[0].start, held[0].end), (2, 4));
    assert_eq!((held[1].start, held[1].end), (6, 8));
    write_lock(&mut env, lock, 0, 1, F_RDLCK, SEEK_SET as i16);
    assert_eq!(posix_io::fcntl(&mut env, fd, F_GETLK, lock), 0);
    assert_eq!(env.mem.read_u16(lock + 20), F_UNLCK as u16);
    write_lock(&mut env, lock, 0, 0, F_RDLCK, 9);
    assert_eq!(posix_io::fcntl(&mut env, fd, F_SETLK, lock), -1);
    assert_eq!(errno(&env), EINVAL);
}

#[test]
fn lock_ranges_are_released() {
    let mut locks = vec![LockRange { start: 0, end: 10, lock_type: F_RDLCK }];
    posix_io::release_range_from_locks(
        &mut locks,
        &LockRange { start: 3, end: 5, lock_type: F_UNLCK },
    );
    assert_eq!(
        locks,
        vec![
            LockRange { start: 0, end: 3, lock_type: F_RDLCK },
            LockRange { start: 5, end: 10, lock_type: F_RDLCK },
        ]
    );
    posix_io::release_range_from_locks(
        &mut locks,
        &LockRange { start: 0, end: 100, lock_type: F_UNLCK },
    );
    assert!(locks.is_empty());
}

#[test]
fn whole_file_locks() {
    let mut env = guest();
    add_file(&mut env, "/App.app", "data", b"x");
    let fd = open(&mut env, "/App.app/data", O_RDWR);
    assert_eq!(posix_io::flock(&mut env, fd, LOCK_SH), 0);
    assert_eq!(env.libc_state.posix_io.files[0].as_ref().unwrap().flock_state, Some(F_RDLCK));
    assert_eq!(posix_io::flock(&mut env, fd, LOCK_EX), 0);
    assert_eq!(env.libc_state.posix_io.files[0].as_ref().unwrap().flock_state, Some(F_WRLCK));
    assert_eq!(posix_io::flock(&mut env, fd, LOCK_UN), 0);
    assert_eq!(env.libc_state.posix_io.files[0].as_ref().unwrap().flock_state, None);
    assert_eq!(posix_io::flock(&mut env, 50, LOCK_UN), -1);
    assert_eq!(errno(&env), EBADF);
}

#[test]
fn truncation_and_sync() {
    let mut env = guest();
    add_file(&mut env, "/App.app", "data", b"0123456789");
    let fd = open(&mut env, "/App.app/data", O_RDWR);
    assert_eq!(posix_io::ftruncate(&mut env, fd, 4), 0);
    assert_eq!(env.fs.inodes[0].data, b"0123".to_vec());
    assert!(env.fs.inodes[0].dirty);
    assert_eq!(posix_io::fsync(&mut env, fd), 0);
    assert!(!env.fs.inodes[0].dirty);
    assert_eq!(posix_io::ftruncate(&mut env, fd, -1), -1);
    let path = cstr(&mut env, "/App.app/data");
    assert_eq!(posix_io::truncate(&mut env, path, 6), 0);
    assert_eq!(env.fs.inodes[0].data, b"0123\0\0".to_vec());
    let fd2 = open(&mut env, "/App.app/data", O_WRONLY | O_TRUNC);
    assert_eq!(fd2, 4);
    assert!(env.fs.inodes[0].data.is_empty());
    assert_eq!(posix_io::creat(&mut env, path, 0o644), 5);
}

#[test]
fn gathered_writes() {
    let mut env = guest();
    let fd = open(&mut env, "/App.app/out", O_WRONLY | O_CREAT);
    let a = put(&mut env, b"one,");
    let b = put(&mut env, b"two");
    let iov = env.mem.allocate(16);
    env.mem.write_u32(iov, a);
    env.mem.write_u32(iov + 4, 4);
    env.mem.write_u32(iov + 8, b);
    env.mem.write_u32(iov + 12, 3);
    assert_eq!(posix_io::writev(&mut env, fd, iov, 2), 7);
    let inode = env.fs.inodes.last().unwrap();
    assert_eq!(inode.data, b"one,two".to_vec());
}

#[test]
fn standard_streams_write_to_the_console() {
    let mut env = guest();
    let data = put(&mut env, b"hi\n");
    assert_eq!(posix_io::write(&mut env, 1, data, 3), 3);
    assert_eq!(posix_io::write(&mut env, 2, data, 2), 2);
    assert_eq!(env.console.text, b"hi\nhi".to_vec());
    let odd = put(&mut env, b"a\xffb");
    assert_eq!(posix_io::write(&mut env, 1, odd, 3), 3);
    assert_eq!(env.console.text, "hi\nhia\u{fffd}b".as_bytes().to_vec());
}

#[test]
fn directories() {
    let mut env = guest();
    let path = cstr(&mut env, "/App.app");
    assert_eq!(posix_io::chdir(&mut env, path), 0);
    let buffer = env.mem.allocate(64);
    assert_eq!(posix_io::getcwd(&mut env, buffer, 64), buffer);
    assert_eq!(env.mem.cstr_at(buffer), b"/App.app".to_vec());
    assert_eq!(posix_io::getcwd(&mut env, buffer, 3), 0);
    assert_eq!(errno(&env), 0);
    let missing = cstr(&mut env, "nowhere");
    assert_eq!(posix_io::chdir(&mut env, missing), -1);
    let fresh = posix_io::getcwd(&mut env, 0, 0);
    assert_eq!(env.mem.cstr_at(fresh), b"/App.app".to_vec());
}

#[test]
fn names_change() {
    let mut env = guest();
    add_file(&mut env, "/App.app", "old", b"text");
    let old = cstr(&mut env, "/App.app/old");
    let new = cstr(&mut env, "/App.app/new");
    assert_eq!(posix_io::rename(&mut env, old, new), 0);
    assert!(!env.fs.has_path(&chars("/App.app/old")));
    assert_eq!(env.fs.read(&chars("/App.app/new")), Some(b"text".to_vec()));
    assert_eq!(posix_io::rename(&mut env, old, new), -1);
    assert_eq!(stdio::remove(&mut env, new), 0);
    assert_eq!(env.fs.locate(&chars("/App.app/new")), Place::Missing);
    assert_eq!(stdio::remove(&mut env, new), -1);
    assert_eq!(errno(&env), ENOENT);
    add_file(&mut env, "/App.app", "inside", b"");
    let dir = cstr(&mut env, "/App.app");
    assert_eq!(stdio::remove(&mut env, dir), -1);
    assert_eq!(errno(&env), ENOTEMPTY);
}

#[test]
fn names_are_found_whatever_their_case() {
    let mut env = guest();
    add_file(&mut env, "/App.app", "Menu.PNG", b"image");
    assert_eq!(
        case_insensitive_path(&env.fs, &chars("/app.APP/menu.png")).map(|p| text(&p)),
        Some("/App.app/Menu.PNG".to_string())
    );
    assert_eq!(case_insensitive_path(&env.fs, &chars("/App.app/other.png")), None);
    let fd = open(&mut env, "/App.app/menu.png", O_RDONLY);
    assert_eq!(fd, 3);
    add_file(&mut env, "/App.app", "ÄPFEL", b"fruit");
    assert_eq!(
        case_insensitive_path(&env.fs, &chars("/App.app/äpfel")).map(|p| text(&p)),
        Some("/App.app/ÄPFEL".to_string())
    );
    assert_eq!(first_equal(&vec![chars("a"), chars("b"), chars("b")], &chars("b")), Some(1));
    assert_eq!(
        text(&bundle_relative_path(&chars("/App.app/"), &chars("x/y.png"))),
        "/App.app/x/y.png"
    );
    assert_eq!(
        text(&find_open_target(&env.fs, &chars("/App.app"), &chars("./menu.png"), false)),
        "/App.app/Menu.PNG"
    );
    assert_eq!(
        text(&find_open_target(&env.fs, &chars("/App.app"), &chars("/fresh"), true)),
        "/fresh"
    );
}

#[test]
fn refused_operations_of_open_files() {
    let mut env = guest();
    add_file(&mut env, "/App.app", "data", b"abc");
    let fd = open(&mut env, "/App.app/data", O_WRONLY);
    let back = env.mem.allocate(4);
    assert_eq!(posix_io::read(&mut env, fd, back, 4), -1);
    env.fs.opens[0].faults.write = Some(IoErrorKind::PermissionDenied);
    assert_eq!(posix_io::write(&mut env, fd, back, 4), -1);
    env.fs.opens[0].faults.flush = Some(IoErrorKind::Other);
    let options = GuestOpenOptions {
        read: true,
        write: false,
        append: false,
        create: false,
        truncate: false,
    };
    assert!(env.fs.open_with_options(&chars("/App.app/none"), options).is_err());
}

#[test]
fn sockets_take_descriptors() {
    let mut env = guest();
    let fd = posix_io::find_or_create_socket(&mut env);
    assert_eq!(fd, 3);
    assert!(posix_io::is_socket(&mut env, fd));
    assert!(!posix_io::is_socket(&mut env, 0));
    assert_eq!(posix_io::close(&mut env, fd), 0);
    assert_eq!(env.libc_state.socket.closed, vec![3]);
}

fn fopen(env: &mut Environment, path: &str, mode: &str) -> u32 {
    let p = cstr(env, path);
    let m = cstr(env, mode);
    stdio::fopen(env, p, m)
}

#[test]
fn mode_strings() {
    assert_eq!(stdio::parse_mode(&b"r".to_vec()), Some(O_RDONLY));
    assert_eq!(stdio::parse_mode(&b"rb".to_vec()), Some(O_RDONLY));
    assert_eq!(stdio::parse_mode(&b"r+".to_vec()), Some(O_RDWR));
    assert_eq!(stdio::parse_mode(&b"w".to_vec()), Some(O_WRONLY | O_CREAT | O_TRUNC));
    assert_eq!(stdio::parse_mode(&b"w+b".to_vec()), Some(O_RDWR | O_CREAT | O_TRUNC));
    assert_eq!(stdio::parse_mode(&b"a".to_vec()), Some(O_WRONLY | O_CREAT | O_APPEND));
    assert_eq!(stdio::parse_mode(&b"a+".to_vec()), Some(O_RDWR | O_CREAT | O_APPEND));
    assert_eq!(stdio::parse_mode(&b"q".to_vec()), None);
}

#[test]
fn streams() {
    let mut env = guest();
    let f = fopen(&mut env, "/App.app/log", "w+");
    assert_ne!(f, 0);
    let s = cstr(&mut env, "first\nsecond");
    assert!(stdio::fputs(&mut env, s, f) >= 0);
    assert_eq!(stdio::fputc(&mut env, 33, f), 1);
    assert_eq!(stdio::ftell(&mut env, f), 13);
    stdio::rewind(&mut env, f);
    let line = env.mem.allocate(32);
    assert_eq!(stdio::fgets(&mut env, line, 32, f), line);
    assert_eq!(env.mem.cstr_at(line), b"first\n".to_vec());
    assert_eq!(stdio::fgetc(&mut env, f), 's' as i32);
    assert_eq!(stdio::ungetc(&mut env, 'Z' as i32, f), 'Z' as i32);
    assert_eq!(stdio::fgetc(&mut env, f), 'Z' as i32);
    assert_eq!(stdio::getc(&mut env, f), 'e' as i32);
    assert_eq!(stdio::fread(&mut env, line, 1, 5, f), 5);
    assert_eq!(env.mem.bytes_at(line, 5), b"cond!".to_vec());
    assert_eq!(stdio::feof(&mut env, f), 0);
    assert_eq!(stdio::fgetc(&mut env, f), EOF);
    assert_ne!(stdio::feof(&mut env, f), 0);
    assert_eq!(stdio::fseek(&mut env, f, -1, SEEK_END), 0);
    assert_eq!(stdio::fgetc(&mut env, f), '!' as i32);
    let pos = env.mem.allocate(8);
    assert_eq!(stdio::fgetpos(&mut env, f, pos), 0);
    assert_eq!(env.mem.read_i64(pos), 13);
    env.mem.write_i64(pos, 1);
    assert_eq!(stdio::fsetpos(&mut env, f, pos), 0);
    assert_eq!(stdio::fgetc(&mut env, f), 'i' as i32);
    assert_eq!(stdio::fileno(&mut env, f), 3);
    assert_eq!(stdio::fclose(&mut env, f), 0);
    assert!(!env.libc_state.posix_io.is_fd_open(3));
    assert_eq!(fopen(&mut env, "/App.app/none", "r"), 0);
    assert_eq!(errno(&env), ENOENT);
    assert_eq!(fopen(&mut env, "/App.app/none", "x"), 0);
    assert_eq!(errno(&env), EINVAL);
}

#[test]
fn printing() {
    let mut env = guest();
    let s = cstr(&mut env, "line");
    assert!(stdio::puts(&mut env, s) >= 0);
    assert_eq!(stdio::putchar(&mut env, b'x'), 0);
    assert_eq!(env.console.text, b"line\nx".to_vec());
    let out = stdio::standard_stream_pointer(&mut env, 1);
    let stream = env.mem.read_u32(out);
    let data = put(&mut env, b"abc");
    assert_eq!(stdio::fwrite(&mut env, data, 1, 3, stream), 3);
    assert_eq!(env.console.text, b"line\nxabc".to_vec());
}

#[test]
fn temporary_files() {
    let mut env = guest();
    env.fs.create_dir_all(&chars("/tmp")).unwrap();
    assert_eq!(
        String::from_utf8(stdio::tmp_file_name(7, 3)).unwrap().contains("7"),
        true
    );
    let f = stdio::tmpfile(&mut env, 7);
    assert_ne!(f, 0);
    let data = put(&mut env, b"t");
    assert_eq!(stdio::fwrite(&mut env, data, 1, 1, f), 1);
}

#[test]
fn reopened_streams() {
    let mut env = guest();
    add_file(&mut env, "/App.app", "one", b"1");
    add_file(&mut env, "/App.app", "two", b"2");
    let f = fopen(&mut env, "/App.app/one", "r");
    assert_eq!(stdio::fgetc(&mut env, f), '1' as i32);
    let p = cstr(&mut env, "/App.app/two");
    let m = cstr(&mut env, "r");
    let g = stdio::freopen(&mut env, p, m, f);
    assert_eq!(g, f);
    assert_eq!(stdio::fgetc(&mut env, f), '2' as i32);
}

#[test]
fn read_only_places() {
    let mut env = guest();
    let dir = env.fs.nodes.iter().position(|n| text(&n.name) == "App.app").unwrap();
    env.fs.nodes[dir].writable = false;
    assert_eq!(open(&mut env, "/App.app/new", O_WRONLY | O_CREAT), -1);
    assert_ne!(errno(&env), 0);
}

#[test]
fn streams_give_back_what_was_written() {
    let mut env = guest();
    let f = fopen(&mut env, "/App.app/data", "w+");
    let from = put(&mut env, b"payload");
    assert_eq!(stdio::fwrite(&mut env, from, 1, 7, f), 7);
    assert_eq!(stdio::ungetc(&mut env, 'x' as i32, f), 'x' as i32);
    assert_eq!(stdio::fseek(&mut env, f, 0, SEEK_SET), 0);
    let to = env.mem.allocate(8);
    assert_eq!(stdio::fread(&mut env, to, 1, 7, f), 7);
    assert_eq!(env.mem.bytes_at(to, 7), b"payload".to_vec());
    assert_eq!(stdio::fread(&mut env, to, 0, 7, f), 0);
    assert_eq!(stdio::fwrite(&mut env, from, 0, 7, f), 0);
    assert_eq!(stdio::ferror(&mut env, f), 0);
}

#[test]
fn failed_writes_mark_the_stream() {
    let mut env = guest();
    add_file(&mut env, "/App.app", "data", b"abc");
    let f = fopen(&mut env, "/App.app/data", "r");
    let from = put(&mut env, b"payload");
    assert_eq!(stdio::fwrite(&mut env, from, 1, 7, f), 0);
    assert_ne!(stdio::ferror(&mut env, f), 0);
    stdio::clearerr(&mut env, f);
    assert_eq!(stdio::ferror(&mut env, f), 0);
}

#[test]
fn created_files_are_empty() {
    let mut env = guest();
    add_file(&mut env, "/App.app", "data", b"abc");
    let path = cstr(&mut env, "/App.app/data");
    let fd = posix_io::creat(&mut env, path, 0o644);
    assert_eq!(posix_io::fcntl(&mut env, fd, F_GETFL, 0), O_WRONLY);
    assert!(env.fs.inodes[0].data.is_empty());
    let back = env.mem.allocate(4);
    assert_eq!(posix_io::read(&mut env, fd, back, 4), -1);
}

#[test]
fn host_errors_become_error_numbers() {
    let mut env = guest();
    add_file(&mut env, "/App.app", "data", b"0123456789");
    let fd = open(&mut env, "/App.app/data", O_RDWR);
    env.fs.opens[0].faults.clone = Some(IoErrorKind::Other);
    assert_eq!(posix_io::fcntl(&mut env, fd, F_DUPFD, 0), -1);
    assert_eq!(errno(&env), EMFILE);
    let lock = env.mem.allocate(24);
    write_lock(&mut env, lock, 10, i64::MAX, F_WRLCK, SEEK_SET as i16);
    assert_eq!(posix_io::fcntl(&mut env, fd, F_SETLK, lock), -1);
    assert_eq!(errno(&env), EOVERFLOW);
    write_lock(&mut env, lock, 0, 5, 77, SEEK_SET as i16);
    assert_eq!(posix_io::fcntl(&mut env, fd, F_SETLK, lock), -1);
    assert_eq!(errno(&env), EINVAL);
    write_lock(&mut env, lock, -20, 5, F_RDLCK, SEEK_END as i16);
    assert_eq!(posix_io::fcntl(&mut env, fd, F_SETLK, lock), -1);
    assert_eq!(errno(&env), EINVAL);
    write_lock(&mut env, lock, 0, -2, F_RDLCK, SEEK_END as i16);
    assert_eq!(posix_io::fcntl(&mut env, fd, F_SETLK, lock), 0);
    let held = &env.libc_state.posix_io.files[0].as_ref().unwrap().locks;
    assert_eq!((held[0].start, held[0].end), (8, 10));
    for (fault, number) in [
        (IoErrorKind::PermissionDenied, EBADF),
        (IoErrorKind::InvalidInput, EINVAL),
        (IoErrorKind::Other, EIO),
    ] {
        env.fs.opens[0].faults.set_len = Some(fault);
        assert_eq!(posix_io::ftruncate(&mut env, fd, 3), -1);
        assert_eq!(errno(&env), number);
    }
    env.fs.opens[0].faults.sync = Some(IoErrorKind::PermissionDenied);
    assert_eq!(posix_io::fsync(&mut env, fd), 0);
    for (fault, status, number) in [
        (IoErrorKind::Unsupported, -1, EINVAL),
        (IoErrorKind::Interrupted, -1, EINTR),
        (IoErrorKind::Other, -1, EIO),
    ] {
        env.fs.opens[0].faults.sync = Some(fault);
        assert_eq!(posix_io::fsync(&mut env, fd), status);
        assert_eq!(errno(&env), number);
    }
    env.fs.opens[0].faults.seek = Some(IoErrorKind::Other);
    assert_eq!(posix_io::lseek(&mut env, fd, 0, SEEK_SET), -1);
    assert_eq!(errno(&env), EIO);
    env.fs.opens[0].seekable = false;
    assert_eq!(posix_io::lseek(&mut env, fd, 0, SEEK_SET), -1);
    assert_eq!(errno(&env), ESPIPE);
    env.fs.opens[0].faults.read = Some(IoErrorKind::IsADirectory);
    let back = env.mem.allocate(4);
    assert_eq!(posix_io::read(&mut env, fd, back, 4), 0);
    assert_eq!(errno(&env), EISDIR);
    assert_eq!(posix_io::open(&mut env, lock, 3), -1);
    assert_eq!(errno(&env), EINVAL);
}

#[test]
fn a_stream_is_closed_once() {
    let mut env = guest();
    add_file(&mut env, "/App.app", "one", b"1");
    add_file(&mut env, "/App.app", "two", b"2");
    let f = fopen(&mut env, "/App.app/one", "r");
    assert_eq!(stdio::fclose(&mut env, f), 0);
    let fd = open(&mut env, "/App.app/two", O_RDONLY);
    assert_eq!(fd, 3);
    assert_eq!(stdio::fclose(&mut env, f), EOF);
    assert!(env.libc_state.posix_io.is_fd_open(fd));
    let back = env.mem.allocate(4);
    assert_eq!(posix_io::read(&mut env, fd, back, 1), 1);
    assert_eq!(env.mem.bytes_at(back, 1), b"2".to_vec());
}

#[test]
fn standard_streams_are_streams() {
    let mut env = guest();
    let out = stdio::standard_stream_pointer(&mut env, 2);
    let stream = env.mem.read_u32(out);
    assert_eq!(stdio::fileno(&mut env, stream), 2);
    stdio::fclose(&mut env, stream);
    assert_eq!(stdio::fclose(&mut env, stream), EOF);
}

#[test]
fn items_are_counted_by_the_bytes_stored() {
    let mut env = guest();
    add_file(&mut env, "/App.app", "data", b"abcde");
    let f = fopen(&mut env, "/App.app/data", "r");
    assert_eq!(stdio::fgetc(&mut env, f), 'a' as i32);
    assert_eq!(stdio::ungetc(&mut env, 'Z' as i32, f), 'Z' as i32);
    let to = env.mem.allocate(16);
    assert_eq!(stdio::fread(&mut env, to, 2, 2, f), 2);
    assert_eq!(env.mem.bytes_at(to, 4), b"Zabc".to_vec());
    assert_eq!(stdio::ungetc(&mut env, 'Y' as i32, f), 'Y' as i32);
    assert_eq!(stdio::ungetc(&mut env, 'X' as i32, f), 'X' as i32);
    assert_eq!(stdio::fread(&mut env, to, 2, 1, f), 1);
    assert_eq!(env.mem.bytes_at(to, 2), b"XY".to_vec());
    assert_eq!(stdio::fread(&mut env, to, 3, 2, f), 1);
    assert_eq!(env.mem.bytes_at(to, 4), b"bcde".to_vec());
}

#[test]
fn a_line_needs_room_for_itself_only() {
    let mut env = guest();
    add_file(&mut env, "/App.app", "log", b"first\nsecond");
    let f = fopen(&mut env, "/App.app/log", "r");
    let line = 0x20000 - 7;
    assert_eq!(stdio::fgets(&mut env, line, 32, f), line);
    assert_eq!(env.mem.cstr_at(line), b"first\n".to_vec());
    assert_eq!(stdio::fgets(&mut env, line, 4, f), line);
    assert_eq!(env.mem.cstr_at(line), b"seco".to_vec());
}

#[test]
fn descriptors_are_open_until_they_are_closed() {
    let mut env = guest();
    add_file(&mut env, "/App.app", "one", b"1");
    let fd = open(&mut env, "/App.app/one", O_RDONLY);
    let socket = posix_io::find_or_create_socket(&mut env);
    let copy = posix_io::fcntl(&mut env, fd, F_DUPFD, 0);
    let back = env.mem.allocate(4);
    assert_eq!(posix_io::read(&mut env, fd, back, 1), 1);
    assert_eq!(posix_io::lseek(&mut env, fd, 0, SEEK_SET), 0);
    assert!(env.libc_state.posix_io.is_fd_open(fd));
    assert!(env.libc_state.posix_io.is_fd_open(copy));
    assert!(posix_io::is_socket(&mut env, socket));
    assert!(!posix_io::is_socket(&mut env, copy));
    assert_eq!(posix_io::close(&mut env, fd), 0);
    assert!(!env.libc_state.posix_io.is_fd_open(fd));
    assert!(env.libc_state.posix_io.is_fd_open(copy));
    assert_eq!(posix_io::close(&mut env, socket), 0);
    assert_eq!(open(&mut env, "/App.app/one", O_RDONLY), fd);
    assert_eq!(open(&mut env, "/App.app/one", O_RDONLY), socket);
    assert!(!posix_io::is_socket(&mut env, socket));
}
