//! Dictionaries.
use hyperhle::environment::{Bundle, Environment};
use hyperhle::frameworks::foundation::ns_dictionary;
use hyperhle::frameworks::foundation::ns_dictionary_methods as methods;
use hyperhle::frameworks::foundation::ns_dictionary::{CFDictionaryHostObject, DictionaryHostObject};
use hyperhle::fs::Fs;
use hyperhle::mem::Mem;
use hyperhle::objc::{Action, EqualPair};
use hyperhle::objc::KnownClasses;

fn chars(s: &str) -> Vec<char> {
    s.chars().collect()
}

fn guest() -> Environment {
    let bundle = Bundle {
        bundle_path: chars("/App.app"),
        executable_path: chars("/App.app/App"),
        bundle_identifier: b"org.example.app".to_vec(),
    };
    let classes = KnownClasses {
        ns_dictionary: 0x10,
        ns_mutable_dictionary: 0x20,
        cg_context: 0x30,
        cg_data_provider: 0x40,
        cg_font: 0x50,
    };
    let mut env = Environment::new(Mem::new(0x40000), Fs::new(1 << 20), bundle, classes);
    env.fs.create_dir(&chars("/App.app")).unwrap();
    env
}

fn objects(env: &mut Environment, list: &[(u32, u32)]) {
    for (object, hash) in list {
        env.objc.hashes.insert(*object, *hash);
        env.objc.copies.insert(*object, *object);
    }
}

#[test]
fn inserted_values_are_found() {
    let mut env = guest();
    objects(&mut env, &[(1, 100), (2, 100), (3, 200)]);
    env.objc.equals.push(EqualPair { receiver: 1, argument: 3 });
    let mut dict = DictionaryHostObject::new();
    dict.insert(&mut env, 1, 11, false);
    dict.insert(&mut env, 2, 22, false);
    assert_eq!(dict.lookup(&env, 1), 11);
    assert_eq!(dict.lookup(&env, 2), 22);
    assert_eq!(dict.lookup(&env, 3), 0);
    assert_eq!(dict.count, 2);
    dict.insert(&mut env, 1, 33, false);
    assert_eq!(dict.lookup(&env, 1), 33);
    assert_eq!(dict.lookup(&env, 2), 22);
    assert_eq!(dict.count, 2);
    assert!(env.objc.actions.contains(&Action::Release(11)));
    dict.remove(&mut env, 1);
    assert_eq!(dict.lookup(&env, 1), 0);
    assert_eq!(dict.lookup(&env, 2), 22);
    assert_eq!(dict.count, 1);
    assert_eq!(dict.iter_keys(), vec![2]);
    assert_eq!(dict.iter_values(), vec![22]);
}

#[test]
fn equal_keys_share_a_value() {
    let mut env = guest();
    objects(&mut env, &[(1, 100), (2, 100)]);
    env.objc.equals.push(EqualPair { receiver: 1, argument: 2 });
    let mut dict = DictionaryHostObject::new();
    dict.insert(&mut env, 1, 11, false);
    assert_eq!(dict.lookup(&env, 2), 11);
    dict.insert(&mut env, 2, 22, false);
    assert_eq!(dict.lookup(&env, 1), 22);
    assert_eq!(dict.count, 1);
}

#[test]
fn dictionaries_are_made_of_pairs() {
    let mut env = guest();
    objects(&mut env, &[(1, 100), (2, 101)]);
    let d = ns_dictionary::dict_from_keys_and_objects(&mut env, &vec![(1, 11), (2, 22)]);
    assert_eq!(env.mem.read_u32(d), 0x10);
    assert_eq!(ns_dictionary::object_for_key(&env, d, 2), 22);
    let m = ns_dictionary::mutable_dict_from_keys_and_objects(&mut env, &vec![(1, 11)]);
    assert_eq!(env.mem.read_u32(m), 0x20);
    ns_dictionary::set_object_for_key(&mut env, m, 33, 2);
    assert_eq!(ns_dictionary::object_for_key(&env, m, 2), 33);
    ns_dictionary::remove_object_for_key(&mut env, m, 1);
    assert_eq!(ns_dictionary::object_for_key(&env, m, 1), 0);
    assert_eq!(ns_dictionary::all_keys_common(&mut env, m), vec![2]);
    assert_eq!(ns_dictionary::all_values(&mut env, m), vec![33]);
    ns_dictionary::remove_all_objects(&mut env, m);
    assert_eq!(env.objc.dictionaries[&m].count, 0);
}

#[test]
fn descriptions() {
    let items = vec![(b"a".to_vec(), b"1".to_vec()), (b"b".to_vec(), b"2".to_vec())];
    assert_eq!(
        ns_dictionary::build_description(&items),
        b"{\n\ta = 1;\n\tb = 2;\n}".to_vec()
    );
    assert_eq!(ns_dictionary::build_description(&vec![]), b"{\n}".to_vec());
}

#[test]
fn dictionaries_without_callbacks() {
    let mut env = guest();
    let mut dict = CFDictionaryHostObject::new();
    dict.insert(&mut env, 5, 55);
    dict.insert(&mut env, 6, 66);
    assert_eq!(dict.lookup(&env, 5), 55);
    assert_eq!(dict.lookup(&env, 7), 0);
    assert!(dict.remove(&mut env, 5));
    assert!(!dict.remove(&mut env, 5));
    assert_eq!(dict.lookup(&env, 5), 0);
    assert!(env.objc.actions.is_empty());
}

#[test]
fn dictionaries_are_filled() {
    let mut env = guest();
    objects(&mut env, &[(1, 100), (2, 101), (3, 102)]);
    let empty = vec![];
    let make = |env: &mut Environment| {
        ns_dictionary::mutable_dict_from_keys_and_objects(env, &empty)
    };
    let a = make(&mut env);
    let r = ns_dictionary::init_with_objects_and_keys(&mut env, a, 11, &vec![1, 22, 2, 0]);
    assert_eq!(r, a);
    assert_eq!(ns_dictionary::object_for_key(&env, a, 1), 11);
    assert_eq!(ns_dictionary::object_for_key(&env, a, 2), 22);
    let b = make(&mut env);
    ns_dictionary::init_with_objects_for_keys_common(&mut env, b, &vec![33], &vec![3]);
    assert_eq!(ns_dictionary::object_for_key(&env, b, 3), 33);
    let c = make(&mut env);
    ns_dictionary::init_with_dictionary_common(&mut env, c, a);
    assert_eq!(ns_dictionary::object_for_key(&env, c, 2), 22);
    let d = make(&mut env);
    let keys = env.mem.alloc_and_write(&vec![1, 0, 0, 0, 2, 0, 0, 0]);
    let values = env.mem.alloc_and_write(&vec![7, 0, 0, 0, 8, 0, 0, 0]);
    ns_dictionary::init_with_objects_for_keys_count_common(&mut env, d, values, keys, 2);
    assert_eq!(ns_dictionary::object_for_key(&env, d, 2), 8);
    ns_dictionary::set_value_for_key(&mut env, d, 0, 2);
    assert_eq!(ns_dictionary::object_for_key(&env, d, 2), 0);
}

#[test]
fn entries_are_added() {
    let mut env = guest();
    objects(&mut env, &[(1, 100), (2, 101), (3, 102)]);
    let d = ns_dictionary::mutable_dict_from_keys_and_objects(&mut env, &vec![(1, 11)]);
    env.objc.actions.clear();
    methods::add_entries_from_dictionary(&mut env, d, &vec![(2, 22), (3, 0), (1, 12)]);
    assert_eq!(methods::count(&env, d), 2);
    assert_eq!(methods::value_for_key(&env, d, 1), 12);
    assert_eq!(methods::value_for_key(&env, d, 2), 22);
    assert_eq!(
        env.objc.actions,
        vec![
            Action::Retain(2),
            Action::Retain(3),
            Action::Retain(1),
            Action::Retain(22),
            Action::Release(2),
            Action::Release(3),
            Action::Retain(12),
            Action::Release(11),
            Action::Release(1),
        ]
    );
    methods::set_values_for_keys_with_dictionary(&mut env, d, &vec![(1, 99), (3, 33)], 99);
    assert_eq!(methods::value_for_key(&env, d, 1), 0);
    assert_eq!(methods::value_for_key(&env, d, 3), 33);
    methods::remove_objects_for_keys(&mut env, d, &vec![2, 3, 0]);
    assert_eq!(methods::count(&env, d), 0);
}

#[test]
fn dictionaries_are_compared() {
    let mut env = guest();
    objects(&mut env, &[(1, 100), (2, 101)]);
    env.objc.equals.push(EqualPair { receiver: 11, argument: 12 });
    let a = ns_dictionary::dict_from_keys_and_objects(&mut env, &vec![(1, 11)]);
    let b = ns_dictionary::dict_from_keys_and_objects(&mut env, &vec![(1, 12)]);
    let c = ns_dictionary::dict_from_keys_and_objects(&mut env, &vec![(2, 12)]);
    let d = ns_dictionary::dict_from_keys_and_objects(&mut env, &vec![(1, 12), (2, 12)]);
    env.objc.actions.clear();
    assert!(methods::is_equal_to_dictionary(&mut env, a, b));
    assert_eq!(env.objc.actions, vec![Action::Retain(1), Action::Autorelease(1)]);
    env.objc.actions.clear();
    assert!(!methods::is_equal_to_dictionary(&mut env, a, d));
    assert!(!methods::is_equal_to_dictionary(&mut env, a, 0));
    assert!(methods::is_equal(&mut env, a, a, true));
    assert!(!methods::is_equal(&mut env, a, b, false));
    assert_eq!(env.objc.actions, vec![]);
    assert!(!methods::is_equal_to_dictionary(&mut env, a, c));
    assert!(methods::is_equal(&mut env, a, b, true));
    assert_eq!(methods::all_keys_for_object(&env, d, 11), vec![1, 2]);
    assert_eq!(methods::all_keys_for_object(&env, d, 12), vec![]);
}

#[test]
fn dictionaries_are_copied_and_dropped() {
    let mut env = guest();
    objects(&mut env, &[(1, 100), (2, 101)]);
    let a = ns_dictionary::mutable_dict_from_keys_and_objects(&mut env, &vec![(1, 11), (2, 0)]);
    let b = methods::mutable_copy_to_immutable(&mut env, a);
    assert_eq!(env.mem.read_u32(b), 0x10);
    assert_eq!(methods::count(&env, b), 2);
    let c = methods::mutable_copy_with_zone(&mut env, a);
    assert_eq!(env.mem.read_u32(c), 0x20);
    assert_eq!(methods::count(&env, c), 1);
    assert_eq!(methods::value_for_key(&env, c, 1), 11);
    assert_eq!(methods::copy_with_zone(&mut env, b), b);
    env.objc.actions.clear();
    methods::dealloc(&mut env, c);
    assert_eq!(env.objc.actions, vec![Action::Release(1), Action::Release(11)]);
    assert!(!env.mem.is_known_allocation(c));
    let d = methods::dictionary_with_object_for_key(&mut env, 11, 0);
    assert_eq!(methods::count(&env, d), 0);
    assert_eq!(env.objc.actions.last(), Some(&Action::Autorelease(d)));
    assert_eq!(methods::init(&mut env, b), b);
    assert_eq!(methods::count(&env, b), 0);
}

#[test]
fn blocks_go_through_dictionaries() {
    let mut env = guest();
    objects(&mut env, &[(1, 100), (2, 101)]);
    let d = ns_dictionary::dict_from_keys_and_objects(&mut env, &vec![(1, 11), (2, 22)]);
    let block = env.mem.calloc(16);
    assert!(methods::enumerate_begin(&mut env, d, block).is_none());
    assert!(methods::enumerate_begin(&mut env, d, 0).is_none());
    env.mem.write_u32(block + 12, 0x801);
    env.objc.actions.clear();
    let mut e = methods::enumerate_begin(&mut env, d, block).unwrap();
    assert_eq!(e.invoke, 0x801);
    assert_eq!(
        env.objc.actions,
        vec![
            Action::Retain(1),
            Action::Retain(2),
            Action::Autorelease(1),
            Action::Autorelease(2)
        ]
    );
    assert_eq!(methods::enumerate_next(&env, d, &e), Some((1, 11)));
    assert!(methods::enumerate_called(&env, &mut e));
    assert_eq!(methods::enumerate_next(&env, d, &e), Some((2, 22)));
    env.mem.write_u8(e.stop_ptr, 1);
    assert!(!methods::enumerate_called(&env, &mut e));
    methods::enumerate_end(&mut env, &e);
    assert!(!env.mem.is_known_allocation(e.stop_ptr));
}

#[test]
fn the_last_of_equal_keys_wins() {
    let mut env = guest();
    objects(&mut env, &[(1, 100), (2, 100), (3, 100)]);
    for (a, b) in [(1, 2), (2, 1)] {
        env.objc.equals.push(EqualPair { receiver: a, argument: b });
    }
    let pairs = vec![(1, 11), (3, 33), (2, 22)];
    let d = ns_dictionary::dict_from_keys_and_objects(&mut env, &pairs);
    assert_eq!(ns_dictionary::object_for_key(&env, d, 1), 22);
    assert_eq!(ns_dictionary::object_for_key(&env, d, 2), 22);
    assert_eq!(ns_dictionary::object_for_key(&env, d, 3), 33);
    assert_eq!(methods::count(&env, d), 2);
}

#[test]
fn a_block_that_is_not_called_needs_no_room() {
    let mut env = guest();
    objects(&mut env, &[(1, 100)]);
    let d = ns_dictionary::dict_from_keys_and_objects(&mut env, &vec![(1, 11)]);
    let block = env.mem.calloc(16);
    while env.mem.allocate(16) != 0 {}
    env.objc.actions.clear();
    assert!(methods::enumerate_begin(&mut env, d, 0).is_none());
    assert!(methods::enumerate_begin(&mut env, d, block).is_none());
    assert_eq!(env.objc.actions, vec![]);
}

#[test]
fn keys_outlive_their_removal_in_an_enumeration() {
    let mut env = guest();
    objects(&mut env, &[(1, 100), (2, 101)]);
    let pairs = vec![(1, 11), (2, 22)];
    let d = ns_dictionary::mutable_dict_from_keys_and_objects(&mut env, &pairs);
    let block = env.mem.calloc(16);
    env.mem.write_u32(block + 12, 0x801);
    let mut e = methods::enumerate_begin(&mut env, d, block).unwrap();
    env.objc.actions.clear();
    ns_dictionary::remove_object_for_key(&mut env, d, 2);
    assert_eq!(env.objc.actions, vec![Action::Release(2), Action::Release(22)]);
    assert_eq!(methods::enumerate_next(&env, d, &e), Some((1, 11)));
    assert!(methods::enumerate_called(&env, &mut e));
    assert_eq!(methods::enumerate_next(&env, d, &e), Some((2, 0)));
}
