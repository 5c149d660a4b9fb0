//! How a path that the guest gives is matched against the files that are
//! there: letter case does not count, and a relative path may also name
//! something in the application bundle.
use vstd::prelude::*;

use crate::fs::{names_in, Fs};
use crate::paths::{is_absolute, join, parts_of, resolve, split_parts, texts};
use crate::text::{chars_of, lowercase, lowercase_of, same_chars, string_of};

verus! {

/// The index of the first of `entries`, from `from` on, that is `target`.
pub open spec fn index_of_text(
    entries: Seq<Seq<char>>,
    target: Seq<char>,
    from: int,
) -> Option<int>
    decreases entries.len() - from,
{
    if from < 0 || from >= entries.len() {
        None
    } else if entries[from] == target {
        Some(from)
    } else {
        index_of_text(entries, target, from + 1)
    }
}

/// The texts in lower case.
pub open spec fn lowered(entries: Seq<Seq<char>>) -> Seq<Seq<char>> {
    Seq::new(entries.len(), |i: int| lowercase_of(entries[i]))
}

/// The path `at` with one more component.
pub open spec fn with_component(at: Seq<char>, name: Seq<char>) -> Seq<char> {
    if at.len() > 0 && at.last() != '/' {
        at.push('/') + name
    } else {
        at + name
    }
}

/// The directory that is searched when the path so far is `at`.
pub open spec fn search_dir(at: Seq<char>) -> Seq<char> {
    if at.len() == 0 {
        seq!['.']
    } else {
        at
    }
}

/// The path that the components from `i` on lead to from `at`, each taken as
/// the first name in its directory that differs in letter case at most.
pub open spec fn match_parts(
    fs: Fs,
    at: Seq<char>,
    parts: Seq<Seq<char>>,
    i: int,
) -> Option<Seq<char>>
    decreases parts.len() - i,
{
    if i < 0 || i >= parts.len() {
        Some(at)
    } else if !fs.path_is_dir(search_dir(at)) {
        None
    } else {
        let names = names_in(fs.nodes@, join(resolve(fs.working_directory@, search_dir(at))));
        match index_of_text(lowered(names), lowercase_of(parts[i]), 0) {
            None => None,
            Some(k) => match_parts(fs, with_component(at, names[k]), parts, i + 1),
        }
    }
}

/// The path of an existing file that `path` stands for.
pub open spec fn matching_path(fs: Fs, path: Seq<char>) -> Option<Seq<char>> {
    if fs.path_exists(path) {
        Some(path)
    } else {
        let start = if is_absolute(path) {
            seq!['/']
        } else {
            Seq::empty()
        };
        match match_parts(fs, start, parts_of(path), 0) {
            Some(found) => if fs.path_exists(found) {
                Some(found)
            } else {
                None
            },
            None => None,
        }
    }
}

/// `s` without the slashes at its end.
pub open spec fn trim_slashes(s: Seq<char>) -> Seq<char>
    decreases s.len(),
{
    if s.len() > 0 && s.last() == '/' {
        trim_slashes(s.drop_last())
    } else {
        s
    }
}

/// `s` without every `./` at its start.
pub open spec fn trim_dot_slashes(s: Seq<char>) -> Seq<char>
    decreases s.len(),
{
    if s.len() >= 2 && s[0] == '.' && s[1] == '/' {
        trim_dot_slashes(s.skip(2))
    } else {
        s
    }
}

/// `path` as a path inside the bundle.
pub open spec fn bundle_relative(bundle_path: Seq<char>, path: Seq<char>) -> Seq<char> {
    trim_slashes(bundle_path).push('/') + trim_dot_slashes(path)
}

/// The path that is opened when the guest asks for `path`.
pub open spec fn open_target(
    fs: Fs,
    bundle_path: Seq<char>,
    path: Seq<char>,
    create: bool,
) -> Seq<char> {
    match matching_path(fs, path) {
        Some(found) => found,
        None => if is_absolute(path) || create {
            path
        } else {
            match matching_path(fs, bundle_relative(bundle_path, path)) {
                Some(found) => found,
                None => path,
            }
        },
    }
}

/// A path that exists is opened as it is written, whatever else is there.
pub proof fn law_exact_path_first(fs: Fs, bundle_path: Seq<char>, path: Seq<char>, create: bool)
    requires
        fs.path_exists(path),
    ensures
        open_target(fs, bundle_path, path, create) == path,
{
}

/// What is opened exists, or is what the guest asked for.
pub proof fn law_open_target(fs: Fs, bundle_path: Seq<char>, path: Seq<char>, create: bool)
    ensures
        open_target(fs, bundle_path, path, create) == path || fs.path_exists(
            open_target(fs, bundle_path, path, create),
        ),
{
}

proof fn lemma_index_of_text_is(
    entries: Seq<Seq<char>>,
    target: Seq<char>,
    from: int,
    k: int,
)
    requires
        0 <= from <= k <= entries.len(),
        forall|i: int| from <= i < k ==> (#[trigger] entries[i]) != target,
        k < entries.len() ==> entries[k] == target,
    ensures
        index_of_text(entries, target, from) == if k < entries.len() {
            Some(k)
        } else {
            None
        },
    decreases k - from,
{
    if from < k {
        assert(entries[from] != target);
        lemma_index_of_text_is(entries, target, from + 1, k);
    }
}

/// The index of the first of `entries` that is `target`.
pub fn first_equal(entries: &Vec<Vec<char>>, target: &Vec<char>) -> (r: Option<usize>)
    ensures
        match index_of_text(texts(entries@), target@, 0) {
            Some(k) => (r matches Some(i) && i == k) && 0 <= k < entries@.len(),
            None => r is None,
        },
{
    let n: usize = entries.len();
    let mut i: usize = 0;
    while i < n
        invariant
            i <= n == entries@.len(),
            forall|k: int| 0 <= k < i ==> (#[trigger] texts(entries@)[k]) != target@,
        decreases n - i,
    {
        if same_chars(&entries[i], target) {
            proof {
                lemma_index_of_text_is(texts(entries@), target@, 0, i as int);
            }
            return Some(i);
        }
        i = i + 1;
    }
    proof {
        lemma_index_of_text_is(texts(entries@), target@, 0, n as int);
    }
    None
}

/// `s` in lower case.
fn lower_chars(s: &Vec<char>) -> (r: Vec<char>)
    ensures
        r@ == lowercase_of(s@),
{
    let text: String = string_of(s);
    let low: String = lowercase(text.as_str());
    chars_of(low.as_str())
}

fn lower_all(entries: &Vec<Vec<char>>) -> (r: Vec<Vec<char>>)
    ensures
        texts(r@) == lowered(texts(entries@)),
{
    let mut r: Vec<Vec<char>> = Vec::new();
    let n: usize = entries.len();
    let mut i: usize = 0;
    while i < n
        invariant
            i <= n == entries@.len(),
            r@.len() == i,
            forall|k: int| 0 <= k < i ==> (#[trigger] r@[k])@ == lowercase_of(entries@[k]@),
        decreases n - i,
    {
        r.push(lower_chars(&entries[i]));
        i = i + 1;
    }
    assert(texts(r@) =~= lowered(texts(entries@)));
    r
}

/// The path of an existing file that `path` stands for, letter case aside.
pub fn case_insensitive_path(fs: &Fs, path: &Vec<char>) -> (r: Option<Vec<char>>)
    ensures
        match matching_path(*fs, path@) {
            Some(found) => r is Some && r->0@ == found,
            None => r is None,
        },
{
    if fs.has_path(path) {
        return Some(path.clone());
    }
    let parts: Vec<Vec<char>> = split_parts(path);
    let mut current_path: Vec<char> = Vec::new();
    if path.len() > 0 && path[0] == '/' {
        current_path.push('/');
    }
    let ghost start = current_path@;
    assert(start =~= if is_absolute(path@) {
        seq!['/']
    } else {
        Seq::empty()
    });
    let n: usize = parts.len();
    let mut i: usize = 0;
    while i < n
        invariant
            i <= n == parts@.len(),
            match_parts(*fs, start, texts(parts@), 0) == match_parts(
                *fs,
                current_path@,
                texts(parts@),
                i as int,
            ),
            texts(parts@) == parts_of(path@),
            !fs.path_exists(path@),
            start == if is_absolute(path@) {
                seq!['/']
            } else {
                Seq::<char>::empty()
            },
        decreases n - i,
    {
        let mut parent_to_search: Vec<char> = current_path.clone();
        if parent_to_search.len() == 0 {
            parent_to_search.push('.');
        }
        assert(parent_to_search@ =~= search_dir(current_path@));
        let target_lower: Vec<char> = lower_chars(&parts[i]);
        let entries: Vec<Vec<char>> = match fs.enumerate(&parent_to_search) {
            Some(entries) => entries,
            None => {
                return None;
            },
        };
        let lower: Vec<Vec<char>> = lower_all(&entries);
        let k: usize = match first_equal(&lower, &target_lower) {
            Some(k) => k,
            None => {
                return None;
            },
        };
        let ghost before = current_path@;
        if current_path.len() > 0 && current_path[current_path.len() - 1] != '/' {
            current_path.push('/');
        }
        let mut found: Vec<char> = entries[k].clone();
        current_path.append(&mut found);
        proof {
            let names = texts(entries@);
            assert(current_path@ =~= with_component(before, names[k as int]));
            assert(texts(parts@)[i as int] == parts@[i as int]@);
            assert(index_of_text(lowered(names), lowercase_of(texts(parts@)[i as int]), 0)
                == Some(k as int));
            assert(match_parts(*fs, before, texts(parts@), i as int) == match_parts(
                *fs,
                current_path@,
                texts(parts@),
                i + 1,
            ));
        }
        i = i + 1;
    }
    if fs.has_path(&current_path) {
        Some(current_path)
    } else {
        None
    }
}

/// `path` as a path inside the bundle.
pub fn bundle_relative_path(bundle_path: &Vec<char>, path: &Vec<char>) -> (r: Vec<char>)
    ensures
        r@ == bundle_relative(bundle_path@, path@),
{
    let mut r: Vec<char> = bundle_path.clone();
    while r.len() > 0 && r[r.len() - 1] == '/'
        invariant
            trim_slashes(r@) == trim_slashes(bundle_path@),
        decreases r@.len(),
    {
        let ghost before = r@;
        r.pop();
        assert(r@ =~= before.drop_last());
    }
    let mut from: usize = 0;
    assert(path@.skip(0) =~= path@);
    while path.len() - from >= 2 && path[from] == '.' && path[from + 1] == '/'
        invariant
            from <= path@.len(),
            trim_dot_slashes(path@.skip(from as int)) == trim_dot_slashes(path@),
        decreases path@.len() - from,
    {
        assert(path@.skip(from as int).skip(2) =~= path@.skip(from + 2));
        from = from + 2;
    }
    r.push('/');
    let ghost head = r@;
    let mut i: usize = from;
    while i < path.len()
        invariant
            from <= i <= path@.len(),
            r@ =~= head + path@.subrange(from as int, i as int),
        decreases path@.len() - i,
    {
        r.push(path[i]);
        i = i + 1;
    }
    assert(path@.subrange(from as int, path@.len() as int) =~= path@.skip(from as int));
    r
}

/// The path that is opened when the guest asks for `path`.
pub fn find_open_target(fs: &Fs, bundle_path: &Vec<char>, path: &Vec<char>, create: bool) -> (r:
    Vec<char>)
    ensures
        r@ == open_target(*fs, bundle_path@, path@, create),
{
    match case_insensitive_path(fs, path) {
        Some(found) => found,
        None => {
            if path.len() > 0 && path[0] == '/' || create {
                return path.clone();
            }
            let relative: Vec<char> = bundle_relative_path(bundle_path, path);
            match case_insensitive_path(fs, &relative) {
                Some(found) => found,
                None => path.clone(),
            }
        },
    }
}

} // verus!
