//! Guest paths: text split at slashes, and the absolute form of a path.
use vstd::prelude::*;


verus! {

/// The texts that a vector of character vectors holds.
pub open spec fn texts(v: Seq<Vec<char>>) -> Seq<Seq<char>> {
    Seq::new(v.len(), |i: int| v[i]@)
}

/// The non-empty pieces of `s` that a slash ends, and what follows the last
/// slash.
pub open spec fn scan_parts(s: Seq<char>) -> (Seq<Seq<char>>, Seq<char>)
    decreases s.len(),
{
    if s.len() == 0 {
        (Seq::empty(), Seq::empty())
    } else {
        let (done, rest) = scan_parts(s.drop_last());
        if s.last() == '/' {
            (
                if rest.len() == 0 {
                    done
                } else {
                    done.push(rest)
                },
                Seq::empty(),
            )
        } else {
            (done, rest.push(s.last()))
        }
    }
}

/// The non-empty pieces between the slashes of `s`.
pub open spec fn parts_of(s: Seq<char>) -> Seq<Seq<char>> {
    let (done, rest) = scan_parts(s);
    if rest.len() == 0 {
        done
    } else {
        done.push(rest)
    }
}

pub open spec fn is_absolute(s: Seq<char>) -> bool {
    s.len() > 0 && s[0] == '/'
}

pub open spec fn is_dot(p: Seq<char>) -> bool {
    p == seq!['.']
}

pub open spec fn is_dot_dot(p: Seq<char>) -> bool {
    p == seq!['.', '.']
}

/// Where walking `parts` from the directory `base` leads: `.` stays, `..` goes
/// up and stays at the root, anything else goes down.
pub open spec fn walk(base: Seq<Seq<char>>, parts: Seq<Seq<char>>) -> Seq<Seq<char>>
    decreases parts.len(),
{
    if parts.len() == 0 {
        base
    } else {
        let at = walk(base, parts.drop_last());
        if is_dot(parts.last()) {
            at
        } else if is_dot_dot(parts.last()) {
            if at.len() == 0 {
                at
            } else {
                at.drop_last()
            }
        } else {
            at.push(parts.last())
        }
    }
}

/// The components of the absolute form of `path`, seen from `wd`.
pub open spec fn resolve(wd: Seq<char>, path: Seq<char>) -> Seq<Seq<char>> {
    if is_absolute(path) {
        walk(Seq::empty(), parts_of(path))
    } else {
        walk(walk(Seq::empty(), parts_of(wd)), parts_of(path))
    }
}

/// Each component with a slash before it.
pub open spec fn slashed(parts: Seq<Seq<char>>) -> Seq<char>
    decreases parts.len(),
{
    if parts.len() == 0 {
        Seq::empty()
    } else {
        slashed(parts.drop_last()).push('/') + parts.last()
    }
}

/// The absolute path with the given components; the root is `/`.
pub open spec fn join(parts: Seq<Seq<char>>) -> Seq<char> {
    if parts.len() == 0 {
        seq!['/']
    } else {
        slashed(parts)
    }
}

/// No component of a resolved path is `.` or `..`, or is empty.
pub open spec fn plain_parts(parts: Seq<Seq<char>>) -> bool {
    forall|i: int|
        #![trigger parts[i]]
        0 <= i < parts.len() ==> {
            &&& parts[i].len() > 0
            &&& !parts[i].contains('/')
            &&& !is_dot(parts[i])
            &&& !is_dot_dot(parts[i])
        }
}

proof fn lemma_scan_parts_clean(s: Seq<char>)
    ensures
        !scan_parts(s).1.contains('/'),
        forall|i: int|
            #![trigger scan_parts(s).0[i]]
            0 <= i < scan_parts(s).0.len() ==> scan_parts(s).0[i].len() > 0 && !scan_parts(
                s,
            ).0[i].contains('/'),
    decreases s.len(),
{
    if s.len() > 0 {
        lemma_scan_parts_clean(s.drop_last());
        let (done, rest) = scan_parts(s.drop_last());
        if s.last() != '/' {
            assert(!rest.push(s.last()).contains('/')) by {
                assert forall|i: int| 0 <= i < rest.len() + 1 implies rest.push(s.last())[i]
                    != '/' by {
                    if i < rest.len() {
                        assert(rest.contains(rest[i]));
                    }
                }
            }
        }
    }
}

/// The pieces of a path are not empty and hold no slash.
pub proof fn lemma_parts_clean(s: Seq<char>)
    ensures
        forall|i: int|
            #![trigger parts_of(s)[i]]
            0 <= i < parts_of(s).len() ==> parts_of(s)[i].len() > 0 && !parts_of(s)[i].contains(
                '/',
            ),
{
    lemma_scan_parts_clean(s);
}

proof fn lemma_walk_plain(base: Seq<Seq<char>>, parts: Seq<Seq<char>>)
    requires
        plain_parts(base),
        forall|i: int|
            #![trigger parts[i]]
            0 <= i < parts.len() ==> parts[i].len() > 0 && !parts[i].contains('/'),
    ensures
        plain_parts(walk(base, parts)),
    decreases parts.len(),
{
    if parts.len() > 0 {
        let front = parts.drop_last();
        assert forall|i: int| #![trigger front[i]] 0 <= i < front.len() implies front[i].len() > 0
            && !front[i].contains('/') by {
            assert(front[i] == parts[i]);
        }
        lemma_walk_plain(base, front);
        assert(parts.last() == parts[parts.len() - 1]);
    }
}

/// A resolved path holds no `.`, no `..` and no empty component.
pub proof fn law_resolve_plain(wd: Seq<char>, path: Seq<char>)
    ensures
        plain_parts(resolve(wd, path)),
{
    lemma_parts_clean(wd);
    lemma_parts_clean(path);
    lemma_walk_plain(Seq::empty(), parts_of(wd));
    lemma_walk_plain(Seq::empty(), parts_of(path));
    lemma_walk_plain(walk(Seq::empty(), parts_of(wd)), parts_of(path));
}

proof fn lemma_scan_append(s: Seq<char>, t: Seq<char>)
    requires
        !t.contains('/'),
    ensures
        scan_parts(s + t) == (scan_parts(s).0, scan_parts(s).1 + t),
    decreases t.len(),
{
    if t.len() == 0 {
        assert(s + t =~= s);
        assert(scan_parts(s).1 + t =~= scan_parts(s).1);
    } else {
        assert(t.contains(t.last()));
        assert((s + t).drop_last() =~= s + t.drop_last());
        assert forall|c: char| #[trigger] t.drop_last().contains(c) implies t.contains(c) by {
            let i = choose|i: int| 0 <= i < t.len() - 1 && t.drop_last()[i] == c;
            assert(t[i] == c);
        }
        lemma_scan_append(s, t.drop_last());
        assert((scan_parts(s).1 + t.drop_last()).push(t.last()) =~= scan_parts(s).1 + t);
    }
}

/// Splitting the slashed form of plain components gives them back.
pub proof fn lemma_parts_of_slashed(parts: Seq<Seq<char>>)
    requires
        plain_parts(parts),
    ensures
        parts_of(slashed(parts)) == parts,
        parts.len() > 0 ==> scan_parts(slashed(parts)) == (parts.drop_last(), parts.last()),
    decreases parts.len(),
{
    if parts.len() > 0 {
        let front = parts.drop_last();
        assert forall|i: int| 0 <= i < front.len() implies #[trigger] front[i] == parts[i] by {}
        lemma_parts_of_slashed(front);
        let s = slashed(front).push('/');
        assert(s.drop_last() =~= slashed(front));
        assert(parts.last() == parts[parts.len() - 1]);
        lemma_scan_append(s, parts.last());
        if front.len() > 0 {
            assert(front.drop_last().push(front.last()) =~= front);
            assert(front.last() == front[front.len() - 1]);
        }
        assert(scan_parts(s) == (front, Seq::<char>::empty()));
        assert(Seq::<char>::empty() + parts.last() =~= parts.last());
        assert(front.push(parts.last()) =~= parts);
    }
}

proof fn lemma_walk_of_plain(parts: Seq<Seq<char>>)
    requires
        plain_parts(parts),
    ensures
        walk(Seq::empty(), parts) == parts,
    decreases parts.len(),
{
    if parts.len() > 0 {
        let front = parts.drop_last();
        assert forall|i: int| 0 <= i < front.len() implies #[trigger] front[i] == parts[i] by {}
        lemma_walk_of_plain(front);
        assert(parts.last() == parts[parts.len() - 1]);
        assert(front.push(parts.last()) =~= parts);
    } else {
        assert(parts =~= Seq::empty());
    }
}

proof fn lemma_slashed_absolute(parts: Seq<Seq<char>>)
    requires
        parts.len() > 0,
    ensures
        is_absolute(slashed(parts)),
    decreases parts.len(),
{
    let front = slashed(parts.drop_last());
    if parts.len() > 1 {
        lemma_slashed_absolute(parts.drop_last());
        assert(slashed(parts)[0] == front[0]);
    } else {
        assert(front =~= Seq::empty());
        assert(slashed(parts)[0] == '/');
    }
}

/// Resolving an absolute path that was resolved before changes nothing,
/// wherever it is seen from.
pub proof fn law_resolve_idempotent(wd: Seq<char>, path: Seq<char>, other: Seq<char>)
    ensures
        resolve(other, join(resolve(wd, path))) == resolve(wd, path),
{
    let r = resolve(wd, path);
    law_resolve_plain(wd, path);
    if r.len() > 0 {
        lemma_parts_of_slashed(r);
        lemma_walk_of_plain(r);
        lemma_slashed_absolute(r);
    } else {
        let s = seq!['/'];
        assert(s.drop_last() =~= Seq::<char>::empty());
        reveal_with_fuel(scan_parts, 2);
        assert(parts_of(s) =~= Seq::empty());
        assert(r =~= Seq::empty());
    }
}

/// The non-empty pieces between the slashes of `s`.
pub fn split_parts(s: &Vec<char>) -> (r: Vec<Vec<char>>)
    ensures
        texts(r@) == parts_of(s@),
{
    let mut done: Vec<Vec<char>> = Vec::new();
    let mut rest: Vec<char> = Vec::new();
    let n: usize = s.len();
    let mut i: usize = 0;
    assert(texts(done@) =~= Seq::empty());
    while i < n
        invariant
            i <= n == s@.len(),
            (texts(done@), rest@) == scan_parts(s@.take(i as int)),
        decreases n - i,
    {
        let ghost before = done@;
        assert(s@.take(i + 1).drop_last() =~= s@.take(i as int));
        if s[i] == '/' {
            if rest.len() > 0 {
                let ghost piece = rest@;
                done.push(rest);
                assert(texts(done@) =~= texts(before).push(piece));
            }
            rest = Vec::new();
        } else {
            rest.push(s[i]);
        }
        i = i + 1;
    }
    assert(s@.take(n as int) =~= s@);
    if rest.len() > 0 {
        let ghost before = done@;
        let ghost piece = rest@;
        done.push(rest);
        assert(texts(done@) =~= texts(before).push(piece));
    }
    done
}

/// Walks `parts` from `base`.
fn walk_from(base: Vec<Vec<char>>, parts: &Vec<Vec<char>>) -> (r: Vec<Vec<char>>)
    ensures
        texts(r@) == walk(texts(base@), texts(parts@)),
{
    let mut at: Vec<Vec<char>> = base;
    let n: usize = parts.len();
    let mut i: usize = 0;
    assert(texts(parts@).take(0) =~= Seq::empty());
    while i < n
        invariant
            i <= n == parts@.len(),
            texts(at@) == walk(texts(base@), texts(parts@).take(i as int)),
        decreases n - i,
    {
        let ghost before = at@;
        assert(texts(parts@).take(i + 1).drop_last() =~= texts(parts@).take(i as int));
        assert(texts(parts@).take(i + 1).last() == parts@[i as int]@);
        let p: &Vec<char> = &parts[i];
        if p.len() == 1 && p[0] == '.' {
            assert(is_dot(p@)) by {
                assert(p@ =~= seq!['.']);
            }
        } else if p.len() == 2 && p[0] == '.' && p[1] == '.' {
            assert(is_dot_dot(p@)) by {
                assert(p@ =~= seq!['.', '.']);
            }
            if at.len() > 0 {
                at.pop();
                assert(texts(at@) =~= texts(before).drop_last());
            }
        } else {
            at.push(p.clone());
            assert(texts(at@) =~= texts(before).push(p@));
        }
        i = i + 1;
    }
    assert(texts(parts@).take(n as int) =~= texts(parts@));
    at
}

/// The components of the absolute form of `path`, seen from `wd`.
pub fn resolve_path(wd: &Vec<char>, path: &Vec<char>) -> (r: Vec<Vec<char>>)
    ensures
        texts(r@) == resolve(wd@, path@),
{
    let start: Vec<Vec<char>> = Vec::new();
    assert(texts(start@) =~= Seq::empty());
    if path.len() > 0 && path[0] == '/' {
        walk_from(start, &split_parts(path))
    } else {
        let base: Vec<Vec<char>> = walk_from(start, &split_parts(wd));
        walk_from(base, &split_parts(path))
    }
}

/// The absolute path with the first `n` of the given components.
pub fn join_parts(parts: &Vec<Vec<char>>, n: usize) -> (r: Vec<char>)
    requires
        n <= parts@.len(),
    ensures
        r@ == join(texts(parts@).take(n as int)),
{
    let mut r: Vec<char> = Vec::new();
    if n == 0 {
        r.push('/');
        assert(r@ =~= seq!['/']);
        return r;
    }
    let mut i: usize = 0;
    while i < n
        invariant
            i <= n <= parts@.len(),
            r@ == slashed(texts(parts@).take(i as int)),
        decreases n - i,
    {
        let ghost before = r@;
        assert(texts(parts@).take(i + 1).drop_last() =~= texts(parts@).take(i as int));
        assert(texts(parts@).take(i + 1).last() == parts@[i as int]@);
        r.push('/');
        let mut piece: Vec<char> = parts[i].clone();
        r.append(&mut piece);
        assert(r@ =~= before.push('/') + parts@[i as int]@);
        i = i + 1;
    }
    r
}

} // verus!
