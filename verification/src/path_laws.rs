//! Where paths lead and what the file system holds there.
use vstd::prelude::*;

use crate::fs::{
    dir_added, dirs_added, names_in, next_dir_added, node_at, Fs, FsError, FsNode,
    GuestOpenOptions, Place,
};
use crate::libc::path_search::{
    bundle_relative, index_of_text, lowered, match_parts, matching_path, open_target, search_dir,
    trim_dot_slashes, trim_slashes, with_component,
};
use crate::paths::{join, parts_of, resolve, scan_parts, slashed, walk};
use crate::text::lowercase_of;

verus! {

/// A name that can be a component: it is not empty and holds no slash.
pub open spec fn is_name(w: Seq<char>) -> bool {
    &&& w.len() > 0
    &&& forall|i: int| 0 <= i < w.len() ==> #[trigger] w[i] != '/'
}

proof fn lemma_scan_name(s: Seq<char>, w: Seq<char>)
    requires
        forall|i: int| 0 <= i < w.len() ==> #[trigger] w[i] != '/',
    ensures
        scan_parts(s + w) == (scan_parts(s).0, scan_parts(s).1 + w),
    decreases w.len(),
{
    if w.len() == 0 {
        assert(s + w =~= s);
        assert(scan_parts(s).1 + w =~= scan_parts(s).1);
    } else {
        let front = w.drop_last();
        assert(w[w.len() - 1] != '/');
        assert forall|i: int| 0 <= i < front.len() implies #[trigger] front[i] != '/' by {
            assert(front[i] == w[i]);
        }
        lemma_scan_name(s, front);
        assert((s + w).drop_last() =~= s + front);
        assert((scan_parts(s).1 + front).push(w.last()) =~= scan_parts(s).1 + w);
    }
}

/// The components of a path stand between its slashes: a name behind a slash is
/// one component more, and a slash at the end changes nothing.
pub proof fn law_components(s: Seq<char>, w: Seq<char>)
    requires
        is_name(w),
    ensures
        parts_of(Seq::empty()).len() == 0,
        parts_of(w) == seq![w],
        parts_of(s.push('/')) == parts_of(s),
        parts_of(s.push('/') + w) == parts_of(s).push(w),
{
    let t = s.push('/');
    assert(t.drop_last() =~= s);
    assert(scan_parts(t).1 =~= Seq::empty());
    lemma_scan_name(t, w);
    assert(scan_parts(t).1 + w =~= w);
    lemma_scan_name(Seq::empty(), w);
    assert(Seq::<char>::empty() + w =~= w);
    assert(parts_of(w) =~= seq![w]);
}

/// Where a path leads with a name more behind it: `.` stays, `..` goes up, but
/// not above the root, and any other name goes down.
pub proof fn law_resolve_name(wd: Seq<char>, path: Seq<char>, w: Seq<char>)
    requires
        path.len() > 0,
        is_name(w),
    ensures
        ({
            let at = resolve(wd, path);
            let to = resolve(wd, path.push('/') + w);
            &&& w == seq!['.'] ==> to == at
            &&& w == seq!['.', '.'] && at.len() > 0 ==> to == at.drop_last()
            &&& w == seq!['.', '.'] && at.len() == 0 ==> to.len() == 0
            &&& w != seq!['.'] && w != seq!['.', '.'] ==> to == at.push(w)
        }),
        resolve(wd, path.push('/')) == resolve(wd, path),
{
    law_components(path, w);
    let full = path.push('/') + w;
    assert(full[0] == path[0]);
    assert(path.push('/')[0] == path[0]);
    let parts = parts_of(path).push(w);
    assert(parts.drop_last() =~= parts_of(path));
    assert(seq!['.'] != seq!['.', '.']) by {
        assert(seq!['.'].len() != seq!['.', '.'].len());
    }
}

/// An absolute path leads to the same place from everywhere, and the root is
/// nowhere below. A name alone leads below the working directory.
pub proof fn law_resolve_from(wd: Seq<char>, other: Seq<char>, path: Seq<char>, w: Seq<char>)
    requires
        is_name(w),
        wd.len() > 0,
        wd[0] == '/',
    ensures
        path.len() > 0 && path[0] == '/' ==> resolve(wd, path) == resolve(other, path),
        resolve(wd, seq!['/']).len() == 0,
        resolve(wd, Seq::empty()) == resolve(other, wd),
        w[0] != '/' ==> resolve(wd, w) == resolve(other, wd.push('/') + w),
{
    law_components(wd, w);
    law_components(Seq::empty(), w);
    assert(Seq::<char>::empty().push('/') =~= seq!['/']);
    let full = wd.push('/') + w;
    assert(full[0] == '/');
    let base = walk(Seq::empty(), parts_of(wd));
    let one = seq![w];
    assert(one.drop_last() =~= Seq::<Seq<char>>::empty());
    assert(walk(base, one.drop_last()) == base);
    assert(parts_of(full).drop_last() =~= parts_of(wd));
    assert(parts_of(Seq::<char>::empty()) =~= Seq::empty());
}

/// Components are written with a slash before each; none are written as a slash
/// alone.
pub proof fn law_join(parts: Seq<Seq<char>>, w: Seq<char>)
    ensures
        join(Seq::empty()) == seq!['/'],
        parts.len() > 0 ==> join(parts.push(w)) == join(parts).push('/') + w,
        parts.len() == 0 ==> join(parts.push(w)) == seq!['/'] + w,
{
    assert(parts.push(w).drop_last() =~= parts);
    if parts.len() == 0 {
        assert(slashed(parts) =~= Seq::empty());
        assert(slashed(parts).push('/') =~= seq!['/']);
    }
}

/// A name of a directory is found where it first stands among the nodes.
pub proof fn law_node_at(
    nodes: Seq<FsNode>,
    dir: Seq<char>,
    name: Seq<char>,
    from: int,
    k: int,
)
    requires
        0 <= from <= k <= nodes.len(),
        k < nodes.len() ==> nodes[k].dir@ == dir && nodes[k].name@ == name,
        forall|j: int|
            from <= j < k ==> (#[trigger] nodes[j]).dir@ != dir || nodes[j].name@ != name,
    ensures
        node_at(nodes, dir, name, from) == if k < nodes.len() {
            Some(k)
        } else {
            None
        },
    decreases k - from,
{
    if from < k {
        law_node_at(nodes, dir, name, from + 1, k);
    }
}

/// The node number `k` is the first of the name that the path leads to.
pub open spec fn leads_to(fs: Fs, path: Seq<char>, k: int) -> bool {
    let parts = resolve(fs.working_directory@, path);
    &&& parts.len() > 0
    &&& 0 <= k < fs.nodes@.len()
    &&& fs.nodes@[k].dir@ == join(parts.drop_last())
    &&& fs.nodes@[k].name@ == parts[parts.len() - 1]
    &&& forall|j: int|
        0 <= j < k ==> (#[trigger] fs.nodes@[j]).dir@ != join(parts.drop_last())
            || fs.nodes@[j].name@ != parts[parts.len() - 1]
}

/// No node has the name that the path leads to.
pub open spec fn leads_nowhere(fs: Fs, path: Seq<char>) -> bool {
    let parts = resolve(fs.working_directory@, path);
    &&& parts.len() > 0
    &&& forall|j: int|
        0 <= j < fs.nodes@.len() ==> (#[trigger] fs.nodes@[j]).dir@ != join(parts.drop_last())
            || fs.nodes@[j].name@ != parts[parts.len() - 1]
}

/// What is said of a path is what its node says: whether it is there, whether it
/// is a directory, whether names may be made in it, and what it holds. The root
/// is a directory in which names may be made.
pub proof fn law_place(fs: Fs, path: Seq<char>, k: int)
    ensures
        leads_to(fs, path, k) ==> {
            let node = fs.nodes@[k];
            &&& fs.path_exists(path)
            &&& fs.path_is_dir(path) <==> node.kind is Directory
            &&& fs.dir_writable(path) <==> node.kind is Directory && node.writable
            &&& node.kind is Directory ==> fs.file_contents(path) is None
            &&& node.kind is File ==> fs.file_contents(path) == Some(
                fs.inodes@[node.kind->File_0 as int].data@,
            )
        },
        leads_nowhere(fs, path) ==> {
            &&& !fs.path_exists(path)
            &&& !fs.path_is_dir(path)
            &&& !fs.dir_writable(path)
            &&& fs.file_contents(path) is None
        },
        resolve(fs.working_directory@, path).len() == 0 ==> {
            &&& fs.path_exists(path)
            &&& fs.path_is_dir(path)
            &&& fs.dir_writable(path)
            &&& fs.file_contents(path) is None
        },
{
    let parts = resolve(fs.working_directory@, path);
    let count = fs.nodes.len();
    assert(count == fs.nodes@.len());
    if leads_to(fs, path, k) {
        law_node_at(fs.nodes@, join(parts.drop_last()), parts.last(), 0, k);
    }
    if leads_nowhere(fs, path) {
        law_node_at(
            fs.nodes@,
            join(parts.drop_last()),
            parts.last(),
            0,
            fs.nodes@.len() as int,
        );
    }
}

/// One more node is one more name in its directory, and changes no other.
pub proof fn law_names_in(nodes: Seq<FsNode>, node: FsNode, dir: Seq<char>)
    ensures
        names_in(Seq::empty(), dir).len() == 0,
        node.dir@ == dir ==> names_in(nodes.push(node), dir) == names_in(nodes, dir).push(
            node.name@,
        ),
        node.dir@ != dir ==> names_in(nodes.push(node), dir) == names_in(nodes, dir),
{
    assert(nodes.push(node).drop_last() =~= nodes);
}

/// What can be opened: a directory to read it, a file to read it and, where it
/// may be written, to write it; and what is not there, where it is to be made and
/// written and its directory lets it.
pub proof fn law_can_open(fs: Fs, path: Seq<char>, o: GuestOpenOptions, k: int)
    ensures
        leads_to(fs, path, k) && fs.nodes@[k].kind is Directory ==> fs.can_open(path, o) == !(
        o.write || o.append),
        leads_to(fs, path, k) && fs.nodes@[k].kind is File ==> fs.can_open(path, o) == (
        fs.nodes@[k].writable || !(o.write || o.append)),
        leads_nowhere(fs, path) && fs.can_open(path, o) ==> o.create && (o.write || o.append),
        leads_nowhere(fs, path) && o.create && (o.write || o.append) ==> fs.can_open(path, o)
            == fs.dir_writable(
            join(resolve(fs.working_directory@, path).drop_last()),
        ),
        resolve(fs.working_directory@, path).len() == 0 ==> fs.can_open(path, o) == !(o.write
            || o.append),
{
    law_place(fs, path, k);
    let parts = resolve(fs.working_directory@, path);
    let count = fs.nodes.len();
    assert(count == fs.nodes@.len());
    if leads_to(fs, path, k) {
        law_node_at(fs.nodes@, join(parts.drop_last()), parts.last(), 0, k);
    }
}

/// A path lies in a directory where it is that directory or goes on with a slash
/// behind it.
pub proof fn law_below(path: Seq<char>, dir: Seq<char>, rest: Seq<char>)
    ensures
        Fs::below(dir, dir),
        Fs::below(dir.push('/') + rest, dir),
        Fs::below(path, dir) ==> path == dir || exists|r: Seq<char>| path == #[trigger] (dir.push(
            '/',
        ) + r),
        Fs::rebased(dir, dir, path) == path,
        Fs::rebased(dir.push('/') + rest, dir, path) == path.push('/') + rest,
        !Fs::below(path, dir) ==> Fs::rebased(path, dir, rest) == path,
{
    assert(dir.take(dir.len() as int) =~= dir);
    let inside = dir.push('/') + rest;
    assert(inside.take(dir.len() as int) =~= dir);
    assert(inside[dir.len() as int] == '/');
    assert(path + dir.skip(dir.len() as int) =~= path);
    assert(path + inside.skip(dir.len() as int) =~= path.push('/') + rest);
    if Fs::below(path, dir) && path != dir {
        if path.len() == dir.len() {
            assert(path =~= path.take(dir.len() as int));
        } else {
            let r = path.skip(dir.len() as int + 1);
            assert forall|i: int| 0 <= i < path.len() implies path[i] == (dir.push('/') + r)[i] by {
                if i < dir.len() {
                    assert(path.take(dir.len() as int)[i] == path[i]);
                }
            }
            assert(path =~= dir.push('/') + r);
        }
    }
}

/// What is renamed has the new name in the new directory, and is what it was;
/// what had that name is gone. What lay below it lies below its new path, and
/// what lay elsewhere stays. No contents and no open file change.
pub proof fn law_renamed(
    before: Fs,
    after: Fs,
    from: Seq<char>,
    to: Seq<char>,
    i: int,
    m: int,
)
    requires
        leads_to(before, from, i),
        before.can_rename(from, to),
        after.renamed(before, from, to),
        0 <= m < before.nodes@.len(),
        m != i,
        !leads_to(before, to, m),
    ensures
        after.inodes == before.inodes,
        after.opens == before.opens,
        after.working_directory == before.working_directory,
        exists|k: int|
            0 <= k < after.nodes@.len() && (#[trigger] after.nodes@[k]).kind
                == before.nodes@[i].kind && after.nodes@[k].dir@ == join(
                resolve(before.working_directory@, to).drop_last(),
            ) && after.nodes@[k].name@ == resolve(before.working_directory@, to).last(),
        exists|k: int|
            0 <= k < after.nodes@.len() && (#[trigger] after.nodes@[k]).kind
                == before.nodes@[m].kind && after.nodes@[k].name@ == before.nodes@[m].name@
                && after.nodes@[k].dir@ == Fs::rebased(
                before.nodes@[m].dir@,
                join(resolve(before.working_directory@, from)),
                join(resolve(before.working_directory@, to)),
            ),
        forall|j: int|
            leads_to(before, to, j) && j != i ==> after.nodes@.len() == before.nodes@.len() - 1,
        leads_nowhere(before, to) ==> after.nodes@.len() == before.nodes@.len(),
{
    law_place(before, from, i);
    let parts = resolve(before.working_directory@, from);
    let goal = resolve(before.working_directory@, to);
    let n = before.nodes@.len() as int;
    let count = before.nodes.len();
    assert(count == n);
    law_node_at(before.nodes@, join(parts.drop_last()), parts.last(), 0, i);
    assert(before.place(from) == Place::Node(i as usize));
    let gone = match before.place(to) {
        Place::Node(j) => if j == i {
            n
        } else {
            j as int
        },
        _ => n,
    };
    assert(gone != i);
    if goal.len() > 0 {
        lemma_node_found(before.nodes@, join(goal.drop_last()), goal.last(), 0);
        if gone == m && m < n {
            assert(leads_to(before, to, m));
        }
    }
    assert forall|j: int| leads_to(before, to, j) && j != i implies after.nodes@.len() == n - 1 by {
        law_node_at(before.nodes@, join(goal.drop_last()), goal.last(), 0, j);
    }
    if leads_nowhere(before, to) {
        law_place(before, to, 0);
    }
    let ki = if i < gone {
        i
    } else {
        i - 1
    };
    let km = if m < gone {
        m
    } else {
        m - 1
    };
    assert(after.nodes@[ki].kind == before.nodes@[i].kind);
    assert(after.nodes@[km].kind == before.nodes@[m].kind);
}

proof fn lemma_node_found(nodes: Seq<FsNode>, dir: Seq<char>, name: Seq<char>, from: int)
    requires
        0 <= from,
    ensures
        node_at(nodes, dir, name, from) matches Some(k) ==> {
            &&& from <= k < nodes.len()
            &&& nodes[k].dir@ == dir && nodes[k].name@ == name
            &&& forall|j: int|
                from <= j < k ==> (#[trigger] nodes[j]).dir@ != dir || nodes[j].name@ != name
        },
    decreases nodes.len() - from,
{
    if from < nodes.len() {
        lemma_node_found(nodes, dir, name, from + 1);
    }
}

/// What cannot be renamed: what is not there, the root, and what lies in a
/// directory that may not be changed; nothing goes over the root, a directory
/// over nothing that is there and nothing over a directory, but for itself; and a
/// directory does not go below itself.
pub proof fn law_cannot_rename(fs: Fs, from: Seq<char>, to: Seq<char>, i: int, j: int)
    ensures
        leads_nowhere(fs, from) ==> !fs.can_rename(from, to),
        resolve(fs.working_directory@, from).len() == 0 ==> !fs.can_rename(from, to),
        resolve(fs.working_directory@, to).len() == 0 ==> !fs.can_rename(from, to),
        leads_to(fs, from, i) && !fs.dir_writable(
            join(resolve(fs.working_directory@, from).drop_last()),
        ) ==> !fs.can_rename(from, to),
        leads_to(fs, from, i) && leads_to(fs, to, j) && i != j && (fs.nodes@[i].kind is Directory
            || fs.nodes@[j].kind is Directory) ==> !fs.can_rename(from, to),
        leads_to(fs, from, i) && leads_nowhere(fs, to) && fs.nodes@[i].kind is Directory
            && Fs::below(
            join(resolve(fs.working_directory@, to).drop_last()),
            join(resolve(fs.working_directory@, from)),
        ) ==> !fs.can_rename(from, to),
        leads_to(fs, from, i) && leads_nowhere(fs, to) && fs.nodes@[i].kind is File
            ==> fs.can_rename(from, to) == (fs.dir_writable(
            join(resolve(fs.working_directory@, from).drop_last()),
        ) && fs.dir_writable(join(resolve(fs.working_directory@, to).drop_last()))),
{
    law_place(fs, from, i);
    law_place(fs, to, j);
    let a = resolve(fs.working_directory@, from);
    let b = resolve(fs.working_directory@, to);
    let count = fs.nodes.len();
    assert(count == fs.nodes@.len());
    if leads_to(fs, from, i) {
        law_node_at(fs.nodes@, join(a.drop_last()), a.last(), 0, i);
    }
    if leads_to(fs, to, j) {
        law_node_at(fs.nodes@, join(b.drop_last()), b.last(), 0, j);
    }
}

/// What cannot be removed: the root, what is not there, what lies in a directory
/// that may not be changed, and a directory in which there are names.
pub proof fn law_cannot_remove(fs: Fs, path: Seq<char>, k: int)
    ensures
        ({
            let parts = resolve(fs.working_directory@, path);
            let parent = join(parts.drop_last());
            &&& parts.len() == 0 ==> fs.remove_error(path) == Some(FsError::AccessDenied)
            &&& leads_nowhere(fs, path) && !fs.path_exists(parent) ==> fs.remove_error(path)
                == Some(FsError::NonexistentParentDir)
            &&& leads_nowhere(fs, path) && fs.path_exists(parent) && !fs.path_is_dir(parent)
                ==> fs.remove_error(path) == Some(FsError::InvalidParentDir)
            &&& leads_nowhere(fs, path) && fs.path_is_dir(parent) ==> fs.remove_error(path) == Some(
                FsError::DoesNotExist,
            )
            &&& leads_to(fs, path, k) && !fs.dir_writable(parent) ==> fs.remove_error(path) == Some(
                FsError::ReadonlyParentDir,
            )
            &&& leads_to(fs, path, k) && fs.dir_writable(parent) && fs.nodes@[k].kind is Directory
                && names_in(fs.nodes@, join(parts)).len() > 0 ==> fs.remove_error(path) == Some(
                FsError::DirectoryNotEmpty,
            )
            &&& leads_to(fs, path, k) && fs.dir_writable(parent) && (fs.nodes@[k].kind is File
                || names_in(fs.nodes@, join(parts)).len() == 0) ==> fs.remove_error(path) is None
        }),
{
    law_place(fs, path, k);
    let parts = resolve(fs.working_directory@, path);
    let count = fs.nodes.len();
    assert(count == fs.nodes@.len());
    if leads_to(fs, path, k) {
        law_node_at(fs.nodes@, join(parts.drop_last()), parts.last(), 0, k);
    }
}

/// Every node that was there is there, at its place.
pub open spec fn nodes_kept(before: Fs, after: Fs) -> bool {
    &&& before.nodes@.len() <= after.nodes@.len()
    &&& forall|k: int|
        0 <= k < before.nodes@.len() ==> #[trigger] after.nodes@[k] == before.nodes@[k]
    &&& after.working_directory == before.working_directory
    &&& after.inodes == before.inodes
    &&& after.opens == before.opens
}

proof fn lemma_still_dir(before: Fs, after: Fs, path: Seq<char>)
    requires
        nodes_kept(before, after),
        before.path_is_dir(path),
    ensures
        after.path_is_dir(path),
{
    let parts = resolve(before.working_directory@, path);
    let count = after.nodes.len();
    assert(count == after.nodes@.len());
    if parts.len() > 0 {
        lemma_node_found(before.nodes@, join(parts.drop_last()), parts.last(), 0);
        let k = node_at(before.nodes@, join(parts.drop_last()), parts.last(), 0)->0;
        assert forall|j: int| 0 <= j < k implies (#[trigger] after.nodes@[j]).dir@ != join(
            parts.drop_last(),
        ) || after.nodes@[j].name@ != parts.last() by {
            assert(after.nodes@[j] == before.nodes@[j]);
            assert(before.nodes@[j].dir@ != join(parts.drop_last()) || before.nodes@[j].name@
                != parts.last());
        }
        assert(after.nodes@[k] == before.nodes@[k]);
        law_node_at(after.nodes@, join(parts.drop_last()), parts.last(), 0, k);
    }
}

/// Making a directory, with those above it that are missing, leaves each of them
/// a directory, where it succeeds, and in any case keeps what was there.
pub proof fn law_directories_made(
    before: Fs,
    after: Fs,
    parts: Seq<Seq<char>>,
    i: int,
    ok: bool,
)
    requires
        0 <= i <= parts.len(),
        dirs_added(before, after, parts, i, ok),
        forall|j: int|
            0 < j <= parts.len() ==> resolve(
                before.working_directory@,
                join(#[trigger] parts.take(j)),
            ) == parts.take(j),
    ensures
        nodes_kept(before, after),
        ok ==> forall|j: int|
            i < j <= parts.len() ==> after.path_is_dir(join(#[trigger] parts.take(j))),
    decreases parts.len() - i,
{
    if i < parts.len() {
        let path = join(parts.take(i + 1));
        if before.path_exists(path) {
            if before.path_is_dir(path) {
                law_directories_made(before, after, parts, i + 1, ok);
                lemma_still_dir(before, after, path);
            }
        } else if before.dir_writable(before.parent_path(path)) {
            reveal_with_fuel(dirs_added, 2);
            reveal_with_fuel(next_dir_added, 2);
            assert(next_dir_added(before, after, parts, i, ok));
            let mid = choose|mid: Fs| #[trigger]
                dir_added(before, mid, join(parts.take(i + 1))) && dirs_added(
                    mid,
                    after,
                    parts,
                    i + 1,
                    ok,
                );
            law_directories_made(mid, after, parts, i + 1, ok);
            let at = resolve(before.working_directory@, path);
            let n = before.nodes@.len() as int;
            lemma_node_absent(before.nodes@, join(at.drop_last()), at.last(), 0);
            assert forall|j: int| 0 <= j < n implies (#[trigger] mid.nodes@[j]).dir@ != join(
                at.drop_last(),
            ) || mid.nodes@[j].name@ != at.last() by {
                assert(mid.nodes@[j] == before.nodes@[j]);
            }
            law_node_at(mid.nodes@, join(at.drop_last()), at.last(), 0, n);
            let count = mid.nodes.len();
            assert(count == mid.nodes@.len());
            assert(mid.path_is_dir(path));
            lemma_still_dir(mid, after, path);
            assert forall|k: int| 0 <= k < n implies #[trigger] after.nodes@[k]
                == before.nodes@[k] by {
                assert(after.nodes@[k] == mid.nodes@[k]);
            }
        }
    }
}

proof fn lemma_node_absent(nodes: Seq<FsNode>, dir: Seq<char>, name: Seq<char>, from: int)
    requires
        0 <= from,
        node_at(nodes, dir, name, from) is None,
    ensures
        forall|j: int|
            from <= j < nodes.len() ==> (#[trigger] nodes[j]).dir@ != dir || nodes[j].name@ != name,
    decreases nodes.len() - from,
{
    if from < nodes.len() {
        lemma_node_absent(nodes, dir, name, from + 1);
    }
}

/// A text is found where it first stands.
pub proof fn law_index_of_text(entries: Seq<Seq<char>>, target: Seq<char>, from: int, k: int)
    requires
        0 <= from <= k <= entries.len(),
        k < entries.len() ==> entries[k] == target,
        forall|j: int| from <= j < k ==> #[trigger] entries[j] != target,
    ensures
        index_of_text(entries, target, from) == if k < entries.len() {
            Some(k)
        } else {
            None
        },
    decreases k - from,
{
    if from < k {
        law_index_of_text(entries, target, from + 1, k);
    }
}

/// A component is looked for without regard to case: the first name of the
/// directory that is the same in lower case is taken, as it is written there, and
/// without one there is no such path.
pub proof fn law_match_component(
    fs: Fs,
    at: Seq<char>,
    parts: Seq<Seq<char>>,
    i: int,
    names: Seq<Seq<char>>,
    k: int,
)
    requires
        0 <= i < parts.len(),
        fs.path_is_dir(search_dir(at)),
        names == names_in(fs.nodes@, join(resolve(fs.working_directory@, search_dir(at)))),
        0 <= k <= names.len(),
        k < names.len() ==> lowercase_of(names[k]) == lowercase_of(parts[i]),
        forall|j: int|
            0 <= j < k ==> lowercase_of(#[trigger] names[j]) != lowercase_of(parts[i]),
    ensures
        k < names.len() ==> match_parts(fs, at, parts, i) == match_parts(
            fs,
            with_component(at, names[k]),
            parts,
            i + 1,
        ),
        k == names.len() ==> match_parts(fs, at, parts, i) is None,
{
    let low = lowered(names);
    assert forall|j: int| 0 <= j < k implies #[trigger] low[j] != lowercase_of(parts[i]) by {
        assert(lowercase_of(names[j]) != lowercase_of(parts[i]));
    }
    law_index_of_text(low, lowercase_of(parts[i]), 0, k);
}

/// A component is written behind a slash, which is there already where the path
/// ends in one, and without one where there is no path yet. A search without a
/// path starts in the working directory.
pub proof fn law_with_component(at: Seq<char>, name: Seq<char>)
    ensures
        with_component(Seq::empty(), name) == name,
        with_component(at.push('/'), name) == at.push('/') + name,
        at.len() > 0 && at[at.len() - 1] != '/' ==> with_component(at, name) == at.push('/') + name,
        search_dir(Seq::empty()) == seq!['.'],
        at.len() > 0 ==> search_dir(at) == at,
{
    assert(Seq::<char>::empty() + name =~= name);
}

/// A path in the bundle is the bundle's without the slashes at its end, a slash,
/// and the path without `./` at its start, however often it stands there.
pub proof fn law_bundle_relative(bundle: Seq<char>, path: Seq<char>)
    ensures
        trim_slashes(bundle.push('/')) == trim_slashes(bundle),
        bundle.len() == 0 || bundle[bundle.len() - 1] != '/' ==> trim_slashes(bundle) == bundle,
        trim_dot_slashes(seq!['.', '/'] + path) == trim_dot_slashes(path),
        path.len() < 2 || path[0] != '.' || path[1] != '/' ==> trim_dot_slashes(path) == path,
        bundle_relative(bundle, path) == trim_slashes(bundle) + seq!['/'] + trim_dot_slashes(path),
{
    assert(bundle.push('/').drop_last() =~= bundle);
    let dotted = seq!['.', '/'] + path;
    assert(dotted.skip(2) =~= path);
    assert(trim_slashes(bundle).push('/') =~= trim_slashes(bundle) + seq!['/']);
}

/// A file is looked for under the path as it is written, then without regard to
/// case, and then, where it is not to be made and the path is not absolute, in
/// the bundle. Without a match the path is as it is written.
pub proof fn law_open_looks(fs: Fs, bundle: Seq<char>, path: Seq<char>, create: bool)
    ensures
        matching_path(fs, path) is Some ==> open_target(fs, bundle, path, create) == matching_path(
            fs,
            path,
        )->0,
        matching_path(fs, path) is None && (create || (path.len() > 0 && path[0] == '/'))
            ==> open_target(fs, bundle, path, create) == path,
        matching_path(fs, path) is None && !create && !(path.len() > 0 && path[0] == '/') ==> {
            let inside = matching_path(fs, bundle_relative(bundle, path));
            open_target(fs, bundle, path, create) == if inside is Some {
                inside->0
            } else {
                path
            }
        },
        fs.path_exists(path) ==> matching_path(fs, path) == Some(path),
        matching_path(fs, path) is Some ==> fs.path_exists(matching_path(fs, path)->0),
{
}

} // verus!
