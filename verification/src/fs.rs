//! The guest's files: a tree of named nodes, the contents they name, and the
//! open files that read and write the contents.
//!
//! What a host may refuse of an open file (a read of a file that was opened
//! for writing only, say) is recorded with it, operation by operation, so every
//! operation here either does its work or gives the recorded error.
use vstd::prelude::*;

use crate::paths::{join, join_parts, resolve, resolve_path, texts};
use crate::text::same_chars;

verus! {

/// Why the host refuses an operation on a file.
#[derive(Clone, Copy, Debug, PartialEq, Eq, Structural)]
pub enum IoErrorKind {
    IsADirectory,
    InvalidInput,
    PermissionDenied,
    Unsupported,
    Interrupted,
    Other,
}

/// What can be asked of an open file.
#[derive(Clone, Copy, Debug, PartialEq, Eq, Structural)]
pub enum FileOp {
    Read,
    Write,
    Tell,
    Len,
    Seek,
    Flush,
    Sync,
    SetLen,
    Clone,
}

/// The errors that the host gives for an open file, by operation.
#[derive(Clone, Copy, Debug, PartialEq, Eq, Structural)]
pub struct Faults {
    pub read: Option<IoErrorKind>,
    pub write: Option<IoErrorKind>,
    pub tell: Option<IoErrorKind>,
    pub len: Option<IoErrorKind>,
    pub seek: Option<IoErrorKind>,
    pub flush: Option<IoErrorKind>,
    pub sync: Option<IoErrorKind>,
    pub set_len: Option<IoErrorKind>,
    pub clone: Option<IoErrorKind>,
}

/// A file as a descriptor or a stream holds it. Two values that name the same
/// open file share its position.
#[derive(Clone, Copy, Debug, PartialEq, Eq, Structural)]
pub enum GuestFile {
    /// An entry of `Fs::opens`.
    Open(usize),
    Directory,
    Socket,
}

/// An open file: which contents it reads and writes, and where.
#[derive(Clone, Copy, Debug, PartialEq, Eq, Structural)]
pub struct OpenFile {
    /// An entry of `Fs::inodes`.
    pub inode: usize,
    pub position: u64,
    /// Writes go to the end of the contents.
    pub append: bool,
    pub seekable: bool,
    /// The most bytes that one read or write moves.
    pub transfer_limit: usize,
    pub faults: Faults,
}

/// The contents of a file.
pub struct Inode {
    pub data: Vec<u8>,
    /// The contents changed since they were last synced.
    pub dirty: bool,
}

#[derive(Clone, Copy, Debug, PartialEq, Eq, Structural)]
pub enum NodeKind {
    Directory,
    /// A file whose contents are an entry of `Fs::inodes`.
    File(usize),
}

/// A name in a directory.
pub struct FsNode {
    /// The absolute path of the directory that holds the name.
    pub dir: Vec<char>,
    pub name: Vec<char>,
    pub kind: NodeKind,
    /// A file may be written, and in a directory names may be made and removed.
    pub writable: bool,
}

/// Options of `Fs::open_with_options`.
#[derive(Clone, Copy, Debug, PartialEq, Eq, Structural)]
pub struct GuestOpenOptions {
    pub read: bool,
    pub write: bool,
    pub append: bool,
    pub create: bool,
    pub truncate: bool,
}

pub struct Fs {
    pub nodes: Vec<FsNode>,
    pub inodes: Vec<Inode>,
    pub opens: Vec<OpenFile>,
    pub working_directory: Vec<char>,
    /// No file grows beyond this length.
    pub max_file_size: u64,
}

/// Why a name cannot be removed.
#[derive(Clone, Copy, Debug, PartialEq, Eq, Structural)]
pub enum FsError {
    DirectoryNotEmpty,
    DoesNotExist,
    NonexistentParentDir,
    InvalidParentDir,
    AccessDenied,
    ReadonlyParentDir,
    AlreadyExist,
}

/// What a path leads to.
#[derive(Clone, Copy, Debug, PartialEq, Eq, Structural)]
pub enum Place {
    /// The directory that holds everything.
    Root,
    /// An entry of `Fs::nodes`.
    Node(usize),
    Missing,
}

impl Faults {
    pub open spec fn of(&self, op: FileOp) -> Option<IoErrorKind> {
        match op {
            FileOp::Read => self.read,
            FileOp::Write => self.write,
            FileOp::Tell => self.tell,
            FileOp::Len => self.len,
            FileOp::Seek => self.seek,
            FileOp::Flush => self.flush,
            FileOp::Sync => self.sync,
            FileOp::SetLen => self.set_len,
            FileOp::Clone => self.clone,
        }
    }

    pub open spec fn none_spec() -> Faults {
        Faults {
            read: None,
            write: None,
            tell: None,
            len: None,
            seek: None,
            flush: None,
            sync: None,
            set_len: None,
            clone: None,
        }
    }

    pub fn get(&self, op: FileOp) -> (r: Option<IoErrorKind>)
        ensures
            r == self.of(op),
    {
        match op {
            FileOp::Read => self.read,
            FileOp::Write => self.write,
            FileOp::Tell => self.tell,
            FileOp::Len => self.len,
            FileOp::Seek => self.seek,
            FileOp::Flush => self.flush,
            FileOp::Sync => self.sync,
            FileOp::SetLen => self.set_len,
            FileOp::Clone => self.clone,
        }
    }
}

/// A file that was opened for reading refuses writes, and the other way round.
pub open spec fn open_faults(options: GuestOpenOptions) -> Faults {
    let writes = options.write || options.append;
    Faults {
        read: if options.read {
            None
        } else {
            Some(IoErrorKind::Other)
        },
        write: if writes {
            None
        } else {
            Some(IoErrorKind::Other)
        },
        set_len: if writes {
            None
        } else {
            Some(IoErrorKind::InvalidInput)
        },
        ..Faults::none_spec()
    }
}

/// Where in `nodes` the name `name` of the directory `dir` first stands, from
/// `from` on.
pub open spec fn node_at(
    nodes: Seq<FsNode>,
    dir: Seq<char>,
    name: Seq<char>,
    from: int,
) -> Option<int>
    decreases nodes.len() - from,
{
    if from < 0 || from >= nodes.len() {
        None
    } else if nodes[from].dir@ == dir && nodes[from].name@ == name {
        Some(from)
    } else {
        node_at(nodes, dir, name, from + 1)
    }
}

/// The names in the directory `dir`, in the order of the nodes.
pub open spec fn names_in(nodes: Seq<FsNode>, dir: Seq<char>) -> Seq<Seq<char>>
    decreases nodes.len(),
{
    if nodes.len() == 0 {
        Seq::empty()
    } else {
        let front = names_in(nodes.drop_last(), dir);
        if nodes.last().dir@ == dir {
            front.push(nodes.last().name@)
        } else {
            front
        }
    }
}

/// `data` from `at` on replaced by `new`, with zeros between the old end and
/// `at` where `at` lies behind it.
pub open spec fn spliced(data: Seq<u8>, at: int, new: Seq<u8>) -> Seq<u8> {
    Seq::new(
        if at + new.len() > data.len() {
            (at + new.len()) as nat
        } else {
            data.len()
        },
        |i: int|
            if at <= i < at + new.len() {
                new[i - at]
            } else if i < data.len() {
                data[i]
            } else {
                0u8
            },
    )
}

/// `data` cut to, or filled with zeros up to, the length `len`.
pub open spec fn resized(data: Seq<u8>, len: int) -> Seq<u8> {
    Seq::new(
        len as nat,
        |i: int|
            if i < data.len() {
                data[i]
            } else {
                0u8
            },
    )
}

pub open spec fn min3(a: int, b: int, c: int) -> int {
    let ab = if a < b {
        a
    } else {
        b
    };
    if ab < c {
        ab
    } else {
        c
    }
}

proof fn lemma_node_at_found(nodes: Seq<FsNode>, dir: Seq<char>, name: Seq<char>, from: int, k: int)
    requires
        0 <= from <= k < nodes.len(),
        nodes[k].dir@ == dir,
        nodes[k].name@ == name,
        forall|i: int|
            from <= i < k ==> !((#[trigger] nodes[i]).dir@ == dir && nodes[i].name@ == name),
    ensures
        node_at(nodes, dir, name, from) == Some(k),
    decreases k - from,
{
    if from < k {
        lemma_node_at_found(nodes, dir, name, from + 1, k);
    }
}

proof fn lemma_node_at_missing(nodes: Seq<FsNode>, dir: Seq<char>, name: Seq<char>, from: int)
    requires
        0 <= from <= nodes.len(),
        forall|i: int|
            from <= i < nodes.len() ==> !((#[trigger] nodes[i]).dir@ == dir && nodes[i].name@
                == name),
    ensures
        node_at(nodes, dir, name, from) is None,
    decreases nodes.len() - from,
{
    if from < nodes.len() {
        lemma_node_at_missing(nodes, dir, name, from + 1);
    }
}

/// What `node_at` finds is a node with the name that was looked for.
pub proof fn lemma_node_at(nodes: Seq<FsNode>, dir: Seq<char>, name: Seq<char>, from: int)
    requires
        0 <= from,
    ensures
        node_at(nodes, dir, name, from) matches Some(k) ==> {
            &&& from <= k < nodes.len()
            &&& nodes[k].dir@ == dir
            &&& nodes[k].name@ == name
        },
    decreases nodes.len() - from,
{
    if from < nodes.len() {
        lemma_node_at(nodes, dir, name, from + 1);
    }
}

impl Fs {
    pub open spec fn wf(&self) -> bool {
        &&& forall|i: int|
            #![trigger self.opens@[i]]
            0 <= i < self.opens@.len() ==> {
                &&& self.opens@[i].inode < self.inodes@.len()
                &&& self.opens@[i].position <= i64::MAX
            }
        &&& forall|i: int|
            #![trigger self.inodes@[i]]
            0 <= i < self.inodes@.len() ==> self.inodes@[i].data@.len() <= self.max_file_size
        &&& forall|i: int|
            #![trigger self.nodes@[i]]
            0 <= i < self.nodes@.len() ==> (self.nodes@[i].kind matches NodeKind::File(k) ==> k
                < self.inodes@.len())
        &&& self.max_file_size <= i64::MAX
        &&& self.max_file_size <= usize::MAX
    }

    /// An empty root directory, which is the working directory.
    pub fn new(max_file_size: u64) -> (r: Fs)
        requires
            max_file_size <= i64::MAX,
            max_file_size <= usize::MAX,
        ensures
            r.wf(),
            r.nodes@.len() == 0,
            r.inodes@.len() == 0,
            r.opens@.len() == 0,
            r.working_directory@ == seq!['/'],
            r.max_file_size == max_file_size,
    {
        Fs {
            nodes: Vec::new(),
            inodes: Vec::new(),
            opens: Vec::new(),
            working_directory: vec!['/'],
            max_file_size,
        }
    }

    /// `file` names an open file of this file system, or needs none.
    pub open spec fn has(&self, file: GuestFile) -> bool {
        file matches GuestFile::Open(k) ==> k < self.opens@.len()
    }

    pub open spec fn fault(&self, file: GuestFile, op: FileOp) -> Option<IoErrorKind> {
        match file {
            GuestFile::Open(k) => self.opens@[k as int].faults.of(op),
            GuestFile::Directory => match op {
                FileOp::Flush | FileOp::Sync | FileOp::Clone => None,
                _ => Some(IoErrorKind::IsADirectory),
            },
            GuestFile::Socket => match op {
                FileOp::Flush | FileOp::Sync | FileOp::Clone => None,
                _ => Some(IoErrorKind::Unsupported),
            },
        }
    }

    pub open spec fn seekable(&self, file: GuestFile) -> bool {
        match file {
            GuestFile::Open(k) => self.opens@[k as int].seekable,
            GuestFile::Directory => true,
            GuestFile::Socket => false,
        }
    }

    /// Where `file` reads and writes next.
    pub open spec fn position(&self, file: GuestFile) -> int {
        match file {
            GuestFile::Open(k) => self.opens@[k as int].position as int,
            _ => 0,
        }
    }

    /// The contents that `file` reads and writes.
    pub open spec fn contents(&self, file: GuestFile) -> Seq<u8> {
        match file {
            GuestFile::Open(k) => self.inodes@[self.opens@[k as int].inode as int].data@,
            _ => Seq::empty(),
        }
    }

    /// This file system is `before` with the position of `file` moved.
    pub open spec fn moved(&self, before: Fs, file: GuestFile, position: int) -> bool {
        match file {
            GuestFile::Open(k) => {
                &&& *self == Fs { opens: self.opens, ..before }
                &&& self.opens@ == before.opens@.update(
                    k as int,
                    OpenFile { position: position as u64, ..before.opens@[k as int] },
                )
            },
            _ => *self == before,
        }
    }

    /// The contents of the inode `i` became `data`; the other inodes stay.
    pub open spec fn inode_set(&self, before: Fs, i: int, data: Seq<u8>, dirty: bool) -> bool {
        &&& self.inodes@ == before.inodes@.update(i, self.inodes@[i])
        &&& self.inodes@[i].data@ == data
        &&& self.inodes@[i].dirty == dirty
    }

    /// How many bytes a read of `n` at `position` gets.
    pub open spec fn read_count_at(&self, k: int, position: int, n: int) -> int {
        let o = self.opens@[k];
        let len = self.inodes@[o.inode as int].data@.len() as int;
        if position >= len {
            0
        } else {
            min3(n, len - position, o.transfer_limit as int)
        }
    }

    /// The bytes that a read of `n` at `position` gets.
    pub open spec fn read_bytes_at(&self, k: int, position: int, n: int) -> Seq<u8> {
        let o = self.opens@[k];
        if self.read_count_at(k, position, n) == 0 {
            Seq::empty()
        } else {
            self.inodes@[o.inode as int].data@.subrange(
                position,
                position + self.read_count_at(k, position, n),
            )
        }
    }

    /// How many bytes a read of `n` gets.
    pub open spec fn read_count(&self, k: int, n: int) -> int {
        self.read_count_at(k, self.opens@[k].position as int, n)
    }

    /// The bytes that a read of `n` gets.
    pub open spec fn read_bytes(&self, k: int, n: int) -> Seq<u8> {
        self.read_bytes_at(k, self.opens@[k].position as int, n)
    }

    /// Where a write at `position` starts.
    pub open spec fn write_start_at(&self, k: int, position: int) -> int {
        let o = self.opens@[k];
        if o.append {
            self.inodes@[o.inode as int].data@.len() as int
        } else {
            position
        }
    }

    /// Where a write starts.
    pub open spec fn write_start(&self, k: int) -> int {
        self.write_start_at(k, self.opens@[k].position as int)
    }

    /// How many bytes a write of `n` puts down.
    pub open spec fn write_count(&self, k: int, n: int) -> int {
        if n < self.opens@[k].transfer_limit {
            n
        } else {
            self.opens@[k].transfer_limit as int
        }
    }

    /// The error that a write of `n` bytes at `position` gives.
    pub open spec fn write_fault_at(
        &self,
        file: GuestFile,
        position: int,
        n: int,
    ) -> Option<IoErrorKind> {
        match file {
            GuestFile::Open(k) => {
                if self.fault(file, FileOp::Write) is Some {
                    self.fault(file, FileOp::Write)
                } else if self.write_start_at(k as int, position) + self.write_count(k as int, n)
                    > self.max_file_size {
                    Some(IoErrorKind::Other)
                } else {
                    None
                }
            },
            _ => self.fault(file, FileOp::Write),
        }
    }

    /// The error that a write of `n` bytes gives.
    pub open spec fn write_fault(&self, file: GuestFile, n: int) -> Option<IoErrorKind> {
        self.write_fault_at(file, self.position(file), n)
    }

    /// This file system is `before` after `file` was written the bytes `new`.
    pub open spec fn written(&self, before: Fs, file: GuestFile, new: Seq<u8>) -> bool {
        match file {
            GuestFile::Open(k) => {
                let at = before.write_start(k as int);
                let o = before.opens@[k as int];
                &&& *self == Fs { opens: self.opens, inodes: self.inodes, ..before }
                &&& self.opens@ == before.opens@.update(
                    k as int,
                    OpenFile { position: (at + new.len()) as u64, ..o },
                )
                &&& if new.len() == 0 {
                    self.inodes == before.inodes
                } else {
                    self.inode_set(
                        before,
                        o.inode as int,
                        spliced(before.inodes@[o.inode as int].data@, at, new),
                        true,
                    )
                }
            },
            _ => *self == before,
        }
    }

    /// What `path` leads to from the working directory.
    pub open spec fn place(&self, path: Seq<char>) -> Place {
        let parts = resolve(self.working_directory@, path);
        if parts.len() == 0 {
            Place::Root
        } else {
            match node_at(self.nodes@, join(parts.drop_last()), parts.last(), 0) {
                Some(k) => Place::Node(k as usize),
                None => Place::Missing,
            }
        }
    }

    pub open spec fn path_exists(&self, path: Seq<char>) -> bool {
        self.place(path) != Place::Missing
    }

    pub open spec fn path_is_dir(&self, path: Seq<char>) -> bool {
        match self.place(path) {
            Place::Root => true,
            Place::Node(k) => self.nodes@[k as int].kind == NodeKind::Directory,
            Place::Missing => false,
        }
    }

    /// The directory that holds, or would hold, what `path` names.
    pub open spec fn parent_path(&self, path: Seq<char>) -> Seq<char> {
        join(resolve(self.working_directory@, path).drop_last())
    }

    /// The last component of `path`.
    pub open spec fn last_name(&self, path: Seq<char>) -> Seq<char> {
        resolve(self.working_directory@, path).last()
    }

    /// Names may be made and removed in the directory `path`.
    pub open spec fn dir_writable(&self, path: Seq<char>) -> bool {
        match self.place(path) {
            Place::Root => true,
            Place::Node(k) => self.nodes@[k as int].kind == NodeKind::Directory
                && self.nodes@[k as int].writable,
            Place::Missing => false,
        }
    }

    /// Whether opening `path` succeeds.
    pub open spec fn can_open(&self, path: Seq<char>, options: GuestOpenOptions) -> bool {
        let writes = options.write || options.append;
        match self.place(path) {
            Place::Root => !writes,
            Place::Node(k) => match self.nodes@[k as int].kind {
                NodeKind::Directory => !writes,
                NodeKind::File(_) => !writes || self.nodes@[k as int].writable,
            },
            Place::Missing => options.create && writes && self.dir_writable(
                self.parent_path(path),
            ),
        }
    }

    /// This file system is `before` after `path` was opened as `file`.
    pub open spec fn opened(
        &self,
        before: Fs,
        path: Seq<char>,
        options: GuestOpenOptions,
        file: GuestFile,
    ) -> bool {
        let writes = options.write || options.append;
        let fresh = before.opens@.len();
        let open_file = |inode: int|
            OpenFile {
                inode: inode as usize,
                position: 0,
                append: options.append,
                seekable: true,
                transfer_limit: usize::MAX,
                faults: open_faults(options),
            };
        match before.place(path) {
            Place::Root => file == GuestFile::Directory && *self == before,
            Place::Node(k) => match before.nodes@[k as int].kind {
                NodeKind::Directory => file == GuestFile::Directory && *self == before,
                NodeKind::File(i) => {
                    &&& file == GuestFile::Open(fresh as usize)
                    &&& *self == Fs { opens: self.opens, inodes: self.inodes, ..before }
                    &&& self.opens@ == before.opens@.push(open_file(i as int))
                    &&& if options.truncate && writes {
                        self.inode_set(before, i as int, Seq::empty(), true)
                    } else {
                        self.inodes == before.inodes
                    }
                },
            },
            Place::Missing => {
                let i = before.inodes@.len() as int;
                &&& file == GuestFile::Open(fresh as usize)
                &&& *self == Fs {
                    opens: self.opens,
                    inodes: self.inodes,
                    nodes: self.nodes,
                    ..before
                }
                &&& self.opens@ == before.opens@.push(open_file(i))
                &&& self.inodes@ == before.inodes@.push(self.inodes@[i])
                &&& self.inodes@[i].data@ == Seq::<u8>::empty()
                &&& self.inodes@[i].dirty
                &&& self.node_pushed(before, path, NodeKind::File(i as usize))
            },
        }
    }

    /// The nodes are those of `before` and one more, which `path` names.
    pub open spec fn node_pushed(&self, before: Fs, path: Seq<char>, kind: NodeKind) -> bool {
        let k = before.nodes@.len() as int;
        &&& self.nodes@ == before.nodes@.push(self.nodes@[k])
        &&& self.nodes@[k].dir@ == before.parent_path(path)
        &&& self.nodes@[k].name@ == before.last_name(path)
        &&& self.nodes@[k].kind == kind
        &&& self.nodes@[k].writable
    }

    pub fn get_fault(&self, file: GuestFile, op: FileOp) -> (r: Option<IoErrorKind>)
        requires
            self.has(file),
        ensures
            r == self.fault(file, op),
    {
        match file {
            GuestFile::Open(k) => self.opens[k].faults.get(op),
            GuestFile::Directory => match op {
                FileOp::Flush | FileOp::Sync | FileOp::Clone => None,
                _ => Some(IoErrorKind::IsADirectory),
            },
            GuestFile::Socket => match op {
                FileOp::Flush | FileOp::Sync | FileOp::Clone => None,
                _ => Some(IoErrorKind::Unsupported),
            },
        }
    }

    pub fn is_seekable(&self, file: GuestFile) -> (r: bool)
        requires
            self.has(file),
        ensures
            r == self.seekable(file),
    {
        match file {
            GuestFile::Open(k) => self.opens[k].seekable,
            GuestFile::Directory => true,
            GuestFile::Socket => false,
        }
    }

    /// Reads up to `n` bytes at the position, and moves it behind them.
    pub fn read_file(&mut self, file: GuestFile, n: usize) -> (r: Result<Vec<u8>, IoErrorKind>)
        requires
            old(self).wf(),
            old(self).has(file),
        ensures
            final(self).wf(),
            match old(self).fault(file, FileOp::Read) {
                Some(e) => r == Err::<Vec<u8>, _>(e) && *final(self) == *old(self),
                None => match file {
                    GuestFile::Open(k) => {
                        &&& r is Ok
                        &&& r->Ok_0@ == old(self).read_bytes(k as int, n as int)
                        &&& r->Ok_0@.len() == old(self).read_count(k as int, n as int)
                        &&& final(self).moved(
                            *old(self),
                            file,
                            old(self).position(file) + old(self).read_count(k as int, n as int),
                        )
                    },
                    _ => false,
                },
            },
    {
        let fault: Option<IoErrorKind> = self.get_fault(file, FileOp::Read);
        if let Some(e) = fault {
            return Err(e);
        }
        match file {
            GuestFile::Open(k) => {
                let o: OpenFile = self.opens[k];
                let len: usize = self.inodes[o.inode].data.len();
                let mut out: Vec<u8> = Vec::new();
                if o.position < len as u64 {
                    let start: usize = o.position as usize;
                    let left: usize = len - start;
                    let wanted: usize = if n < left {
                        n
                    } else {
                        left
                    };
                    let count: usize = if wanted < o.transfer_limit {
                        wanted
                    } else {
                        o.transfer_limit
                    };
                    assert(count == self.read_count(k as int, n as int));
                    let mut i: usize = 0;
                    while i < count
                        invariant
                            i <= count,
                            start + count <= len,
                            *self == *old(self),
                            k < self.opens@.len(),
                            o == self.opens@[k as int],
                            o.inode < self.inodes@.len(),
                            len == self.inodes@[o.inode as int].data@.len(),
                            start == o.position,
                            out@ =~= self.inodes@[o.inode as int].data@.subrange(
                                start as int,
                                start + i,
                            ),
                        decreases count - i,
                    {
                        out.push(self.inodes[o.inode].data[start + i]);
                        i = i + 1;
                    }
                    assert(start + count <= self.max_file_size) by {
                        assert(self.inodes@[o.inode as int].data@.len() <= self.max_file_size);
                    }
                    self.opens[k] = OpenFile { position: o.position + count as u64, ..o };
                    assert(out@ =~= old(self).read_bytes(k as int, n as int));
                } else {
                    assert(self.opens@ =~= self.opens@.update(
                        k as int,
                        OpenFile { position: o.position, ..o },
                    ));
                    assert(out@ =~= old(self).read_bytes(k as int, n as int));
                }
                Ok(out)
            },
            _ => Err(IoErrorKind::Other),
        }
    }

    /// Writes up to `data.len()` bytes, and moves the position behind them.
    pub fn write_file(&mut self, file: GuestFile, data: &Vec<u8>) -> (r: Result<usize, IoErrorKind>)
        requires
            old(self).wf(),
            old(self).has(file),
        ensures
            final(self).wf(),
            match old(self).write_fault(file, data@.len() as int) {
                Some(e) => r == Err::<usize, _>(e) && *final(self) == *old(self),
                None => match file {
                    GuestFile::Open(k) => {
                        &&& r == Ok::<_, IoErrorKind>(
                            old(self).write_count(k as int, data@.len() as int) as usize,
                        )
                        &&& final(self).written(
                            *old(self),
                            file,
                            data@.take(old(self).write_count(k as int, data@.len() as int)),
                        )
                    },
                    _ => false,
                },
            },
    {
        let fault: Option<IoErrorKind> = self.get_fault(file, FileOp::Write);
        if let Some(e) = fault {
            return Err(e);
        }
        match file {
            GuestFile::Open(k) => {
                let o: OpenFile = self.opens[k];
                let inode: usize = o.inode;
                assert(self.inodes@[inode as int].data@.len() <= self.max_file_size);
                let len: usize = self.inodes[inode].data.len();
                let start: u64 = if o.append {
                    len as u64
                } else {
                    o.position
                };
                let count: usize = if data.len() < o.transfer_limit {
                    data.len()
                } else {
                    o.transfer_limit
                };
                if start > self.max_file_size || count as u64 > self.max_file_size - start {
                    return Err(IoErrorKind::Other);
                }
                let ghost new = data@.take(count as int);
                if count > 0 {
                    let at: usize = start as usize;
                    let end: usize = at + count;
                    let mut bytes: Vec<u8> = self.inodes[inode].data.clone();
                    if len < end {
                        bytes.resize(end, 0);
                    }
                    let mut i: usize = 0;
                    let ghost base = bytes@;
                    while i < count
                        invariant
                            i <= count <= data@.len(),
                            at + count == end,
                            end <= bytes@.len() == base.len(),
                            forall|j: int|
                                0 <= j < base.len() ==> bytes@[j] == (if at <= j < at + i {
                                    data@[j - at]
                                } else {
                                    base[j]
                                }),
                        decreases count - i,
                    {
                        bytes[at + i] = data[i];
                        i = i + 1;
                    }
                    assert(bytes@ =~= spliced(
                        self.inodes@[inode as int].data@,
                        start as int,
                        new,
                    ));
                    self.inodes[inode] = Inode { data: bytes, dirty: true };
                }
                self.opens[k] = OpenFile { position: start + count as u64, ..o };
                Ok(count)
            },
            _ => Err(IoErrorKind::Other),
        }
    }

    pub fn stream_position(&self, file: GuestFile) -> (r: Result<u64, IoErrorKind>)
        requires
            self.has(file),
        ensures
            r == (match self.fault(file, FileOp::Tell) {
                Some(e) => Err::<u64, _>(e),
                None => Ok(self.position(file) as u64),
            }),
    {
        let fault: Option<IoErrorKind> = self.get_fault(file, FileOp::Tell);
        match fault {
            Some(e) => Err(e),
            None => match file {
                GuestFile::Open(k) => Ok(self.opens[k].position),
                _ => Ok(0),
            },
        }
    }

    pub fn stream_len(&self, file: GuestFile) -> (r: Result<u64, IoErrorKind>)
        requires
            self.wf(),
            self.has(file),
        ensures
            r == (match self.fault(file, FileOp::Len) {
                Some(e) => Err::<u64, _>(e),
                None => Ok(self.contents(file).len() as u64),
            }),
            self.contents(file).len() <= i64::MAX,
    {
        let fault: Option<IoErrorKind> = self.get_fault(file, FileOp::Len);
        match fault {
            Some(e) => {
                assert(file matches GuestFile::Open(k) ==> self.inodes@[self.opens@[k as int].inode
                    as int].data@.len() <= self.max_file_size);
                Err(e)
            },
            None => match file {
                GuestFile::Open(k) => {
                    let inode: usize = self.opens[k].inode;
                    assert(self.inodes@[inode as int].data@.len() <= self.max_file_size);
                    Ok(self.inodes[inode].data.len() as u64)
                },
                _ => Ok(0),
            },
        }
    }

    /// Moves the position to `position`.
    pub fn seek_to(&mut self, file: GuestFile, position: u64) -> (r: Result<u64, IoErrorKind>)
        requires
            old(self).wf(),
            old(self).has(file),
            position <= i64::MAX,
        ensures
            final(self).wf(),
            match old(self).fault(file, FileOp::Seek) {
                Some(e) => r == Err::<u64, _>(e) && *final(self) == *old(self),
                None => r == Ok::<_, IoErrorKind>(position) && final(self).moved(
                    *old(self),
                    file,
                    position as int,
                ),
            },
    {
        let fault: Option<IoErrorKind> = self.get_fault(file, FileOp::Seek);
        match fault {
            Some(e) => Err(e),
            None => {
                if let GuestFile::Open(k) = file {
                    let o: OpenFile = self.opens[k];
                    self.opens[k] = OpenFile { position, ..o };
                }
                Ok(position)
            },
        }
    }

    /// Syncs the contents, which are then no longer dirty.
    pub fn sync_all(&mut self, file: GuestFile) -> (r: Result<(), IoErrorKind>)
        requires
            old(self).wf(),
            old(self).has(file),
        ensures
            final(self).wf(),
            match old(self).fault(file, FileOp::Sync) {
                Some(e) => r == Err::<(), _>(e) && *final(self) == *old(self),
                None => r == Ok::<_, IoErrorKind>(()) && final(self).synced(*old(self), file),
            },
    {
        let fault: Option<IoErrorKind> = self.get_fault(file, FileOp::Sync);
        match fault {
            Some(e) => Err(e),
            None => {
                if let GuestFile::Open(k) = file {
                    let inode: usize = self.opens[k].inode;
                    assert(self.inodes@[inode as int].data@.len() <= self.max_file_size);
                    self.inodes[inode].dirty = false;
                }
                Ok(())
            },
        }
    }

    /// This file system is `before` after the contents of `file` were synced.
    pub open spec fn synced(&self, before: Fs, file: GuestFile) -> bool {
        match file {
            GuestFile::Open(k) => {
                let i = before.opens@[k as int].inode as int;
                &&& *self == Fs { inodes: self.inodes, ..before }
                &&& self.inodes@ == before.inodes@.update(
                    i,
                    Inode { dirty: false, ..before.inodes@[i] },
                )
            },
            _ => *self == before,
        }
    }

    /// The error that a change of the length gives.
    pub open spec fn set_len_fault(&self, file: GuestFile, len: int) -> Option<IoErrorKind> {
        if self.fault(file, FileOp::SetLen) is Some {
            self.fault(file, FileOp::SetLen)
        } else if len > self.max_file_size {
            Some(IoErrorKind::Other)
        } else {
            None
        }
    }

    /// Cuts the contents, or fills them with zeros, to the length `len`.
    pub fn set_len(&mut self, file: GuestFile, len: u64) -> (r: Result<(), IoErrorKind>)
        requires
            old(self).wf(),
            old(self).has(file),
        ensures
            final(self).wf(),
            match old(self).set_len_fault(file, len as int) {
                Some(e) => r == Err::<(), _>(e) && *final(self) == *old(self),
                None => match file {
                    GuestFile::Open(k) => {
                        &&& r == Ok::<_, IoErrorKind>(())
                        &&& *final(self) == (Fs { inodes: final(self).inodes, ..*old(self) })
                        &&& final(self).inode_set(
                            *old(self),
                            old(self).opens@[k as int].inode as int,
                            resized(old(self).contents(file), len as int),
                            true,
                        )
                    },
                    _ => false,
                },
            },
    {
        let fault: Option<IoErrorKind> = self.get_fault(file, FileOp::SetLen);
        if let Some(e) = fault {
            return Err(e);
        }
        if len > self.max_file_size {
            return Err(IoErrorKind::Other);
        }
        match file {
            GuestFile::Open(k) => {
                let inode: usize = self.opens[k].inode;
                let mut bytes: Vec<u8> = self.inodes[inode].data.clone();
                bytes.resize(len as usize, 0);
                assert(bytes@ =~= resized(self.inodes@[inode as int].data@, len as int));
                self.inodes[inode] = Inode { data: bytes, dirty: true };
                Ok(())
            },
            _ => Err(IoErrorKind::Other),
        }
    }

    /// Where the name `name` of the directory `dir` stands.
    fn find_node(&self, dir: &Vec<char>, name: &Vec<char>) -> (r: Option<usize>)
        ensures
            match node_at(self.nodes@, dir@, name@, 0) {
                Some(k) => (r matches Some(i) && i == k) && 0 <= k < self.nodes@.len(),
                None => r is None,
            },
    {
        let n: usize = self.nodes.len();
        let mut i: usize = 0;
        while i < n
            invariant
                i <= n == self.nodes@.len(),
                forall|k: int|
                    0 <= k < i ==> !((#[trigger] self.nodes@[k]).dir@ == dir@
                        && self.nodes@[k].name@ == name@),
            decreases n - i,
        {
            if same_chars(&self.nodes[i].dir, dir) && same_chars(&self.nodes[i].name, name) {
                proof {
                    lemma_node_at_found(self.nodes@, dir@, name@, 0, i as int);
                }
                return Some(i);
            }
            i = i + 1;
        }
        proof {
            lemma_node_at_missing(self.nodes@, dir@, name@, 0);
        }
        None
    }

    /// What `path` leads to from the working directory.
    pub fn locate(&self, path: &Vec<char>) -> (r: Place)
        ensures
            r == self.place(path@),
            r matches Place::Node(k) ==> k < self.nodes@.len(),
    {
        let parts: Vec<Vec<char>> = resolve_path(&self.working_directory, path);
        let n: usize = parts.len();
        if n == 0 {
            return Place::Root;
        }
        let dir: Vec<char> = join_parts(&parts, n - 1);
        assert(texts(parts@).take(n - 1) =~= texts(parts@).drop_last());
        match self.find_node(&dir, &parts[n - 1]) {
            Some(k) => Place::Node(k),
            None => Place::Missing,
        }
    }

    pub fn has_path(&self, path: &Vec<char>) -> (r: bool)
        ensures
            r == self.path_exists(path@),
    {
        match self.locate(path) {
            Place::Missing => false,
            _ => true,
        }
    }

    pub fn is_dir(&self, path: &Vec<char>) -> (r: bool)
        ensures
            r == self.path_is_dir(path@),
    {
        match self.locate(path) {
            Place::Root => true,
            Place::Node(k) => match self.nodes[k].kind {
                NodeKind::Directory => true,
                NodeKind::File(_) => false,
            },
            Place::Missing => false,
        }
    }

    /// The names in the directory `path`, if it is one.
    pub fn enumerate(&self, path: &Vec<char>) -> (r: Option<Vec<Vec<char>>>)
        ensures
            r is Some <==> self.path_is_dir(path@),
            r matches Some(names) ==> texts(names@) == names_in(
                self.nodes@,
                join(resolve(self.working_directory@, path@)),
            ),
    {
        if !self.is_dir(path) {
            return None;
        }
        let parts: Vec<Vec<char>> = resolve_path(&self.working_directory, path);
        let dir: Vec<char> = join_parts(&parts, parts.len());
        assert(texts(parts@).take(parts@.len() as int) =~= texts(parts@));
        let mut names: Vec<Vec<char>> = Vec::new();
        let n: usize = self.nodes.len();
        let mut i: usize = 0;
        assert(texts(names@) =~= Seq::empty());
        while i < n
            invariant
                i <= n == self.nodes@.len(),
                texts(names@) == names_in(self.nodes@.take(i as int), dir@),
            decreases n - i,
        {
            let ghost before = names@;
            assert(self.nodes@.take(i + 1).drop_last() =~= self.nodes@.take(i as int));
            if same_chars(&self.nodes[i].dir, &dir) {
                names.push(self.nodes[i].name.clone());
                assert(texts(names@) =~= texts(before).push(self.nodes@[i as int].name@));
            }
            i = i + 1;
        }
        assert(self.nodes@.take(n as int) =~= self.nodes@);
        Some(names)
    }

    /// Whether names may be made and removed in the directory `path`.
    pub fn is_writable_dir(&self, path: &Vec<char>) -> (r: bool)
        ensures
            r == self.dir_writable(path@),
    {
        match self.locate(path) {
            Place::Root => true,
            Place::Node(k) => match self.nodes[k].kind {
                NodeKind::Directory => self.nodes[k].writable,
                NodeKind::File(_) => false,
            },
            Place::Missing => false,
        }
    }

    /// Opens `path`, making or emptying the file as the options ask.
    pub fn open_with_options(&mut self, path: &Vec<char>, options: GuestOpenOptions) -> (r: Result<
        GuestFile,
        (),
    >)
        requires
            old(self).wf(),
        ensures
            final(self).wf(),
            r is Ok <==> old(self).can_open(path@, options),
            match r {
                Ok(file) => final(self).opened(*old(self), path@, options, file) && final(self).has(
                    file,
                ),
                Err(_) => *final(self) == *old(self),
            },
            final(self).opens@.len() >= old(self).opens@.len(),
    {
        let writes: bool = options.write || options.append;
        let faults: Faults = Faults {
            read: if options.read {
                None
            } else {
                Some(IoErrorKind::Other)
            },
            write: if writes {
                None
            } else {
                Some(IoErrorKind::Other)
            },
            tell: None,
            len: None,
            seek: None,
            flush: None,
            sync: None,
            set_len: if writes {
                None
            } else {
                Some(IoErrorKind::InvalidInput)
            },
            clone: None,
        };
        let fresh: usize = self.opens.len();
        match self.locate(path) {
            Place::Root => {
                if writes {
                    Err(())
                } else {
                    Ok(GuestFile::Directory)
                }
            },
            Place::Node(k) => match self.nodes[k].kind {
                NodeKind::Directory => {
                    if writes {
                        Err(())
                    } else {
                        Ok(GuestFile::Directory)
                    }
                },
                NodeKind::File(inode) => {
                    if writes && !self.nodes[k].writable {
                        return Err(());
                    }
                    assert(inode < self.inodes@.len()) by {
                        assert(self.nodes@[k as int].kind == NodeKind::File(inode));
                    }
                    if options.truncate && writes {
                        let empty: Vec<u8> = Vec::new();
                        assert(empty@ =~= Seq::empty());
                        self.inodes[inode] = Inode { data: empty, dirty: true };
                    }
                    self.opens.push(
                        OpenFile {
                            inode,
                            position: 0,
                            append: options.append,
                            seekable: true,
                            transfer_limit: usize::MAX,
                            faults,
                        },
                    );
                    Ok(GuestFile::Open(fresh))
                },
            },
            Place::Missing => {
                if !options.create || !writes {
                    return Err(());
                }
                let parts: Vec<Vec<char>> = resolve_path(&self.working_directory, path);
                let n: usize = parts.len();
                let dir: Vec<char> = join_parts(&parts, n - 1);
                assert(texts(parts@).take(n - 1) =~= texts(parts@).drop_last());
                if !self.is_writable_dir(&dir) {
                    return Err(());
                }
                let inode: usize = self.inodes.len();
                let empty: Vec<u8> = Vec::new();
                assert(empty@ =~= Seq::empty());
                self.inodes.push(Inode { data: empty, dirty: true });
                self.nodes.push(
                    FsNode {
                        dir,
                        name: parts[n - 1].clone(),
                        kind: NodeKind::File(inode),
                        writable: true,
                    },
                );
                self.opens.push(
                    OpenFile {
                        inode,
                        position: 0,
                        append: options.append,
                        seekable: true,
                        transfer_limit: usize::MAX,
                        faults,
                    },
                );
                Ok(GuestFile::Open(fresh))
            },
        }
    }

    /// Makes `path` the working directory, if it is a directory.
    pub fn change_working_directory(&mut self, path: &Vec<char>) -> (r: Result<(), ()>)
        requires
            old(self).wf(),
        ensures
            final(self).wf(),
            r is Ok <==> old(self).path_is_dir(path@),
            r is Err ==> *final(self) == *old(self),
            r is Ok ==> {
                &&& *final(self) == (Fs {
                    working_directory: final(self).working_directory,
                    ..*old(self)
                })
                &&& final(self).working_directory@ == join(
                    resolve(old(self).working_directory@, path@),
                )
            },
    {
        if !self.is_dir(path) {
            return Err(());
        }
        let parts: Vec<Vec<char>> = resolve_path(&self.working_directory, path);
        self.working_directory = join_parts(&parts, parts.len());
        assert(texts(parts@).take(parts@.len() as int) =~= texts(parts@));
        Ok(())
    }

    /// Makes the directory `path` in a directory that may be written.
    pub fn create_dir(&mut self, path: &Vec<char>) -> (r: Result<(), ()>)
        requires
            old(self).wf(),
        ensures
            final(self).wf(),
            r is Ok <==> !old(self).path_exists(path@) && old(self).dir_writable(
                old(self).parent_path(path@),
            ),
            r is Err ==> *final(self) == *old(self),
            r is Ok ==> {
                &&& *final(self) == (Fs { nodes: final(self).nodes, ..*old(self) })
                &&& final(self).node_pushed(*old(self), path@, NodeKind::Directory)
            },
    {
        if self.has_path(path) {
            return Err(());
        }
        let parts: Vec<Vec<char>> = resolve_path(&self.working_directory, path);
        let n: usize = parts.len();
        let dir: Vec<char> = join_parts(&parts, n - 1);
        assert(texts(parts@).take(n - 1) =~= texts(parts@).drop_last());
        if !self.is_writable_dir(&dir) {
            return Err(());
        }
        self.nodes.push(
            FsNode { dir, name: parts[n - 1].clone(), kind: NodeKind::Directory, writable: true },
        );
        Ok(())
    }

    /// Whether the node `k` is the directory `dir` or lies somewhere below it.
    pub open spec fn below(path: Seq<char>, dir: Seq<char>) -> bool {
        &&& path.len() >= dir.len()
        &&& path.take(dir.len() as int) == dir
        &&& path.len() == dir.len() || path[dir.len() as int] == '/'
    }

    /// `path` after the directory `from` became `to`.
    pub open spec fn rebased(path: Seq<char>, from: Seq<char>, to: Seq<char>) -> Seq<char> {
        if Fs::below(path, from) {
            to + path.skip(from.len() as int)
        } else {
            path
        }
    }

    /// The absolute form of `path`.
    pub open spec fn full_path(&self, path: Seq<char>) -> Seq<char> {
        join(resolve(self.working_directory@, path))
    }

    /// Whether `old` can be renamed to `new`.
    pub open spec fn can_rename(&self, old_path: Seq<char>, new_path: Seq<char>) -> bool {
        match self.place(old_path) {
            Place::Node(i) => {
                let is_dir = self.nodes@[i as int].kind == NodeKind::Directory;
                &&& self.dir_writable(self.parent_path(old_path))
                &&& match self.place(new_path) {
                    Place::Root => false,
                    Place::Node(j) => j == i || (self.nodes@[j as int].kind != NodeKind::Directory
                        && !is_dir && self.dir_writable(self.parent_path(new_path))),
                    Place::Missing => self.dir_writable(self.parent_path(new_path)) && !(is_dir
                        && Fs::below(self.parent_path(new_path), self.full_path(old_path))),
                }
            },
            _ => false,
        }
    }

    /// The nodes are those of `before` after `old_path` was renamed to
    /// `new_path`: what `new_path` named is gone, and what lay below `old_path`
    /// lies below `new_path`.
    pub open spec fn renamed(&self, before: Fs, old_path: Seq<char>, new_path: Seq<char>) -> bool {
        let i = before.place(old_path)->Node_0 as int;
        let gone = match before.place(new_path) {
            Place::Node(j) => if j == i {
                before.nodes@.len() as int
            } else {
                j as int
            },
            _ => before.nodes@.len() as int,
        };
        let n = if gone < before.nodes@.len() {
            before.nodes@.len() - 1
        } else {
            before.nodes@.len() as int
        };
        &&& *self == Fs { nodes: self.nodes, ..before }
        &&& self.nodes@.len() == n
        &&& forall|k: int|
            #![trigger self.nodes@[k]]
            0 <= k < n ==> {
                let m = if k < gone {
                    k
                } else {
                    k + 1
                };
                let b = before.nodes@[m];
                let a = self.nodes@[k];
                &&& a.kind == b.kind
                &&& a.writable == b.writable
                &&& if m == i {
                    &&& a.dir@ == before.parent_path(new_path)
                    &&& a.name@ == before.last_name(new_path)
                } else {
                    &&& a.dir@ == Fs::rebased(
                        b.dir@,
                        before.full_path(old_path),
                        before.full_path(new_path),
                    )
                    &&& a.name@ == b.name@
                }
            }
    }

    /// Moves what `old_path` names to `new_path`.
    pub fn rename(&mut self, old_path: &Vec<char>, new_path: &Vec<char>) -> (r: Result<(), ()>)
        requires
            old(self).wf(),
        ensures
            final(self).wf(),
            r is Ok <==> old(self).can_rename(old_path@, new_path@),
            match r {
                Ok(_) => final(self).renamed(*old(self), old_path@, new_path@),
                Err(_) => *final(self) == *old(self),
            },
    {
        let i: usize = match self.locate(old_path) {
            Place::Node(i) => i,
            _ => {
                return Err(());
            },
        };
        let old_parts: Vec<Vec<char>> = resolve_path(&self.working_directory, old_path);
        let new_parts: Vec<Vec<char>> = resolve_path(&self.working_directory, new_path);
        if new_parts.len() == 0 {
            return Err(());
        }
        let old_dir: Vec<char> = join_parts(&old_parts, old_parts.len() - 1);
        let new_dir: Vec<char> = join_parts(&new_parts, new_parts.len() - 1);
        let old_full: Vec<char> = join_parts(&old_parts, old_parts.len());
        let new_full: Vec<char> = join_parts(&new_parts, new_parts.len());
        proof {
            let o = texts(old_parts@);
            let n = texts(new_parts@);
            assert(o.take(o.len() - 1) =~= o.drop_last());
            assert(n.take(n.len() - 1) =~= n.drop_last());
            assert(o.take(o.len() as int) =~= o);
            assert(n.take(n.len() as int) =~= n);
        }
        if !self.is_writable_dir(&old_dir) {
            return Err(());
        }
        let is_dir: bool = match self.nodes[i].kind {
            NodeKind::Directory => true,
            NodeKind::File(_) => false,
        };
        let total: usize = self.nodes.len();
        let gone: usize = match self.locate(new_path) {
            Place::Root => {
                return Err(());
            },
            Place::Node(j) => {
                if j == i {
                    total
                } else {
                    let target_is_dir: bool = match self.nodes[j].kind {
                        NodeKind::Directory => true,
                        NodeKind::File(_) => false,
                    };
                    if target_is_dir || is_dir || !self.is_writable_dir(&new_dir) {
                        return Err(());
                    }
                    j
                }
            },
            Place::Missing => {
                if !self.is_writable_dir(&new_dir) || (is_dir && is_below(&new_dir, &old_full)) {
                    return Err(());
                }
                total
            },
        };
        let mut nodes: Vec<FsNode> = Vec::new();
        let mut m: usize = 0;
        while m < total
            invariant
                m <= total == self.nodes@.len(),
                *self == *old(self),
                i < total,
                gone <= total,
                gone != i,
                new_parts@.len() > 0,
                new_dir@ == self.parent_path(new_path@),
                texts(new_parts@) == resolve(self.working_directory@, new_path@),
                old_full@ == self.full_path(old_path@),
                new_full@ == self.full_path(new_path@),
                nodes@.len() == if m > gone {
                    m - 1
                } else {
                    m as int
                },
                forall|k: int|
                    #![trigger nodes@[k]]
                    0 <= k < nodes@.len() ==> {
                        let b = self.nodes@[if k < gone {
                            k
                        } else {
                            k + 1
                        }];
                        let a = nodes@[k];
                        &&& a.kind == b.kind
                        &&& a.writable == b.writable
                        &&& if (if k < gone {
                            k
                        } else {
                            k + 1
                        }) == i {
                            &&& a.dir@ == self.parent_path(new_path@)
                            &&& a.name@ == self.last_name(new_path@)
                        } else {
                            &&& a.dir@ == Fs::rebased(
                                b.dir@,
                                self.full_path(old_path@),
                                self.full_path(new_path@),
                            )
                            &&& a.name@ == b.name@
                        }
                    },
            decreases total - m,
        {
            if m != gone {
                let node: &FsNode = &self.nodes[m];
                if m == i {
                    nodes.push(
                        FsNode {
                            dir: new_dir.clone(),
                            name: new_parts[new_parts.len() - 1].clone(),
                            kind: node.kind,
                            writable: node.writable,
                        },
                    );
                } else {
                    nodes.push(
                        FsNode {
                            dir: rebase(&node.dir, &old_full, &new_full),
                            name: node.name.clone(),
                            kind: node.kind,
                            writable: node.writable,
                        },
                    );
                }
            }
            m = m + 1;
        }
        self.nodes = nodes;
        proof {
            assert forall|k: int|
                #![trigger self.nodes@[k]]
                0 <= k < self.nodes@.len() implies (self.nodes@[k].kind matches NodeKind::File(f)
                ==> f < self.inodes@.len()) by {
                let b = old(self).nodes@[if k < gone {
                    k
                } else {
                    k + 1
                }];
            }
        }
        Ok(())
    }
}

impl Fs {
    /// Why `path` cannot be removed.
    pub open spec fn remove_error(&self, path: Seq<char>) -> Option<FsError> {
        match self.place(path) {
            Place::Root => Some(FsError::AccessDenied),
            Place::Missing => match self.place(self.parent_path(path)) {
                Place::Missing => Some(FsError::NonexistentParentDir),
                _ => if self.path_is_dir(self.parent_path(path)) {
                    Some(FsError::DoesNotExist)
                } else {
                    Some(FsError::InvalidParentDir)
                },
            },
            Place::Node(k) => if !self.dir_writable(self.parent_path(path)) {
                Some(FsError::ReadonlyParentDir)
            } else if self.nodes@[k as int].kind == NodeKind::Directory && names_in(
                self.nodes@,
                self.full_path(path),
            ).len() > 0 {
                Some(FsError::DirectoryNotEmpty)
            } else {
                None
            },
        }
    }

    /// Removes the name of a file, or of an empty directory. Files that are
    /// open stay open.
    pub fn remove(&mut self, path: &Vec<char>) -> (r: Result<(), FsError>)
        requires
            old(self).wf(),
        ensures
            final(self).wf(),
            match old(self).remove_error(path@) {
                Some(e) => r == Err::<(), _>(e) && *final(self) == *old(self),
                None => {
                    &&& r is Ok
                    &&& *final(self) == (Fs { nodes: final(self).nodes, ..*old(self) })
                    &&& final(self).nodes@ == old(self).nodes@.remove(
                        old(self).place(path@)->Node_0 as int,
                    )
                },
            },
    {
        let k: usize = match self.locate(path) {
            Place::Root => {
                return Err(FsError::AccessDenied);
            },
            Place::Node(k) => k,
            Place::Missing => {
                let parts: Vec<Vec<char>> = resolve_path(&self.working_directory, path);
                let dir: Vec<char> = join_parts(&parts, parts.len() - 1);
                assert(texts(parts@).take(parts@.len() - 1) =~= texts(parts@).drop_last());
                if !self.has_path(&dir) {
                    return Err(FsError::NonexistentParentDir);
                }
                if self.is_dir(&dir) {
                    return Err(FsError::DoesNotExist);
                }
                return Err(FsError::InvalidParentDir);
            },
        };
        let parts: Vec<Vec<char>> = resolve_path(&self.working_directory, path);
        let dir: Vec<char> = join_parts(&parts, parts.len() - 1);
        assert(texts(parts@).take(parts@.len() - 1) =~= texts(parts@).drop_last());
        if !self.is_writable_dir(&dir) {
            return Err(FsError::ReadonlyParentDir);
        }
        if let NodeKind::Directory = self.nodes[k].kind {
            match self.enumerate(path) {
                Some(names) => {
                    assert(texts(names@).len() == names@.len());
                    if names.len() > 0 {
                        return Err(FsError::DirectoryNotEmpty);
                    }
                },
                None => {},
            }
        }
        self.nodes.remove(k);
        Ok(())
    }
}

/// A directory was made that `path` names.
pub open spec fn dir_added(before: Fs, after: Fs, path: Seq<char>) -> bool {
    &&& after == Fs { nodes: after.nodes, ..before }
    &&& after.node_pushed(before, path, NodeKind::Directory)
}

/// What making the directory with the components `parts` does, when the first
/// `i` are there: each that is missing is made, until one cannot be.
pub open spec fn dirs_added(
    before: Fs,
    after: Fs,
    parts: Seq<Seq<char>>,
    i: int,
    ok: bool,
) -> bool
    decreases parts.len() - i,
{
    if i < 0 || i >= parts.len() {
        ok && after == before
    } else {
        let path = join(parts.take(i + 1));
        if before.path_exists(path) {
            if before.path_is_dir(path) {
                dirs_added(before, after, parts, i + 1, ok)
            } else {
                !ok && after == before
            }
        } else if !before.dir_writable(before.parent_path(path)) {
            !ok && after == before
        } else {
            next_dir_added(before, after, parts, i, ok)
        }
    }
}

/// The directory with the first `i + 1` components was made, and then the
/// others.
pub open spec fn next_dir_added(
    before: Fs,
    after: Fs,
    parts: Seq<Seq<char>>,
    i: int,
    ok: bool,
) -> bool
    decreases parts.len() - i, 0int,
    when 0 <= i < parts.len()
{
    exists|mid: Fs| #[trigger]
        dir_added(before, mid, join(parts.take(i + 1))) && dirs_added(mid, after, parts, i + 1, ok)
}

impl Fs {
    /// Makes the directory `path`, and every directory above it that is
    /// missing.
    pub fn create_dir_all(&mut self, path: &Vec<char>) -> (r: Result<(), ()>)
        requires
            old(self).wf(),
        ensures
            final(self).wf(),
            dirs_added(
                *old(self),
                *final(self),
                resolve(old(self).working_directory@, path@),
                0,
                r is Ok,
            ),
    {
        let parts: Vec<Vec<char>> = resolve_path(&self.working_directory, path);
        let ghost all = texts(parts@);
        let n: usize = parts.len();
        let mut i: usize = 0;
        while i < n
            invariant
                i <= n == parts@.len(),
                all == texts(parts@),
                all == resolve(old(self).working_directory@, path@),
                self.wf(),
                forall|after: Fs, ok: bool| #[trigger]
                    dirs_added(*self, after, all, i as int, ok) ==> dirs_added(
                        *old(self),
                        after,
                        all,
                        0,
                        ok,
                    ),
            decreases n - i,
        {
            let ghost before = *self;
            let prefix: Vec<char> = join_parts(&parts, i + 1);
            assert(prefix@ == join(all.take(i + 1)));
            if self.has_path(&prefix) {
                if !self.is_dir(&prefix) {
                    assert(dirs_added(before, *self, all, i as int, false));
                    return Err(());
                }
                proof {
                    assert forall|after: Fs, ok: bool| #[trigger]
                        dirs_added(before, after, all, i + 1, ok) implies dirs_added(
                        *old(self),
                        after,
                        all,
                        0,
                        ok,
                    ) by {
                        assert(dirs_added(before, after, all, i as int, ok));
                    }
                }
            } else {
                match self.create_dir(&prefix) {
                    Ok(_) => {},
                    Err(_) => {
                        assert(dirs_added(before, *self, all, i as int, false));
                        return Err(());
                    },
                }
                proof {
                    let mid = *self;
                    assert(dir_added(before, mid, join(all.take(i + 1))));
                    assert forall|after: Fs, ok: bool| #[trigger]
                        dirs_added(mid, after, all, i + 1, ok) implies dirs_added(
                        *old(self),
                        after,
                        all,
                        0,
                        ok,
                    ) by {
                        assert(next_dir_added(before, after, all, i as int, ok));
                        assert(dirs_added(before, after, all, i as int, ok));
                    }
                }
            }
            i = i + 1;
        }
        assert(dirs_added(*self, *self, all, n as int, true));
        Ok(())
    }
}

impl Fs {
    /// The contents of the file that `path` names, if it names one.
    pub open spec fn file_contents(&self, path: Seq<char>) -> Option<Seq<u8>> {
        match self.place(path) {
            Place::Node(k) => match self.nodes@[k as int].kind {
                NodeKind::File(i) => Some(self.inodes@[i as int].data@),
                NodeKind::Directory => None,
            },
            _ => None,
        }
    }

    /// Reads the whole file that `path` names.
    pub fn read(&self, path: &Vec<char>) -> (r: Option<Vec<u8>>)
        requires
            self.wf(),
        ensures
            match self.file_contents(path@) {
                Some(data) => (r matches Some(bytes) && bytes@ == data),
                None => r is None,
            },
    {
        match self.locate(path) {
            Place::Node(k) => match self.nodes[k].kind {
                NodeKind::File(i) => {
                    assert(self.nodes@[k as int].kind == NodeKind::File(i));
                    Some(self.inodes[i].data.clone())
                },
                NodeKind::Directory => None,
            },
            _ => None,
        }
    }
}

/// Whether `path` is `dir` or lies somewhere below it.
fn is_below(path: &Vec<char>, dir: &Vec<char>) -> (r: bool)
    ensures
        r == Fs::below(path@, dir@),
{
    let n: usize = dir.len();
    if path.len() < n {
        return false;
    }
    let mut i: usize = 0;
    while i < n
        invariant
            i <= n == dir@.len() <= path@.len(),
            forall|k: int| 0 <= k < i ==> path@[k] == dir@[k],
        decreases n - i,
    {
        if path[i] != dir[i] {
            assert(path@.take(n as int)[i as int] != dir@[i as int]);
            return false;
        }
        i = i + 1;
    }
    assert(path@.take(n as int) =~= dir@);
    path.len() == n || path[n] == '/'
}

/// `path` after the directory `from` became `to`.
fn rebase(path: &Vec<char>, from: &Vec<char>, to: &Vec<char>) -> (r: Vec<char>)
    ensures
        r@ == Fs::rebased(path@, from@, to@),
{
    if !is_below(path, from) {
        return path.clone();
    }
    let mut r: Vec<char> = to.clone();
    let mut i: usize = from.len();
    while i < path.len()
        invariant
            from@.len() <= i <= path@.len(),
            r@ =~= to@ + path@.subrange(from@.len() as int, i as int),
        decreases path@.len() - i,
    {
        r.push(path[i]);
        i = i + 1;
    }
    assert(path@.subrange(from@.len() as int, path@.len() as int) =~= path@.skip(
        from@.len() as int,
    ));
    r
}

} // verus!
