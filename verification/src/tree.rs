//! The data model: paths, directory entries, and scanned files.
//!
//! Component names are byte strings, exactly as the operating system reports
//! them; no encoding is assumed. A path is the sequence of components from
//! the scanned root down to the entry, and its final component is the file's
//! base name.

use vstd::prelude::*;

verus! {

/// A filesystem path: a sequence of name components.
#[derive(Clone, Debug, PartialEq, Eq)]
pub struct FilePath {
    pub parts: Vec<Vec<u8>>,
}

impl View for FilePath {
    type V = Seq<Seq<u8>>;

    open spec fn view(&self) -> Seq<Seq<u8>> {
        self.parts@.map_values(|c: Vec<u8>| c@)
    }
}

/// The final component of a path.
pub open spec fn base_name(p: Seq<Seq<u8>>) -> Seq<u8> {
    p.last()
}

impl FilePath {
    /// The final path component. The caller must know the path is non-empty;
    /// the scanner only ever produces non-empty paths.
    pub fn base_name(&self) -> (r: &Vec<u8>)
        requires
            self@.len() > 0,
        ensures
            r@ == base_name(self@),
    {
        &self.parts[self.parts.len() - 1]
    }

    /// The path of an entry named `name` inside the directory at `self`.
    pub fn child(&self, name: &Vec<u8>) -> (r: FilePath)
        ensures
            r@ == self@.push(name@),
    {
        let mut parts = clone_parts(&self.parts);
        parts.push(clone_bytes(name));
        let r = FilePath { parts };
        proof {
            assert(r@ =~= self@.push(name@));
        }
        r
    }
}

/// An in-memory picture of one directory entry: a regular file with its
/// bytes, a directory with its entries, or a symbolic link. A link carries
/// nothing but its name: links are never followed, so whatever they point at
/// is not part of the picture.
#[derive(Debug, PartialEq, Eq)]
pub enum FsEntry {
    File { name: Vec<u8>, content: Vec<u8> },
    Dir { name: Vec<u8>, entries: Vec<FsEntry> },
    Symlink { name: Vec<u8> },
}

/// The name of a directory entry, whatever its kind.
pub open spec fn entry_name(e: FsEntry) -> Seq<u8> {
    match e {
        FsEntry::File { name, content } => name@,
        FsEntry::Dir { name, entries } => name@,
        FsEntry::Symlink { name } => name@,
    }
}

/// One scanned file: its full path and its bytes.
#[derive(Clone, Debug, PartialEq, Eq)]
pub struct FileEntry {
    pub path: FilePath,
    pub content: Vec<u8>,
}

/// The mathematical value of a scanned file.
#[verifier::ext_equal]
pub struct FileEntryV {
    pub path: Seq<Seq<u8>>,
    pub content: Seq<u8>,
}

impl View for FileEntry {
    type V = FileEntryV;

    open spec fn view(&self) -> FileEntryV {
        FileEntryV { path: self.path@, content: self.content@ }
    }
}

/// The values of a sequence of scanned files.
pub open spec fn views_of(s: Seq<FileEntry>) -> Seq<FileEntryV> {
    s.map_values(|e: FileEntry| e@)
}

/// The values of a sequence of paths.
pub open spec fn path_views(s: Seq<FilePath>) -> Seq<Seq<Seq<u8>>> {
    s.map_values(|p: FilePath| p@)
}

/// A relative path `rel` starting under entry `e` leads to a regular file
/// holding `content`, descending through directories only. A symbolic link
/// is never a file and is never descended into.
pub open spec fn reach_entry(e: FsEntry, rel: Seq<Seq<u8>>, content: Seq<u8>) -> bool
    decreases rel.len(), 0int,
{
    match e {
        FsEntry::File { name, content: bytes } => rel == seq![name@] && content == bytes@,
        FsEntry::Symlink { name } => false,
        FsEntry::Dir { name, entries } => rel.len() >= 2 && rel[0] == name@
            && reach_list(entries@, rel.drop_first(), content),
    }
}

/// A relative path `rel` starting in the directory listing `es` leads to a
/// regular file holding `content`.
pub open spec fn reach_list(es: Seq<FsEntry>, rel: Seq<Seq<u8>>, content: Seq<u8>) -> bool
    decreases rel.len(), 1int,
{
    exists|k: int| 0 <= k < es.len() && reach_entry(#[trigger] es[k], rel, content)
}

/// A well-formed entry: inside every directory, names are distinct, as they
/// are on a real filesystem.
pub open spec fn wf_entry(e: FsEntry) -> bool
    decreases e, 0int,
{
    match e {
        FsEntry::Dir { name, entries } => wf_entries(entries@),
        _ => true,
    }
}

/// A well-formed directory listing: names are distinct at this level and in
/// every directory below.
pub open spec fn wf_entries(es: Seq<FsEntry>) -> bool
    decreases es, 1int,
{
    &&& forall|i: int, j: int| 0 <= i < j < es.len() ==> entry_name(es[i]) != entry_name(es[j])
    &&& forall|i: int| 0 <= i < es.len() ==> wf_entry(#[trigger] es[i])
}

/// An exact copy of a byte string.
pub fn clone_bytes(v: &Vec<u8>) -> (r: Vec<u8>)
    ensures
        r@ == v@,
{
    let mut r: Vec<u8> = Vec::new();
    for i in 0..v.len()
        invariant
            r@ == v@.subrange(0, i as int),
    {
        r.push(v[i]);
        proof {
            assert(v@.subrange(0, i as int).push(v@[i as int]) =~= v@.subrange(0, i + 1 as int));
        }
    }
    proof {
        assert(v@.subrange(0, v@.len() as int) =~= v@);
    }
    r
}

/// An exact copy of a sequence of byte strings.
pub fn clone_parts(v: &Vec<Vec<u8>>) -> (r: Vec<Vec<u8>>)
    ensures
        r@.len() == v@.len(),
        forall|i: int| 0 <= i < v@.len() ==> r@[i]@ == v@[i]@,
{
    let mut r: Vec<Vec<u8>> = Vec::new();
    for i in 0..v.len()
        invariant
            r@.len() == i,
            forall|k: int| 0 <= k < i ==> r@[k]@ == v@[k]@,
    {
        r.push(clone_bytes(&v[i]));
    }
    r
}

/// An exact copy of a path.
pub fn clone_path(p: &FilePath) -> (r: FilePath)
    ensures
        r@ == p@,
{
    let r = FilePath { parts: clone_parts(&p.parts) };
    proof {
        assert(r@ =~= p@);
    }
    r
}

/// An exact copy of a scanned file.
pub fn clone_file_entry(e: &FileEntry) -> (r: FileEntry)
    ensures
        r@ == e@,
{
    FileEntry { path: clone_path(&e.path), content: clone_bytes(&e.content) }
}

/// Two byte strings are equal exactly when their contents are equal.
pub fn bytes_equal(a: &Vec<u8>, b: &Vec<u8>) -> (r: bool)
    ensures
        r == (a@ == b@),
{
    if a.len() != b.len() {
        return false;
    }
    for i in 0..a.len()
        invariant
            a@.len() == b@.len(),
            forall|k: int| 0 <= k < i ==> a@[k] == b@[k],
    {
        if a[i] != b[i] {
            return false;
        }
    }
    proof {
        assert(a@ =~= b@);
    }
    true
}

} // verus!
