//! The tree scanner: flattens a directory tree into its list of regular
//! files, in discovery order (depth first, entries in listing order).
//! Symbolic links are neither included nor descended into.

use vstd::prelude::*;

use crate::tree::{
    base_name, clone_bytes, entry_name, reach_entry, reach_list, wf_entries, wf_entry, views_of,
    FileEntry, FileEntryV, FilePath, FsEntry,
};

verus! {

/// The files found under the single entry `e`, whose parent directory has
/// path `prefix`.
pub open spec fn spec_scan_entry(prefix: Seq<Seq<u8>>, e: FsEntry) -> Seq<FileEntryV>
    decreases e, 0int,
{
    match e {
        FsEntry::File { name, content } => seq![
            FileEntryV { path: prefix.push(name@), content: content@ },
        ],
        FsEntry::Symlink { name } => Seq::empty(),
        FsEntry::Dir { name, entries } => spec_scan_from(prefix.push(name@), entries@, 0),
    }
}

/// The files found under the entries `es[i..]` of a directory with path
/// `prefix`.
pub open spec fn spec_scan_from(prefix: Seq<Seq<u8>>, es: Seq<FsEntry>, i: int) -> Seq<FileEntryV>
    decreases es, es.len() - i,
{
    if 0 <= i < es.len() {
        spec_scan_entry(prefix, es[i]) + spec_scan_from(prefix, es, i + 1)
    } else {
        Seq::empty()
    }
}

/// The whole scan of a directory: its listing `es` under path `prefix`.
pub open spec fn spec_scan(prefix: Seq<Seq<u8>>, es: Seq<FsEntry>) -> Seq<FileEntryV> {
    spec_scan_from(prefix, es, 0)
}

proof fn lemma_views_of_add(a: Seq<FileEntry>, b: Seq<FileEntry>)
    ensures
        views_of(a + b) == views_of(a) + views_of(b),
{
    assert(views_of(a + b) =~= views_of(a) + views_of(b));
}

fn scan_entry_exec(prefix: &FilePath, e: &FsEntry) -> (r: Vec<FileEntry>)
    ensures
        views_of(r@) == spec_scan_entry(prefix@, *e),
    decreases *e, 0int,
{
    match e {
        FsEntry::File { name, content } => {
            let path = prefix.child(name);
            let bytes = clone_bytes(content);
            let mut r: Vec<FileEntry> = Vec::new();
            r.push(FileEntry { path, content: bytes });
            proof {
                assert(views_of(r@) =~= spec_scan_entry(prefix@, *e));
            }
            r
        }
        FsEntry::Symlink { name } => {
            let r: Vec<FileEntry> = Vec::new();
            proof {
                assert(views_of(r@) =~= spec_scan_entry(prefix@, *e));
            }
            r
        }
        FsEntry::Dir { name, entries } => {
            let child = prefix.child(name);
            scan_from_exec(&child, entries, 0)
        }
    }
}

fn scan_from_exec(prefix: &FilePath, es: &Vec<FsEntry>, i: usize) -> (r: Vec<FileEntry>)
    requires
        i <= es@.len(),
    ensures
        views_of(r@) == spec_scan_from(prefix@, es@, i as int),
    decreases es@, es@.len() - i,
{
    if i < es.len() {
        let mut first = scan_entry_exec(prefix, &es[i]);
        let mut rest = scan_from_exec(prefix, es, i + 1);
        proof {
            lemma_views_of_add(first@, rest@);
        }
        first.append(&mut rest);
        first
    } else {
        let r: Vec<FileEntry> = Vec::new();
        proof {
            assert(views_of(r@) =~= Seq::<FileEntryV>::empty());
        }
        r
    }
}

proof fn lemma_scan_entry_sound(prefix: Seq<Seq<u8>>, e: FsEntry, k: int) -> (rel: Seq<Seq<u8>>)
    requires
        0 <= k < spec_scan_entry(prefix, e).len(),
    ensures
        rel.len() >= 1,
        spec_scan_entry(prefix, e)[k].path == prefix + rel,
        reach_entry(e, rel, spec_scan_entry(prefix, e)[k].content),
    decreases e, 0int,
{
    match e {
        FsEntry::File { name, content } => {
            let rel = seq![name@];
            assert(prefix.push(name@) =~= prefix + rel);
            rel
        }
        FsEntry::Symlink { name } => Seq::empty(),
        FsEntry::Dir { name, entries } => {
            let below = lemma_scan_from_sound(prefix.push(name@), entries@, 0, k);
            let rel = seq![name@] + below;
            assert(prefix + rel =~= prefix.push(name@) + below);
            assert(rel.drop_first() =~= below);
            rel
        }
    }
}

proof fn lemma_scan_from_sound(prefix: Seq<Seq<u8>>, es: Seq<FsEntry>, i: int, k: int) -> (rel:
    Seq<Seq<u8>>)
    requires
        0 <= i,
        0 <= k < spec_scan_from(prefix, es, i).len(),
    ensures
        rel.len() >= 1,
        spec_scan_from(prefix, es, i)[k].path == prefix + rel,
        reach_list(es, rel, spec_scan_from(prefix, es, i)[k].content),
    decreases es, es.len() - i,
{
    let first = spec_scan_entry(prefix, es[i]);
    if k < first.len() {
        let rel = lemma_scan_entry_sound(prefix, es[i], k);
        assert(spec_scan_from(prefix, es, i)[k] == first[k]);
        assert(reach_entry(es[i], rel, first[k].content));
        rel
    } else {
        let rel = lemma_scan_from_sound(prefix, es, i + 1, k - first.len());
        assert(spec_scan_from(prefix, es, i)[k]
            == spec_scan_from(prefix, es, i + 1)[k - first.len()]);
        rel
    }
}

proof fn lemma_scan_entry_complete(prefix: Seq<Seq<u8>>, e: FsEntry, rel: Seq<Seq<u8>>, c: Seq<u8>)
    -> (k: int)
    requires
        reach_entry(e, rel, c),
    ensures
        0 <= k < spec_scan_entry(prefix, e).len(),
        spec_scan_entry(prefix, e)[k] == (FileEntryV { path: prefix + rel, content: c }),
    decreases e, 0int,
{
    match e {
        FsEntry::File { name, content } => {
            assert(prefix.push(name@) =~= prefix + rel);
            assert(spec_scan_entry(prefix, e)[0]
                =~= (FileEntryV { path: prefix + rel, content: c }));
            0
        }
        FsEntry::Symlink { name } => 0,
        FsEntry::Dir { name, entries } => {
            let k = lemma_scan_list_complete(prefix.push(name@), entries@, rel.drop_first(), c);
            assert(prefix.push(name@) + rel.drop_first() =~= prefix + rel);
            k
        }
    }
}

proof fn lemma_scan_list_complete(
    prefix: Seq<Seq<u8>>,
    es: Seq<FsEntry>,
    rel: Seq<Seq<u8>>,
    c: Seq<u8>,
) -> (k: int)
    requires
        reach_list(es, rel, c),
    ensures
        0 <= k < spec_scan_from(prefix, es, 0).len(),
        spec_scan_from(prefix, es, 0)[k] == (FileEntryV { path: prefix + rel, content: c }),
    decreases es, 1int,
{
    let j = choose|j: int| 0 <= j < es.len() && reach_entry(#[trigger] es[j], rel, c);
    let k_in = lemma_scan_entry_complete(prefix, es[j], rel, c);
    lemma_scan_from_position(prefix, es, 0, j, k_in)
}

proof fn lemma_scan_from_position(prefix: Seq<Seq<u8>>, es: Seq<FsEntry>, i: int, j: int, k_in: int)
    -> (k: int)
    requires
        0 <= i <= j < es.len(),
        0 <= k_in < spec_scan_entry(prefix, es[j]).len(),
    ensures
        0 <= k < spec_scan_from(prefix, es, i).len(),
        spec_scan_from(prefix, es, i)[k] == spec_scan_entry(prefix, es[j])[k_in],
    decreases j - i,
{
    let first = spec_scan_entry(prefix, es[i]);
    if i == j {
        assert(spec_scan_from(prefix, es, i)[k_in] == first[k_in]);
        k_in
    } else {
        let below = lemma_scan_from_position(prefix, es, i + 1, j, k_in);
        assert(spec_scan_from(prefix, es, i)[first.len() + below]
            == spec_scan_from(prefix, es, i + 1)[below]);
        first.len() + below
    }
}

/// The scan is sound and complete: a file value appears in the scan of a
/// tree exactly when some relative path reaches it by descending through
/// directories only. Since `reach_list` never accepts nor descends into a
/// symbolic link, nothing behind a link is ever listed.
pub proof fn lemma_scan_characterizes(prefix: Seq<Seq<u8>>, es: Seq<FsEntry>, fe: FileEntryV)
    ensures
        spec_scan(prefix, es).contains(fe) <==> exists|rel: Seq<Seq<u8>>|
            fe.path == prefix + rel && #[trigger] reach_list(es, rel, fe.content),
{
    if spec_scan(prefix, es).contains(fe) {
        let k = choose|k: int| 0 <= k < spec_scan(prefix, es).len()
            && spec_scan(prefix, es)[k] == fe;
        let rel = lemma_scan_from_sound(prefix, es, 0, k);
        assert(fe.path == prefix + rel && reach_list(es, rel, fe.content));
    }
    if exists|rel: Seq<Seq<u8>>| fe.path == prefix + rel && #[trigger] reach_list(
        es,
        rel,
        fe.content,
    ) {
        let rel = choose|rel: Seq<Seq<u8>>| fe.path == prefix + rel && #[trigger] reach_list(
            es,
            rel,
            fe.content,
        );
        let k = lemma_scan_list_complete(prefix, es, rel, fe.content);
        assert(fe =~= (FileEntryV { path: prefix + rel, content: fe.content }));
        assert(spec_scan(prefix, es)[k] == fe);
    }
}

proof fn lemma_scan_entry_component(prefix: Seq<Seq<u8>>, e: FsEntry, k: int)
    requires
        0 <= k < spec_scan_entry(prefix, e).len(),
    ensures
        spec_scan_entry(prefix, e)[k].path.len() > prefix.len(),
        spec_scan_entry(prefix, e)[k].path[prefix.len() as int] == entry_name(e),
{
    match e {
        FsEntry::File { name, content } => {}
        FsEntry::Symlink { name } => {}
        FsEntry::Dir { name, entries } => {
            let below = lemma_scan_from_sound(prefix.push(name@), entries@, 0, k);
            assert((prefix.push(name@) + below)[prefix.len() as int] == name@);
        }
    }
}

proof fn lemma_scan_from_component(prefix: Seq<Seq<u8>>, es: Seq<FsEntry>, i: int, k: int) -> (j:
    int)
    requires
        0 <= i,
        0 <= k < spec_scan_from(prefix, es, i).len(),
    ensures
        i <= j < es.len(),
        spec_scan_from(prefix, es, i)[k].path.len() > prefix.len(),
        spec_scan_from(prefix, es, i)[k].path[prefix.len() as int] == entry_name(es[j]),
    decreases es.len() - i,
{
    let first = spec_scan_entry(prefix, es[i]);
    if k < first.len() {
        lemma_scan_entry_component(prefix, es[i], k);
        assert(spec_scan_from(prefix, es, i)[k] == first[k]);
        i
    } else {
        let j = lemma_scan_from_component(prefix, es, i + 1, k - first.len());
        assert(spec_scan_from(prefix, es, i)[k]
            == spec_scan_from(prefix, es, i + 1)[k - first.len()]);
        j
    }
}

proof fn lemma_scan_entry_unique(prefix: Seq<Seq<u8>>, e: FsEntry)
    requires
        wf_entry(e),
    ensures
        forall|k1: int, k2: int| 0 <= k1 < k2 < spec_scan_entry(prefix, e).len()
            ==> (#[trigger] spec_scan_entry(prefix, e)[k1]).path
            != (#[trigger] spec_scan_entry(prefix, e)[k2]).path,
    decreases e, 0int,
{
    match e {
        FsEntry::File { name, content } => {}
        FsEntry::Symlink { name } => {}
        FsEntry::Dir { name, entries } => {
            lemma_scan_from_unique(prefix.push(name@), entries@, 0);
            assert forall|k1: int, k2: int| 0 <= k1 < k2 < spec_scan_entry(prefix, e).len()
                implies (#[trigger] spec_scan_entry(prefix, e)[k1]).path
                != (#[trigger] spec_scan_entry(prefix, e)[k2]).path by {
                assert(spec_scan_entry(prefix, e)[k1]
                    == spec_scan_from(prefix.push(name@), entries@, 0)[k1]);
                assert(spec_scan_entry(prefix, e)[k2]
                    == spec_scan_from(prefix.push(name@), entries@, 0)[k2]);
            }
        }
    }
}

proof fn lemma_scan_from_unique(prefix: Seq<Seq<u8>>, es: Seq<FsEntry>, i: int)
    requires
        0 <= i,
        wf_entries(es),
    ensures
        forall|k1: int, k2: int| 0 <= k1 < k2 < spec_scan_from(prefix, es, i).len()
            ==> (#[trigger] spec_scan_from(prefix, es, i)[k1]).path
            != (#[trigger] spec_scan_from(prefix, es, i)[k2]).path,
    decreases es, es.len() - i,
{
    if i < es.len() {
        lemma_scan_entry_unique(prefix, es[i]);
        lemma_scan_from_unique(prefix, es, i + 1);
        let first = spec_scan_entry(prefix, es[i]);
        let rest = spec_scan_from(prefix, es, i + 1);
        assert forall|k1: int, k2: int| 0 <= k1 < k2 < spec_scan_from(prefix, es, i).len()
            implies (#[trigger] spec_scan_from(prefix, es, i)[k1]).path
            != (#[trigger] spec_scan_from(prefix, es, i)[k2]).path by {
            if k2 < first.len() {
                assert(spec_scan_from(prefix, es, i)[k1] == first[k1]);
                assert(spec_scan_from(prefix, es, i)[k2] == first[k2]);
            } else if k1 >= first.len() {
                assert(spec_scan_from(prefix, es, i)[k1] == rest[k1 - first.len()]);
                assert(spec_scan_from(prefix, es, i)[k2] == rest[k2 - first.len()]);
            } else {
                lemma_scan_entry_component(prefix, es[i], k1);
                assert(spec_scan_from(prefix, es, i)[k1] == first[k1]);
                let j = lemma_scan_from_component(prefix, es, i + 1, k2 - first.len());
                assert(spec_scan_from(prefix, es, i)[k2] == rest[k2 - first.len()]);
                assert(entry_name(es[i]) != entry_name(es[j]));
            }
        }
    }
}

/// Listing `ys` is listing `xs` with every symbolic link deleted, at this
/// level and inside every directory below.
pub open spec fn links_removed(xs: Seq<FsEntry>, ys: Seq<FsEntry>) -> bool {
    links_removed_from(xs, ys, 0, 0)
}

/// `ys[j..]` is `xs[i..]` with every symbolic link deleted, recursively.
pub open spec fn links_removed_from(xs: Seq<FsEntry>, ys: Seq<FsEntry>, i: int, j: int) -> bool
    decreases xs, xs.len() - i,
{
    if i < 0 || j < 0 {
        false
    } else if i >= xs.len() {
        j >= ys.len()
    } else if xs[i] is Symlink {
        links_removed_from(xs, ys, i + 1, j)
    } else {
        j < ys.len() && links_removed_entry(xs[i], ys[j]) && links_removed_from(xs, ys, i + 1, j + 1)
    }
}

/// Entry `b` is entry `a` with every symbolic link below it deleted;
/// `a` itself is not a link.
pub open spec fn links_removed_entry(a: FsEntry, b: FsEntry) -> bool
    decreases a, 0int,
{
    match a {
        FsEntry::File { name, content } => b matches FsEntry::File { name: n2, content: c2 }
            && n2@ == name@ && c2@ == content@,
        FsEntry::Dir { name, entries } => b matches FsEntry::Dir { name: n2, entries: e2 }
            && n2@ == name@ && links_removed_from(entries@, e2@, 0, 0),
        FsEntry::Symlink { name } => false,
    }
}

proof fn lemma_links_removed_scan_entry(prefix: Seq<Seq<u8>>, a: FsEntry, b: FsEntry)
    requires
        links_removed_entry(a, b),
    ensures
        spec_scan_entry(prefix, a) == spec_scan_entry(prefix, b),
    decreases a, 0int,
{
    match a {
        FsEntry::File { name, content } => {
            assert(spec_scan_entry(prefix, a) =~= spec_scan_entry(prefix, b));
        }
        FsEntry::Symlink { name } => {}
        FsEntry::Dir { name, entries } => {
            match b {
                FsEntry::Dir { name: n2, entries: e2 } => {
                    lemma_links_removed_scan_from(prefix.push(name@), entries@, e2@, 0, 0);
                }
                _ => {}
            }
        }
    }
}

proof fn lemma_links_removed_scan_from(
    prefix: Seq<Seq<u8>>,
    xs: Seq<FsEntry>,
    ys: Seq<FsEntry>,
    i: int,
    j: int,
)
    requires
        links_removed_from(xs, ys, i, j),
    ensures
        spec_scan_from(prefix, xs, i) == spec_scan_from(prefix, ys, j),
    decreases xs, xs.len() - i,
{
    if i >= xs.len() {
    } else if xs[i] is Symlink {
        lemma_links_removed_scan_from(prefix, xs, ys, i + 1, j);
        assert(0 <= i < xs.len());
        assert(spec_scan_entry(prefix, xs[i]) =~= Seq::<FileEntryV>::empty());
        assert(spec_scan_from(prefix, xs, i)
            == spec_scan_entry(prefix, xs[i]) + spec_scan_from(prefix, xs, i + 1));
        assert(spec_scan_entry(prefix, xs[i]) + spec_scan_from(prefix, xs, i + 1)
            =~= spec_scan_from(prefix, xs, i + 1));
    } else {
        lemma_links_removed_scan_entry(prefix, xs[i], ys[j]);
        lemma_links_removed_scan_from(prefix, xs, ys, i + 1, j + 1);
    }
}

/// Symbolic links are invisible to the scan: deleting every link from a
/// tree, at any depth, leaves the scanned file list exactly as it was.
pub proof fn lemma_scan_skips_links(prefix: Seq<Seq<u8>>, xs: Seq<FsEntry>, ys: Seq<FsEntry>)
    requires
        links_removed(xs, ys),
    ensures
        spec_scan(prefix, xs) == spec_scan(prefix, ys),
{
    lemma_links_removed_scan_from(prefix, xs, ys, 0, 0);
}

/// On a well-formed tree — names distinct within each directory, as on a
/// real filesystem — no path is listed twice: together with
/// `lemma_scan_characterizes`, the scan lists exactly the reachable
/// regular files, each exactly once.
pub proof fn lemma_scan_unique(prefix: Seq<Seq<u8>>, es: Seq<FsEntry>)
    requires
        wf_entries(es),
    ensures
        forall|k1: int, k2: int| 0 <= k1 < k2 < spec_scan(prefix, es).len()
            ==> (#[trigger] spec_scan(prefix, es)[k1]).path
            != (#[trigger] spec_scan(prefix, es)[k2]).path,
{
    lemma_scan_from_unique(prefix, es, 0);
}

/// Lists every regular file in the directory whose path is `path` and whose
/// listing is `entries`, at any depth, each with its full path and its
/// bytes. Discovery order: depth first, entries in listing order. Symbolic
/// links are skipped entirely.
pub fn scan_dir(path: &FilePath, entries: &Vec<FsEntry>) -> (r: Vec<FileEntry>)
    ensures
        views_of(r@) == spec_scan(path@, entries@),
{
    scan_from_exec(path, entries, 0)
}

} // verus!
