//! The pipeline: scan both trees, index the reference files, match each
//! target file, and plan the deletions.
//!
//! A duplicate pair couples a target path with the reference path whose
//! file holds the same bytes under the same base name. Pairs come out in
//! target-list order. The deletion plan lists every paired target path,
//! or nothing on a dry run; carrying the plan out is the caller's side of
//! the bargain.

use vstd::prelude::*;

use crate::reference::{spec_find_duplicate, ReferenceData};
use crate::scan::{scan_dir, spec_scan, spec_scan_entry, spec_scan_from};
use crate::tree::{
    clone_path, path_views, views_of, FileEntry, FileEntryV, FilePath, FsEntry,
};

verus! {

/// A detected duplicate: the target file and the reference file it
/// repeats.
#[derive(Clone, Debug, PartialEq, Eq)]
pub struct DuplicatePair {
    pub target: FilePath,
    pub reference: FilePath,
}

impl View for DuplicatePair {
    type V = (Seq<Seq<u8>>, Seq<Seq<u8>>);

    open spec fn view(&self) -> (Seq<Seq<u8>>, Seq<Seq<u8>>) {
        (self.target@, self.reference@)
    }
}

/// The values of a sequence of duplicate pairs.
pub open spec fn pair_views(s: Seq<DuplicatePair>) -> Seq<(Seq<Seq<u8>>, Seq<Seq<u8>>)> {
    s.map_values(|p: DuplicatePair| p@)
}

/// The target path of each pair, in order.
pub open spec fn targets_of(pairs: Seq<(Seq<Seq<u8>>, Seq<Seq<u8>>)>) -> Seq<Seq<Seq<u8>>> {
    pairs.map_values(|p: (Seq<Seq<u8>>, Seq<Seq<u8>>)| p.0)
}

/// The duplicate pairs for the target list `targets` against the
/// reference list `refs`: one pair per target file that some same-named
/// reference file repeats byte for byte, in target-list order.
pub open spec fn spec_find_duplicates(
    refs: Seq<FileEntryV>,
    targets: Seq<FileEntryV>,
) -> Seq<(Seq<Seq<u8>>, Seq<Seq<u8>>)>
    decreases targets.len(),
{
    if targets.len() == 0 {
        Seq::empty()
    } else {
        let rest = spec_find_duplicates(refs, targets.drop_first());
        match spec_find_duplicate(refs, targets[0]) {
            Some(rp) => seq![(targets[0].path, rp)] + rest,
            None => rest,
        }
    }
}

/// An empty reference list yields no duplicate pair, whatever the
/// targets.
pub proof fn lemma_empty_reference(targets: Seq<FileEntryV>)
    ensures
        spec_find_duplicates(Seq::empty(), targets) == Seq::<(Seq<Seq<u8>>, Seq<Seq<u8>>)>::empty(),
    decreases targets.len(),
{
    if targets.len() > 0 {
        lemma_empty_reference(targets.drop_first());
    }
}

/// Matches every target file against the reference list: builds the index
/// once, then decides each target in turn. Every path must have a base
/// name; the scanner only produces such paths.
#[verifier::loop_isolation(false)]
pub fn find_duplicates(
    reference_files: Vec<FileEntry>,
    target_files: Vec<FileEntry>,
) -> (r: Vec<DuplicatePair>)
    requires
        forall|i: int| 0 <= i < reference_files@.len()
            ==> (#[trigger] reference_files@[i])@.path.len() > 0,
        forall|i: int| 0 <= i < target_files@.len()
            ==> (#[trigger] target_files@[i])@.path.len() > 0,
    ensures
        pair_views(r@) == spec_find_duplicates(views_of(reference_files@), views_of(target_files@)),
{
    let ghost refs = views_of(reference_files@);
    let ghost targets = views_of(target_files@);
    let reference = ReferenceData::new(reference_files);
    let mut duplicates: Vec<DuplicatePair> = Vec::new();
    proof {
        assert(targets.skip(0) =~= targets);
    }
    for i in 0..target_files.len()
        invariant
            reference.wf(),
            reference.source@ == refs,
            pair_views(duplicates@) + spec_find_duplicates(refs, targets.skip(i as int))
                == spec_find_duplicates(refs, targets),
    {
        let ghost pairs_before = duplicates@;
        proof {
            assert(targets.skip(i as int)[0] == targets[i as int]);
            assert(targets.skip(i as int).drop_first() =~= targets.skip(i + 1));
            assert(targets[i as int] == target_files@[i as int]@);
        }
        match reference.find_duplicate(&target_files[i]) {
            Some(ref_file) => {
                let target = clone_path(&target_files[i].path);
                duplicates.push(DuplicatePair { target, reference: ref_file });
                proof {
                    assert(pair_views(duplicates@)
                        =~= pair_views(pairs_before).push(duplicates@.last()@));
                    assert(pair_views(pairs_before).push(duplicates@.last()@)
                        + spec_find_duplicates(refs, targets.skip(i + 1))
                        =~= pair_views(pairs_before)
                        + (seq![(targets[i as int].path, duplicates@.last()@.1)]
                            + spec_find_duplicates(refs, targets.skip(i + 1))));
                }
            }
            None => {}
        }
    }
    proof {
        assert(targets.skip(target_files@.len() as int)
            =~= Seq::<FileEntryV>::empty());
        assert(pair_views(duplicates@) + Seq::<(Seq<Seq<u8>>, Seq<Seq<u8>>)>::empty()
            =~= pair_views(duplicates@));
    }
    duplicates
}

/// The pipeline's report: the duplicate pairs found, and the paths the
/// caller is to delete — every paired target path, or none on a dry run.
pub struct DedupReport {
    pub duplicates: Vec<DuplicatePair>,
    pub deletions: Vec<FilePath>,
}

proof fn lemma_scan_entry_paths_nonempty(prefix: Seq<Seq<u8>>, e: FsEntry)
    ensures
        forall|k: int| 0 <= k < spec_scan_entry(prefix, e).len()
            ==> (#[trigger] spec_scan_entry(prefix, e)[k]).path.len() > prefix.len(),
    decreases e, 0int,
{
    match e {
        FsEntry::File { name, content } => {
            assert(spec_scan_entry(prefix, e).len() == 1);
            assert(spec_scan_entry(prefix, e)[0].path.len() == prefix.len() + 1);
        }
        FsEntry::Symlink { name } => {}
        FsEntry::Dir { name, entries } => {
            lemma_scan_from_paths_nonempty(prefix.push(name@), entries@, 0);
            assert forall|k: int| 0 <= k < spec_scan_entry(prefix, e).len()
                implies (#[trigger] spec_scan_entry(prefix, e)[k]).path.len()
                > prefix.len() by {
                assert(spec_scan_entry(prefix, e)[k]
                    == spec_scan_from(prefix.push(name@), entries@, 0)[k]);
                assert(spec_scan_from(prefix.push(name@), entries@, 0)[k].path.len()
                    > prefix.push(name@).len());
            }
        }
    }
}

proof fn lemma_scan_from_paths_nonempty(prefix: Seq<Seq<u8>>, es: Seq<FsEntry>, i: int)
    ensures
        forall|k: int| 0 <= k < spec_scan_from(prefix, es, i).len()
            ==> (#[trigger] spec_scan_from(prefix, es, i)[k]).path.len() > prefix.len(),
    decreases es, es.len() - i,
{
    if 0 <= i < es.len() {
        lemma_scan_entry_paths_nonempty(prefix, es[i]);
        lemma_scan_from_paths_nonempty(prefix, es, i + 1);
        let first = spec_scan_entry(prefix, es[i]);
        let rest = spec_scan_from(prefix, es, i + 1);
        assert forall|k: int| 0 <= k < spec_scan_from(prefix, es, i).len()
            implies (#[trigger] spec_scan_from(prefix, es, i)[k]).path.len()
            > prefix.len() by {
            if k < first.len() {
                assert(spec_scan_from(prefix, es, i)[k] == first[k]);
            } else {
                assert(spec_scan_from(prefix, es, i)[k] == rest[k - first.len()]);
            }
        }
    }
}

/// Every scanned path is strictly longer than the root path it starts
/// from; in particular it has a base name.
pub proof fn lemma_scan_paths_nonempty(prefix: Seq<Seq<u8>>, es: Seq<FsEntry>)
    ensures
        forall|k: int| 0 <= k < spec_scan(prefix, es).len()
            ==> (#[trigger] spec_scan(prefix, es)[k]).path.len() > prefix.len(),
{
    lemma_scan_from_paths_nonempty(prefix, es, 0);
}

/// The whole run: scans the reference tree and the target tree, finds the
/// duplicate pairs, and plans the deletions. On a dry run nothing is
/// planned for deletion; otherwise exactly the paired target paths are,
/// in order. The pairs themselves do not depend on `dry_run`.
#[verifier::loop_isolation(false)]
pub fn dedup(
    reference_path: &FilePath,
    reference_entries: &Vec<FsEntry>,
    target_path: &FilePath,
    target_entries: &Vec<FsEntry>,
    dry_run: bool,
) -> (r: DedupReport)
    ensures
        pair_views(r.duplicates@) == spec_find_duplicates(
            spec_scan(reference_path@, reference_entries@),
            spec_scan(target_path@, target_entries@),
        ),
        dry_run ==> r.deletions@.len() == 0,
        !dry_run ==> path_views(r.deletions@) == targets_of(pair_views(r.duplicates@)),
{
    let ref_contents = scan_dir(reference_path, reference_entries);
    let target_contents = scan_dir(target_path, target_entries);
    proof {
        lemma_scan_paths_nonempty(reference_path@, reference_entries@);
        lemma_scan_paths_nonempty(target_path@, target_entries@);
        assert forall|i: int| 0 <= i < ref_contents@.len()
            implies (#[trigger] ref_contents@[i])@.path.len() > 0 by {
            assert(ref_contents@[i]@ == views_of(ref_contents@)[i]);
            assert(views_of(ref_contents@)[i].path.len() > reference_path@.len());
        }
        assert forall|i: int| 0 <= i < target_contents@.len()
            implies (#[trigger] target_contents@[i])@.path.len() > 0 by {
            assert(target_contents@[i]@ == views_of(target_contents@)[i]);
            assert(views_of(target_contents@)[i].path.len() > target_path@.len());
        }
    }
    let duplicates = find_duplicates(ref_contents, target_contents);
    let mut deletions: Vec<FilePath> = Vec::new();
    if !dry_run {
        let n = duplicates.len();
        for i in 0..n
            invariant
                path_views(deletions@) == targets_of(pair_views(duplicates@)).take(i as int),
        {
            deletions.push(clone_path(&duplicates[i].target));
            proof {
                assert(path_views(deletions@)
                    =~= targets_of(pair_views(duplicates@)).take(i + 1));
            }
        }
        proof {
            assert(targets_of(pair_views(duplicates@)).take(duplicates@.len() as int)
                =~= targets_of(pair_views(duplicates@)));
        }
    }
    DedupReport { duplicates, deletions }
}

} // verus!
