use dedup::dedup::{dedup, find_duplicates, DuplicatePair};
use dedup::scan::scan_dir;
use dedup::reference::ReferenceData;
use dedup::tree::{FileEntry, FilePath, FsEntry};

fn bytes(s: &str) -> Vec<u8> {
    s.as_bytes().to_vec()
}

fn root(parts: &[&str]) -> FilePath {
    FilePath { parts: parts.iter().map(|p| p.as_bytes().to_vec()).collect() }
}

fn file(name: &str, content: &[u8]) -> FsEntry {
    FsEntry::File { name: bytes(name), content: content.to_vec() }
}

fn dir(name: &str, entries: Vec<FsEntry>) -> FsEntry {
    FsEntry::Dir { name: bytes(name), entries }
}

fn entry(parts: &[&str], content: &[u8]) -> FileEntry {
    FileEntry { path: root(parts), content: content.to_vec() }
}

fn pair_parts(pairs: &[DuplicatePair]) -> Vec<(Vec<Vec<u8>>, Vec<Vec<u8>>)> {
    pairs
        .iter()
        .map(|p| (p.target.parts.clone(), p.reference.parts.clone()))
        .collect()
}

fn reference_tree() -> Vec<FsEntry> {
    vec![
        file("file1", b"ref-one"),
        dir("dir2", vec![file("file2", b"shared-two")]),
        file("file3", b"ref-three"),
        file("file4", b"shared-four"),
        file("file5", b"ref-five"),
    ]
}

fn target_tree() -> Vec<FsEntry> {
    vec![
        file("file1", b"target-one"),
        file("file2", b"shared-two"),
        file("file3", b"target-three"),
        file("file4", b"shared-four"),
        file("file5", b"target-five"),
        file("file6", b"target-six"),
    ]
}

#[test]
fn test_find_duplicates() {
    let ref_files = scan_dir(&root(&["ref"]), &reference_tree());
    let target_files = scan_dir(&root(&["target"]), &target_tree());

    let duplicates = find_duplicates(ref_files, target_files);
    let mut found = pair_parts(&duplicates);
    found.sort();
    let expected = vec![
        (root(&["target", "file2"]).parts, root(&["ref", "dir2", "file2"]).parts),
        (root(&["target", "file4"]).parts, root(&["ref", "file4"]).parts),
    ];
    assert_eq!(found, expected);
}

#[test]
fn test_name_scoped_matching() {
    // Same bytes under a different name: never a duplicate.
    let refs = vec![entry(&["ref", "alpha"], b"same-bytes")];
    let targets = vec![entry(&["target", "beta"], b"same-bytes")];
    let duplicates = find_duplicates(refs, targets);
    assert!(duplicates.is_empty());
}

#[test]
fn test_first_match_wins() {
    // Two same-named reference files both match: the first in
    // reference-list order is the one reported.
    let refs = vec![
        entry(&["ref", "x", "note"], b"same"),
        entry(&["ref", "y", "note"], b"same"),
    ];
    let targets = vec![entry(&["target", "note"], b"same")];
    let duplicates = find_duplicates(refs, targets);
    assert_eq!(duplicates.len(), 1);
    assert_eq!(duplicates[0].target.parts, root(&["target", "note"]).parts);
    assert_eq!(duplicates[0].reference.parts, root(&["ref", "x", "note"]).parts);
}

#[test]
fn test_find_duplicate_prefers_first_candidate() {
    let refs = vec![
        entry(&["ref", "a", "doc"], b"v1"),
        entry(&["ref", "b", "doc"], b"v2"),
    ];
    let data = ReferenceData::new(refs);

    let hit_second = data.find_duplicate(&entry(&["t", "doc"], b"v2"));
    assert_eq!(hit_second.unwrap().parts, root(&["ref", "b", "doc"]).parts);

    let miss = data.find_duplicate(&entry(&["t", "doc"], b"v3"));
    assert!(miss.is_none());

    let wrong_name = data.find_duplicate(&entry(&["t", "other"], b"v1"));
    assert!(wrong_name.is_none());
}

#[test]
fn test_dedup_dry_run() {
    let report = dedup(&root(&["ref"]), &reference_tree(), &root(&["target"]), &target_tree(), true);
    let mut found = pair_parts(&report.duplicates);
    found.sort();
    let expected = vec![
        (root(&["target", "file2"]).parts, root(&["ref", "dir2", "file2"]).parts),
        (root(&["target", "file4"]).parts, root(&["ref", "file4"]).parts),
    ];
    assert_eq!(found, expected);
    // A dry run plans no deletion.
    assert!(report.deletions.is_empty());
}

#[test]
fn test_dedup_live_run() {
    let report =
        dedup(&root(&["ref"]), &reference_tree(), &root(&["target"]), &target_tree(), false);
    assert_eq!(report.duplicates.len(), 2);
    // Exactly the paired target files are planned for deletion, in order.
    let planned: Vec<Vec<Vec<u8>>> = report.deletions.iter().map(|p| p.parts.clone()).collect();
    let expected = vec![root(&["target", "file2"]).parts, root(&["target", "file4"]).parts];
    assert_eq!(planned, expected);
}

#[test]
fn test_dedup_empty_reference() {
    let empty: Vec<FsEntry> = Vec::new();
    let report = dedup(&root(&["ref"]), &empty, &root(&["target"]), &target_tree(), false);
    assert!(report.duplicates.is_empty());
    assert!(report.deletions.is_empty());
}
