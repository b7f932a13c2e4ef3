use dedup::scan::scan_dir;
use dedup::tree::{FilePath, FsEntry};

fn bytes(s: &str) -> Vec<u8> {
    s.as_bytes().to_vec()
}

fn root(parts: &[&str]) -> FilePath {
    FilePath { parts: parts.iter().map(|p| p.as_bytes().to_vec()).collect() }
}

fn file(name: &str, content: &[u8]) -> FsEntry {
    FsEntry::File { name: bytes(name), content: content.to_vec() }
}

fn dir(name: &str, entries: Vec<FsEntry>) -> FsEntry {
    FsEntry::Dir { name: bytes(name), entries }
}

fn link(name: &str) -> FsEntry {
    FsEntry::Symlink { name: bytes(name) }
}

fn parts_of(paths: &[&[&str]]) -> Vec<Vec<Vec<u8>>> {
    paths
        .iter()
        .map(|p| p.iter().map(|c| c.as_bytes().to_vec()).collect())
        .collect()
}

#[test]
fn test_scan_dir() {
    let entries = vec![
        file("file1", b"one"),
        dir(
            "dir1",
            vec![file("file2", b"two"), dir("dir2", vec![file("file3", b"three")])],
        ),
    ];
    let tmp_path = root(&["tmp"]);

    let files = scan_dir(&tmp_path, &entries);
    let mut found: Vec<Vec<Vec<u8>>> = files.iter().map(|f| f.path.parts.clone()).collect();
    found.sort();
    let expected = parts_of(&[
        &["tmp", "dir1", "dir2", "file3"],
        &["tmp", "dir1", "file2"],
        &["tmp", "file1"],
    ]);
    assert_eq!(found, expected);
}

#[test]
fn test_scan_collects_content() {
    let entries = vec![dir("sub", vec![file("data", b"payload")])];
    let files = scan_dir(&root(&["r"]), &entries);
    assert_eq!(files.len(), 1);
    assert_eq!(files[0].path.parts, parts_of(&[&["r", "sub", "data"]])[0]);
    assert_eq!(files[0].content, b"payload".to_vec());
}

#[test]
fn test_scan_excludes_symlinks() {
    let entries = vec![
        file("kept", b"k"),
        link("skipped_file"),
        dir("inner", vec![link("skipped_too"), file("deep", b"d")]),
    ];
    let files = scan_dir(&root(&["top"]), &entries);
    let mut found: Vec<Vec<Vec<u8>>> = files.iter().map(|f| f.path.parts.clone()).collect();
    found.sort();
    let expected = parts_of(&[&["top", "inner", "deep"], &["top", "kept"]]);
    assert_eq!(found, expected);
}

#[test]
fn test_scan_same_without_links() {
    // Deleting the symbolic links from a tree leaves the scan unchanged.
    let with_links = vec![
        link("first"),
        file("kept", b"k"),
        dir("inner", vec![link("mid"), file("deep", b"d"), link("last")]),
        link("tail"),
    ];
    let without_links = vec![file("kept", b"k"), dir("inner", vec![file("deep", b"d")])];
    let scanned_with = scan_dir(&root(&["top"]), &with_links);
    let scanned_without = scan_dir(&root(&["top"]), &without_links);
    assert_eq!(scanned_with, scanned_without);
}

#[test]
fn test_scan_empty_dir() {
    let entries: Vec<FsEntry> = Vec::new();
    let files = scan_dir(&root(&["empty"]), &entries);
    assert!(files.is_empty());
}
