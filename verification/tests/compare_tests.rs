use dedup::compare::{compare_content, Comparator, BLOCK_SIZE};

#[test]
fn test_compare_identical_copy() {
    // More than one full block, plus a trailing partial block.
    let original: Vec<u8> = (0..(BLOCK_SIZE as usize + 1500)).map(|i| (i % 251) as u8).collect();
    let copy = original.clone();
    assert!(compare_content(&original, &copy));
}

#[test]
fn test_compare_single_byte_mutation() {
    let original: Vec<u8> = (0..(BLOCK_SIZE as usize + 1500)).map(|i| (i % 251) as u8).collect();

    let mut first_byte = original.clone();
    first_byte[0] ^= 0xff;
    assert!(!compare_content(&original, &first_byte));

    let mut mid_byte = original.clone();
    let mid = mid_byte.len() / 2;
    mid_byte[mid] ^= 0xff;
    assert!(!compare_content(&original, &mid_byte));

    let mut last_byte = original.clone();
    let last = last_byte.len() - 1;
    last_byte[last] ^= 0xff;
    assert!(!compare_content(&original, &last_byte));
}

#[test]
fn test_compare_empty_files() {
    let a: Vec<u8> = Vec::new();
    let b: Vec<u8> = Vec::new();
    assert!(compare_content(&a, &b));
}

#[test]
fn test_size_mismatch_decided_without_content() {
    // A zero-byte file against a one-byte file: the verdict is already
    // settled when the comparator is created, before any content chunk
    // is supplied.
    let cmp = Comparator::new(0, 1);
    assert_eq!(cmp.verdict, Some(false));

    let a: Vec<u8> = Vec::new();
    let b: Vec<u8> = vec![0];
    assert!(!compare_content(&a, &b));
}

#[test]
fn test_comparator_streams_in_chunks() {
    let mut cmp = Comparator::new(8, 8);
    assert_eq!(cmp.verdict, None);
    assert_eq!(cmp.next_chunk_len(), 8);
    cmp.feed(&[1, 2, 3, 4], &[1, 2, 3, 4]);
    assert_eq!(cmp.verdict, None);
    cmp.feed(&[5, 6, 7, 8], &[5, 6, 7, 8]);
    assert_eq!(cmp.verdict, Some(true));
}

#[test]
fn test_comparator_stops_at_first_mismatch() {
    let mut cmp = Comparator::new(8, 8);
    cmp.feed(&[1, 2, 3, 4], &[1, 2, 9, 4]);
    // Decided: the remaining four bytes never need to be read.
    assert_eq!(cmp.verdict, Some(false));
}

#[test]
fn test_comparator_full_block_request() {
    let cmp = Comparator::new(BLOCK_SIZE * 3 + 10, BLOCK_SIZE * 3 + 10);
    assert_eq!(cmp.next_chunk_len(), BLOCK_SIZE);
}
