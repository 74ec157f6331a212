use opensearch_transport::text::{copy, copy_all, find, matches_at, push_all, slice_copy};

#[test]
fn find_gives_the_first_place_at_or_after_the_start() {
    let hay = b"abcabcabc";
    assert_eq!(find(hay, b"abc", 0), Some(0));
    assert_eq!(find(hay, b"abc", 1), Some(3));
    assert_eq!(find(hay, b"abc", 3), Some(3));
    assert_eq!(find(hay, b"abc", 4), Some(6));
    assert_eq!(find(hay, b"abc", 6), Some(6));
    assert_eq!(find(hay, b"abc", 7), None);
    assert_eq!(find(hay, b"cab", 0), Some(2));
    assert_eq!(find(hay, b"abd", 0), None);
    assert_eq!(find(hay, b"abcabcabcd", 0), None);
}

#[test]
fn find_handles_the_edges() {
    assert_eq!(find(b"", b"a", 0), None);
    assert_eq!(find(b"a", b"a", 0), Some(0));
    assert_eq!(find(b"a", b"a", 1), None);
    assert_eq!(find(b"a", b"a", 100), None);
    assert_eq!(find(b"abc", b"", 0), Some(0));
    assert_eq!(find(b"abc", b"", 3), Some(3));
    assert_eq!(find(b"abc", b"", 4), None);
    assert_eq!(find(b"", b"", 0), Some(0));
    assert_eq!(find(b"aab", b"ab", 0), Some(1));
}

#[test]
fn matches_at_compares_in_place() {
    assert!(matches_at(b"hello world", b"hello", 0));
    assert!(matches_at(b"hello world", b"world", 6));
    assert!(!matches_at(b"hello world", b"world", 5));
    assert!(!matches_at(b"hello world", b"world", 7));
    assert!(!matches_at(b"hello world", b"world", usize::MAX));
    assert!(matches_at(b"hello", b"", 5));
    assert!(!matches_at(b"hello", b"", 6));
    assert!(!matches_at(b"hi", b"high", 0));
}

#[test]
fn copies_are_equal_to_what_they_copy() {
    assert_eq!(slice_copy(b"abcdef", 2, 4), b"cd".to_vec());
    assert_eq!(slice_copy(b"abcdef", 0, 6), b"abcdef".to_vec());
    assert_eq!(slice_copy(b"abcdef", 3, 3), b"".to_vec());
    assert_eq!(copy(b"xyz"), b"xyz".to_vec());
    let list = vec![b"a".to_vec(), Vec::new(), b"bc".to_vec()];
    assert_eq!(copy_all(&list), list);
    let mut out = b"ab".to_vec();
    push_all(&mut out, b"cd");
    push_all(&mut out, b"");
    assert_eq!(out, b"abcd".to_vec());
}
