use versioned_store::order::{bytes_eq, bytes_no_later, rank_no_higher};

#[test]
fn bytes_eq_compares_contents() {
    assert!(bytes_eq(b"", b""));
    assert!(bytes_eq(b"abc", b"abc"));
    assert!(!bytes_eq(b"abc", b"abd"));
    assert!(!bytes_eq(b"abc", b"ab"));
    assert!(!bytes_eq(b"", b"a"));
}

#[test]
fn bytes_no_later_is_dictionary_order() {
    assert!(bytes_no_later(b"", b""));
    assert!(bytes_no_later(b"", b"a"));
    assert!(!bytes_no_later(b"a", b""));
    assert!(bytes_no_later(b"ab", b"ab"));
    assert!(bytes_no_later(b"ab", b"abc"));
    assert!(!bytes_no_later(b"abc", b"ab"));
    assert!(bytes_no_later(b"abz", b"ac"));
    assert!(!bytes_no_later(b"ac", b"abz"));
    assert!(bytes_no_later(&[0, 255], &[1]));
}

#[test]
fn bytes_no_later_agrees_with_slice_order() {
    let samples: Vec<&[u8]> = vec![b"", b"a", b"ab", b"b", b"ba", &[0], &[255], &[255, 0]];
    for a in samples.iter() {
        for b in samples.iter() {
            assert_eq!(bytes_no_later(a, b), a <= b);
        }
    }
}

#[test]
fn rank_no_higher_goes_by_score_first() {
    assert!(rank_no_higher(1, b"z", 2, b"a"));
    assert!(!rank_no_higher(2, b"a", 1, b"z"));
}

#[test]
fn rank_no_higher_breaks_ties_by_member() {
    assert!(rank_no_higher(3, b"a", 3, b"b"));
    assert!(!rank_no_higher(3, b"b", 3, b"a"));
    assert!(rank_no_higher(3, b"a", 3, b"a"));
}
