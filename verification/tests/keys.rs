use versioned_store::keys::{append_bytes, full_key, hash_key, memory_key};

#[test]
fn full_key_is_little_endian_block_then_key() {
    assert_eq!(full_key(1, b"ab"), vec![1, 0, 0, 0, 0, 0, 0, 0, b'a', b'b']);
    assert_eq!(
        full_key(0x0102030405060708, b"k"),
        vec![8, 7, 6, 5, 4, 3, 2, 1, b'k']
    );
}

#[test]
fn full_key_of_empty_key_is_eight_bytes() {
    assert_eq!(full_key(0, b""), vec![0u8; 8]);
    assert_eq!(full_key(u64::MAX, b""), vec![0xffu8; 8]);
}

#[test]
fn full_key_matches_std_encoding() {
    let block: u64 = 987_654_321_012;
    let mut expected = block.to_le_bytes().to_vec();
    expected.extend_from_slice(b"slot");
    assert_eq!(full_key(block, b"slot"), expected);
}

#[test]
fn hash_key_is_the_version_identifier() {
    assert_eq!(hash_key(2, b"K"), full_key(2, b"K"));
    assert_eq!(hash_key(256, b"K"), vec![0, 1, 0, 0, 0, 0, 0, 0, b'K']);
}

#[test]
fn hash_key_separates_blocks_and_keys() {
    assert_ne!(hash_key(1, b"K"), hash_key(2, b"K"));
    assert_ne!(hash_key(1, b"K"), hash_key(1, b"L"));
    assert_ne!(hash_key(1, b"K"), hash_key(1, b"KK"));
}

#[test]
fn memory_key_prefixes_the_key() {
    assert_eq!(memory_key(b"k"), b"memory:k".to_vec());
    assert_eq!(memory_key(b""), b"memory:".to_vec());
    assert_eq!(memory_key(&[0, 255]), vec![109, 101, 109, 111, 114, 121, 58, 0, 255]);
}

#[test]
fn memory_key_separates_keys() {
    assert_ne!(memory_key(b"a"), memory_key(b"b"));
    assert_ne!(memory_key(b"a"), memory_key(b"aa"));
}

#[test]
fn append_bytes_extends_at_the_end() {
    let mut head = vec![1u8, 2];
    append_bytes(&mut head, &[3, 4, 5]);
    assert_eq!(head, vec![1, 2, 3, 4, 5]);
    append_bytes(&mut head, &[]);
    assert_eq!(head, vec![1, 2, 3, 4, 5]);
}
