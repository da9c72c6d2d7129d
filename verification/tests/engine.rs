use versioned_store::db::StoreError;
use versioned_store::engine::{flatten_chunks, payload_from_reply, resolve_latest};

#[test]
fn resolve_latest_fetches_a_single_identifier() {
    assert_eq!(resolve_latest(vec![b"id".to_vec()]), Some(b"id".to_vec()));
    assert_eq!(resolve_latest(vec![vec![]]), Some(vec![]));
}

#[test]
fn resolve_latest_of_no_identifier_is_none() {
    assert_eq!(resolve_latest(vec![]), None);
}

#[test]
fn resolve_latest_of_several_identifiers_is_none() {
    assert_eq!(resolve_latest(vec![b"a".to_vec(), b"b".to_vec()]), None);
}

#[test]
fn payload_from_reply_passes_the_payload_on() {
    assert_eq!(payload_from_reply(Some(b"value".to_vec())), Ok(b"value".to_vec()));
    assert_eq!(payload_from_reply(Some(vec![])), Ok(vec![]));
}

#[test]
fn payload_from_reply_reports_a_missing_payload() {
    assert_eq!(payload_from_reply(None), Err(StoreError::DataIntegrityViolation));
}

#[test]
fn flatten_chunks_concatenates_in_order() {
    let chunks = vec![b"ab".to_vec(), b"cd".to_vec(), b"ef".to_vec()];
    assert_eq!(flatten_chunks(&chunks), b"abcdef".to_vec());
}

#[test]
fn flatten_chunks_of_nothing_is_empty() {
    assert_eq!(flatten_chunks(&vec![]), Vec::<u8>::new());
    assert_eq!(flatten_chunks(&vec![vec![], vec![]]), Vec::<u8>::new());
}

#[test]
fn flatten_chunks_keeps_empty_chunks_out() {
    let chunks = vec![vec![1u8], vec![], vec![2, 3]];
    assert_eq!(flatten_chunks(&chunks), vec![1, 2, 3]);
}

#[test]
fn store_error_messages_differ() {
    assert_eq!(StoreError::BackingStoreUnavailable.message(), "backing store unavailable");
    assert_eq!(
        StoreError::DataIntegrityViolation.message(),
        "version index names a missing payload"
    );
}
