use tribles_txn::bytes::txn;
use tribles_txn::error::CodecError;

#[test]
fn frame_splits_value_and_rest() {
    let mut input = vec![0, 0, 0, 0, 0, 0, 0, 3];
    input.extend_from_slice(&[9, 8, 7, 6, 5]);
    let (rest, value) = txn(&input).unwrap();
    assert_eq!(value, vec![9, 8, 7]);
    assert_eq!(rest, vec![6, 5]);
}

#[test]
fn frame_needs_whole_length_and_value() {
    assert_eq!(txn(&[0, 0, 0]), Err(CodecError::IncompleteInput));
    assert_eq!(txn(&[0, 0, 0, 0, 0, 0, 0, 4, 1, 2]), Err(CodecError::IncompleteInput));
}

#[test]
fn frame_of_zero_length() {
    let (rest, value) = txn(&[0, 0, 0, 0, 0, 0, 0, 0, 42]).unwrap();
    assert!(value.is_empty());
    assert_eq!(rest, vec![42]);
}
