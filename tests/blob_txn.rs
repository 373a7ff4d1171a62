use tribles_txn::blob_txn::{chunk_checksums, deserialize_blob_txn, encode_blob_txn, serialize_blob_txn};
use tribles_txn::error::CodecError;

fn blob(len: usize) -> Vec<u8> {
    (0..len).map(|i| (i * 37 + 11) as u8).collect()
}

#[test]
fn blobs_round_trip() {
    for len in [0usize, 1, 62, 63, 64, 126, 127, 1000] {
        let b = blob(len);
        let bytes = serialize_blob_txn(&b, 5, 2);
        assert_eq!(deserialize_blob_txn(&bytes), Ok(b));
    }
}

#[test]
fn blob_layout() {
    let b = blob(100);
    let bytes = serialize_blob_txn(&b, 0x0102, 3);
    assert_eq!(bytes.len(), 128 + 64 * 2);
    assert_eq!(&bytes[0..16], &[0u8; 16]);
    assert_eq!(&bytes[24..32], &(256u64).to_be_bytes());
    assert_eq!(&bytes[32..40], &(100u64).to_be_bytes());
    assert_eq!(&bytes[40..48], &(0x0102u64).to_be_bytes());
    assert_eq!(bytes[48], 3);
    assert_eq!(&bytes[49..64], &[0u8; 15]);
    assert_eq!(&bytes[64..96], blake3::hash(&b).as_bytes());
    assert_eq!(&bytes[129..192], &b[0..63]);
    assert_eq!(&bytes[193..230], &b[63..100]);
    assert_eq!(&bytes[230..256], &[0u8; 26]);
    let sums = [bytes[128], bytes[192]];
    assert_eq!(&bytes[96..128], blake3::hash(&sums).as_bytes());
}

#[test]
fn checksum_is_xor_of_segment() {
    let mut b = vec![0u8; 63];
    b[0] = 0x12;
    b[62] = 0x30;
    let bytes = serialize_blob_txn(&b, 0, 0);
    assert_eq!(bytes[128], 0x22);
}

#[test]
fn zero_checksum_is_replaced_by_sentinel() {
    let bytes = serialize_blob_txn(&vec![0u8; 63], 0, 0);
    assert_eq!(bytes[128], 0xff);
    let bytes = serialize_blob_txn(&vec![0x5au8, 0x5a], 0, 0);
    assert_eq!(bytes[128], 0xff);
}

#[test]
fn segment_bit_flip_names_chunk() {
    let b = blob(300);
    let bytes = serialize_blob_txn(&b, 0, 0);
    for chunk in 0..5usize {
        for offset in [0usize, 30, 62] {
            for bit in 0..8 {
                let mut t = bytes.clone();
                t[128 + 64 * chunk + 1 + offset] ^= 1 << bit;
                assert_eq!(deserialize_blob_txn(&t), Err(CodecError::ChecksumMismatch(chunk as u64)));
            }
        }
    }
}

#[test]
fn tampered_hashes_are_hash_mismatch() {
    let bytes = serialize_blob_txn(&blob(70), 0, 0);
    let mut t = bytes.clone();
    t[64] ^= 1;
    assert_eq!(deserialize_blob_txn(&t), Err(CodecError::HashMismatch));
    let mut t = bytes.clone();
    t[127] ^= 1;
    assert_eq!(deserialize_blob_txn(&t), Err(CodecError::HashMismatch));
}

#[test]
fn blob_header_errors() {
    let bytes = serialize_blob_txn(&blob(70), 0, 0);
    assert_eq!(deserialize_blob_txn(&bytes[..63]), Err(CodecError::IncompleteInput));
    assert_eq!(deserialize_blob_txn(&bytes[..200]), Err(CodecError::IncompleteInput));
    let mut t = bytes.clone();
    t[0] = 1;
    assert_eq!(deserialize_blob_txn(&t), Err(CodecError::MalformedHeader));
    let mut t = bytes.clone();
    t[23] = 1;
    assert_eq!(deserialize_blob_txn(&t), Err(CodecError::MalformedHeader));
    let mut t = bytes.clone();
    t[31] ^= 0x40;
    assert_eq!(deserialize_blob_txn(&t), Err(CodecError::SizeMismatch));
}

#[test]
fn encode_places_given_hashes() {
    let b = blob(130);
    let sums = chunk_checksums(&b);
    assert_eq!(sums.len(), 3);
    let bytes = encode_blob_txn(&b, 1, 1, &[0x11u8; 32], &[0x22u8; 32]);
    assert_eq!(&bytes[64..96], &[0x11u8; 32]);
    assert_eq!(&bytes[96..128], &[0x22u8; 32]);
    assert_eq!(vec![bytes[128], bytes[192], bytes[256]], sums);
    assert_eq!(bytes.len(), 128 + 3 * 64);
    assert_eq!(deserialize_blob_txn(&bytes), Err(CodecError::HashMismatch));
}
