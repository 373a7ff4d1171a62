use ed25519_dalek::Signer;
use tribles_txn::error::CodecError;
use tribles_txn::trible_txn::{
    deserialize_tribles_txn, encode_trible_txn, serialize_tribles_txn, split_tribles,
    trible_txn_signed_message, Trible,
};

const KEY: [u8; 32] = [7u8; 32];

fn trible(seed: u8) -> Trible {
    let mut t = [0u8; 64];
    for (i, b) in t.iter_mut().enumerate() {
        *b = seed.wrapping_add(i as u8);
    }
    t
}

#[test]
fn zero_tribles_give_header_and_signature_only() {
    let bytes = serialize_tribles_txn(&vec![], &KEY).unwrap();
    assert_eq!(bytes.len(), 128);
    assert_eq!(&bytes[0..16], &[0u8; 16]);
    assert_eq!(&bytes[24..32], &[0u8; 8]);
    assert_eq!(deserialize_tribles_txn(&bytes), Ok(vec![]));
}

#[test]
fn tribles_round_trip_in_order() {
    let ts = vec![trible(1), trible(200), trible(1), trible(33)];
    let bytes = serialize_tribles_txn(&ts, &KEY).unwrap();
    assert_eq!(bytes.len(), 128 + 64 * 4);
    assert_eq!(&bytes[24..32], &(256u64).to_be_bytes());
    assert_eq!(&bytes[128..192], &ts[0]);
    assert_eq!(deserialize_tribles_txn(&bytes), Ok(ts));
}

#[test]
fn header_carries_public_key_and_valid_signature() {
    let ts = vec![trible(5)];
    let bytes = serialize_tribles_txn(&ts, &KEY).unwrap();
    let signer = ed25519_dalek::SigningKey::from_bytes(&KEY);
    assert_eq!(&bytes[32..64], signer.verifying_key().as_bytes());
    let mut msg = bytes[0..64].to_vec();
    msg.extend_from_slice(&bytes[128..]);
    assert_eq!(&bytes[64..128], &signer.sign(&msg).to_bytes());
}

#[test]
fn trailing_bytes_are_not_read() {
    let ts = vec![trible(9)];
    let mut bytes = serialize_tribles_txn(&ts, &KEY).unwrap();
    bytes.extend_from_slice(&[1, 2, 3]);
    assert_eq!(deserialize_tribles_txn(&bytes), Ok(ts));
}

#[test]
fn payload_bit_flip_is_signature_invalid() {
    let ts = vec![trible(1), trible(2)];
    let bytes = serialize_tribles_txn(&ts, &KEY).unwrap();
    for pos in [128usize, 150, 191, 192, 255] {
        for bit in 0..8 {
            let mut t = bytes.clone();
            t[pos] ^= 1 << bit;
            assert_eq!(deserialize_tribles_txn(&t), Err(CodecError::SignatureInvalid));
        }
    }
}

#[test]
fn short_buffer_is_incomplete_not_malformed() {
    let bytes = serialize_tribles_txn(&vec![trible(3)], &KEY).unwrap();
    assert_eq!(deserialize_tribles_txn(&bytes[..100]), Err(CodecError::IncompleteInput));
    assert_eq!(deserialize_tribles_txn(&[0xffu8; 40]), Err(CodecError::IncompleteInput));
    assert_eq!(deserialize_tribles_txn(&bytes[..150]), Err(CodecError::IncompleteInput));
}

#[test]
fn bad_sentinel_or_tag_is_malformed() {
    let bytes = serialize_tribles_txn(&vec![trible(3)], &KEY).unwrap();
    let mut t = bytes.clone();
    t[4] = 1;
    assert_eq!(deserialize_tribles_txn(&t), Err(CodecError::MalformedHeader));
    let mut t = bytes.clone();
    t[23] ^= 0x40;
    assert_eq!(deserialize_tribles_txn(&t), Err(CodecError::MalformedHeader));
}

#[test]
fn unaligned_payload_is_size_mismatch() {
    let signer = ed25519_dalek::SigningKey::from_bytes(&KEY);
    let mut header = vec![0u8; 16];
    header.extend_from_slice(&1u64.to_be_bytes());
    header.extend_from_slice(&10u64.to_be_bytes());
    header.extend_from_slice(signer.verifying_key().as_bytes());
    let payload = [4u8; 10];
    let mut msg = header.clone();
    msg.extend_from_slice(&payload);
    let mut bytes = header;
    bytes.extend_from_slice(&signer.sign(&msg).to_bytes());
    bytes.extend_from_slice(&payload);
    assert_eq!(deserialize_tribles_txn(&bytes), Err(CodecError::SizeMismatch));
}

#[test]
fn wrong_key_width_is_configuration_error() {
    assert_eq!(serialize_tribles_txn(&vec![trible(1)], &[1u8; 31]), Err(CodecError::KeyConfigurationError));
}

#[test]
fn encode_places_given_key_and_signature() {
    let ts = vec![trible(4), trible(8)];
    let public = [0xabu8; 32];
    let signature = [0xcdu8; 64];
    let msg = trible_txn_signed_message(&ts, &public);
    assert_eq!(msg.len(), 64 + 128);
    let bytes = encode_trible_txn(&ts, &public, &signature);
    assert_eq!(&bytes[0..64], &msg[0..64]);
    assert_eq!(&bytes[32..64], &public);
    assert_eq!(&bytes[64..128], &signature);
    assert_eq!(&bytes[128..], &msg[64..]);
    assert_eq!(&bytes[16..24], &1u64.to_be_bytes());
    assert_eq!(deserialize_tribles_txn(&bytes), Err(CodecError::SignatureInvalid));
}

#[test]
fn split_into_records() {
    let mut payload = trible(1).to_vec();
    payload.extend_from_slice(&trible(2));
    assert_eq!(split_tribles(&payload), Ok(vec![trible(1), trible(2)]));
    assert_eq!(split_tribles(&[]), Ok(vec![]));
    assert_eq!(split_tribles(&payload[..100]), Err(CodecError::SizeMismatch));
}
