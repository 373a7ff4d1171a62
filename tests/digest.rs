use std::hash::Hasher;
use siphasher::sip128::Hasher128;
use tribles_txn::digest::{
    blake2b256_deinit, blake2b256_finish, blake2b256_update, blake3_digest, blake3_init,
    hash_digest, xxh_digest,
};
use tribles_txn::error::CodecError;

#[test]
fn xxh_digest_is_big_endian_xxh3() {
    let secret: Vec<u8> = (0..200u32).map(|i| (i * 13 + 1) as u8).collect();
    let input = b"trible".to_vec();
    let expected = xxhash_rust::xxh3::xxh3_128_with_secret(&input, &secret).to_be_bytes();
    let got = xxh_digest(&input, &secret).unwrap();
    assert_eq!(got, expected.to_vec());
    assert_ne!(got, input);
}

#[test]
fn xxh_digest_rejects_short_secret() {
    assert_eq!(xxh_digest(b"x", &[7u8; 135]), Err(CodecError::KeyConfigurationError));
    assert!(xxh_digest(b"x", &[7u8; 136]).is_ok());
}

#[test]
fn hash_digest_is_siphash24() {
    let key: [u8; 16] = [3u8; 16];
    let data = b"entity-attribute-value".to_vec();
    let mut hasher = siphasher::sip128::SipHasher24::new_with_key(&key);
    hasher.write(&data);
    let expected = hasher.finish128().as_bytes();
    let got = hash_digest(&key, &data).unwrap();
    assert_eq!(got, expected.to_vec());
    assert_eq!(got.len(), 16);
}

#[test]
fn hash_digest_depends_on_secret() {
    let data = [1u8; 20];
    assert_ne!(hash_digest(&[0u8; 16], &data).unwrap(), hash_digest(&[1u8; 16], &data).unwrap());
}

#[test]
fn hash_digest_rejects_wrong_key_width() {
    assert_eq!(hash_digest(&[0u8; 15], b"a"), Err(CodecError::KeyConfigurationError));
    assert_eq!(hash_digest(&[0u8; 17], b"a"), Err(CodecError::KeyConfigurationError));
}

#[test]
fn streaming_session_matches_one_shot() {
    let data: Vec<u8> = (0..5000u32).map(|i| (i % 251) as u8).collect();
    let mut s = blake3_init();
    for part in data.chunks(1000) {
        blake2b256_update(&mut s, part);
    }
    let streamed = blake2b256_finish(&s);
    blake2b256_deinit(s);
    assert_eq!(streamed, blake3::hash(&data).as_bytes().to_vec());
    assert_eq!(blake3_digest(&data), streamed);
}

#[test]
fn empty_session_is_hash_of_nothing() {
    let s = blake3_init();
    assert_eq!(blake2b256_finish(&s), blake3::hash(b"").as_bytes().to_vec());
    blake2b256_deinit(s);
}
