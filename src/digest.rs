//! The digest engine: a secret-keyed 128-bit XXH3, a keyed 128-bit SipHash-2-4,
//! and a streaming 256-bit BLAKE3 session.
use vstd::prelude::*;
use std::hash::Hasher;
use siphasher::sip128::Hasher128;
use crate::bytes::{be_u64_bytes, push_be_u64};
use crate::error::CodecError;

verus! {

/// The smallest secret that XXH3 accepts.
pub const XXH3_SECRET_SIZE_MIN: usize = 136;

/// The width of a SipHash key.
pub const SIPHASH_KEY_SIZE: usize = 16;

/// XXH3-128 of `input` under a custom `secret`.
pub uninterp spec fn xxh3_128_with_secret_of(input: Seq<u8>, secret: Seq<u8>) -> u128;

/// SipHash-2-4 (128-bit output) of `data` under `key`, as the hasher's byte order gives it.
pub uninterp spec fn siphash24_128_of(key: Seq<u8>, data: Seq<u8>) -> Seq<u8>;

/// The BLAKE3 hash of `input`.
pub uninterp spec fn blake3_of(input: Seq<u8>) -> Seq<u8>;

/// The bytes that a BLAKE3 hasher has absorbed so far.
pub uninterp spec fn blake3_absorbed(h: blake3::Hasher) -> Seq<u8>;

#[verifier::external_type_specification]
#[verifier::external_body]
pub struct ExBlake3Hasher(blake3::Hasher);

/// Relies on xxhash_rust::xxh3::xxh3_128_with_secret, which asserts that the
/// secret holds at least 136 bytes and otherwise depends on its arguments alone.
#[verifier::external_body]
fn xxh3_128_with_secret(input: &[u8], secret: &[u8]) -> (h: u128)
    requires
        secret@.len() >= XXH3_SECRET_SIZE_MIN,
    ensures
        h == xxh3_128_with_secret_of(input@, secret@),
{
    xxhash_rust::xxh3::xxh3_128_with_secret(input, secret)
}

/// Relies on siphasher's SipHasher24: `new_with_key` on a 16-byte key, `write`,
/// then `finish128().as_bytes()`, which yields 16 bytes.
#[verifier::external_body]
fn siphash24_128(key: &[u8], data: &[u8]) -> (h: Vec<u8>)
    requires
        key@.len() == SIPHASH_KEY_SIZE,
    ensures
        h@ == siphash24_128_of(key@, data@),
        h@.len() == 16,
{
    let key: &[u8; 16] = key.try_into().unwrap();
    let mut hasher = siphasher::sip128::SipHasher24::new_with_key(key);
    hasher.write(data);
    hasher.finish128().as_bytes().to_vec()
}

/// Relies on blake3::Hasher::new: a hasher that has absorbed nothing.
#[verifier::external_body]
fn blake3_hasher_new() -> (h: blake3::Hasher)
    ensures
        blake3_absorbed(h) == Seq::<u8>::empty(),
{
    blake3::Hasher::new()
}

/// Relies on blake3::Hasher::update: appends `data` to what the hasher absorbed.
#[verifier::external_body]
fn blake3_hasher_update(h: &mut blake3::Hasher, data: &[u8])
    ensures
        blake3_absorbed(*final(h)) == blake3_absorbed(*old(h)) + data@,
{
    h.update(data);
}

/// Relies on blake3::Hasher::finalize: the 32-byte hash of all that was absorbed.
#[verifier::external_body]
fn blake3_hasher_finalize(h: &blake3::Hasher) -> (r: Vec<u8>)
    ensures
        r@ == blake3_of(blake3_absorbed(*h)),
        r@.len() == 32,
{
    h.finalize().as_bytes().to_vec()
}

/// The sixteen big-endian bytes of `h`.
pub open spec fn be_u128_bytes(h: u128) -> Seq<u8> {
    be_u64_bytes((h >> 64u128) as u64) + be_u64_bytes(h as u64)
}

/// XXH3-128 of `input` under `secret`, as sixteen big-endian bytes. A secret
/// shorter than the algorithm's minimum is a configuration error.
pub fn xxh_digest(input: &[u8], secret: &[u8]) -> (r: Result<Vec<u8>, CodecError>)
    ensures
        secret@.len() < XXH3_SECRET_SIZE_MIN ==> r == Err::<Vec<u8>, CodecError>(
            CodecError::KeyConfigurationError,
        ),
        secret@.len() >= XXH3_SECRET_SIZE_MIN ==> r.is_ok() && r.unwrap()@ == be_u128_bytes(
            xxh3_128_with_secret_of(input@, secret@),
        ),
{
    if secret.len() < XXH3_SECRET_SIZE_MIN {
        return Err(CodecError::KeyConfigurationError);
    }
    let h = xxh3_128_with_secret(input, secret);
    let mut out: Vec<u8> = Vec::with_capacity(16);
    push_be_u64(&mut out, (h >> 64u128) as u64);
    push_be_u64(&mut out, h as u64);
    assert(out@ =~= be_u128_bytes(h));
    Ok(out)
}

/// SipHash-2-4 of `data` under a 16-byte `secret`: the 16-byte trie node digest.
/// A secret of any other width is a configuration error.
pub fn hash_digest(secret: &[u8], data: &[u8]) -> (r: Result<Vec<u8>, CodecError>)
    ensures
        secret@.len() != SIPHASH_KEY_SIZE ==> r == Err::<Vec<u8>, CodecError>(
            CodecError::KeyConfigurationError,
        ),
        secret@.len() == SIPHASH_KEY_SIZE ==> r.is_ok() && r.unwrap()@ == siphash24_128_of(
            secret@,
            data@,
        ) && r.unwrap()@.len() == 16,
{
    if secret.len() != SIPHASH_KEY_SIZE {
        return Err(CodecError::KeyConfigurationError);
    }
    Ok(siphash24_128(secret, data))
}

/// A streaming BLAKE3 computation, owned by one caller. Its view is the input
/// absorbed so far.
pub struct Blake3Session {
    hasher: blake3::Hasher,
}

impl View for Blake3Session {
    type V = Seq<u8>;

    closed spec fn view(&self) -> Seq<u8> {
        blake3_absorbed(self.hasher)
    }
}

/// Starts a session that has absorbed nothing.
pub fn blake3_init() -> (s: Blake3Session)
    ensures
        s@ == Seq::<u8>::empty(),
{
    Blake3Session { hasher: blake3_hasher_new() }
}

/// Feeds `data` to the session.
pub fn blake2b256_update(s: &mut Blake3Session, data: &[u8])
    ensures
        final(s)@ == old(s)@ + data@,
{
    blake3_hasher_update(&mut s.hasher, data);
}

/// The 32-byte hash of everything fed so far; the session may be fed further.
pub fn blake2b256_finish(s: &Blake3Session) -> (r: Vec<u8>)
    ensures
        r@ == blake3_of(s@),
        r@.len() == 32,
{
    blake3_hasher_finalize(&s.hasher)
}

/// Ends the session and releases its state.
pub fn blake2b256_deinit(s: Blake3Session) {
}

/// The BLAKE3 hash of `data`, through one session.
pub fn blake3_digest(data: &[u8]) -> (r: Vec<u8>)
    ensures
        r@ == blake3_of(data@),
        r@.len() == 32,
{
    let mut s = blake3_init();
    blake2b256_update(&mut s, data);
    assert(s@ =~= data@);
    let r = blake2b256_finish(&s);
    blake2b256_deinit(s);
    r
}

} // verus!
