//! Unsigned, content-addressed transactions of one binary blob.
//!
//! Layout: a 64-byte header (16 zero bytes, an 8-byte tag, the 8-byte total
//! transaction size, the 8-byte blob size, an 8-byte path, a 1-byte depth and 15
//! bytes of local bookkeeping), the 32-byte BLAKE3 hash of the blob, the 32-byte
//! BLAKE3 hash of the sequence of chunk checksums, then one 64-byte chunk record
//! per 63 bytes of blob: a non-zero checksum byte and the segment, the last one
//! padded with zero bytes. All integers are big-endian.
use vstd::prelude::*;
use crate::aggregate::hash_equal;
use crate::bytes::{
    all_zero, be_u64_at, be_u64_bytes, lemma_be_u64_at_shift, lemma_be_u64_round_trip,
    push_be_u64, push_range, push_zeros, read_be_u64, zeros,
};
use crate::digest::{blake3_digest, blake3_of};
use crate::error::CodecError;
use crate::trible_txn::MARKER_SIZE;

verus! {

/// The tag that marks a blob transaction.
pub const BLOB_TXN_TAG: u64 = 2;

/// The width of a chunk record.
pub const CHUNK_SIZE: usize = 64;

/// The blob bytes that one chunk record carries.
pub const SEGMENT_SIZE: usize = 63;

/// The checksum that stands for a segment whose bytes XOR to zero.
pub const ZERO_CHECKSUM: u8 = 0xff;

/// The XOR of all bytes of `s`.
pub open spec fn xor_fold(s: Seq<u8>) -> u8
    decreases s.len(),
{
    if s.len() == 0 {
        0u8
    } else {
        xor_fold(s.drop_last()) ^ s.last()
    }
}

/// The never-zero checksum of a segment: the XOR of its bytes, with zero
/// replaced by `ZERO_CHECKSUM`.
pub open spec fn chunk_checksum(seg: Seq<u8>) -> u8 {
    if xor_fold(seg) == 0 {
        ZERO_CHECKSUM
    } else {
        xor_fold(seg)
    }
}

/// The number of chunks that carry `len` blob bytes.
pub open spec fn chunk_count(len: int) -> int {
    if len % 63 == 0 {
        len / 63
    } else {
        len / 63 + 1
    }
}

/// Segment `i` of `blob`, padded with zero bytes to 63.
pub open spec fn segment(blob: Seq<u8>, i: int) -> Seq<u8> {
    Seq::new(63, |j: int| if 63 * i + j < blob.len() { blob[63 * i + j] } else { 0u8 })
}

/// The checksums of the first `k` segments of `blob`.
pub open spec fn checksums(blob: Seq<u8>, k: int) -> Seq<u8> {
    Seq::new(k as nat, |i: int| chunk_checksum(segment(blob, i)))
}

/// The first `k` chunk records of `blob`.
pub open spec fn chunk_records(blob: Seq<u8>, k: int) -> Seq<u8>
    decreases k,
{
    if k <= 0 {
        Seq::empty()
    } else {
        chunk_records(blob, k - 1) + seq![chunk_checksum(segment(blob, k - 1))] + segment(
            blob,
            k - 1,
        )
    }
}

/// The header of a blob transaction.
pub open spec fn blob_header(txn_size: u64, blob_size: u64, path: u64, depth: u8) -> Seq<u8> {
    zeros(16) + be_u64_bytes(BLOB_TXN_TAG) + be_u64_bytes(txn_size) + be_u64_bytes(blob_size)
        + be_u64_bytes(path) + seq![depth] + zeros(15)
}

/// The bytes of the transaction of `blob` at `path` and `depth`, with the given
/// blob hash and chunk-tree hash.
pub open spec fn blob_txn_layout(
    blob: Seq<u8>,
    path: u64,
    depth: u8,
    blob_hash: Seq<u8>,
    chunk_hash: Seq<u8>,
) -> Seq<u8> {
    let n = chunk_count(blob.len() as int);
    blob_header((128 + 64 * n) as u64, blob.len() as u64, path, depth) + blob_hash + chunk_hash
        + chunk_records(blob, n)
}

/// The bytes of the transaction of `blob` at `path` and `depth`.
pub open spec fn blob_txn_bytes(blob: Seq<u8>, path: u64, depth: u8) -> Seq<u8> {
    blob_txn_layout(
        blob,
        path,
        depth,
        blake3_of(blob),
        blake3_of(checksums(blob, chunk_count(blob.len() as int))),
    )
}

/// The segment that chunk `i` of the transaction `b` carries.
pub open spec fn stored_segment(b: Seq<u8>, i: int) -> Seq<u8> {
    b.subrange(129 + 64 * i, 192 + 64 * i)
}

/// Whether chunk `i` of `b` matches its checksum.
pub open spec fn chunk_ok(b: Seq<u8>, i: int) -> bool {
    b[128 + 64 * i] == chunk_checksum(stored_segment(b, i))
}

/// The first chunk in `i..n` of `b` that does not match its checksum.
pub open spec fn first_bad_chunk(b: Seq<u8>, i: int, n: int) -> Option<int>
    decreases n - i,
{
    if i >= n {
        None
    } else if !chunk_ok(b, i) {
        Some(i)
    } else {
        first_bad_chunk(b, i + 1, n)
    }
}

/// The stored checksums of the first `n` chunks of `b`.
pub open spec fn stored_checksums(b: Seq<u8>, n: int) -> Seq<u8> {
    Seq::new(n as nat, |i: int| b[128 + 64 * i])
}

/// The stored segments of the first `k` chunks of `b`, one after another.
pub open spec fn stored_segments(b: Seq<u8>, k: int) -> Seq<u8>
    decreases k,
{
    if k <= 0 {
        Seq::empty()
    } else {
        stored_segments(b, k - 1) + stored_segment(b, k - 1)
    }
}

/// What decoding the blob transaction at the start of `b` gives. Bytes after
/// the transaction are not read.
pub open spec fn decode_blob_txn(b: Seq<u8>) -> Result<Seq<u8>, CodecError> {
    let txn_size = be_u64_at(b, 24);
    let blob_size = be_u64_at(b, 32);
    let n = chunk_count(blob_size as int);
    let blob = stored_segments(b, n).take(blob_size as int);
    if b.len() < 64 {
        Err(CodecError::IncompleteInput)
    } else if b.subrange(0, 16) != zeros(16) || be_u64_at(b, 16) != BLOB_TXN_TAG {
        Err(CodecError::MalformedHeader)
    } else if txn_size != 128 + 64 * n {
        Err(CodecError::SizeMismatch)
    } else if b.len() < txn_size {
        Err(CodecError::IncompleteInput)
    } else if let Some(i) = first_bad_chunk(b, 0, n) {
        Err(CodecError::ChecksumMismatch(i as u64))
    } else if b.subrange(96, 128) != blake3_of(stored_checksums(b, n)) {
        Err(CodecError::HashMismatch)
    } else if b.subrange(64, 96) != blake3_of(blob) {
        Err(CodecError::HashMismatch)
    } else {
        Ok(blob)
    }
}

proof fn lemma_stored_segments_len(b: Seq<u8>, k: int)
    requires
        0 <= k,
        128 + 64 * k <= b.len(),
    ensures
        stored_segments(b, k).len() == 63 * k,
    decreases k,
{
    if k > 0 {
        lemma_stored_segments_len(b, k - 1);
    }
}

/// The first `m` bytes of `blob` followed by zero bytes.
pub open spec fn padded(blob: Seq<u8>, m: int) -> Seq<u8> {
    Seq::new(m as nat, |j: int| if j < blob.len() { blob[j] } else { 0u8 })
}

proof fn lemma_chunk_records(blob: Seq<u8>, k: int)
    requires
        0 <= k,
    ensures
        chunk_records(blob, k).len() == 64 * k,
        forall|i: int|
            0 <= i < k ==> #[trigger] chunk_records(blob, k)[64 * i] == chunk_checksum(
                segment(blob, i),
            ) && chunk_records(blob, k).subrange(64 * i + 1, 64 * i + 64) == segment(blob, i),
    decreases k,
{
    if k > 0 {
        lemma_chunk_records(blob, k - 1);
        let r = chunk_records(blob, k);
        let q = chunk_records(blob, k - 1);
        assert forall|i: int| 0 <= i < k implies #[trigger] r[64 * i] == chunk_checksum(
            segment(blob, i),
        ) && r.subrange(64 * i + 1, 64 * i + 64) == segment(blob, i) by {
            if i < k - 1 {
                assert(q[64 * i] == chunk_checksum(segment(blob, i)));
                assert(r.subrange(64 * i + 1, 64 * i + 64) =~= q.subrange(64 * i + 1, 64 * i + 64));
            } else {
                assert(r.subrange(64 * i + 1, 64 * i + 64) =~= segment(blob, i));
            }
        }
    }
}

proof fn lemma_first_bad_none(b: Seq<u8>, i: int, n: int)
    requires
        forall|j: int| i <= j < n ==> #[trigger] chunk_ok(b, j),
    ensures
        first_bad_chunk(b, i, n) == None::<int>,
    decreases n - i,
{
    if i < n {
        assert(chunk_ok(b, i));
        lemma_first_bad_none(b, i + 1, n);
    }
}

proof fn lemma_first_bad_at(b: Seq<u8>, i: int, k: int, n: int)
    requires
        0 <= i <= k < n,
        forall|j: int| i <= j < k ==> #[trigger] chunk_ok(b, j),
        !chunk_ok(b, k),
    ensures
        first_bad_chunk(b, i, n) == Some(k),
    decreases k - i,
{
    if i < k {
        assert(chunk_ok(b, i));
        lemma_first_bad_at(b, i + 1, k, n);
    }
}

proof fn lemma_stored_segments_padded(b: Seq<u8>, blob: Seq<u8>, k: int)
    requires
        0 <= k,
        128 + 64 * k <= b.len(),
        forall|i: int| 0 <= i < k ==> #[trigger] stored_segment(b, i) == segment(blob, i),
    ensures
        stored_segments(b, k) == padded(blob, 63 * k),
    decreases k,
{
    if k > 0 {
        lemma_stored_segments_padded(b, blob, k - 1);
        assert(stored_segment(b, k - 1) == segment(blob, k - 1));
        assert(stored_segments(b, k) =~= padded(blob, 63 * k));
    }
}

/// Every transaction that `serialize_blob_txn` writes decodes to its blob.
pub proof fn lemma_blob_txn_round_trip(blob: Seq<u8>, path: u64, depth: u8)
    requires
        128 + 64 * chunk_count(blob.len() as int) <= u64::MAX,
        blake3_of(blob).len() == 32,
        blake3_of(checksums(blob, chunk_count(blob.len() as int))).len() == 32,
    ensures
        decode_blob_txn(blob_txn_bytes(blob, path, depth)) == Ok::<Seq<u8>, CodecError>(blob),
{
    let len = blob.len() as int;
    let n = chunk_count(len);
    let txn_size = (128 + 64 * n) as u64;
    let b = blob_txn_bytes(blob, path, depth);
    let recs = chunk_records(blob, n);
    lemma_chunk_records(blob, n);
    assert(0 <= n && len <= 63 * n) by (nonlinear_arith)
        requires
            n == chunk_count(len),
            0 <= len,
    ;
    assert(b.len() == 128 + 64 * n);
    assert(b.subrange(0, 16) =~= zeros(16));
    assert(b.subrange(16, 24) =~= be_u64_bytes(BLOB_TXN_TAG).subrange(0, 8));
    assert(b.subrange(24, 32) =~= be_u64_bytes(txn_size).subrange(0, 8));
    assert(b.subrange(32, 40) =~= be_u64_bytes(len as u64).subrange(0, 8));
    lemma_be_u64_round_trip(BLOB_TXN_TAG);
    lemma_be_u64_round_trip(txn_size);
    lemma_be_u64_round_trip(len as u64);
    lemma_be_u64_at_shift(b, be_u64_bytes(BLOB_TXN_TAG), 16, 0);
    lemma_be_u64_at_shift(b, be_u64_bytes(txn_size), 24, 0);
    lemma_be_u64_at_shift(b, be_u64_bytes(len as u64), 32, 0);
    assert forall|i: int| 0 <= i < n implies #[trigger] stored_segment(b, i) == segment(blob, i)
        && chunk_ok(b, i) && b[128 + 64 * i] == chunk_checksum(segment(blob, i)) by {
        assert(recs[64 * i] == chunk_checksum(segment(blob, i)));
        assert(b[128 + 64 * i] == recs[64 * i]);
        assert(stored_segment(b, i) =~= recs.subrange(64 * i + 1, 64 * i + 64));
    }
    lemma_first_bad_none(b, 0, n);
    assert(stored_checksums(b, n) =~= checksums(blob, n));
    assert(b.subrange(96, 128) =~= blake3_of(checksums(blob, n)));
    lemma_stored_segments_padded(b, blob, n);
    assert(padded(blob, 63 * n).take(len) =~= blob);
    assert(b.subrange(64, 96) =~= blake3_of(blob));
}

proof fn lemma_xor_fold_flip(s: Seq<u8>, j: int, m: u8)
    requires
        0 <= j < s.len(),
    ensures
        xor_fold(s.update(j, s[j] ^ m)) == xor_fold(s) ^ m,
    decreases s.len(),
{
    let t = s.update(j, s[j] ^ m);
    let x = xor_fold(s.drop_last());
    let l = s.last();
    if j == s.len() - 1 {
        assert(t.drop_last() =~= s.drop_last());
        assert(x ^ (l ^ m) == (x ^ l) ^ m) by (bit_vector);
    } else {
        assert(t.drop_last() =~= s.drop_last().update(j, s[j] ^ m));
        lemma_xor_fold_flip(s.drop_last(), j, m);
        assert((x ^ m) ^ l == (x ^ l) ^ m) by (bit_vector);
    }
}

/// Flipping any one bit inside the segment of chunk `i` of a transaction that
/// `serialize_blob_txn` wrote makes decoding fail at that chunk: every chunk
/// before it still validates, and the error names index `i`.
pub proof fn lemma_segment_bit_flip_detected(
    blob: Seq<u8>,
    path: u64,
    depth: u8,
    i: int,
    j: int,
    bit: u8,
)
    requires
        128 + 64 * chunk_count(blob.len() as int) <= u64::MAX,
        blake3_of(blob).len() == 32,
        blake3_of(checksums(blob, chunk_count(blob.len() as int))).len() == 32,
        0 <= i < chunk_count(blob.len() as int),
        0 <= j < 63,
        bit < 8,
    ensures
        ({
            let b = blob_txn_bytes(blob, path, depth);
            let p = 129 + 64 * i + j;
            decode_blob_txn(b.update(p, b[p] ^ (1u8 << bit))) == Err::<Seq<u8>, CodecError>(
                CodecError::ChecksumMismatch(i as u64),
            )
        }),
{
    let len = blob.len() as int;
    let n = chunk_count(len);
    let txn_size = (128 + 64 * n) as u64;
    let b = blob_txn_bytes(blob, path, depth);
    let p = 129 + 64 * i + j;
    let m: u8 = 1u8 << bit;
    let recs = chunk_records(blob, n);
    lemma_chunk_records(blob, n);
    assert(0 <= n) by (nonlinear_arith)
        requires
            n == chunk_count(len),
            0 <= len,
    ;
    assert(b.len() == 128 + 64 * n);
    assert(p < b.len());
    let t = b.update(p, b[p] ^ m);
    assert(t.subrange(0, 16) =~= zeros(16));
    assert(t.subrange(16, 24) =~= be_u64_bytes(BLOB_TXN_TAG).subrange(0, 8));
    assert(t.subrange(24, 32) =~= be_u64_bytes(txn_size).subrange(0, 8));
    assert(t.subrange(32, 40) =~= be_u64_bytes(len as u64).subrange(0, 8));
    lemma_be_u64_round_trip(BLOB_TXN_TAG);
    lemma_be_u64_round_trip(txn_size);
    lemma_be_u64_round_trip(len as u64);
    lemma_be_u64_at_shift(t, be_u64_bytes(BLOB_TXN_TAG), 16, 0);
    lemma_be_u64_at_shift(t, be_u64_bytes(txn_size), 24, 0);
    lemma_be_u64_at_shift(t, be_u64_bytes(len as u64), 32, 0);
    assert forall|k: int| 0 <= k < i implies #[trigger] chunk_ok(t, k) by {
        assert(recs[64 * k] == chunk_checksum(segment(blob, k)));
        assert(t[128 + 64 * k] == recs[64 * k]);
        assert(stored_segment(t, k) =~= recs.subrange(64 * k + 1, 64 * k + 64));
    }
    let seg = segment(blob, i);
    assert(recs[64 * i] == chunk_checksum(seg));
    assert(t[128 + 64 * i] == chunk_checksum(seg));
    assert(stored_segment(b, i) =~= recs.subrange(64 * i + 1, 64 * i + 64));
    assert(stored_segment(t, i) =~= seg.update(j, seg[j] ^ m));
    lemma_xor_fold_flip(seg, j, m);
    let x = xor_fold(seg);
    assert((if x == 0 { 0xffu8 } else { x }) != (if x ^ m == 0 { 0xffu8 } else { x ^ m }))
        by (bit_vector)
        requires
            m == 1u8 << bit,
            bit < 8,
    ;
    assert(!chunk_ok(t, i));
    lemma_first_bad_at(t, 0, i, n);
}

/// The checksum of `s[from..from + 63]`.
fn checksum_at(s: &[u8], from: usize) -> (c: u8)
    requires
        from + 63 <= s@.len(),
    ensures
        c == chunk_checksum(s@.subrange(from as int, from + 63)),
{
    let len = s.len();
    let mut acc: u8 = 0;
    let mut j: usize = 0;
    while j < SEGMENT_SIZE
        invariant
            len == s@.len(),
            from + 63 <= len,
            0 <= j <= 63,
            acc == xor_fold(s@.subrange(from as int, from + j)),
        decreases 63 - j,
    {
        assert(s@.subrange(from as int, from + j + 1).drop_last() =~= s@.subrange(
            from as int,
            from + j,
        ));
        acc = acc ^ s[from + j];
        j = j + 1;
    }
    if acc == 0 {
        ZERO_CHECKSUM
    } else {
        acc
    }
}

/// Appends segment `i` of `blob`.
fn push_segment(out: &mut Vec<u8>, blob: &[u8], i: usize)
    requires
        63 * i + 63 <= usize::MAX,
    ensures
        final(out)@ == old(out)@ + segment(blob@, i as int),
{
    let len = blob.len();
    let base = SEGMENT_SIZE * i;
    let mut j: usize = 0;
    while j < SEGMENT_SIZE
        invariant
            len == blob@.len(),
            base == 63 * i,
            base + 63 <= usize::MAX,
            0 <= j <= 63,
            out@ == old(out)@ + segment(blob@, i as int).take(j as int),
        decreases 63 - j,
    {
        if base + j < len {
            out.push(blob[base + j]);
        } else {
            out.push(0u8);
        }
        j = j + 1;
        assert(out@ =~= old(out)@ + segment(blob@, i as int).take(j as int));
    }
    assert(segment(blob@, i as int).take(63) =~= segment(blob@, i as int));
}

/// The number of chunks for a blob of `len` bytes.
fn count_chunks(len: usize) -> (n: usize)
    ensures
        n == chunk_count(len as int),
{
    if len % SEGMENT_SIZE == 0 {
        len / SEGMENT_SIZE
    } else {
        len / SEGMENT_SIZE + 1
    }
}

/// The checksums of the chunks of `blob`, in order.
pub fn chunk_checksums(blob: &[u8]) -> (sums: Vec<u8>)
    requires
        128 + 64 * chunk_count(blob@.len() as int) <= usize::MAX,
    ensures
        sums@ == checksums(blob@, chunk_count(blob@.len() as int)),
{
    let len = blob.len();
    let n = count_chunks(len);
    let mut sums: Vec<u8> = Vec::with_capacity(n);
    let mut k: usize = 0;
    while k < n
        invariant
            len == blob@.len(),
            n == chunk_count(len as int),
            128 + 64 * n <= usize::MAX,
            0 <= k <= n,
            sums@ == checksums(blob@, k as int),
        decreases n - k,
    {
        assert(63 * k + 63 <= usize::MAX) by (nonlinear_arith)
            requires
                k < n,
                128 + 64 * n <= usize::MAX,
        ;
        let mut seg: Vec<u8> = Vec::with_capacity(SEGMENT_SIZE);
        push_segment(&mut seg, blob, k);
        assert(seg@.subrange(0, 63) =~= segment(blob@, k as int));
        sums.push(checksum_at(seg.as_slice(), 0));
        k = k + 1;
        assert(sums@ =~= checksums(blob@, k as int));
    }
    sums
}

/// The transaction of `blob` at `path` and `depth` that carries the given
/// 32-byte blob hash and chunk-tree hash.
pub fn encode_blob_txn(blob: &[u8], path: u64, depth: u8, blob_hash: &[u8], chunk_hash: &[u8]) -> (r:
    Vec<u8>)
    requires
        128 + 64 * chunk_count(blob@.len() as int) <= usize::MAX,
        128 + 64 * chunk_count(blob@.len() as int) <= u64::MAX,
        blob_hash@.len() == 32,
        chunk_hash@.len() == 32,
    ensures
        r@ == blob_txn_layout(blob@, path, depth, blob_hash@, chunk_hash@),
{
    let len = blob.len();
    let n = count_chunks(len);
    let mut chunks: Vec<u8> = Vec::with_capacity(n * CHUNK_SIZE);
    let mut k: usize = 0;
    while k < n
        invariant
            len == blob@.len(),
            n == chunk_count(len as int),
            128 + 64 * n <= usize::MAX,
            0 <= k <= n,
            chunks@ == chunk_records(blob@, k as int),
        decreases n - k,
    {
        assert(63 * k + 63 <= usize::MAX) by (nonlinear_arith)
            requires
                k < n,
                128 + 64 * n <= usize::MAX,
        ;
        let mut seg: Vec<u8> = Vec::with_capacity(SEGMENT_SIZE);
        push_segment(&mut seg, blob, k);
        assert(seg@.subrange(0, 63) =~= segment(blob@, k as int));
        let c = checksum_at(seg.as_slice(), 0);
        chunks.push(c);
        push_range(&mut chunks, seg.as_slice(), 0, SEGMENT_SIZE);
        k = k + 1;
        assert(chunks@ =~= chunk_records(blob@, k as int));
    }
    let txn_size = (MARKER_SIZE_U64 + 64 * n as u64) as u64;
    let mut out: Vec<u8> = Vec::with_capacity(MARKER_SIZE + n * CHUNK_SIZE);
    push_zeros(&mut out, 16);
    push_be_u64(&mut out, BLOB_TXN_TAG);
    push_be_u64(&mut out, txn_size);
    push_be_u64(&mut out, len as u64);
    push_be_u64(&mut out, path);
    out.push(depth);
    push_zeros(&mut out, 15);
    push_range(&mut out, blob_hash, 0, 32);
    push_range(&mut out, chunk_hash, 0, 32);
    push_range(&mut out, chunks.as_slice(), 0, chunks.len());
    proof {
        assert(blob_hash@.subrange(0, 32) =~= blob_hash@);
        assert(chunk_hash@.subrange(0, 32) =~= chunk_hash@);
        assert(chunks@.subrange(0, chunks@.len() as int) =~= chunks@);
        assert(out@ =~= blob_txn_layout(blob@, path, depth, blob_hash@, chunk_hash@));
    }
    out
}

/// Serializes `blob` as a transaction at `path` and `depth`. What it returns
/// decodes to `blob`.
pub fn serialize_blob_txn(blob: &[u8], path: u64, depth: u8) -> (r: Vec<u8>)
    requires
        128 + 64 * chunk_count(blob@.len() as int) <= usize::MAX,
        128 + 64 * chunk_count(blob@.len() as int) <= u64::MAX,
    ensures
        r@ == blob_txn_bytes(blob@, path, depth),
        decode_blob_txn(r@) == Ok::<Seq<u8>, CodecError>(blob@),
{
    let sums = chunk_checksums(blob);
    let blob_hash = blake3_digest(blob);
    let chunk_hash = blake3_digest(sums.as_slice());
    let r = encode_blob_txn(blob, path, depth, blob_hash.as_slice(), chunk_hash.as_slice());
    proof {
        lemma_blob_txn_round_trip(blob@, path, depth);
    }
    r
}

/// The width of header and hashes together, as a size field holds it.
pub const MARKER_SIZE_U64: u64 = 128;

/// Decodes the blob transaction at the start of `bytes`: checks header, sizes,
/// each chunk's checksum in order, the chunk-tree hash and the blob hash.
pub fn deserialize_blob_txn(bytes: &[u8]) -> (r: Result<Vec<u8>, CodecError>)
    ensures
        match r {
            Ok(v) => decode_blob_txn(bytes@) == Ok::<Seq<u8>, CodecError>(v@),
            Err(e) => decode_blob_txn(bytes@) == Err::<Seq<u8>, CodecError>(e),
        },
{
    let len = bytes.len();
    if len < 64 {
        return Err(CodecError::IncompleteInput);
    }
    if !all_zero(bytes, 0, 16) || read_be_u64(bytes, 16) != BLOB_TXN_TAG {
        return Err(CodecError::MalformedHeader);
    }
    let txn_size = read_be_u64(bytes, 24);
    let blob_size = read_be_u64(bytes, 32);
    let n64: u64 = if blob_size % 63 == 0 {
        blob_size / 63
    } else {
        blob_size / 63 + 1
    };
    if txn_size < MARKER_SIZE_U64 || (txn_size - MARKER_SIZE_U64) % 64 != 0 || (txn_size
        - MARKER_SIZE_U64) / 64 != n64 {
        proof {
            if txn_size >= 128 && (txn_size - 128) % 64 == 0 {
                assert(txn_size - 128 == 64 * ((txn_size - 128) / 64)) by (nonlinear_arith)
                    requires
                        (txn_size - 128) % 64 == 0,
                ;
            }
            assert(txn_size != 128 + 64 * n64) by (nonlinear_arith)
                requires
                    txn_size < 128 || (txn_size - 128) % 64 != 0 || (txn_size - 128) / 64
                        != n64,
            ;
        }
        return Err(CodecError::SizeMismatch);
    }
    if (len as u64) < txn_size {
        return Err(CodecError::IncompleteInput);
    }
    assert(txn_size == 128 + 64 * n64) by (nonlinear_arith)
        requires
            txn_size >= 128,
            (txn_size - 128) % 64 == 0,
            (txn_size - 128) / 64 == n64,
    ;
    let n = n64 as usize;
    let ghost b = bytes@;
    let mut sums: Vec<u8> = Vec::with_capacity(n);
    let mut blob: Vec<u8> = Vec::with_capacity(n * SEGMENT_SIZE);
    let mut k: usize = 0;
    while k < n
        invariant
            len == b.len(),
            b == bytes@,
            n == chunk_count(blob_size as int),
            128 + 64 * n <= len,
            b.subrange(0, 16) == zeros(16),
            be_u64_at(b, 16) == BLOB_TXN_TAG,
            be_u64_at(b, 24) == txn_size,
            be_u64_at(b, 32) == blob_size,
            txn_size == 128 + 64 * n,
            0 <= k <= n,
            first_bad_chunk(b, 0, n as int) == first_bad_chunk(b, k as int, n as int),
            sums@ == stored_checksums(b, k as int),
            blob@ == stored_segments(b, k as int),
        decreases n - k,
    {
        let base = MARKER_SIZE + k * CHUNK_SIZE;
        assert(base + 64 <= 128 + 64 * n) by (nonlinear_arith)
            requires
                base == 128 + k * 64,
                k < n,
        ;
        let c = checksum_at(bytes, base + 1);
        assert(bytes@.subrange(base + 1, base + 64) == stored_segment(b, k as int));
        if bytes[base] != c {
            assert(!chunk_ok(b, k as int));
            return Err(CodecError::ChecksumMismatch(k as u64));
        }
        sums.push(bytes[base]);
        push_range(&mut blob, bytes, base + 1, base + CHUNK_SIZE);
        k = k + 1;
        assert(sums@ =~= stored_checksums(b, k as int));
        assert(blob@ == stored_segments(b, k as int));
    }
    let chunk_hash = blake3_digest(sums.as_slice());
    let mut stored: Vec<u8> = Vec::with_capacity(32);
    push_range(&mut stored, bytes, 96, 128);
    if !hash_equal(stored.as_slice(), chunk_hash.as_slice()) {
        return Err(CodecError::HashMismatch);
    }
    assert(stored@ =~= b.subrange(96, 128));
    proof {
        lemma_stored_segments_len(b, n as int);
        assert(blob_size <= 63 * n) by (nonlinear_arith)
            requires
                n == chunk_count(blob_size as int),
        ;
    }
    blob.truncate(blob_size as usize);
    assert(blob@ =~= stored_segments(b, n as int).take(blob_size as int));
    let blob_hash = blake3_digest(blob.as_slice());
    let mut stored: Vec<u8> = Vec::with_capacity(32);
    push_range(&mut stored, bytes, 64, 96);
    assert(stored@ =~= b.subrange(64, 96));
    if !hash_equal(stored.as_slice(), blob_hash.as_slice()) {
        return Err(CodecError::HashMismatch);
    }
    Ok(blob)
}

} // verus!
