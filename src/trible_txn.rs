//! Signed transactions of 64-byte triple records.
//!
//! Layout: a 64-byte header (16 zero bytes, an 8-byte tag, the 8-byte payload
//! size, the signer's 32-byte public key), a 64-byte Ed25519 signature over
//! header and payload, then the payload: the records in append order.
use vstd::prelude::*;
use crate::bytes::{
    be_u64_at, be_u64_bytes, lemma_be_u64_at_shift, lemma_be_u64_round_trip, push_be_u64,
    push_range, push_zeros, read_be_u64, all_zero, zeros,
};
use crate::error::CodecError;
use crate::signature::{
    ed25519_public_key_of, ed25519_signature_of, ed25519_verifies, public_key, sign, verify,
    KEY_SIZE, SIGNATURE_SIZE,
};

verus! {

/// A record: 16-byte entity, 16-byte attribute, 32-byte value.
pub type Trible = [u8; 64];

/// The width of a record.
pub const TRIBLE_SIZE: usize = 64;

/// The width of a transaction header.
pub const HEADER_SIZE: usize = 64;

/// The width of header and signature together.
pub const MARKER_SIZE: usize = 128;

/// The tag that marks a trible transaction.
pub const TRIBLE_TXN_TAG: u64 = 1;

/// The views of a sequence of records.
pub open spec fn tribles_view(ts: Seq<Trible>) -> Seq<Seq<u8>> {
    ts.map_values(|t: Trible| t@)
}

/// The records of `ts`, one after another.
pub open spec fn flatten(ts: Seq<Seq<u8>>) -> Seq<u8>
    decreases ts.len(),
{
    if ts.len() == 0 {
        Seq::empty()
    } else {
        flatten(ts.drop_last()) + ts.last()
    }
}

/// The consecutive 64-byte records of `p`.
pub open spec fn records(p: Seq<u8>) -> Seq<Seq<u8>> {
    Seq::new(p.len() / 64, |i: int| p.subrange(64 * i, 64 * i + 64))
}

/// Whether every element of `ts` is one record wide.
pub open spec fn all_record_sized(ts: Seq<Seq<u8>>) -> bool {
    forall|i: int| 0 <= i < ts.len() ==> (#[trigger] ts[i]).len() == 64
}

/// The header of a transaction with `payload_size` payload bytes signed by `public`.
pub open spec fn trible_header(payload_size: u64, public: Seq<u8>) -> Seq<u8> {
    zeros(16) + be_u64_bytes(TRIBLE_TXN_TAG) + be_u64_bytes(payload_size) + public
}

/// What the signature of a transaction of `ts` covers: header, then payload.
pub open spec fn signed_part(ts: Seq<Seq<u8>>, public: Seq<u8>) -> Seq<u8> {
    trible_header((64 * ts.len()) as u64, public) + flatten(ts)
}

/// The bytes of a transaction of `ts` by `public` with signature `sig`.
pub open spec fn trible_txn_bytes(ts: Seq<Seq<u8>>, public: Seq<u8>, sig: Seq<u8>) -> Seq<u8> {
    trible_header((64 * ts.len()) as u64, public) + sig + flatten(ts)
}

/// The declared payload size of the transaction at the start of `b`.
pub open spec fn declared_payload(b: Seq<u8>) -> u64 {
    be_u64_at(b, 24)
}

/// The payload of the transaction at the start of `b`.
pub open spec fn payload_of(b: Seq<u8>) -> Seq<u8> {
    b.subrange(128, 128 + declared_payload(b))
}

/// What decoding the transaction at the start of `b` gives. Bytes after the
/// transaction are not read.
pub open spec fn decode_trible_txn(b: Seq<u8>) -> Result<Seq<Seq<u8>>, CodecError> {
    if b.len() < 128 {
        Err(CodecError::IncompleteInput)
    } else if b.subrange(0, 16) != zeros(16) || be_u64_at(b, 16) != TRIBLE_TXN_TAG {
        Err(CodecError::MalformedHeader)
    } else if b.len() - 128 < declared_payload(b) {
        Err(CodecError::IncompleteInput)
    } else if !ed25519_verifies(
        b.subrange(32, 64),
        b.subrange(0, 64) + payload_of(b),
        b.subrange(64, 128),
    ) {
        Err(CodecError::SignatureInvalid)
    } else if declared_payload(b) % 64 != 0 {
        Err(CodecError::SizeMismatch)
    } else {
        Ok(records(payload_of(b)))
    }
}

proof fn lemma_flatten_len(ts: Seq<Seq<u8>>)
    requires
        all_record_sized(ts),
    ensures
        flatten(ts).len() == 64 * ts.len(),
    decreases ts.len(),
{
    if ts.len() > 0 {
        assert(all_record_sized(ts.drop_last()));
        lemma_flatten_len(ts.drop_last());
        assert(ts.last().len() == 64);
    }
}

proof fn lemma_records_flatten(ts: Seq<Seq<u8>>)
    requires
        all_record_sized(ts),
    ensures
        records(flatten(ts)) == ts,
    decreases ts.len(),
{
    lemma_flatten_len(ts);
    if ts.len() > 0 {
        let init = ts.drop_last();
        assert(all_record_sized(init));
        lemma_records_flatten(init);
        lemma_flatten_len(init);
        let p = flatten(ts);
        let q = flatten(init);
        let n = ts.len();
        assert(p.len() / 64 == n) by (nonlinear_arith)
            requires
                p.len() == 64 * n,
        ;
        assert forall|i: int| 0 <= i < n implies #[trigger] records(p)[i] == ts[i] by {
            if i < n - 1 {
                assert(64 * i + 64 <= 64 * (n - 1)) by (nonlinear_arith)
                    requires
                        i < n - 1,
                ;
                assert(0 <= 64 * i) by (nonlinear_arith)
                    requires
                        0 <= i,
                ;
                assert(q.len() / 64 == n - 1) by (nonlinear_arith)
                    requires
                        q.len() == 64 * (n - 1),
                ;
                assert(p.subrange(64 * i, 64 * i + 64) =~= q.subrange(64 * i, 64 * i + 64));
                assert(records(q)[i] == init[i]);
            } else {
                assert(64 * i == 64 * (n - 1));
                assert(p.subrange(64 * i, 64 * i + 64) =~= ts.last());
            }
        }
        assert(records(p) =~= ts);
    }
}

proof fn lemma_flatten_take_step(ts: Seq<Seq<u8>>, i: int)
    requires
        0 <= i < ts.len(),
    ensures
        flatten(ts.take(i + 1)) == flatten(ts.take(i)) + ts[i],
{
    assert(ts.take(i + 1).drop_last() =~= ts.take(i));
}

/// A transaction whose signature verifies decodes to exactly its records.
pub proof fn lemma_trible_txn_round_trip(ts: Seq<Seq<u8>>, public: Seq<u8>, sig: Seq<u8>)
    requires
        all_record_sized(ts),
        64 * ts.len() <= u64::MAX,
        public.len() == 32,
        sig.len() == 64,
        ed25519_verifies(public, signed_part(ts, public), sig),
    ensures
        decode_trible_txn(trible_txn_bytes(ts, public, sig)) == Ok::<Seq<Seq<u8>>, CodecError>(
            ts,
        ),
{
    let size = (64 * ts.len()) as u64;
    let h = trible_header(size, public);
    let b = trible_txn_bytes(ts, public, sig);
    lemma_flatten_len(ts);
    lemma_records_flatten(ts);
    assert(b.subrange(0, 16) =~= zeros(16));
    lemma_be_u64_round_trip(TRIBLE_TXN_TAG);
    lemma_be_u64_round_trip(size);
    assert(b.subrange(16, 24) =~= be_u64_bytes(TRIBLE_TXN_TAG).subrange(0, 8));
    assert(b.subrange(24, 32) =~= be_u64_bytes(size).subrange(0, 8));
    lemma_be_u64_at_shift(b, be_u64_bytes(TRIBLE_TXN_TAG), 16, 0);
    lemma_be_u64_at_shift(b, be_u64_bytes(size), 24, 0);
    assert(declared_payload(b) == size);
    assert(payload_of(b) =~= flatten(ts));
    assert(b.subrange(32, 64) =~= public);
    assert(b.subrange(64, 128) =~= sig);
    assert(b.subrange(0, 64) =~= h);
    assert(size % 64 == 0);
}

/// In a transaction whose signature verifies, changing payload bytes alone
/// leaves it accepted only if the signature also verifies over the changed
/// payload; otherwise decoding fails with `SignatureInvalid`.
pub proof fn lemma_payload_change_is_checked_by_signature(
    ts: Seq<Seq<u8>>,
    public: Seq<u8>,
    sig: Seq<u8>,
    changed: Seq<u8>,
)
    requires
        all_record_sized(ts),
        64 * ts.len() <= u64::MAX,
        public.len() == 32,
        sig.len() == 64,
        changed.len() == 64 * ts.len(),
    ensures
        decode_trible_txn(trible_header((64 * ts.len()) as u64, public) + sig + changed) is Ok
            <==> ed25519_verifies(
            public,
            trible_header((64 * ts.len()) as u64, public) + changed,
            sig,
        ),
        !ed25519_verifies(public, trible_header((64 * ts.len()) as u64, public) + changed, sig)
            ==> decode_trible_txn(trible_header((64 * ts.len()) as u64, public) + sig + changed)
            == Err::<Seq<Seq<u8>>, CodecError>(CodecError::SignatureInvalid),
{
    let size = (64 * ts.len()) as u64;
    let h = trible_header(size, public);
    let b = h + sig + changed;
    assert(b.subrange(0, 16) =~= zeros(16));
    lemma_be_u64_round_trip(TRIBLE_TXN_TAG);
    lemma_be_u64_round_trip(size);
    assert(b.subrange(16, 24) =~= be_u64_bytes(TRIBLE_TXN_TAG).subrange(0, 8));
    assert(b.subrange(24, 32) =~= be_u64_bytes(size).subrange(0, 8));
    lemma_be_u64_at_shift(b, be_u64_bytes(TRIBLE_TXN_TAG), 16, 0);
    lemma_be_u64_at_shift(b, be_u64_bytes(size), 24, 0);
    assert(payload_of(b) =~= changed);
    assert(b.subrange(32, 64) =~= public);
    assert(b.subrange(64, 128) =~= sig);
    assert(b.subrange(0, 64) =~= h);
    assert(size % 64 == 0);
}

/// Appends the header of a transaction with `payload_size` payload bytes.
fn push_trible_header(out: &mut Vec<u8>, payload_size: u64, public: &[u8])
    ensures
        final(out)@ == old(out)@ + trible_header(payload_size, public@),
{
    push_zeros(out, 16);
    push_be_u64(out, TRIBLE_TXN_TAG);
    push_be_u64(out, payload_size);
    push_range(out, public, 0, public.len());
    assert(public@.subrange(0, public@.len() as int) =~= public@);
    assert(final(out)@ =~= old(out)@ + trible_header(payload_size, public@));
}

/// The part of the transaction of `tribles` by `public` that the signature
/// covers: header, then the records in order.
pub fn trible_txn_signed_message(tribles: &Vec<Trible>, public: &[u8]) -> (msg: Vec<u8>)
    requires
        64 * tribles@.len() + 128 <= usize::MAX,
        64 * tribles@.len() <= u64::MAX,
    ensures
        msg@ == signed_part(tribles_view(tribles@), public@),
{
    let ghost ts = tribles_view(tribles@);
    let n = tribles.len();
    let mut msg: Vec<u8> = Vec::with_capacity(HEADER_SIZE + n * TRIBLE_SIZE);
    push_trible_header(&mut msg, (n * TRIBLE_SIZE) as u64, public);
    let ghost h = msg@;
    let mut i: usize = 0;
    while i < n
        invariant
            n == tribles@.len(),
            ts == tribles_view(tribles@),
            0 <= i <= n,
            msg@ == h + flatten(ts.take(i as int)),
        decreases n - i,
    {
        let t: Trible = tribles[i];
        push_range(&mut msg, t.as_slice(), 0, TRIBLE_SIZE);
        proof {
            lemma_flatten_take_step(ts, i as int);
            assert(t@.subrange(0, 64) =~= ts[i as int]);
        }
        i = i + 1;
    }
    assert(ts.take(n as int) =~= ts);
    msg
}

/// The transaction of `tribles` by the 32-byte `public` key with the 64-byte
/// `signature`.
pub fn encode_trible_txn(tribles: &Vec<Trible>, public: &[u8], signature: &[u8]) -> (r: Vec<u8>)
    requires
        64 * tribles@.len() + 128 <= usize::MAX,
        64 * tribles@.len() <= u64::MAX,
        public@.len() == KEY_SIZE,
        signature@.len() == SIGNATURE_SIZE,
    ensures
        r@ == trible_txn_bytes(tribles_view(tribles@), public@, signature@),
        ed25519_verifies(public@, signed_part(tribles_view(tribles@), public@), signature@)
            ==> decode_trible_txn(r@) == Ok::<Seq<Seq<u8>>, CodecError>(tribles_view(tribles@)),
{
    let ghost ts = tribles_view(tribles@);
    let msg = trible_txn_signed_message(tribles, public);
    let mut out: Vec<u8> = Vec::with_capacity(MARKER_SIZE + tribles.len() * TRIBLE_SIZE);
    push_range(&mut out, msg.as_slice(), 0, HEADER_SIZE);
    push_range(&mut out, signature, 0, SIGNATURE_SIZE);
    push_range(&mut out, msg.as_slice(), HEADER_SIZE, msg.len());
    proof {
        let h = trible_header((64 * ts.len()) as u64, public@);
        assert(all_record_sized(ts));
        lemma_flatten_len(ts);
        assert(msg@.subrange(0, 64) =~= h);
        assert(msg@.subrange(64, msg@.len() as int) =~= flatten(ts));
        assert(signature@.subrange(0, 64) =~= signature@);
        assert(out@ =~= trible_txn_bytes(ts, public@, signature@));
        if ed25519_verifies(public@, signed_part(ts, public@), signature@) {
            lemma_trible_txn_round_trip(ts, public@, signature@);
        }
    }
    out
}

/// Serializes `tribles`, in the given order, as a transaction signed with the
/// 32-byte Ed25519 secret key `private_key`. A key of another width is a
/// configuration error. What it returns decodes to `tribles`.
pub fn serialize_tribles_txn(tribles: &Vec<Trible>, private_key: &[u8]) -> (r: Result<
    Vec<u8>,
    CodecError,
>)
    requires
        64 * tribles@.len() + 128 <= usize::MAX,
        64 * tribles@.len() <= u64::MAX,
    ensures
        private_key@.len() != KEY_SIZE ==> r == Err::<Vec<u8>, CodecError>(
            CodecError::KeyConfigurationError,
        ),
        private_key@.len() == KEY_SIZE ==> r.is_ok() && r.unwrap()@ == trible_txn_bytes(
            tribles_view(tribles@),
            ed25519_public_key_of(private_key@),
            ed25519_signature_of(
                private_key@,
                signed_part(tribles_view(tribles@), ed25519_public_key_of(private_key@)),
            ),
        ) && decode_trible_txn(r.unwrap()@) == Ok::<Seq<Seq<u8>>, CodecError>(
            tribles_view(tribles@),
        ),
{
    if private_key.len() != KEY_SIZE {
        return Err(CodecError::KeyConfigurationError);
    }
    let pk = public_key(private_key);
    let msg = trible_txn_signed_message(tribles, pk.as_slice());
    let sig = sign(private_key, msg.as_slice());
    Ok(encode_trible_txn(tribles, pk.as_slice(), sig.as_slice()))
}

/// Splits a payload into its 64-byte records; a payload that is not a whole
/// number of records is a size mismatch.
pub fn split_tribles(payload: &[u8]) -> (r: Result<Vec<Trible>, CodecError>)
    ensures
        payload@.len() % 64 != 0 ==> r == Err::<Vec<Trible>, CodecError>(CodecError::SizeMismatch),
        payload@.len() % 64 == 0 ==> r.is_ok() && tribles_view(r.unwrap()@) == records(payload@),
{
    let len = payload.len();
    if len % TRIBLE_SIZE != 0 {
        return Err(CodecError::SizeMismatch);
    }
    let ghost recs = records(payload@);
    let count = len / TRIBLE_SIZE;
    let mut out: Vec<Trible> = Vec::with_capacity(count);
    let mut k: usize = 0;
    while k < count
        invariant
            len == payload@.len(),
            count == len / 64,
            recs == records(payload@),
            0 <= k <= count,
            tribles_view(out@) == recs.take(k as int),
        decreases count - k,
    {
        let base = k * TRIBLE_SIZE;
        assert(base + 64 <= len) by (nonlinear_arith)
            requires
                base == k * 64,
                k < count,
                count == len / 64,
        ;
        let mut t: Trible = [0u8; 64];
        let mut j: usize = 0;
        while j < TRIBLE_SIZE
            invariant
                len == payload@.len(),
                base + 64 <= len,
                0 <= j <= 64,
                forall|x: int| 0 <= x < j ==> t@[x] == payload@[base + x],
            decreases 64 - j,
        {
            t[j] = payload[base + j];
            j = j + 1;
        }
        proof {
            assert(t@ =~= payload@.subrange(base as int, base + 64));
            assert(recs[k as int] =~= payload@.subrange(base as int, base + 64));
        }
        let ghost prev = out@;
        out.push(t);
        proof {
            assert(tribles_view(out@) =~= tribles_view(prev).push(t@));
            assert(recs.take(k + 1) =~= recs.take(k as int).push(recs[k as int]));
        }
        k = k + 1;
    }
    assert(recs.len() == count);
    assert(recs.take(count as int) =~= recs);
    Ok(out)
}

/// Decodes the transaction at the start of `bytes`, checking its header,
/// length, signature and record alignment, in that order.
pub fn deserialize_tribles_txn(bytes: &[u8]) -> (r: Result<Vec<Trible>, CodecError>)
    ensures
        match r {
            Ok(v) => decode_trible_txn(bytes@) == Ok::<Seq<Seq<u8>>, CodecError>(
                tribles_view(v@),
            ),
            Err(e) => decode_trible_txn(bytes@) == Err::<Seq<Seq<u8>>, CodecError>(e),
        },
{
    let len = bytes.len();
    if len < MARKER_SIZE {
        return Err(CodecError::IncompleteInput);
    }
    if !all_zero(bytes, 0, 16) || read_be_u64(bytes, 16) != TRIBLE_TXN_TAG {
        return Err(CodecError::MalformedHeader);
    }
    let size = read_be_u64(bytes, 24);
    if ((len - MARKER_SIZE) as u64) < size {
        return Err(CodecError::IncompleteInput);
    }
    let size = size as usize;
    let mut msg: Vec<u8> = Vec::with_capacity(HEADER_SIZE + size);
    push_range(&mut msg, bytes, 0, HEADER_SIZE);
    push_range(&mut msg, bytes, MARKER_SIZE, MARKER_SIZE + size);
    let mut public: Vec<u8> = Vec::with_capacity(KEY_SIZE);
    push_range(&mut public, bytes, 32, HEADER_SIZE);
    let mut sig: Vec<u8> = Vec::with_capacity(SIGNATURE_SIZE);
    push_range(&mut sig, bytes, HEADER_SIZE, MARKER_SIZE);
    if !verify(public.as_slice(), msg.as_slice(), sig.as_slice()) {
        return Err(CodecError::SignatureInvalid);
    }
    let mut payload: Vec<u8> = Vec::with_capacity(size);
    push_range(&mut payload, bytes, MARKER_SIZE, MARKER_SIZE + size);
    split_tribles(payload.as_slice())
}

} // verus!
