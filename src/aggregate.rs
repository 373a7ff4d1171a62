//! Commutative, self-inverse aggregation of fixed-width hashes by XOR.
use vstd::prelude::*;
use crate::error::CodecError;

verus! {

/// The byte-wise XOR of two byte sequences of the same length.
pub open spec fn xor_seq(a: Seq<u8>, b: Seq<u8>) -> Seq<u8> {
    Seq::new(a.len(), |i: int| a[i] ^ b[i])
}

/// The all-zero hash of width `n`.
pub open spec fn zero_hash(n: nat) -> Seq<u8> {
    Seq::new(n, |i: int| 0u8)
}

/// Exact byte comparison of two hashes; hashes of different widths are unequal.
pub fn hash_equal(l: &[u8], r: &[u8]) -> (eq: bool)
    ensures
        eq == (l@ == r@),
{
    if l.len() != r.len() {
        return false;
    }
    let mut i: usize = 0;
    while i < l.len()
        invariant
            l@.len() == r@.len(),
            0 <= i <= l@.len(),
            forall|j: int| 0 <= j < i ==> l@[j] == r@[j],
        decreases l@.len() - i,
    {
        if l[i] != r[i] {
            return false;
        }
        i = i + 1;
    }
    assert(l@ =~= r@);
    true
}

/// Combines two hashes of equal width by byte-wise XOR.
pub fn hash_combine(l: &[u8], r: &[u8]) -> (res: Result<Vec<u8>, CodecError>)
    ensures
        l@.len() != r@.len() ==> res == Err::<Vec<u8>, CodecError>(CodecError::SizeMismatch),
        l@.len() == r@.len() ==> res.is_ok() && res.unwrap()@ == xor_seq(l@, r@),
{
    if l.len() != r.len() {
        return Err(CodecError::SizeMismatch);
    }
    let mut out: Vec<u8> = Vec::with_capacity(l.len());
    let mut i: usize = 0;
    while i < l.len()
        invariant
            l@.len() == r@.len(),
            0 <= i <= l@.len(),
            out@ == xor_seq(l@, r@).take(i as int),
        decreases l@.len() - i,
    {
        out.push(l[i] ^ r[i]);
        i = i + 1;
        assert(out@ =~= xor_seq(l@, r@).take(i as int));
    }
    assert(out@ =~= xor_seq(l@, r@));
    Ok(out)
}

/// Replaces `old_hash` by `new_hash` in the aggregate `combined`: the byte-wise
/// XOR of all three, which is `combine(combine(combined, old_hash), new_hash)`.
pub fn hash_update(combined: &[u8], old_hash: &[u8], new_hash: &[u8]) -> (res: Result<
    Vec<u8>,
    CodecError,
>)
    ensures
        (combined@.len() != old_hash@.len() || combined@.len() != new_hash@.len()) ==> res
            == Err::<Vec<u8>, CodecError>(CodecError::SizeMismatch),
        (combined@.len() == old_hash@.len() && combined@.len() == new_hash@.len()) ==> res.is_ok()
            && res.unwrap()@ == xor_seq(xor_seq(combined@, old_hash@), new_hash@),
{
    if combined.len() != old_hash.len() || combined.len() != new_hash.len() {
        return Err(CodecError::SizeMismatch);
    }
    let mut out: Vec<u8> = Vec::with_capacity(combined.len());
    let mut i: usize = 0;
    while i < combined.len()
        invariant
            combined@.len() == old_hash@.len(),
            combined@.len() == new_hash@.len(),
            0 <= i <= combined@.len(),
            out@ == xor_seq(xor_seq(combined@, old_hash@), new_hash@).take(i as int),
        decreases combined@.len() - i,
    {
        out.push(combined[i] ^ old_hash[i] ^ new_hash[i]);
        i = i + 1;
        assert(out@ =~= xor_seq(xor_seq(combined@, old_hash@), new_hash@).take(i as int));
    }
    assert(out@ =~= xor_seq(xor_seq(combined@, old_hash@), new_hash@));
    Ok(out)
}

/// Folds `other` into the aggregate `this` in place. On a width mismatch
/// `this` is left as it was.
pub fn hash_xor(this: &mut Vec<u8>, other: &[u8]) -> (res: Result<(), CodecError>)
    ensures
        old(this)@.len() != other@.len() ==> res == Err::<(), CodecError>(CodecError::SizeMismatch)
            && final(this)@ == old(this)@,
        old(this)@.len() == other@.len() ==> res.is_ok() && final(this)@ == xor_seq(
            old(this)@,
            other@,
        ),
{
    if this.len() != other.len() {
        return Err(CodecError::SizeMismatch);
    }
    let ghost start = this@;
    let mut i: usize = 0;
    while i < this.len()
        invariant
            this@.len() == start.len(),
            start.len() == other@.len(),
            0 <= i <= this@.len(),
            forall|j: int| 0 <= j < i ==> this@[j] == start[j] ^ other@[j],
            forall|j: int| i <= j < this@.len() ==> this@[j] == start[j],
        decreases this@.len() - i,
    {
        let b = this[i] ^ other[i];
        this.set(i, b);
        i = i + 1;
    }
    assert(this@ =~= xor_seq(start, other@));
    Ok(())
}

/// Combining a hash with itself gives the all-zero hash of its width.
pub proof fn lemma_combine_self_is_zero(a: Seq<u8>)
    ensures
        xor_seq(a, a) == zero_hash(a.len()),
{
    assert forall|i: int| 0 <= i < a.len() implies #[trigger] xor_seq(a, a)[i] == 0u8 by {
        let x = a[i];
        assert(x ^ x == 0u8) by (bit_vector);
    }
    assert(xor_seq(a, a) =~= zero_hash(a.len()));
}

/// Combining is commutative.
pub proof fn lemma_combine_commutative(a: Seq<u8>, b: Seq<u8>)
    requires
        a.len() == b.len(),
    ensures
        xor_seq(a, b) == xor_seq(b, a),
{
    assert forall|i: int| 0 <= i < a.len() implies #[trigger] xor_seq(a, b)[i] == xor_seq(b, a)[i] by {
        let (x, y) = (a[i], b[i]);
        assert(x ^ y == y ^ x) by (bit_vector);
    }
    assert(xor_seq(a, b) =~= xor_seq(b, a));
}

/// Updating with `old` → `new` and then with `new` → `old` restores the aggregate.
pub proof fn lemma_update_swapped_restores(combined: Seq<u8>, old_hash: Seq<u8>, new_hash: Seq<u8>)
    requires
        combined.len() == old_hash.len(),
        combined.len() == new_hash.len(),
    ensures
        xor_seq(xor_seq(xor_seq(xor_seq(combined, old_hash), new_hash), new_hash), old_hash)
            == combined,
{
    let once = xor_seq(xor_seq(combined, old_hash), new_hash);
    let twice = xor_seq(xor_seq(once, new_hash), old_hash);
    assert forall|i: int| 0 <= i < combined.len() implies #[trigger] twice[i] == combined[i] by {
        let (c, o, n) = (combined[i], old_hash[i], new_hash[i]);
        assert(((c ^ o) ^ n) ^ n ^ o == c) by (bit_vector);
    }
    assert(twice =~= combined);
}

} // verus!
