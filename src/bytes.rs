//! Big-endian integer fields and byte-sequence helpers of the wire format.
use vstd::prelude::*;
use crate::error::CodecError;

verus! {

/// The eight big-endian bytes of `n`.
pub open spec fn be_u64_bytes(n: u64) -> Seq<u8> {
    seq![
        (n >> 56u64) as u8,
        (n >> 48u64) as u8,
        (n >> 40u64) as u8,
        (n >> 32u64) as u8,
        (n >> 24u64) as u8,
        (n >> 16u64) as u8,
        (n >> 8u64) as u8,
        n as u8,
    ]
}

/// The value of eight big-endian bytes starting at `off`.
pub open spec fn be_u64_at(s: Seq<u8>, off: int) -> u64 {
    ((s[off] as u64) << 56u64) | ((s[off + 1] as u64) << 48u64) | ((s[off + 2] as u64) << 40u64)
        | ((s[off + 3] as u64) << 32u64) | ((s[off + 4] as u64) << 24u64) | ((s[off + 5] as u64)
        << 16u64) | ((s[off + 6] as u64) << 8u64) | (s[off + 7] as u64)
}

/// `n` zero bytes.
pub open spec fn zeros(n: nat) -> Seq<u8> {
    Seq::new(n, |i: int| 0u8)
}

/// Reading back the bytes written for `n` gives `n`.
pub proof fn lemma_be_u64_round_trip(n: u64)
    ensures
        be_u64_at(be_u64_bytes(n), 0) == n,
{
    let s = be_u64_bytes(n);
    assert(((((n >> 56u64) as u8) as u64) << 56u64) | ((((n >> 48u64) as u8) as u64) << 48u64)
        | ((((n >> 40u64) as u8) as u64) << 40u64) | ((((n >> 32u64) as u8) as u64) << 32u64)
        | ((((n >> 24u64) as u8) as u64) << 24u64) | ((((n >> 16u64) as u8) as u64) << 16u64)
        | ((((n >> 8u64) as u8) as u64) << 8u64) | ((n as u8) as u64) == n) by (bit_vector);
}

/// Any shift of the byte sequence keeps the value read at the shifted place.
pub proof fn lemma_be_u64_at_shift(s: Seq<u8>, t: Seq<u8>, off: int, toff: int)
    requires
        0 <= off,
        off + 8 <= s.len(),
        0 <= toff,
        toff + 8 <= t.len(),
        s.subrange(off, off + 8) == t.subrange(toff, toff + 8),
    ensures
        be_u64_at(s, off) == be_u64_at(t, toff),
{
    let a = s.subrange(off, off + 8);
    let b = t.subrange(toff, toff + 8);
    assert(a[0] == b[0] && a[1] == b[1] && a[2] == b[2] && a[3] == b[3]);
    assert(a[4] == b[4] && a[5] == b[5] && a[6] == b[6] && a[7] == b[7]);
    assert(s[off + 0] == t[toff + 0]);
    assert(s[off + 1] == t[toff + 1]);
    assert(s[off + 2] == t[toff + 2]);
    assert(s[off + 3] == t[toff + 3]);
    assert(s[off + 4] == t[toff + 4]);
    assert(s[off + 5] == t[toff + 5]);
    assert(s[off + 6] == t[toff + 6]);
    assert(s[off + 7] == t[toff + 7]);
}

/// Appends the eight big-endian bytes of `n`.
pub fn push_be_u64(out: &mut Vec<u8>, n: u64)
    ensures
        final(out)@ == old(out)@ + be_u64_bytes(n),
{
    out.push((n >> 56u64) as u8);
    out.push((n >> 48u64) as u8);
    out.push((n >> 40u64) as u8);
    out.push((n >> 32u64) as u8);
    out.push((n >> 24u64) as u8);
    out.push((n >> 16u64) as u8);
    out.push((n >> 8u64) as u8);
    out.push(n as u8);
    assert(final(out)@ =~= old(out)@ + be_u64_bytes(n));
}

/// Reads eight big-endian bytes starting at `off`.
pub fn read_be_u64(s: &[u8], off: usize) -> (n: u64)
    requires
        off + 8 <= s@.len(),
    ensures
        n == be_u64_at(s@, off as int),
{
    ((s[off] as u64) << 56u64) | ((s[off + 1] as u64) << 48u64) | ((s[off + 2] as u64) << 40u64)
        | ((s[off + 3] as u64) << 32u64) | ((s[off + 4] as u64) << 24u64) | ((s[off + 5] as u64)
        << 16u64) | ((s[off + 6] as u64) << 8u64) | (s[off + 7] as u64)
}

/// Appends `n` zero bytes.
pub fn push_zeros(out: &mut Vec<u8>, n: usize)
    ensures
        final(out)@ == old(out)@ + zeros(n as nat),
{
    let mut i: usize = 0;
    while i < n
        invariant
            0 <= i <= n,
            out@ == old(out)@ + zeros(i as nat),
        decreases n - i,
    {
        out.push(0u8);
        i = i + 1;
        assert(out@ =~= old(out)@ + zeros(i as nat));
    }
}

/// Appends `src[from..to]`.
pub fn push_range(out: &mut Vec<u8>, src: &[u8], from: usize, to: usize)
    requires
        from <= to <= src@.len(),
    ensures
        final(out)@ == old(out)@ + src@.subrange(from as int, to as int),
{
    let mut i: usize = from;
    while i < to
        invariant
            from <= i <= to,
            to <= src@.len(),
            out@ == old(out)@ + src@.subrange(from as int, i as int),
        decreases to - i,
    {
        out.push(src[i]);
        i = i + 1;
        assert(out@ =~= old(out)@ + src@.subrange(from as int, i as int));
    }
}

/// Whether `s[from..from + n]` is all zero.
pub fn all_zero(s: &[u8], from: usize, n: usize) -> (z: bool)
    requires
        from + n <= s@.len(),
    ensures
        z == (s@.subrange(from as int, from + n) == zeros(n as nat)),
{
    let len = s.len();
    let mut i: usize = 0;
    while i < n
        invariant
            0 <= i <= n,
            len == s@.len(),
            from + n <= s@.len(),
            forall|j: int| from <= j < from + i ==> s@[j] == 0u8,
        decreases n - i,
    {
        if s[from + i] != 0u8 {
            assert(s@.subrange(from as int, from + n)[i as int] != zeros(n as nat)[i as int]);
            return false;
        }
        i = i + 1;
    }
    assert(s@.subrange(from as int, from + n) =~= zeros(n as nat));
    true
}

/// Splits a frame off the front of `input`: an eight-byte big-endian length
/// `n`, then `n` bytes of value. Returns the rest of the input and the value;
/// an input that ends before the frame does is `IncompleteInput`.
pub fn txn(input: &[u8]) -> (r: Result<(Vec<u8>, Vec<u8>), CodecError>)
    ensures
        input@.len() < 8 ==> r == Err::<(Vec<u8>, Vec<u8>), CodecError>(
            CodecError::IncompleteInput,
        ),
        input@.len() >= 8 && input@.len() - 8 < be_u64_at(input@, 0) ==> r == Err::<
            (Vec<u8>, Vec<u8>),
            CodecError,
        >(CodecError::IncompleteInput),
        input@.len() >= 8 && input@.len() - 8 >= be_u64_at(input@, 0) ==> r.is_ok() && ({
            let n = be_u64_at(input@, 0) as int;
            let (rest, value) = r.unwrap();
            &&& value@ == input@.subrange(8, 8 + n)
            &&& rest@ == input@.subrange(8 + n, input@.len() as int)
        }),
{
    let len = input.len();
    if len < 8 {
        return Err(CodecError::IncompleteInput);
    }
    let n = read_be_u64(input, 0);
    if ((len - 8) as u64) < n {
        return Err(CodecError::IncompleteInput);
    }
    let end = 8 + n as usize;
    let mut value: Vec<u8> = Vec::new();
    push_range(&mut value, input, 8, end);
    let mut rest: Vec<u8> = Vec::new();
    push_range(&mut rest, input, end, len);
    assert(value@ =~= input@.subrange(8, end as int));
    assert(rest@ =~= input@.subrange(end as int, len as int));
    Ok((rest, value))
}

} // verus!
