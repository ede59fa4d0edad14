//! ANSI X9.23 padding: append zero bytes, with the pad count in the last byte.

use vstd::prelude::*;
use crate::padding::{pad_count, PaddingError};

verus! {

/// ANSI X9.23 padding of `p` to a multiple of `l`: `n = pad_count` bytes,
/// all zero but for the last, which carries the count `n`.
pub open spec fn ansi_x923_pad(p: Seq<u8>, l: nat) -> Seq<u8>
    recommends
        0 < l < 256,
{
    let n = pad_count(p.len(), l);
    p + Seq::new(n, |i: int| if i == n - 1 { n as u8 } else { 0u8 })
}

/// The `v - 1` bytes before the last byte of `c` are all zero.
pub open spec fn ansi_x923_tail_valid(c: Seq<u8>, v: u8) -> bool {
    forall|i: int| c.len() - v <= i < c.len() - 1 ==> c[i] == 0
}

/// ANSI X9.23 unpadding: the same length precheck and count taxonomy as
/// PKCS#7, but the bytes before the count must be zero.
pub open spec fn ansi_x923_unpad(c: Seq<u8>, l: nat) -> Result<Seq<u8>, PaddingError>
    recommends
        0 < l < 256,
{
    if c.len() == 0 || c.len() % l != 0 {
        Err(PaddingError::WrongCiphertextLength)
    } else {
        let v = c.last();
        if v == 0 || v > c.len() {
            Err(PaddingError::WrongPadding)
        } else if ansi_x923_tail_valid(c, v) {
            Ok(c.take(c.len() - v))
        } else {
            Err(PaddingError::WrongPadding)
        }
    }
}

/// Tampering: changing any of the zero fill bytes before the final count
/// byte to a nonzero value makes unpadding fail with `WrongPadding`.
pub proof fn lemma_ansi_x923_tampered_fill_rejected(p: Seq<u8>, l: nat, i: int, b: u8)
    requires
        0 < l < 256,
        p.len() <= i < ansi_x923_pad(p, l).len() - 1,
        b != 0,
    ensures
        ansi_x923_unpad(ansi_x923_pad(p, l).update(i, b), l) == Err::<Seq<u8>, PaddingError>(
            PaddingError::WrongPadding,
        ),
{
    crate::padding::lemma_pad_count_bounds(p.len(), l);
    let n = pad_count(p.len(), l);
    let c = ansi_x923_pad(p, l).update(i, b);
    assert(c.last() == n as u8);
    assert(c[i] == b && b != 0);
    assert(!ansi_x923_tail_valid(c, c.last()));
}

/// The ANSI X9.23 padding scheme.
pub struct AnsiX923;

impl AnsiX923 {
    /// Pads `plaintext` to a multiple of `block_len`; the padding is never
    /// empty, and a full extra block is appended when already aligned.
    pub fn pad(plaintext: &Vec<u8>, block_len: usize) -> (r: Vec<u8>)
        requires
            0 < block_len < 256,
            plaintext@.len() + block_len <= usize::MAX,
        ensures
            r@ == ansi_x923_pad(plaintext@, block_len as nat),
    {
        let n = block_len - plaintext.len() % block_len;
        assert(n == pad_count(plaintext@.len(), block_len as nat));
        let ghost target = ansi_x923_pad(plaintext@, block_len as nat);
        let mut out: Vec<u8> = Vec::new();
        let mut i: usize = 0;
        while i < plaintext.len()
            invariant
                i <= plaintext@.len(),
                out@ == plaintext@.subrange(0, i as int),
            decreases plaintext@.len() - i,
        {
            out.push(plaintext[i]);
            i = i + 1;
            assert(out@ =~= plaintext@.subrange(0, i as int));
        }
        assert(out@ =~= plaintext@);
        let mut j: usize = 0;
        while j < n
            invariant
                j <= n,
                n == pad_count(plaintext@.len(), block_len as nat),
                target == ansi_x923_pad(plaintext@, block_len as nat),
                out@.len() == plaintext@.len() + j,
                out@ == target.subrange(0, plaintext@.len() + j),
            decreases n - j,
        {
            if j == n - 1 {
                out.push(n as u8);
            } else {
                out.push(0u8);
            }
            j = j + 1;
            assert(out@ =~= target.subrange(0, plaintext@.len() + j));
        }
        assert(out@ =~= target);
        out
    }

    /// Removes ANSI X9.23 padding, validating the tail from the end backward.
    pub fn unpad(padded: &Vec<u8>, block_len: usize) -> (r: Result<Vec<u8>, PaddingError>)
        requires
            0 < block_len < 256,
        ensures
            (match r {
                Ok(p) => ansi_x923_unpad(padded@, block_len as nat) == Ok::<Seq<u8>, PaddingError>(
                    p@,
                ),
                Err(e) => ansi_x923_unpad(padded@, block_len as nat) == Err::<
                    Seq<u8>,
                    PaddingError,
                >(e),
            }),
    {
        if padded.len() == 0 || padded.len() % block_len != 0 {
            return Err(PaddingError::WrongCiphertextLength);
        }
        let v = padded[padded.len() - 1];
        assert(v == padded@.last());
        if v == 0 || v as usize > padded.len() {
            return Err(PaddingError::WrongPadding);
        }
        let start = padded.len() - v as usize;
        let mut i: usize = start;
        while i < padded.len() - 1
            invariant
                0 < block_len < 256,
                padded@.len() % (block_len as nat) == 0,
                start <= i <= padded@.len(),
                start == padded@.len() - v,
                v == padded@.last(),
                0 < v <= padded@.len(),
                padded@.len() > 0,
                forall|m: int| start <= m < i ==> padded@[m] == 0,
            decreases padded@.len() - i,
        {
            if padded[i] != 0 {
                proof {
                    assert(!ansi_x923_tail_valid(padded@, v));
                }
                return Err(PaddingError::WrongPadding);
            }
            i = i + 1;
        }
        assert(ansi_x923_tail_valid(padded@, v));
        let mut out: Vec<u8> = Vec::new();
        let mut m: usize = 0;
        while m < start
            invariant
                0 < block_len < 256,
                padded@.len() % (block_len as nat) == 0,
                m <= start,
                start == padded@.len() - v,
                v == padded@.last(),
                0 < v <= padded@.len(),
                ansi_x923_tail_valid(padded@, v),
                out@ == padded@.subrange(0, m as int),
            decreases start - m,
        {
            out.push(padded[m]);
            m = m + 1;
            assert(out@ =~= padded@.subrange(0, m as int));
        }
        assert(out@ =~= padded@.take(padded@.len() - v));
        Ok(out)
    }
}

} // verus!
