//! The padding capability: a closed set of schemes that turn an exact byte
//! count into a block-aligned one and back, with validation on reversal.

use vstd::prelude::*;
use vstd::arithmetic::div_mod::{
    lemma_fundamental_div_mod,
    lemma_mod_bound,
    lemma_mod_multiples_basic,
};
use crate::ansi_x923::{ansi_x923_pad, ansi_x923_tail_valid, ansi_x923_unpad, AnsiX923};
use crate::pkcs7::{pkcs7_pad, pkcs7_tail_valid, pkcs7_unpad, PKCS7};

verus! {

/// Why reversing a padding failed.
#[derive(Clone, Copy, Debug, PartialEq, Eq, Structural)]
pub enum PaddingError {
    /// The padded buffer is empty or its length is no multiple of the block length.
    WrongCiphertextLength,
    /// The tail bytes do not form a valid padding of the scheme.
    WrongPadding,
}

/// The supported padding schemes.
#[derive(Clone, Copy, Debug, PartialEq, Eq, Structural)]
pub enum PaddingScheme {
    Pkcs7,
    AnsiX923,
}

/// How many bytes padding appends to a plaintext of `plain_len` bytes:
/// always between 1 and `block_len`, a full extra block when already aligned.
pub open spec fn pad_count(plain_len: nat, block_len: nat) -> nat
    recommends
        block_len > 0,
{
    (block_len - (plain_len % block_len)) as nat
}

/// What `pad` returns under the given scheme.
pub open spec fn pad_spec(s: PaddingScheme, p: Seq<u8>, l: nat) -> Seq<u8> {
    match s {
        PaddingScheme::Pkcs7 => pkcs7_pad(p, l),
        PaddingScheme::AnsiX923 => ansi_x923_pad(p, l),
    }
}

/// What `unpad` returns under the given scheme.
pub open spec fn unpad_spec(s: PaddingScheme, c: Seq<u8>, l: nat) -> Result<Seq<u8>, PaddingError> {
    match s {
        PaddingScheme::Pkcs7 => pkcs7_unpad(c, l),
        PaddingScheme::AnsiX923 => ansi_x923_unpad(c, l),
    }
}

impl PaddingScheme {
    /// Pads `plaintext` to a multiple of `block_len` under this scheme.
    pub fn pad(self, plaintext: &Vec<u8>, block_len: usize) -> (r: Vec<u8>)
        requires
            0 < block_len < 256,
            plaintext@.len() + block_len <= usize::MAX,
        ensures
            r@ == pad_spec(self, plaintext@, block_len as nat),
    {
        match self {
            PaddingScheme::Pkcs7 => PKCS7::pad(plaintext, block_len),
            PaddingScheme::AnsiX923 => AnsiX923::pad(plaintext, block_len),
        }
    }

    /// Removes and validates this scheme's padding.
    pub fn unpad(self, padded: &Vec<u8>, block_len: usize) -> (r: Result<Vec<u8>, PaddingError>)
        requires
            0 < block_len < 256,
        ensures
            (match r {
                Ok(p) => unpad_spec(self, padded@, block_len as nat) == Ok::<
                    Seq<u8>,
                    PaddingError,
                >(p@),
                Err(e) => unpad_spec(self, padded@, block_len as nat) == Err::<
                    Seq<u8>,
                    PaddingError,
                >(e),
            }),
    {
        match self {
            PaddingScheme::Pkcs7 => PKCS7::unpad(padded, block_len),
            PaddingScheme::AnsiX923 => AnsiX923::unpad(padded, block_len),
        }
    }
}

/// The padding never has fewer than 1 or more than `l` bytes, and fills the
/// plaintext to an exact multiple of `l`.
pub(crate) proof fn lemma_pad_count_bounds(plain_len: nat, l: nat)
    requires
        l > 0,
    ensures
        1 <= pad_count(plain_len, l) <= l,
        (plain_len + pad_count(plain_len, l)) % l == 0,
{
    lemma_mod_bound(plain_len as int, l as int);
    lemma_fundamental_div_mod(plain_len as int, l as int);
    let q = plain_len as int / l as int;
    assert(plain_len + pad_count(plain_len, l) == l * (q + 1)) by (nonlinear_arith)
        requires
            plain_len == (l as int) * q + ((plain_len as int) % (l as int)),
            pad_count(plain_len, l) == l - (plain_len as int % (l as int)),
    ;
    lemma_mod_multiples_basic(q + 1, l as int);
    assert((l as int) * (q + 1) == (q + 1) * (l as int)) by (nonlinear_arith);
}

/// Padding growth: under either scheme the padded length is a multiple of
/// the block length, and between 1 and `l` bytes longer than the plaintext.
pub proof fn lemma_pad_growth(s: PaddingScheme, p: Seq<u8>, l: nat)
    requires
        0 < l < 256,
    ensures
        pad_spec(s, p, l).len() % l == 0,
        p.len() < pad_spec(s, p, l).len() <= p.len() + l,
{
    lemma_pad_count_bounds(p.len(), l);
}

/// Round trip: whatever the scheme padded, unpadding gives back exactly the
/// original plaintext.
pub proof fn lemma_pad_unpad(s: PaddingScheme, p: Seq<u8>, l: nat)
    requires
        0 < l < 256,
    ensures
        unpad_spec(s, pad_spec(s, p, l), l) == Ok::<Seq<u8>, PaddingError>(p),
{
    lemma_pad_count_bounds(p.len(), l);
    let n = pad_count(p.len(), l);
    let c = pad_spec(s, p, l);
    assert(c.len() == p.len() + n);
    let v = c.last();
    assert(v == n as u8);
    assert(v as int == n);
    match s {
        PaddingScheme::Pkcs7 => {
            assert forall|i: int| c.len() - v <= i < c.len() implies c[i] == v by {
                assert(c[i] == pkcs7_pad(p, l)[i]);
            }
            assert(pkcs7_tail_valid(c, v));
        },
        PaddingScheme::AnsiX923 => {
            assert forall|i: int| c.len() - v <= i < c.len() - 1 implies c[i] == 0 by {
                assert(c[i] == ansi_x923_pad(p, l)[i]);
            }
            assert(ansi_x923_tail_valid(c, v));
        },
    }
    assert(c.take(c.len() - v) =~= p);
}

/// An empty or non-block-aligned buffer is rejected as a length error by
/// every padding scheme, whatever its bytes hold.
pub proof fn lemma_unpad_wrong_length(s: PaddingScheme, c: Seq<u8>, l: nat)
    requires
        0 < l < 256,
        c.len() == 0 || c.len() % l != 0,
    ensures
        unpad_spec(s, c, l) == Err::<Seq<u8>, PaddingError>(PaddingError::WrongCiphertextLength),
{
}

} // verus!
