//! CBC mode: chains each block with the previous ciphertext block (or the IV)
//! by XOR before the cipher call, with a padding scheme restoring the length.

use vstd::prelude::*;
use crate::block::{xor_bytes, lemma_xor_involution, Block, BLOCK_LEN};
use crate::padding::{
    lemma_pad_growth,
    lemma_pad_unpad,
    pad_spec,
    unpad_spec,
    PaddingError,
    PaddingScheme,
};
use crate::speck::{
    decrypt_block_spec,
    encrypt_block_spec,
    key_schedule,
    lemma_block_round_trip,
    Speck128,
};

verus! {

/// Ciphertext of the block-aligned `padded` bytes, chained from `prev`:
/// each plaintext block is XOR-ed with the previous ciphertext block
/// before encryption.
pub open spec fn cbc_chain_enc(ks: Seq<u64>, prev: Seq<u8>, padded: Seq<u8>) -> Seq<u8>
    decreases padded.len(),
{
    if padded.len() < BLOCK_LEN {
        Seq::empty()
    } else {
        let c = encrypt_block_spec(ks, xor_bytes(padded.take(BLOCK_LEN as int), prev));
        c + cbc_chain_enc(ks, c, padded.skip(BLOCK_LEN as int))
    }
}

/// Padded plaintext of the block-aligned ciphertext `c`, chained from `prev`:
/// each ciphertext block is decrypted and XOR-ed with the previous
/// ciphertext block.
pub open spec fn cbc_chain_dec(ks: Seq<u64>, prev: Seq<u8>, c: Seq<u8>) -> Seq<u8>
    decreases c.len(),
{
    if c.len() < BLOCK_LEN {
        Seq::empty()
    } else {
        let first = c.take(BLOCK_LEN as int);
        xor_bytes(decrypt_block_spec(ks, first), prev) + cbc_chain_dec(
            ks,
            first,
            c.skip(BLOCK_LEN as int),
        )
    }
}

/// What `cbc_encrypt` returns.
pub open spec fn cbc_encrypt_spec(
    key: Seq<u8>,
    iv: Seq<u8>,
    plaintext: Seq<u8>,
    s: PaddingScheme,
) -> Seq<u8> {
    cbc_chain_enc(key_schedule(key), iv, pad_spec(s, plaintext, BLOCK_LEN as nat))
}

/// What `cbc_decrypt` returns: a misaligned ciphertext is rejected before
/// any cipher call; otherwise the dechained bytes are unpadded.
pub open spec fn cbc_decrypt_spec(
    key: Seq<u8>,
    iv: Seq<u8>,
    ciphertext: Seq<u8>,
    s: PaddingScheme,
) -> Result<Seq<u8>, PaddingError> {
    if ciphertext.len() % (BLOCK_LEN as nat) != 0 {
        Err(PaddingError::WrongCiphertextLength)
    } else {
        unpad_spec(s, cbc_chain_dec(key_schedule(key), iv, ciphertext), BLOCK_LEN as nat)
    }
}

/// Chained encryption keeps the byte count of its block-aligned input.
pub proof fn lemma_chain_enc_len(ks: Seq<u64>, prev: Seq<u8>, padded: Seq<u8>)
    requires
        padded.len() % (BLOCK_LEN as nat) == 0,
    ensures
        cbc_chain_enc(ks, prev, padded).len() == padded.len(),
    decreases padded.len(),
{
    if padded.len() >= BLOCK_LEN {
        let c = encrypt_block_spec(ks, xor_bytes(padded.take(BLOCK_LEN as int), prev));
        assert(c.len() == BLOCK_LEN);
        lemma_chain_enc_len(ks, c, padded.skip(BLOCK_LEN as int));
    }
}

/// Dechaining undoes chaining: for block-aligned input and a full-width
/// chain seed, decryption recovers every padded plaintext block.
pub proof fn lemma_chain_round_trip(ks: Seq<u64>, prev: Seq<u8>, padded: Seq<u8>)
    requires
        padded.len() % (BLOCK_LEN as nat) == 0,
        prev.len() == BLOCK_LEN,
    ensures
        cbc_chain_dec(ks, prev, cbc_chain_enc(ks, prev, padded)) == padded,
    decreases padded.len(),
{
    if padded.len() < BLOCK_LEN {
        assert(cbc_chain_dec(ks, prev, cbc_chain_enc(ks, prev, padded)) =~= padded);
    } else {
        let chunk = padded.take(BLOCK_LEN as int);
        let x = xor_bytes(chunk, prev);
        let c = encrypt_block_spec(ks, x);
        assert(c.len() == BLOCK_LEN);
        let rest = cbc_chain_enc(ks, c, padded.skip(BLOCK_LEN as int));
        let ct = cbc_chain_enc(ks, prev, padded);
        assert(ct == c + rest);
        assert(ct.take(BLOCK_LEN as int) =~= c);
        assert(ct.skip(BLOCK_LEN as int) =~= rest);
        lemma_block_round_trip(ks, x);
        lemma_xor_involution(chunk, prev);
        lemma_chain_round_trip(ks, c, padded.skip(BLOCK_LEN as int));
        assert(cbc_chain_dec(ks, prev, ct) =~= padded);
    }
}

/// Mode round trip: CBC decryption with the same key, IV and scheme gives
/// back exactly the plaintext that CBC encryption consumed.
pub proof fn lemma_cbc_round_trip(key: Seq<u8>, iv: Seq<u8>, plaintext: Seq<u8>, s: PaddingScheme)
    requires
        iv.len() == BLOCK_LEN,
    ensures
        cbc_decrypt_spec(key, iv, cbc_encrypt_spec(key, iv, plaintext, s), s) == Ok::<
            Seq<u8>,
            PaddingError,
        >(plaintext),
{
    let ks = key_schedule(key);
    let padded = pad_spec(s, plaintext, BLOCK_LEN as nat);
    lemma_pad_growth(s, plaintext, BLOCK_LEN as nat);
    lemma_chain_enc_len(ks, iv, padded);
    lemma_chain_round_trip(ks, iv, padded);
    lemma_pad_unpad(s, plaintext, BLOCK_LEN as nat);
}

/// CBC encryption: pads, then chains and encrypts block by block.
pub fn cbc_encrypt(
    key: &[u8; 16],
    iv: &Block,
    plaintext: &Vec<u8>,
    scheme: PaddingScheme,
) -> (r: Vec<u8>)
    requires
        iv.wf(),
        plaintext@.len() + BLOCK_LEN <= usize::MAX,
    ensures
        r@ == cbc_encrypt_spec(key@, iv@, plaintext@, scheme),
{
    let padded = scheme.pad(plaintext, BLOCK_LEN);
    let cipher = Speck128::new(key);
    let ghost ks = key_schedule(key@);
    proof {
        lemma_pad_growth(scheme, plaintext@, BLOCK_LEN as nat);
    }
    let mut out: Vec<u8> = Vec::new();
    let mut prev: Block = iv.duplicate();
    let mut off: usize = 0;
    assert(padded@.skip(0) =~= padded@);
    while off < padded.len()
        invariant
            cipher@ == ks,
            padded@.len() <= usize::MAX,
            off <= padded@.len(),
            off % BLOCK_LEN == 0,
            padded@.len() % (BLOCK_LEN as nat) == 0,
            prev.wf(),
            cbc_chain_enc(ks, iv@, padded@) == out@ + cbc_chain_enc(
                ks,
                prev@,
                padded@.skip(off as int),
            ),
        decreases padded@.len() - off,
    {
        assert(padded@.len() - off >= BLOCK_LEN) by {
            vstd::arithmetic::div_mod::lemma_mod_bound(off as int, BLOCK_LEN as int);
        }
        let mut chunk: Vec<u8> = Vec::new();
        let mut j: usize = 0;
        while j < BLOCK_LEN
            invariant
                j <= BLOCK_LEN,
                padded@.len() <= usize::MAX,
                off + BLOCK_LEN <= padded@.len(),
                chunk@ == padded@.subrange(off as int, off + j),
            decreases BLOCK_LEN - j,
        {
            chunk.push(padded[off + j]);
            j = j + 1;
            assert(chunk@ =~= padded@.subrange(off as int, off + j));
        }
        let pb = Block::from_exact(chunk);
        let xored = pb.xor(&prev);
        let cblk = cipher.encrypt_block(&xored);
        proof {
            let rest = padded@.skip(off as int);
            assert(rest.take(BLOCK_LEN as int) =~= padded@.subrange(off as int, off + BLOCK_LEN));
            assert(rest.skip(BLOCK_LEN as int) =~= padded@.skip(off + BLOCK_LEN));
            assert(cbc_chain_enc(ks, prev@, rest) == cblk@ + cbc_chain_enc(
                ks,
                cblk@,
                padded@.skip(off + BLOCK_LEN),
            ));
        }
        let ghost pre_out = out@;
        let cbytes = cblk.as_bytes();
        let mut m: usize = 0;
        while m < BLOCK_LEN
            invariant
                m <= BLOCK_LEN,
                cblk@.len() == BLOCK_LEN,
                cbytes@ == cblk@,
                out@ == pre_out + cblk@.subrange(0, m as int),
            decreases BLOCK_LEN - m,
        {
            out.push(cbytes[m]);
            m = m + 1;
            assert(out@ =~= pre_out + cblk@.subrange(0, m as int));
        }
        assert(out@ =~= pre_out + cblk@);
        assert(pre_out + (cblk@ + cbc_chain_enc(ks, cblk@, padded@.skip(off + BLOCK_LEN))) =~= out@
            + cbc_chain_enc(ks, cblk@, padded@.skip(off + BLOCK_LEN)));
        prev = cblk;
        off = off + BLOCK_LEN;
    }
    assert(padded@.skip(off as int) =~= Seq::<u8>::empty());
    assert(out@ =~= cbc_chain_enc(ks, iv@, padded@));
    out
}

/// CBC decryption: rejects a misaligned ciphertext, dechains block by block,
/// then removes the padding.
pub fn cbc_decrypt(
    key: &[u8; 16],
    iv: &Block,
    ciphertext: &Vec<u8>,
    scheme: PaddingScheme,
) -> (r: Result<Vec<u8>, PaddingError>)
    requires
        iv.wf(),
    ensures
        (match r {
            Ok(p) => cbc_decrypt_spec(key@, iv@, ciphertext@, scheme) == Ok::<
                Seq<u8>,
                PaddingError,
            >(p@),
            Err(e) => cbc_decrypt_spec(key@, iv@, ciphertext@, scheme) == Err::<
                Seq<u8>,
                PaddingError,
            >(e),
        }),
{
    if ciphertext.len() % BLOCK_LEN != 0 {
        return Err(PaddingError::WrongCiphertextLength);
    }
    let cipher = Speck128::new(key);
    let ghost ks = key_schedule(key@);
    let mut out: Vec<u8> = Vec::new();
    let mut prev: Block = iv.duplicate();
    let mut off: usize = 0;
    assert(ciphertext@.skip(0) =~= ciphertext@);
    while off < ciphertext.len()
        invariant
            cipher@ == ks,
            ciphertext@.len() <= usize::MAX,
            off <= ciphertext@.len(),
            off % BLOCK_LEN == 0,
            ciphertext@.len() % (BLOCK_LEN as nat) == 0,
            prev.wf(),
            cbc_chain_dec(ks, iv@, ciphertext@) == out@ + cbc_chain_dec(
                ks,
                prev@,
                ciphertext@.skip(off as int),
            ),
        decreases ciphertext@.len() - off,
    {
        assert(ciphertext@.len() - off >= BLOCK_LEN) by {
            vstd::arithmetic::div_mod::lemma_mod_bound(off as int, BLOCK_LEN as int);
        }
        let mut chunk: Vec<u8> = Vec::new();
        let mut j: usize = 0;
        while j < BLOCK_LEN
            invariant
                j <= BLOCK_LEN,
                ciphertext@.len() <= usize::MAX,
                off + BLOCK_LEN <= ciphertext@.len(),
                chunk@ == ciphertext@.subrange(off as int, off + j),
            decreases BLOCK_LEN - j,
        {
            chunk.push(ciphertext[off + j]);
            j = j + 1;
            assert(chunk@ =~= ciphertext@.subrange(off as int, off + j));
        }
        let cblk = Block::from_exact(chunk);
        let dec = cipher.decrypt_block(&cblk);
        let pblk = dec.xor(&prev);
        proof {
            let rest = ciphertext@.skip(off as int);
            assert(rest.take(BLOCK_LEN as int) =~= ciphertext@.subrange(
                off as int,
                off + BLOCK_LEN,
            ));
            assert(rest.skip(BLOCK_LEN as int) =~= ciphertext@.skip(off + BLOCK_LEN));
            assert(cbc_chain_dec(ks, prev@, rest) == pblk@ + cbc_chain_dec(
                ks,
                cblk@,
                ciphertext@.skip(off + BLOCK_LEN),
            ));
        }
        let ghost pre_out = out@;
        let pbytes = pblk.as_bytes();
        let mut m: usize = 0;
        while m < BLOCK_LEN
            invariant
                m <= BLOCK_LEN,
                pblk@.len() == BLOCK_LEN,
                pbytes@ == pblk@,
                out@ == pre_out + pblk@.subrange(0, m as int),
            decreases BLOCK_LEN - m,
        {
            out.push(pbytes[m]);
            m = m + 1;
            assert(out@ =~= pre_out + pblk@.subrange(0, m as int));
        }
        assert(out@ =~= pre_out + pblk@);
        assert(pre_out + (pblk@ + cbc_chain_dec(ks, cblk@, ciphertext@.skip(off + BLOCK_LEN))) =~=
            out@ + cbc_chain_dec(ks, cblk@, ciphertext@.skip(off + BLOCK_LEN)));
        prev = cblk;
        off = off + BLOCK_LEN;
    }
    assert(ciphertext@.skip(off as int) =~= Seq::<u8>::empty());
    assert(out@ =~= cbc_chain_dec(ks, iv@, ciphertext@));
    scheme.unpad(&out, BLOCK_LEN)
}

} // verus!
