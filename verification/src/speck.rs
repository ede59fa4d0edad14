//! The Speck128/128 block cipher: key schedule, round function, and the
//! single-block encrypt and decrypt transforms.

use vstd::prelude::*;
use crate::block::{Block, BLOCK_LEN};

verus! {

/// Number of rounds of the Speck128/128 variant.
pub const ROUNDS: usize = 32;

/// Rotate a 64-bit word right by 8.
pub open spec fn ror8(x: u64) -> u64 {
    (x >> 8) | (x << 56)
}

/// Rotate a 64-bit word left by 8.
pub open spec fn rol8(x: u64) -> u64 {
    (x << 8) | (x >> 56)
}

/// Rotate a 64-bit word left by 3.
pub open spec fn rol3(x: u64) -> u64 {
    (x << 3) | (x >> 61)
}

/// Rotate a 64-bit word right by 3.
pub open spec fn ror3(x: u64) -> u64 {
    (x >> 3) | (x << 61)
}

/// One forward ARX round: add, XOR the round key, rotate.
/// The same transform drives the cipher body and the key schedule.
pub open spec fn round_fwd(k: u64, x: u64, y: u64) -> (u64, u64) {
    let x1 = ror8(x).wrapping_add(y) ^ k;
    let y1 = rol3(y) ^ x1;
    (x1, y1)
}

/// The exact algebraic inverse of `round_fwd`.
pub open spec fn round_inv(k: u64, x: u64, y: u64) -> (u64, u64) {
    let y0 = ror3(y ^ x);
    let x0 = rol8((x ^ k).wrapping_sub(y0));
    (x0, y0)
}

/// `round_inv` undoes `round_fwd` under the same round key.
pub proof fn lemma_round_inverts(k: u64, x: u64, y: u64)
    ensures
        round_inv(k, round_fwd(k, x, y).0, round_fwd(k, x, y).1) == (x, y),
{
    let x1 = round_fwd(k, x, y).0;
    let y1 = round_fwd(k, x, y).1;
    assert(ror3(y1 ^ x1) == y && rol8((x1 ^ k).wrapping_sub(ror3(y1 ^ x1))) == x)
        by (bit_vector)
        requires
            x1 == ((x >> 8) | (x << 56)).wrapping_add(y) ^ k,
            y1 == ((y << 3) | (y >> 61)) ^ x1,
    ;
}

/// The little-endian 64-bit word held by an 8-byte sequence.
pub open spec fn le64(s: Seq<u8>) -> u64 {
    (s[0] as u64) | ((s[1] as u64) << 8) | ((s[2] as u64) << 16) | ((s[3] as u64) << 24) | ((
    s[4] as u64) << 32) | ((s[5] as u64) << 40) | ((s[6] as u64) << 48) | ((s[7] as u64) << 56)
}

/// The 8 bytes of a 64-bit word, least significant first.
pub open spec fn le_bytes(x: u64) -> Seq<u8> {
    seq![
        x as u8,
        (x >> 8) as u8,
        (x >> 16) as u8,
        (x >> 24) as u8,
        (x >> 32) as u8,
        (x >> 40) as u8,
        (x >> 48) as u8,
        (x >> 56) as u8,
    ]
}

pub proof fn lemma_le_bytes_of_le64(s: Seq<u8>)
    requires
        s.len() == 8,
    ensures
        le_bytes(le64(s)) == s,
{
    let x = le64(s);
    let b0 = s[0];
    let b1 = s[1];
    let b2 = s[2];
    let b3 = s[3];
    let b4 = s[4];
    let b5 = s[5];
    let b6 = s[6];
    let b7 = s[7];
    assert(x as u8 == b0 && (x >> 8) as u8 == b1 && (x >> 16) as u8 == b2 && (x >> 24) as u8
        == b3 && (x >> 32) as u8 == b4 && (x >> 40) as u8 == b5 && (x >> 48) as u8 == b6 && (x
        >> 56) as u8 == b7)
        by (bit_vector)
        requires
            x == (b0 as u64) | ((b1 as u64) << 8) | ((b2 as u64) << 16) | ((b3 as u64) << 24) | (
            (b4 as u64) << 32) | ((b5 as u64) << 40) | ((b6 as u64) << 48) | ((b7 as u64) << 56),
    ;
    assert(le_bytes(x) =~= s);
}

pub proof fn lemma_le64_of_le_bytes(x: u64)
    ensures
        le64(le_bytes(x)) == x,
{
    assert((x as u8 as u64) | (((x >> 8) as u8 as u64) << 8) | (((x >> 16) as u8 as u64) << 16) | ((
    (x >> 24) as u8 as u64) << 24) | (((x >> 32) as u8 as u64) << 32) | (((x >> 40) as u8 as u64)
        << 40) | (((x >> 48) as u8 as u64) << 48) | (((x >> 56) as u8 as u64) << 56) == x)
        by (bit_vector);
}

/// The round keys still to be produced from schedule state `(l, k)` at round `i`:
/// the key schedule applies the round transform to its own state, with the round
/// index in the place of the round key.
pub open spec fn schedule_from(l: u64, k: u64, i: u64) -> Seq<u64>
    decreases ROUNDS - i,
{
    if i >= ROUNDS {
        Seq::empty()
    } else {
        let next = round_fwd(i, l, k);
        seq![k] + schedule_from(next.0, next.1, (i + 1) as u64)
    }
}

/// The full schedule of `ROUNDS` round keys derived from a 16-byte key:
/// the key's low word seeds `k`, its high word seeds `l`.
pub open spec fn key_schedule(key: Seq<u8>) -> Seq<u64> {
    schedule_from(le64(key.subrange(8, 16)), le64(key.subrange(0, 8)), 0)
}

/// The word pair held by a 16-byte block: `y` from the first 8 bytes,
/// `x` from the last 8, both little-endian.
pub open spec fn block_to_words(b: Seq<u8>) -> (u64, u64) {
    (le64(b.subrange(8, 16)), le64(b.subrange(0, 8)))
}

/// The 16 bytes of a word pair, inverse of `block_to_words`.
pub open spec fn words_to_block(x: u64, y: u64) -> Seq<u8> {
    le_bytes(y) + le_bytes(x)
}

/// All forward rounds, first round key first.
pub open spec fn enc_rounds(ks: Seq<u64>, x: u64, y: u64) -> (u64, u64)
    decreases ks.len(),
{
    if ks.len() == 0 {
        (x, y)
    } else {
        let p = round_fwd(ks[0], x, y);
        enc_rounds(ks.drop_first(), p.0, p.1)
    }
}

/// All inverse rounds, last round key first.
pub open spec fn dec_rounds(ks: Seq<u64>, x: u64, y: u64) -> (u64, u64)
    decreases ks.len(),
{
    if ks.len() == 0 {
        (x, y)
    } else {
        let p = round_inv(ks.last(), x, y);
        dec_rounds(ks.drop_last(), p.0, p.1)
    }
}

/// Single-block encryption under a given round-key schedule.
pub open spec fn encrypt_block_spec(ks: Seq<u64>, b: Seq<u8>) -> Seq<u8> {
    let w = block_to_words(b);
    let e = enc_rounds(ks, w.0, w.1);
    words_to_block(e.0, e.1)
}

/// Single-block decryption under a given round-key schedule.
pub open spec fn decrypt_block_spec(ks: Seq<u64>, b: Seq<u8>) -> Seq<u8> {
    let w = block_to_words(b);
    let d = dec_rounds(ks, w.0, w.1);
    words_to_block(d.0, d.1)
}

/// Appending a round key to the schedule applies one more forward round.
proof fn lemma_enc_rounds_push(ks: Seq<u64>, k: u64, x: u64, y: u64)
    ensures
        enc_rounds(ks.push(k), x, y) == round_fwd(
            k,
            enc_rounds(ks, x, y).0,
            enc_rounds(ks, x, y).1,
        ),
    decreases ks.len(),
{
    if ks.len() == 0 {
        assert(ks.push(k)[0] == k);
        assert(ks.push(k).drop_first() =~= Seq::<u64>::empty());
        assert(enc_rounds(Seq::<u64>::empty(), round_fwd(k, x, y).0, round_fwd(k, x, y).1)
            == round_fwd(k, x, y));
    } else {
        let p = round_fwd(ks[0], x, y);
        assert(ks.push(k)[0] == ks[0]);
        assert(ks.push(k).drop_first() =~= ks.drop_first().push(k));
        lemma_enc_rounds_push(ks.drop_first(), k, p.0, p.1);
    }
}

/// The inverse rounds undo the forward rounds, whatever the schedule.
pub proof fn lemma_rounds_round_trip(ks: Seq<u64>, x: u64, y: u64)
    ensures
        dec_rounds(ks, enc_rounds(ks, x, y).0, enc_rounds(ks, x, y).1) == (x, y),
    decreases ks.len(),
{
    if ks.len() > 0 {
        let front = ks.drop_last();
        let k = ks.last();
        assert(ks =~= front.push(k));
        lemma_enc_rounds_push(front, k, x, y);
        let e = enc_rounds(front, x, y);
        lemma_round_inverts(k, e.0, e.1);
        lemma_rounds_round_trip(front, x, y);
    }
}

/// Word-level law restated on bytes: decryption under a schedule inverts
/// encryption under the same schedule, for every 16-byte block.
pub proof fn lemma_block_round_trip(ks: Seq<u64>, b: Seq<u8>)
    requires
        b.len() == BLOCK_LEN,
    ensures
        decrypt_block_spec(ks, encrypt_block_spec(ks, b)) == b,
{
    let w = block_to_words(b);
    let e = enc_rounds(ks, w.0, w.1);
    let c = words_to_block(e.0, e.1);
    assert(c.subrange(0, 8) =~= le_bytes(e.1));
    assert(c.subrange(8, 16) =~= le_bytes(e.0));
    lemma_le64_of_le_bytes(e.0);
    lemma_le64_of_le_bytes(e.1);
    lemma_rounds_round_trip(ks, w.0, w.1);
    lemma_le_bytes_of_le64(b.subrange(0, 8));
    lemma_le_bytes_of_le64(b.subrange(8, 16));
    assert(decrypt_block_spec(ks, c) =~= b);
}

/// Cipher round trip: for every 16-byte key, decryption under the key's
/// schedule inverts encryption under it, block for block.
pub proof fn lemma_cipher_round_trip(key: Seq<u8>, b: Seq<u8>)
    requires
        b.len() == BLOCK_LEN,
    ensures
        decrypt_block_spec(key_schedule(key), encrypt_block_spec(key_schedule(key), b)) == b,
{
    lemma_block_round_trip(key_schedule(key), b);
}

/// Reads the little-endian word at `off`.
fn load_word(b: &Vec<u8>, off: usize) -> (r: u64)
    requires
        off + 8 <= b@.len(),
    ensures
        r == le64(b@.subrange(off as int, off + 8)),
{
    let n = b.len();
    assert(off + 8 <= n);
    let r = (b[off] as u64) | ((b[off + 1] as u64) << 8) | ((b[off + 2] as u64) << 16) | ((b[off
        + 3] as u64) << 24) | ((b[off + 4] as u64) << 32) | ((b[off + 5] as u64) << 40) | ((b[off
        + 6] as u64) << 48) | ((b[off + 7] as u64) << 56);
    assert(b@.subrange(off as int, off + 8)[0] == b@[off as int]);
    r
}

/// Appends the 8 little-endian bytes of `x`.
fn store_word(out: &mut Vec<u8>, x: u64)
    ensures
        final(out)@ == old(out)@ + le_bytes(x),
{
    out.push(x as u8);
    out.push((x >> 8) as u8);
    out.push((x >> 16) as u8);
    out.push((x >> 24) as u8);
    out.push((x >> 32) as u8);
    out.push((x >> 40) as u8);
    out.push((x >> 48) as u8);
    out.push((x >> 56) as u8);
    assert(out@ =~= old(out)@ + le_bytes(x));
}

/// A Speck128/128 cipher instance: the round-key schedule derived once
/// from a 16-byte key. Its view is that schedule.
pub struct Speck128 {
    round_keys: Vec<u64>,
}

impl View for Speck128 {
    type V = Seq<u64>;

    closed spec fn view(&self) -> Seq<u64> {
        self.round_keys@
    }
}

impl Speck128 {
    /// Derives the round-key schedule from the key.
    pub fn new(key: &[u8; 16]) -> (r: Speck128)
        ensures
            r@ == key_schedule(key@),
    {
        let mut k: u64 = (key[0] as u64) | ((key[1] as u64) << 8) | ((key[2] as u64) << 16) | ((
        key[3] as u64) << 24) | ((key[4] as u64) << 32) | ((key[5] as u64) << 40) | ((
        key[6] as u64) << 48) | ((key[7] as u64) << 56);
        let mut l: u64 = (key[8] as u64) | ((key[9] as u64) << 8) | ((key[10] as u64) << 16) | ((
        key[11] as u64) << 24) | ((key[12] as u64) << 32) | ((key[13] as u64) << 40) | ((
        key[14] as u64) << 48) | ((key[15] as u64) << 56);
        assert(key@.subrange(0, 8)[0] == key@[0]);
        assert(key@.subrange(8, 16)[0] == key@[8]);
        assert(k == le64(key@.subrange(0, 8)));
        assert(l == le64(key@.subrange(8, 16)));
        let mut ks: Vec<u64> = Vec::new();
        let mut i: u64 = 0;
        while i < ROUNDS as u64
            invariant
                i <= ROUNDS,
                ks@.len() == i,
                key_schedule(key@) == ks@ + schedule_from(l, k, i),
            decreases ROUNDS - i,
        {
            let ghost pre = ks@;
            ks.push(k);
            let x1 = ((l >> 8) | (l << 56)).wrapping_add(k) ^ i;
            let y1 = ((k << 3) | (k >> 61)) ^ x1;
            proof {
                let next = round_fwd(i, l, k);
                assert(x1 == next.0 && y1 == next.1);
                assert(schedule_from(l, k, i) == seq![k] + schedule_from(x1, y1, (i + 1) as u64));
                assert(pre + (seq![k] + schedule_from(x1, y1, (i + 1) as u64)) =~= ks@
                    + schedule_from(x1, y1, (i + 1) as u64));
            }
            l = x1;
            k = y1;
            i = i + 1;
        }
        Speck128 { round_keys: ks }
    }

    /// Encrypts one block under this schedule.
    pub fn encrypt_block(&self, block: &Block) -> (r: Block)
        requires
            block.wf(),
        ensures
            r.wf(),
            r@ == encrypt_block_spec(self@, block@),
    {
        let bytes = block.as_bytes();
        let mut y: u64 = load_word(bytes, 0);
        let mut x: u64 = load_word(bytes, 8);
        let ghost x0 = x;
        let ghost y0 = y;
        let n = self.round_keys.len();
        assert(self@.skip(0) =~= self@);
        let mut j: usize = 0;
        while j < n
            invariant
                j <= n,
                n == self@.len(),
                enc_rounds(self@.skip(j as int), x, y) == enc_rounds(self@, x0, y0),
            decreases n - j,
        {
            let kk = self.round_keys[j];
            let x1 = ((x >> 8) | (x << 56)).wrapping_add(y) ^ kk;
            let y1 = ((y << 3) | (y >> 61)) ^ x1;
            proof {
                let rest = self@.skip(j as int);
                assert(rest[0] == self@[j as int]);
                assert(rest.drop_first() =~= self@.skip(j + 1));
            }
            x = x1;
            y = y1;
            j = j + 1;
        }
        assert(self@.skip(n as int) =~= Seq::<u64>::empty());
        let mut out: Vec<u8> = Vec::new();
        store_word(&mut out, y);
        store_word(&mut out, x);
        proof {
            assert(out@ =~= words_to_block(x, y));
        }
        Block::from_exact(out)
    }

    /// Decrypts one block under this schedule.
    pub fn decrypt_block(&self, block: &Block) -> (r: Block)
        requires
            block.wf(),
        ensures
            r.wf(),
            r@ == decrypt_block_spec(self@, block@),
    {
        let bytes = block.as_bytes();
        let mut y: u64 = load_word(bytes, 0);
        let mut x: u64 = load_word(bytes, 8);
        let ghost x0 = x;
        let ghost y0 = y;
        let mut j: usize = self.round_keys.len();
        assert(self@.take(j as int) =~= self@);
        while j > 0
            invariant
                j <= self@.len(),
                dec_rounds(self@.take(j as int), x, y) == dec_rounds(self@, x0, y0),
            decreases j,
        {
            j = j - 1;
            let kk = self.round_keys[j];
            let ny = ((y ^ x) >> 3) | ((y ^ x) << 61);
            let nx = {
                let t = (x ^ kk).wrapping_sub(ny);
                (t << 8) | (t >> 56)
            };
            proof {
                let taken = self@.take(j + 1);
                assert(taken.last() == self@[j as int]);
                assert(taken.drop_last() =~= self@.take(j as int));
            }
            x = nx;
            y = ny;
        }
        assert(self@.take(0) =~= Seq::<u64>::empty());
        let mut out: Vec<u8> = Vec::new();
        store_word(&mut out, y);
        store_word(&mut out, x);
        proof {
            assert(out@ =~= words_to_block(x, y));
        }
        Block::from_exact(out)
    }
}

/// Encrypts one block under `key`, deriving the schedule on the spot.
pub fn encrypt_block(key: &[u8; 16], block: &Block) -> (r: Block)
    requires
        block.wf(),
    ensures
        r.wf(),
        r@ == encrypt_block_spec(key_schedule(key@), block@),
{
    Speck128::new(key).encrypt_block(block)
}

/// Decrypts one block under `key`, deriving the schedule on the spot.
pub fn decrypt_block(key: &[u8; 16], block: &Block) -> (r: Block)
    requires
        block.wf(),
    ensures
        r.wf(),
        r@ == decrypt_block_spec(key_schedule(key@), block@),
{
    Speck128::new(key).decrypt_block(block)
}

} // verus!
