//! The fixed-width block: a 16-byte container with byte access and XOR.

use vstd::prelude::*;

verus! {

/// Number of bytes in one cipher block (128 bits).
pub const BLOCK_LEN: usize = 16;

/// Bytewise XOR of two byte sequences of equal length.
pub open spec fn xor_bytes(a: Seq<u8>, b: Seq<u8>) -> Seq<u8> {
    Seq::new(a.len(), |i: int| a[i] ^ b[i])
}

/// XOR-ing with the same sequence twice gives back the original sequence.
pub proof fn lemma_xor_involution(a: Seq<u8>, b: Seq<u8>)
    requires
        a.len() == b.len(),
    ensures
        xor_bytes(xor_bytes(a, b), b) == a,
{
    assert forall|i: int| 0 <= i < a.len() implies xor_bytes(xor_bytes(a, b), b)[i] == a[i] by {
        let x = a[i];
        let y = b[i];
        assert((x ^ y) ^ y == x) by (bit_vector);
    }
    assert(xor_bytes(xor_bytes(a, b), b) =~= a);
}

/// One cipher block: exactly `BLOCK_LEN` bytes.
pub struct Block {
    bytes: Vec<u8>,
}

impl View for Block {
    type V = Seq<u8>;

    closed spec fn view(&self) -> Seq<u8> {
        self.bytes@
    }
}

impl Block {
    /// Every block in a computation holds exactly `BLOCK_LEN` bytes.
    pub open spec fn wf(&self) -> bool {
        self@.len() == BLOCK_LEN
    }

    /// Builds a block from exactly `BLOCK_LEN` bytes; any other length is refused.
    pub fn from_bytes(bytes: Vec<u8>) -> (r: Option<Block>)
        ensures
            match r {
                Some(b) => bytes@.len() == BLOCK_LEN && b@ == bytes@ && b.wf(),
                None => bytes@.len() != BLOCK_LEN,
            },
    {
        if bytes.len() == BLOCK_LEN {
            Some(Block { bytes })
        } else {
            None
        }
    }

    /// Builds a block from bytes already known to have the right length.
    pub fn from_exact(bytes: Vec<u8>) -> (r: Block)
        requires
            bytes@.len() == BLOCK_LEN,
        ensures
            r@ == bytes@,
            r.wf(),
    {
        Block { bytes }
    }

    /// Reads the block's bytes.
    pub fn as_bytes(&self) -> (r: &Vec<u8>)
        ensures
            r@ == self@,
    {
        &self.bytes
    }

    /// A fresh block holding the same bytes.
    pub fn duplicate(&self) -> (r: Block)
        requires
            self.wf(),
        ensures
            r@ == self@,
            r.wf(),
    {
        let mut bytes: Vec<u8> = Vec::new();
        let mut i: usize = 0;
        while i < self.bytes.len()
            invariant
                i <= self.bytes@.len(),
                bytes@ == self.bytes@.subrange(0, i as int),
            decreases self.bytes@.len() - i,
        {
            bytes.push(self.bytes[i]);
            i = i + 1;
            assert(bytes@ =~= self.bytes@.subrange(0, i as int));
        }
        assert(bytes@ =~= self.bytes@);
        Block { bytes }
    }

    /// XOR of two blocks, element by element.
    pub fn xor(&self, other: &Block) -> (r: Block)
        requires
            self.wf(),
            other.wf(),
        ensures
            r.wf(),
            r@ == xor_bytes(self@, other@),
    {
        let mut bytes: Vec<u8> = Vec::new();
        let mut i: usize = 0;
        while i < BLOCK_LEN
            invariant
                i <= BLOCK_LEN,
                self@.len() == BLOCK_LEN,
                other@.len() == BLOCK_LEN,
                bytes@ == xor_bytes(self@, other@).subrange(0, i as int),
            decreases BLOCK_LEN - i,
        {
            bytes.push(self.bytes[i] ^ other.bytes[i]);
            i = i + 1;
            assert(bytes@ =~= xor_bytes(self@, other@).subrange(0, i as int));
        }
        assert(bytes@ =~= xor_bytes(self@, other@));
        Block { bytes }
    }
}

} // verus!
