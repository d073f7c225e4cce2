//! The block header, its mathematical view, and its canonical bytes.

use crate::digest::{sha3_256, sha3_256_digest};
use crate::encoding::{
    bincode_serialize_header, header_encoding, le_value, lemma_header_encoding_layout,
    lemma_le_bytes_injective, lemma_le_bytes_of_le_value, lemma_le_value_bound,
    lemma_pow256_widths, pow256, read_le, HEADER_LEN, HEIGHT_OFFSET, NONCE_OFFSET,
};
use vstd::prelude::*;

verus! {

/// A block header: the digest of the predecessor's encoding, the block's
/// zero-based position in its chain, and the nonce that mining searches.
#[derive(Debug, Copy, Clone, PartialEq, Eq)]
pub struct Block {
    pub prev_hash: [u8; 32],
    pub height: usize,
    pub nonce: u32,
}

/// What a block is, mathematically: a byte string and two natural numbers.
pub struct BlockView {
    pub prev_hash: Seq<u8>,
    pub height: nat,
    pub nonce: nat,
}

impl BlockView {
    /// The fields fit the header layout: a 32-byte digest, a height of at most
    /// 64 bits and a nonce of at most 32 bits.
    pub open spec fn well_formed(self) -> bool {
        &&& self.prev_hash.len() == 32
        &&& self.height < pow256(8)
        &&& self.nonce < pow256(4)
    }

    /// The canonical encoding of the header.
    pub open spec fn encoding(self) -> Seq<u8> {
        header_encoding(self.prev_hash, self.height, self.nonce)
    }

    /// The digest of the canonical encoding, by which a successor refers to
    /// this block.
    pub open spec fn hash(self) -> Seq<u8> {
        sha3_256(self.encoding())
    }

    /// The same header with another nonce.
    pub open spec fn with_nonce(self, nonce: nat) -> BlockView {
        BlockView { nonce, ..self }
    }
}

impl View for Block {
    type V = BlockView;

    open spec fn view(&self) -> BlockView {
        BlockView {
            prev_hash: self.prev_hash@,
            height: self.height as nat,
            nonce: self.nonce as nat,
        }
    }
}

impl DeepView for Block {
    type V = BlockView;

    open spec fn deep_view(&self) -> BlockView {
        self@
    }
}

/// Why a byte string is not the encoding of a block.
#[derive(Debug, Copy, Clone, PartialEq, Eq, Structural)]
pub enum DecodeError {
    /// The payload is not exactly 44 bytes long.
    WrongLength,
    /// The encoded height does not fit the machine's `usize`.
    HeightOutOfRange,
}

/// What `Block::decode` returns for a byte string: the block that encodes to
/// it, or the reason why there is none.
pub open spec fn decode_outcome(bytes: Seq<u8>, r: Result<Block, DecodeError>) -> bool {
    match r {
        Ok(block) => block@.encoding() == bytes,
        Err(DecodeError::WrongLength) => bytes.len() != 44,
        Err(DecodeError::HeightOutOfRange) => bytes.len() == 44 && le_value(bytes.subrange(32, 40))
            > usize::MAX,
    }
}

impl Block {
    /// The canonical encoding of this block, 44 bytes.
    pub fn encode(&self) -> (bytes: Vec<u8>)
        ensures
            bytes@ == self@.encoding(),
            bytes@.len() == 44,
    {
        proof {
            lemma_header_encoding_layout(self.prev_hash@, self.height as nat, self.nonce as nat);
        }
        bincode_serialize_header(&self.prev_hash, self.height, self.nonce)
    }

    /// Reads a block back from its canonical encoding.
    ///
    /// Succeeds exactly on the 44-byte strings whose height field fits
    /// `usize`; the block returned is the one that encodes to `bytes`.
    pub fn decode(bytes: &[u8]) -> (r: Result<Block, DecodeError>)
        ensures
            decode_outcome(bytes@, r),
            r is Ok <==> bytes@.len() == 44 && le_value(bytes@.subrange(32, 40)) <= usize::MAX,
    {
        if bytes.len() != HEADER_LEN {
            return Err(DecodeError::WrongLength);
        }
        let height: u64 = read_le(bytes, HEIGHT_OFFSET, 8);
        if height > usize::MAX as u64 {
            return Err(DecodeError::HeightOutOfRange);
        }
        let nonce: u64 = read_le(bytes, NONCE_OFFSET, 4);
        let mut prev_hash: [u8; 32] = [0u8; 32];
        let mut i: usize = 0;
        while i < 32
            invariant
                i <= 32,
                bytes@.len() == 44,
                forall|k: int| 0 <= k < i ==> prev_hash@[k] == bytes@[k],
            decreases 32 - i,
        {
            prev_hash[i] = bytes[i];
            i += 1;
        }
        proof {
            let height_bytes = bytes@.subrange(32, 40);
            let nonce_bytes = bytes@.subrange(40, 44);
            lemma_pow256_widths();
            lemma_le_value_bound(nonce_bytes);
            lemma_le_bytes_of_le_value(height_bytes);
            lemma_le_bytes_of_le_value(nonce_bytes);
            assert(prev_hash@ =~= bytes@.subrange(0, 32));
            assert(bytes@ =~= bytes@.subrange(0, 32) + height_bytes + nonce_bytes);
        }
        Ok(Block { prev_hash, height: height as usize, nonce: nonce as u32 })
    }

    /// The SHA3-256 digest of this block's canonical encoding.
    pub fn hash(&self) -> (digest: [u8; 32])
        ensures
            digest@ == self@.hash(),
    {
        let bytes = self.encode();
        sha3_256_digest(bytes.as_slice())
    }
}

/// The view of an executable block always fits the header layout.
pub proof fn lemma_block_view_well_formed(block: Block)
    ensures
        block@.well_formed(),
{
    lemma_pow256_widths();
}

/// Well-formed headers with the same encoding are the same header.
pub proof fn lemma_encoding_injective(a: BlockView, b: BlockView)
    requires
        a.well_formed(),
        b.well_formed(),
        a.encoding() == b.encoding(),
    ensures
        a == b,
{
    lemma_header_encoding_layout(a.prev_hash, a.height, a.nonce);
    lemma_header_encoding_layout(b.prev_hash, b.height, b.nonce);
    lemma_le_bytes_injective(a.height, b.height, 8);
    lemma_le_bytes_injective(a.nonce, b.nonce, 4);
}

} // verus!
