//! What holds of the ledger as a whole: properties that relate mining, the
//! integrity checks and reconciliation, proved over the mathematical views.

use crate::block::{
    decode_outcome, lemma_block_view_well_formed, lemma_encoding_injective, Block, BlockView,
    DecodeError,
};
use crate::chain::{extends, extends_tip, heights_ok, link_holds, linked, pruned, valid_chain};
use crate::encoding::{lemma_header_encoding_layout, lemma_le_value_of_le_bytes};
use crate::mining::{mine_outcome, mined, MineError};
use vstd::prelude::*;

verus! {

/// A chain with no blocks passes both integrity checks.
pub proof fn lemma_empty_chain_is_valid()
    ensures
        valid_chain(Seq::<BlockView>::empty()),
{
}

/// Appending a mined successor keeps a valid chain valid.
///
/// The successor is a candidate whose height is the chain's length and which,
/// unless the chain is empty, names the digest of the last block, with the
/// nonce that mining found put in place of its own. The appended block meets
/// the difficulty it was mined for.
pub proof fn lemma_mined_successor_keeps_chain_valid(
    blocks: Seq<BlockView>,
    candidate: BlockView,
    difficulty: nat,
    nonce: u32,
)
    requires
        valid_chain(blocks),
        candidate.height == blocks.len(),
        blocks.len() > 0 ==> candidate.prev_hash == blocks.last().hash(),
        mine_outcome(candidate, difficulty, Ok(nonce)),
    ensures
        valid_chain(blocks.push(candidate.with_nonce(nonce as nat))),
        mined(candidate, nonce as nat, difficulty),
{
    let next = candidate.with_nonce(nonce as nat);
    let longer = blocks.push(next);
    assert forall|i: int| 0 < i < longer.len() implies #[trigger] link_holds(longer, i) by {
        if i < blocks.len() {
            assert(link_holds(blocks, i));
        }
    }
}

/// `bytes` with one bit inverted: bit `bit % 8` of byte `bit / 8`.
pub open spec fn flip_bit(bytes: Seq<u8>, bit: nat) -> Seq<u8> {
    let at = (bit / 8) as int;
    bytes.update(at, bytes[at] ^ (1u8 << ((bit % 8) as u8)))
}

/// Inverting a bit of a byte string changes it.
pub proof fn lemma_flip_bit_changes(bytes: Seq<u8>, bit: nat)
    requires
        bit < 8 * bytes.len(),
    ensures
        flip_bit(bytes, bit) != bytes,
        flip_bit(bytes, bit).len() == bytes.len(),
{
    let at = (bit / 8) as int;
    let byte = bytes[at];
    let shift = (bit % 8) as u8;
    assert(byte ^ (1u8 << shift) != byte) by (bit_vector)
        requires
            shift < 8,
    ;
}

/// Tampering with a predecessor digest is seen by the linkage check: in a
/// linked chain, inverting any one bit of the `prev_hash` of any block other
/// than the first leaves a chain that is not linked.
pub proof fn lemma_flipped_prev_hash_breaks_links(blocks: Seq<BlockView>, i: int, bit: nat)
    requires
        linked(blocks),
        0 < i < blocks.len(),
        bit < 8 * blocks[i].prev_hash.len(),
    ensures
        !linked(
            blocks.update(
                i,
                BlockView { prev_hash: flip_bit(blocks[i].prev_hash, bit), ..blocks[i] },
            ),
        ),
{
    let altered = BlockView { prev_hash: flip_bit(blocks[i].prev_hash, bit), ..blocks[i] };
    let tampered = blocks.update(i, altered);
    lemma_flip_bit_changes(blocks[i].prev_hash, bit);
    assert(link_holds(blocks, i));
    assert(!link_holds(tampered, i));
}

/// Tampering with any field of a block that has a successor is seen by the
/// linkage check, unless the digest stays the same: in a linked chain,
/// putting a header with another digest in place of a block leaves a chain
/// that is not linked.
pub proof fn lemma_altered_block_breaks_next_link(
    blocks: Seq<BlockView>,
    i: int,
    altered: BlockView,
)
    requires
        linked(blocks),
        0 <= i,
        i + 1 < blocks.len(),
        altered.hash() != blocks[i].hash(),
    ensures
        !linked(blocks.update(i, altered)),
{
    let tampered = blocks.update(i, altered);
    assert(link_holds(blocks, i + 1));
    assert(!link_holds(tampered, i + 1));
}

/// Tampering with a height is seen by the height check, whatever the
/// linkage: where every height is its index, giving any block another height
/// leaves a chain that fails the height check, and the outcome of the linkage
/// check plays no part in that.
pub proof fn lemma_altered_height_breaks_heights(blocks: Seq<BlockView>, i: int, height: nat)
    requires
        heights_ok(blocks),
        0 <= i < blocks.len(),
        height != blocks[i].height,
    ensures
        !heights_ok(blocks.update(i, BlockView { height, ..blocks[i] })),
{
    let tampered = blocks.update(i, BlockView { height, ..blocks[i] });
    assert(tampered[i].height != 0 + i);
}

/// Reconciliation is idempotent: pruning what a pruning left, against the
/// same confirmed blocks, drops nothing more.
pub proof fn lemma_prune_idempotent(blocks: Seq<BlockView>, unconfirmed: Seq<Seq<BlockView>>)
    ensures
        pruned(blocks, pruned(blocks, unconfirmed)) == pruned(blocks, unconfirmed),
    decreases unconfirmed.len(),
{
    let keep = extends_tip(blocks);
    if unconfirmed.len() == 0 {
        reveal(Seq::filter);
    } else {
        let front = unconfirmed.drop_last();
        let branch = unconfirmed.last();
        lemma_prune_idempotent(blocks, front);
        assert(unconfirmed =~= front.push(branch));
        front.lemma_filter_push(branch, keep);
        front.filter(keep).lemma_filter_push(branch, keep);
    }
}

/// Every branch that reconciliation keeps extends the confirmed blocks, and
/// every branch that extends them is kept.
pub proof fn lemma_pruned_keeps_exactly_extensions(
    blocks: Seq<BlockView>,
    unconfirmed: Seq<Seq<BlockView>>,
    branch: Seq<BlockView>,
)
    ensures
        pruned(blocks, unconfirmed).contains(branch) <==> unconfirmed.contains(branch) && extends(
            blocks,
            branch,
        ),
{
    let keep = extends_tip(blocks);
    let kept = unconfirmed.filter(keep);
    if kept.contains(branch) {
        let k = choose|k: int| 0 <= k < kept.len() && kept[k] == branch;
        unconfirmed.lemma_filter_pred(keep, k);
        unconfirmed.lemma_filter_contains_rev(keep, branch);
    }
    if unconfirmed.contains(branch) && extends(blocks, branch) {
        let k = choose|k: int| 0 <= k < unconfirmed.len() && unconfirmed[k] == branch;
        unconfirmed.lemma_filter_contains(keep, k);
    }
}

/// A branch whose first block's height is not the number of confirmed
/// blocks is dropped, however well its blocks are linked among themselves.
pub proof fn lemma_wrong_first_height_is_pruned(
    blocks: Seq<BlockView>,
    unconfirmed: Seq<Seq<BlockView>>,
    branch: Seq<BlockView>,
)
    requires
        branch.len() > 0,
        branch[0].height != blocks.len(),
    ensures
        !pruned(blocks, unconfirmed).contains(branch),
{
    lemma_pruned_keeps_exactly_extensions(blocks, unconfirmed, branch);
}

/// A branch that extended the tip is stale once the tip has advanced: after
/// any blocks at all have been confirmed on top, reconciliation drops it.
pub proof fn lemma_stale_branch_is_pruned(
    blocks: Seq<BlockView>,
    confirmed_since: Seq<BlockView>,
    unconfirmed: Seq<Seq<BlockView>>,
    branch: Seq<BlockView>,
)
    requires
        extends(blocks, branch),
        confirmed_since.len() > 0,
    ensures
        !pruned(blocks + confirmed_since, unconfirmed).contains(branch),
{
    lemma_wrong_first_height_is_pruned(blocks + confirmed_since, unconfirmed, branch);
}

/// Mining is deterministic: a header and a difficulty admit one outcome.
pub proof fn lemma_mine_outcome_unique(
    block: BlockView,
    difficulty: nat,
    a: Result<u32, MineError>,
    b: Result<u32, MineError>,
)
    requires
        mine_outcome(block, difficulty, a),
        mine_outcome(block, difficulty, b),
    ensures
        a == b,
{
}

/// Decoding inverts encoding: the encoding of a block decodes to that block
/// and to nothing else.
pub proof fn lemma_decode_inverts_encode(block: Block, r: Result<Block, DecodeError>)
    requires
        decode_outcome(block@.encoding(), r),
    ensures
        r == Ok::<Block, DecodeError>(block),
{
    let v = block@;
    lemma_block_view_well_formed(block);
    lemma_header_encoding_layout(v.prev_hash, v.height, v.nonce);
    lemma_le_value_of_le_bytes(v.height, 8);
    match r {
        Ok(other) => {
            lemma_block_view_well_formed(other);
            lemma_encoding_injective(other@, v);
            assert(other.prev_hash =~= block.prev_hash);
        },
        Err(_) => {},
    }
}

} // verus!
