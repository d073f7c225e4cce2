//! The chain: confirmed blocks, candidate branches, the integrity checks and
//! the reconciliation that drops branches which no longer extend the tip.

use crate::block::{Block, BlockView};
use crate::digest::{digest_eq, is_zero_digest, zero_digest};
use vstd::prelude::*;

verus! {

/// The confirmed blocks, lowest first, and the candidate branches in the order
/// in which they were added.
#[derive(Debug)]
pub struct BlockChain {
    pub blocks: Vec<Block>,
    pub unconfirmed: Vec<Vec<Block>>,
}

/// What a chain is, mathematically.
pub struct ChainView {
    pub blocks: Seq<BlockView>,
    pub unconfirmed: Seq<Seq<BlockView>>,
}

impl View for BlockChain {
    type V = ChainView;

    open spec fn view(&self) -> ChainView {
        ChainView {
            blocks: self.blocks.deep_view(),
            unconfirmed: self.unconfirmed.deep_view(),
        }
    }
}

/// Block `i` names the digest of block `i - 1` as its predecessor.
pub open spec fn link_holds(blocks: Seq<BlockView>, i: int) -> bool {
    blocks[i].prev_hash == blocks[i - 1].hash()
}

/// Every block but the first names the digest of the block before it.
pub open spec fn linked(blocks: Seq<BlockView>) -> bool {
    forall|i: int| 0 < i < blocks.len() ==> #[trigger] link_holds(blocks, i)
}

/// The heights count upwards from `base`, one per block.
pub open spec fn heights_from(blocks: Seq<BlockView>, base: nat) -> bool {
    forall|i: int| 0 <= i < blocks.len() ==> (#[trigger] blocks[i]).height == base + i
}

/// Every block's height is its index.
pub open spec fn heights_ok(blocks: Seq<BlockView>) -> bool {
    heights_from(blocks, 0)
}

/// Both integrity conditions on confirmed blocks.
pub open spec fn valid_chain(blocks: Seq<BlockView>) -> bool {
    linked(blocks) && heights_ok(blocks)
}

/// The digest that the next block must name: that of the last confirmed
/// block, or the all-zero digest while nothing is confirmed.
pub open spec fn tip_hash(blocks: Seq<BlockView>) -> Seq<u8> {
    if blocks.len() == 0 {
        zero_digest()
    } else {
        blocks.last().hash()
    }
}

/// A branch is a contiguous extension of the confirmed blocks: it is not
/// empty, its heights continue theirs, its first block names the tip and each
/// later block names the one before it.
pub open spec fn extends(blocks: Seq<BlockView>, branch: Seq<BlockView>) -> bool {
    &&& branch.len() > 0
    &&& heights_from(branch, blocks.len())
    &&& branch[0].prev_hash == tip_hash(blocks)
    &&& linked(branch)
}

/// `extends`, as a predicate on branches for fixed confirmed blocks.
pub open spec fn extends_tip(blocks: Seq<BlockView>) -> spec_fn(Seq<BlockView>) -> bool {
    |branch: Seq<BlockView>| extends(blocks, branch)
}

/// The branches that reconciliation keeps: those that extend the confirmed
/// blocks, in their former order.
pub open spec fn pruned(blocks: Seq<BlockView>, unconfirmed: Seq<Seq<BlockView>>) -> Seq<
    Seq<BlockView>,
> {
    unconfirmed.filter(extends_tip(blocks))
}

/// A branch that extends a valid chain can be confirmed as it is: the chain
/// followed by the branch is a valid chain.
pub proof fn lemma_extension_of_valid_chain_is_valid(
    blocks: Seq<BlockView>,
    branch: Seq<BlockView>,
)
    requires
        valid_chain(blocks),
        extends(blocks, branch),
    ensures
        valid_chain(blocks + branch),
{
    let whole = blocks + branch;
    let n = blocks.len() as int;
    assert forall|i: int| 0 < i < whole.len() implies #[trigger] link_holds(whole, i) by {
        if i < n {
            assert(link_holds(blocks, i));
        } else if i > n {
            assert(link_holds(branch, i - n));
        }
    }
}

/// Whether every block of the slice but the first names the digest of the
/// block before it.
fn links_hold(blocks: &[Block]) -> (ok: bool)
    ensures
        ok == linked(blocks.deep_view()),
{
    let ghost view = blocks.deep_view();
    let count: usize = blocks.len();
    let mut i: usize = 1;
    while i < count
        invariant
            1 <= i,
            count == blocks@.len(),
            view == blocks.deep_view(),
            forall|k: int| 0 < k < i && k < count ==> #[trigger] link_holds(view, k),
        decreases count - i,
    {
        let expected = blocks[i - 1].hash();
        if !digest_eq(&blocks[i].prev_hash, &expected) {
            assert(!link_holds(view, i as int));
            return false;
        }
        i += 1;
    }
    true
}

/// Whether the heights of the slice count upwards from `base`.
fn heights_count_from(blocks: &[Block], base: usize) -> (ok: bool)
    ensures
        ok == heights_from(blocks.deep_view(), base as nat),
{
    let ghost view = blocks.deep_view();
    let count: usize = blocks.len();
    let mut i: usize = 0;
    while i < count
        invariant
            i <= count == blocks@.len(),
            view == blocks.deep_view(),
            forall|k: int| 0 <= k < i ==> (#[trigger] view[k]).height == base + k,
        decreases count - i,
    {
        let fits = match base.checked_add(i) {
            Some(height) => blocks[i].height == height,
            None => false,
        };
        if !fits {
            assert(view[i as int].height != base + i);
            return false;
        }
        i += 1;
    }
    true
}

impl BlockChain {
    /// A chain with nothing confirmed and no candidate branches.
    pub fn new() -> (chain: BlockChain)
        ensures
            chain@.blocks == Seq::<BlockView>::empty(),
            chain@.unconfirmed == Seq::<Seq<BlockView>>::empty(),
            valid_chain(chain@.blocks),
    {
        BlockChain { blocks: Vec::new(), unconfirmed: Vec::new() }
    }

    /// Whether every confirmed block but the first names the digest of its
    /// predecessor.
    pub fn check_hashes(&self) -> (ok: bool)
        ensures
            ok == linked(self@.blocks),
    {
        links_hold(self.blocks.as_slice())
    }

    /// Whether every confirmed block's height is its index.
    pub fn check_height(&self) -> (ok: bool)
        ensures
            ok == heights_ok(self@.blocks),
    {
        heights_count_from(self.blocks.as_slice(), 0)
    }

    /// Whether the confirmed blocks pass both integrity checks.
    pub fn check(&self) -> (ok: bool)
        ensures
            ok == valid_chain(self@.blocks),
    {
        self.check_hashes() && self.check_height()
    }

    /// Whether `branch` is a contiguous extension of the confirmed blocks.
    pub fn accepts(&self, branch: &[Block]) -> (ok: bool)
        ensures
            ok == extends(self@.blocks, branch.deep_view()),
    {
        let confirmed: usize = self.blocks.len();
        if branch.len() == 0 {
            return false;
        }
        if !heights_count_from(branch, confirmed) {
            return false;
        }
        let names_tip = if confirmed == 0 {
            is_zero_digest(&branch[0].prev_hash)
        } else {
            let tip = self.blocks[confirmed - 1].hash();
            digest_eq(&branch[0].prev_hash, &tip)
        };
        names_tip && links_hold(branch)
    }

    /// Confirms `block` if it is the direct successor of the confirmed blocks:
    /// its height is their number and it names the tip, which for the first
    /// block is the all-zero digest. Any other block is refused and nothing
    /// changes. The candidate branches are left as they are; those that named
    /// the former tip go with the next reconciliation.
    ///
    /// A valid chain stays valid under every append.
    pub fn append(&mut self, block: Block) -> (appended: bool)
        ensures
            appended == extends(old(self)@.blocks, seq![block@]),
            appended ==> final(self).blocks@ == old(self).blocks@.push(block),
            appended ==> final(self)@.blocks == old(self)@.blocks.push(block@),
            !appended ==> final(self).blocks == old(self).blocks,
            final(self).unconfirmed == old(self).unconfirmed,
            appended && valid_chain(old(self)@.blocks) ==> valid_chain(final(self)@.blocks),
    {
        let mut single: Vec<Block> = Vec::new();
        single.push(block);
        if !self.accepts(single.as_slice()) {
            return false;
        }
        proof {
            if valid_chain(self@.blocks) {
                lemma_extension_of_valid_chain_is_valid(self@.blocks, seq![block@]);
            }
            assert(self@.blocks + seq![block@] =~= self@.blocks.push(block@));
        }
        self.blocks.push(block);
        true
    }

    /// Drops every candidate branch that is not a contiguous extension of the
    /// confirmed blocks. A branch is kept or dropped whole; those kept stay in
    /// their order. The confirmed blocks are not touched.
    pub fn prune_unconfirmed(&mut self)
        ensures
            final(self).blocks == old(self).blocks,
            final(self)@.unconfirmed == pruned(old(self)@.blocks, old(self)@.unconfirmed),
            forall|k: int|
                0 <= k < final(self)@.unconfirmed.len() ==> extends(
                    old(self)@.blocks,
                    #[trigger] final(self)@.unconfirmed[k],
                ),
    {
        let mut pending: Vec<Vec<Block>> = Vec::new();
        std::mem::swap(&mut pending, &mut self.unconfirmed);
        let ghost items = pending@;
        let ghost before = pending.deep_view();
        let ghost confirmed = self@.blocks;
        let mut kept: Vec<Vec<Block>> = Vec::new();
        assert(kept.deep_view() =~= pruned(confirmed, before.take(0))) by {
            reveal(Seq::filter);
        }
        for branch in it: pending
            invariant
                self.blocks == old(self).blocks,
                confirmed == old(self)@.blocks,
                it.seq() == items,
                before.len() == items.len(),
                forall|k: int|
                    0 <= k < items.len() ==> before[k] == (#[trigger] items[k]).deep_view(),
                kept.deep_view() == pruned(confirmed, before.take(it.index() as int)),
        {
            let ghost at = it.index() as int;
            proof {
                assert(before.take(at + 1) =~= before.take(at).push(before[at]));
                before.take(at).lemma_filter_push(before[at], extends_tip(confirmed));
            }
            if self.accepts(branch.as_slice()) {
                kept.push(branch);
            }
        }
        assert(before.take(items.len() as int) =~= before);
        self.unconfirmed = kept;
        proof {
            let keep = extends_tip(confirmed);
            assert forall|k: int| 0 <= k < before.filter(keep).len() implies extends(
                confirmed,
                #[trigger] before.filter(keep)[k],
            ) by {
                before.lemma_filter_pred(keep, k);
            }
        }
    }

    /// Stores a candidate branch as it is, after those already stored.
    /// Nothing is validated here: `prune_unconfirmed` decides later, against
    /// the tip as it then stands.
    pub fn add_unconfirmed(&mut self, un: Vec<Block>)
        ensures
            final(self).blocks == old(self).blocks,
            final(self).unconfirmed@ == old(self).unconfirmed@.push(un),
            final(self)@.unconfirmed == old(self)@.unconfirmed.push(un.deep_view()),
    {
        self.unconfirmed.push(un);
    }
}

impl From<Vec<Block>> for BlockChain {
    /// A chain whose confirmed blocks are `v`, taken on trust, with no
    /// candidate branches. Call `check` before relying on it.
    fn from(v: Vec<Block>) -> (chain: BlockChain)
        ensures
            chain.blocks == v,
            chain@.unconfirmed == Seq::<Seq<BlockView>>::empty(),
    {
        BlockChain { blocks: v, unconfirmed: Vec::new() }
    }
}

/// Two vectors with the same contents need not be the same value, so no spec
/// function can name the chain that `from` builds: what it holds is stated by
/// the `ensures` of `from` itself.
impl vstd::std_specs::convert::FromSpecImpl<Vec<Block>> for BlockChain {
    open spec fn obeys_from_spec() -> bool {
        false
    }

    open spec fn from_spec(v: Vec<Block>) -> BlockChain {
        arbitrary()
    }
}

} // verus!
