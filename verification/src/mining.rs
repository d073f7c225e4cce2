//! Proof of work: the difficulty predicate on digests and the nonce search.

use crate::block::{Block, BlockView};
use vstd::prelude::*;

verus! {

/// The largest difficulty that a 32-byte digest can meet.
pub const MAX_DIFFICULTY: u8 = 16;

/// The work predicate: the first `2 * difficulty` bytes of the digest exist
/// and are all zero.
pub open spec fn meets_difficulty(digest: Seq<u8>, difficulty: nat) -> bool {
    &&& 2 * difficulty <= digest.len()
    &&& forall|i: int| 0 <= i < 2 * difficulty ==> digest[i] == 0u8
}

/// Whether the header `block`, with `nonce` in place of its own, meets the
/// difficulty.
pub open spec fn mined(block: BlockView, nonce: nat, difficulty: nat) -> bool {
    meets_difficulty(block.with_nonce(nonce).hash(), difficulty)
}

/// `nonce` is where a search that starts at the block's own nonce and counts
/// upwards stops: it meets the difficulty and nothing before it does.
pub open spec fn first_mined(block: BlockView, nonce: nat, difficulty: nat) -> bool {
    &&& block.nonce <= nonce
    &&& mined(block, nonce, difficulty)
    &&& forall|m: nat| block.nonce <= m < nonce ==> !mined(block, m, difficulty)
}

/// No nonce from the block's own up to `last` meets the difficulty.
pub open spec fn none_mined(block: BlockView, last: nat, difficulty: nat) -> bool {
    forall|m: nat| block.nonce <= m <= last ==> !mined(block, m, difficulty)
}

/// Why mining gave no nonce.
#[derive(Debug, Copy, Clone, PartialEq, Eq, Structural)]
pub enum MineError {
    /// The difficulty asks for more zero bytes than a digest has, so no nonce
    /// could ever meet it.
    DifficultyTooHigh,
    /// Every nonce from the block's own up to `u32::MAX` was tried and none
    /// meets the difficulty.
    NonceSpaceExhausted,
}

/// What `Block::mine` returns for a header and a difficulty.
pub open spec fn mine_outcome(
    block: BlockView,
    difficulty: nat,
    r: Result<u32, MineError>,
) -> bool {
    match r {
        Ok(nonce) => difficulty <= 16 && first_mined(block, nonce as nat, difficulty),
        Err(MineError::DifficultyTooHigh) => difficulty > 16,
        Err(MineError::NonceSpaceExhausted) => difficulty <= 16 && none_mined(
            block,
            u32::MAX as nat,
            difficulty,
        ),
    }
}

/// What `Block::mine_within` returns for a header, a difficulty and a number
/// of attempts: the nonces tried are the `attempts` first from the header's
/// own, as far as 32 bits reach.
pub open spec fn mine_within_outcome(
    block: BlockView,
    difficulty: nat,
    attempts: nat,
    r: Result<Option<u32>, MineError>,
) -> bool {
    match r {
        Ok(Some(nonce)) => {
            &&& difficulty <= 16
            &&& nonce < block.nonce + attempts
            &&& first_mined(block, nonce as nat, difficulty)
        },
        Ok(None) => {
            &&& difficulty <= 16
            &&& block.nonce + attempts <= u32::MAX
            &&& forall|m: nat|
                block.nonce <= m < block.nonce + attempts ==> !mined(block, m, difficulty)
        },
        Err(MineError::DifficultyTooHigh) => difficulty > 16,
        Err(MineError::NonceSpaceExhausted) => {
            &&& difficulty <= 16
            &&& block.nonce + attempts > u32::MAX
            &&& none_mined(block, u32::MAX as nat, difficulty)
        },
    }
}

/// Whether a digest meets a difficulty.
///
/// A difficulty above 16 asks for more than the 32 bytes there are, and is
/// met by no digest.
pub fn check_mine(hash: [u8; 32], difficulty: u8) -> (ok: bool)
    ensures
        ok == meets_difficulty(hash@, difficulty as nat),
{
    if difficulty > MAX_DIFFICULTY {
        return false;
    }
    let count: usize = 2 * (difficulty as usize);
    let mut i: usize = 0;
    while i < count
        invariant
            i <= count <= 32,
            count == 2 * difficulty,
            forall|k: int| 0 <= k < i ==> hash@[k] == 0u8,
        decreases count - i,
    {
        if hash[i] != 0 {
            return false;
        }
        i += 1;
    }
    true
}

/// Tries the nonces from the block's own up to `last`, in order, and returns
/// the first that meets the difficulty.
fn search(block: Block, difficulty: u8, last: u32) -> (found: Option<u32>)
    requires
        block.nonce <= last,
    ensures
        match found {
            Some(nonce) => nonce <= last && first_mined(block@, nonce as nat, difficulty as nat),
            None => none_mined(block@, last as nat, difficulty as nat),
        },
{
    let mut candidate = block;
    loop
        invariant
            block.nonce <= candidate.nonce <= last,
            candidate@ == block@.with_nonce(candidate.nonce as nat),
            forall|m: nat|
                block.nonce <= m < candidate.nonce ==> !mined(block@, m, difficulty as nat),
        decreases last - candidate.nonce,
    {
        let digest = candidate.hash();
        if check_mine(digest, difficulty) {
            return Some(candidate.nonce);
        }
        if candidate.nonce == last {
            return None;
        }
        candidate.nonce += 1;
    }
}

impl Block {
    /// Searches for a nonce under which this header's digest meets the
    /// difficulty, counting upwards from the header's own nonce, and returns
    /// the first one found. The block itself is not changed: the caller puts
    /// the nonce into the block that it keeps.
    ///
    /// A difficulty above 16 is refused before any hashing. With difficulty 0
    /// the header's own nonce is returned at once. The search ends at
    /// `u32::MAX`.
    pub fn mine(self, difficulty: u8) -> (r: Result<u32, MineError>)
        ensures
            mine_outcome(self@, difficulty as nat, r),
            r is Ok <==> difficulty <= 16 && !none_mined(
                self@,
                u32::MAX as nat,
                difficulty as nat,
            ),
            difficulty == 0 ==> r == Ok::<u32, MineError>(self.nonce),
    {
        if difficulty > MAX_DIFFICULTY {
            return Err(MineError::DifficultyTooHigh);
        }
        match search(self, difficulty, u32::MAX) {
            Some(nonce) => {
                proof {
                    lemma_zero_difficulty_is_met_at_once(self@, nonce as nat);
                }
                Ok(nonce)
            },
            None => {
                proof {
                    lemma_zero_difficulty_is_met_at_once(self@, self.nonce as nat);
                }
                Err(MineError::NonceSpaceExhausted)
            },
        }
    }

    /// Like `mine`, but gives up after `attempts` nonces, so that a caller can
    /// look for a reason to stop between one slice of the search and the next.
    ///
    /// `Ok(None)` says that none of the nonces tried meets the difficulty and
    /// that untried ones remain: the search goes on from `nonce + attempts`.
    /// Where the slice reaches `u32::MAX` without a find, the nonce space is
    /// exhausted.
    pub fn mine_within(self, difficulty: u8, attempts: u32) -> (r: Result<Option<u32>, MineError>)
        ensures
            mine_within_outcome(self@, difficulty as nat, attempts as nat, r),
            difficulty == 0 && attempts > 0 ==> r == Ok::<Option<u32>, MineError>(
                Some(self.nonce),
            ),
    {
        if difficulty > MAX_DIFFICULTY {
            return Err(MineError::DifficultyTooHigh);
        }
        if attempts == 0 {
            return Ok(None);
        }
        let (last, reaches_end): (u32, bool) = match self.nonce.checked_add(attempts - 1) {
            Some(last) => (last, last == u32::MAX),
            None => (u32::MAX, true),
        };
        match search(self, difficulty, last) {
            Some(nonce) => {
                proof {
                    lemma_zero_difficulty_is_met_at_once(self@, nonce as nat);
                }
                Ok(Some(nonce))
            },
            None => {
                proof {
                    lemma_zero_difficulty_is_met_at_once(self@, self.nonce as nat);
                }
                if reaches_end {
                    Err(MineError::NonceSpaceExhausted)
                } else {
                    Ok(None)
                }
            },
        }
    }
}

/// Every digest meets difficulty 0, so a search at difficulty 0 stops at the
/// nonce it starts from.
pub proof fn lemma_zero_difficulty_is_met_at_once(block: BlockView, nonce: nat)
    ensures
        mined(block, block.nonce, 0),
        first_mined(block, nonce, 0) ==> nonce == block.nonce,
{
    assert(mined(block, block.nonce, 0));
}

} // verus!
