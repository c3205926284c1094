//! What a block does to the accumulated votes, forward and backward, as
//! functions on the sequence of votes.

use vstd::prelude::*;

use crate::block::Block;
use crate::error::VoteEngineError;
use crate::growth::VoteParams;

verus! {

/// The vote of `node` after the block's interest and credits and before any
/// reset.
pub open spec fn accrued(p: VoteParams, votes: Seq<u32>, block: Block, node: int) -> nat {
    p.grown(votes[node] as nat) + block.credits(node) * p.scale as nat
}

/// Whether the block can be applied: no node accrues more than a `u32` holds.
pub open spec fn fits(p: VoteParams, votes: Seq<u32>, block: Block) -> bool {
    forall|node: int|
        0 <= node < votes.len() ==> #[trigger] accrued(p, votes, block, node) <= u32::MAX
}

/// The votes after a block that fits: every node has accrued its interest and
/// credits, and then the creator and, in a deviation block, the first voted node
/// are set back to zero.
pub open spec fn applied(p: VoteParams, votes: Seq<u32>, block: Block) -> Seq<u32> {
    Seq::new(
        votes.len(),
        |node: int|
            if block.resets(node) {
                0u32
            } else {
                accrued(p, votes, block, node) as u32
            },
    )
}

/// The vote of `node` before the block's resets, as the block header and the
/// votes after the block tell it. The creator's snapshot goes before the first
/// voted node's.
pub open spec fn unreset(votes: Seq<u32>, block: Block, node: int) -> u32 {
    if block.creator == node {
        block.consumed_votes
    } else if block.penalizes(node) {
        block.consumed_votes_from_first_voted_node
    } else {
        votes[node]
    }
}

/// The vote of a node before the block's resets, for a given creator slot and
/// penalised slot: `consumed_votes` for the creator, the penalised slot's own
/// snapshot for that slot, and the vote it has for any other. The creator goes
/// before the penalised slot.
pub open spec fn unreset_for(
    votes: Seq<u32>,
    consumed_votes: u32,
    node_id: usize,
    creator_idx: usize,
    victim: Option<(usize, u32)>,
) -> u32 {
    if node_id == creator_idx {
        consumed_votes
    } else {
        match victim {
            Some((victim_idx, consumed)) if victim_idx == node_id => consumed,
            _ => votes[node_id as int],
        }
    }
}

/// The vote of `node` before the block's credits and interest made it `value`, or
/// why there is none: the credits to take back exceed `value`, or no vote grows
/// into what is left.
pub open spec fn unaccrued_from(p: VoteParams, value: u32, block: Block, node: int) -> Result<
    u32,
    VoteEngineError,
> {
    let credit = block.credits(node) * p.scale as nat;
    if value < credit {
        Err(VoteEngineError::AccumulatedVoteUnderflow)
    } else {
        p.ungrow((value - credit) as u32)
    }
}

/// The vote of `node` before the block, or why there is none.
pub open spec fn unaccrued(p: VoteParams, votes: Seq<u32>, block: Block, node: int) -> Result<
    u32,
    VoteEngineError,
> {
    unaccrued_from(p, unreset(votes, block, node), block, node)
}

/// Whether the block can be undone: every node has a vote from before it.
pub open spec fn reversible(p: VoteParams, votes: Seq<u32>, block: Block) -> bool {
    forall|node: int| 0 <= node < votes.len() ==> #[trigger] unaccrued(p, votes, block, node) is Ok
}

/// Whether `node` is the lowest node without a vote from before the block, and `e`
/// says why.
pub open spec fn first_irreversible(
    p: VoteParams,
    votes: Seq<u32>,
    block: Block,
    node: int,
    e: VoteEngineError,
) -> bool {
    &&& 0 <= node < votes.len()
    &&& unaccrued(p, votes, block, node) == Err::<u32, VoteEngineError>(e)
    &&& forall|m: int| 0 <= m < node ==> #[trigger] unaccrued(p, votes, block, m) is Ok
}

/// The votes before a block that can be undone.
pub open spec fn undone(p: VoteParams, votes: Seq<u32>, block: Block) -> Seq<u32> {
    Seq::new(votes.len(), |node: int| unaccrued(p, votes, block, node)->Ok_0)
}

/// The votes after seeding: every node that the balance block lists takes the
/// snapshot value, every other node keeps its vote.
pub open spec fn seeded(votes: Seq<u32>, block: Block) -> Seq<u32> {
    Seq::new(
        votes.len(),
        |node: int|
            match crate::block::listed_vote(block.entries(), node) {
                Some(vote_count) => vote_count,
                None => votes[node],
            },
    )
}

} // verus!
