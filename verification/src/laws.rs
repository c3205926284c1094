//! What holds of the vote state across blocks.

use vstd::prelude::*;

use crate::block::{Block, NodeInfo, Payload, Transaction};
use crate::growth::VoteParams;
#[allow(unused_imports)]
use crate::{block, count, error, growth, order, transition};

verus! {

/// Whether the header snapshots are those of a block created on top of `votes`:
/// the creator's and, in a deviation block, the first voted node's vote after
/// interest and credits. A snapshot of a node outside the roster may be anything,
/// and the creator's stands for both where they are the same node.
pub open spec fn snapshots_match(p: VoteParams, votes: Seq<u32>, block: Block) -> bool {
    &&& block.creator < votes.len() ==> block.consumed_votes == transition::accrued(
        p,
        votes,
        block,
        block.creator as int,
    )
    &&& block.consumed_votes_from_first_voted_node > 0 && block.first_voted_node < votes.len()
        && block.first_voted_node != block.creator ==> block.consumed_votes_from_first_voted_node
        == transition::accrued(p, votes, block, block.first_voted_node as int)
}

/// Undoing a block right after applying it restores the votes from before,
/// exactly when the header snapshots match.
pub proof fn law_undo_inverts_apply(p: VoteParams, votes: Seq<u32>, block: Block)
    requires
        p.valid(),
        transition::fits(p, votes, block),
    ensures
        ({
            let after = transition::applied(p, votes, block);
            snapshots_match(p, votes, block) <==> (transition::reversible(p, after, block)
                && transition::undone(p, after, block) == votes)
        }),
{
    let after = transition::applied(p, votes, block);
    if snapshots_match(p, votes, block) {
        assert forall|node: int| 0 <= node < votes.len() implies #[trigger] transition::unaccrued(
            p,
            after,
            block,
            node,
        ) == Ok::<u32, error::VoteEngineError>(votes[node]) by {
            assert(transition::accrued(p, votes, block, node) <= u32::MAX);
            assert(transition::unreset(after, block, node) == transition::accrued(
                p,
                votes,
                block,
                node,
            ));
            growth::law_growth_has_a_unique_origin(p, votes[node] as nat);
        }
        assert(transition::undone(p, after, block) =~= votes);
    }
    if transition::reversible(p, after, block) && transition::undone(p, after, block)
        == votes {
        assert forall|node: int| 0 <= node < votes.len() implies transition::unreset(
            after,
            block,
            node,
        ) == #[trigger] transition::accrued(p, votes, block, node) by {
            lemma_unaccrued_accrues_back(p, after, block, node);
            assert(transition::undone(p, after, block)[node] == votes[node]);
        }
        if block.creator < votes.len() {
            assert(transition::accrued(p, votes, block, block.creator as int)
                == block.consumed_votes);
        }
        if block.first_voted_node < votes.len() {
            assert(transition::unreset(after, block, block.first_voted_node as int)
                == transition::accrued(p, votes, block, block.first_voted_node as int));
        }
    }
}

/// A vote that undoing gives back accrues to the vote it was taken from.
proof fn lemma_unaccrued_accrues_back(p: VoteParams, after: Seq<u32>, block: Block, node: int)
    requires
        p.valid(),
        0 <= node < after.len(),
        transition::unaccrued(p, after, block, node) is Ok,
    ensures
        transition::accrued(p, transition::undone(p, after, block), block, node)
            == transition::unreset(after, block, node),
{
    let value = transition::unreset(after, block, node);
    let credit = block.credits(node) * p.scale as nat;
    let origin = p.ungrown((value - credit) as nat)->0;
    growth::law_ungrown_grows_back(p, (value - credit) as nat);
    growth::law_growth_is_strictly_increasing(p, origin, origin + 1);
    assert(transition::undone(p, after, block)[node] == origin);
}

/// Applying a block right after undoing it gives back the votes from before the
/// undo, if those are zero where the block resets them; and the header snapshots
/// then match the votes that the undo gave.
pub proof fn law_apply_inverts_undo(p: VoteParams, votes: Seq<u32>, block: Block)
    requires
        p.valid(),
        transition::reversible(p, votes, block),
        forall|node: int|
            0 <= node < votes.len() && #[trigger] block.resets(node) ==> votes[node] == 0,
    ensures
        ({
            let before = transition::undone(p, votes, block);
            &&& transition::fits(p, before, block)
            &&& transition::applied(p, before, block) == votes
            &&& snapshots_match(p, before, block)
        }),
{
    let before = transition::undone(p, votes, block);
    assert forall|node: int| 0 <= node < votes.len() implies #[trigger] transition::accrued(
        p,
        before,
        block,
        node,
    ) == transition::unreset(votes, block, node) by {
        assert(transition::unaccrued(p, votes, block, node) is Ok);
        lemma_unaccrued_accrues_back(p, votes, block, node);
    }
    assert(transition::applied(p, before, block) =~= votes);
}

/// What undoing a block gives a node depends on no vote but the node's own, and
/// not even on that where the block resets the node.
pub proof fn law_undo_reads_own_slot_only(
    p: VoteParams,
    one: Seq<u32>,
    other: Seq<u32>,
    block: Block,
    node: int,
)
    requires
        one[node] == other[node] || block.resets(node),
    ensures
        transition::unaccrued(p, one, block, node) == transition::unaccrued(p, other, block, node),
{
}

/// The same for whatever slots are named as the creator's and the penalised one:
/// the undone vote depends on the node's own vote alone, and not even on that
/// where the node is one of the two.
pub proof fn law_undo_value_reads_own_slot_only(
    p: VoteParams,
    one: Seq<u32>,
    other: Seq<u32>,
    block: Block,
    node_id: usize,
    creator_idx: usize,
    victim: Option<(usize, u32)>,
)
    requires
        one[node_id as int] == other[node_id as int] || node_id == creator_idx || (
        victim matches Some((victim_idx, _)) && victim_idx == node_id),
    ensures
        ({
            let from_one = transition::unreset_for(
                one,
                block.consumed_votes,
                node_id,
                creator_idx,
                victim,
            );
            let from_other = transition::unreset_for(
                other,
                block.consumed_votes,
                node_id,
                creator_idx,
                victim,
            );
            transition::unaccrued_from(p, from_one, block, node_id as int)
                == transition::unaccrued_from(p, from_other, block, node_id as int)
        }),
{
}

/// Undoing a block turns `value` into `v` exactly when `v` grows into `value` less
/// the block's credits. It is an underflow exactly when the credits exceed `value`,
/// and unreachable exactly when they do not and no vote grows into the rest.
pub proof fn law_undo_of_one_vote_is_exact(
    p: VoteParams,
    value: u32,
    block: Block,
    node: int,
    v: u32,
)
    requires
        p.valid(),
    ensures
        ({
            let r = transition::unaccrued_from(p, value, block, node);
            let credit = block.credits(node) * p.scale as nat;
            &&& r == Ok::<u32, error::VoteEngineError>(v) <==> p.grown(v as nat) == value - credit
            &&& r == Err::<u32, error::VoteEngineError>(
                error::VoteEngineError::AccumulatedVoteUnderflow,
            ) <==> value < credit
            &&& r == Err::<u32, error::VoteEngineError>(
                error::VoteEngineError::UnreachableInterestState,
            ) <==> value >= credit && forall|x: u32| #[trigger]
                p.grown(x as nat) != value - credit
        }),
{
    let credit = block.credits(node) * p.scale as nat;
    if value >= credit {
        let rest = (value - credit) as u32;
        growth::law_ungrow_is_the_inverse_of_grow(p, v, rest);
        growth::law_ungrown_grows_back(p, rest as nat);
        if p.ungrown(rest as nat) is Some {
            let origin = p.ungrown(rest as nat)->0;
            growth::law_growth_is_strictly_increasing(p, origin, origin + 1);
            assert(p.grown((origin as u32) as nat) == rest);
        }
    }
}

/// The votes after applying `blocks` in order; a block that does not fit changes
/// nothing.
pub open spec fn replayed(p: VoteParams, votes: Seq<u32>, blocks: Seq<Block>) -> Seq<u32>
    decreases blocks.len(),
{
    if blocks.len() == 0 {
        votes
    } else {
        let earlier = replayed(p, votes, blocks.drop_last());
        if transition::fits(p, earlier, blocks.last()) {
            transition::applied(p, earlier, blocks.last())
        } else {
            earlier
        }
    }
}

/// Whether each of `blocks` fits on top of those before it, with matching
/// snapshots.
pub open spec fn is_chain(p: VoteParams, votes: Seq<u32>, blocks: Seq<Block>) -> bool
    decreases blocks.len(),
{
    blocks.len() == 0 || {
        let earlier = replayed(p, votes, blocks.drop_last());
        &&& is_chain(p, votes, blocks.drop_last())
        &&& transition::fits(p, earlier, blocks.last())
        &&& snapshots_match(p, earlier, blocks.last())
    }
}

/// Whether `blocks` can all be undone, last block first, and lead back from `after`
/// to `before`.
pub open spec fn rolls_back(
    p: VoteParams,
    after: Seq<u32>,
    blocks: Seq<Block>,
    before: Seq<u32>,
) -> bool
    decreases blocks.len(),
{
    if blocks.len() == 0 {
        after == before
    } else {
        &&& transition::reversible(p, after, blocks.last())
        &&& rolls_back(
            p,
            transition::undone(p, after, blocks.last()),
            blocks.drop_last(),
            before,
        )
    }
}

/// A chain of blocks of any length, undone in reverse order, restores the votes
/// that it was applied to.
pub proof fn law_chain_rolls_back(p: VoteParams, votes: Seq<u32>, blocks: Seq<Block>)
    requires
        p.valid(),
        is_chain(p, votes, blocks),
    ensures
        rolls_back(p, replayed(p, votes, blocks), blocks, votes),
    decreases blocks.len(),
{
    if blocks.len() > 0 {
        law_chain_rolls_back(p, votes, blocks.drop_last());
        law_undo_inverts_apply(p, replayed(p, votes, blocks.drop_last()), blocks.last());
    }
}

/// Whether `trace` lists the votes that an engine goes through while it is handed
/// `blocks` one after the other, each either applied or refused.
pub open spec fn is_replay(p: VoteParams, trace: Seq<Seq<u32>>, blocks: Seq<Block>) -> bool {
    &&& trace.len() == blocks.len() + 1
    &&& forall|i: int|
        0 <= i < blocks.len() ==> trace[i + 1] == if transition::fits(
            p,
            #[trigger] trace[i],
            blocks[i],
        ) {
            transition::applied(p, trace[i], blocks[i])
        } else {
            trace[i]
        }
}

/// Two engines with the same parameters and the same votes that are handed the
/// same blocks have the same votes after each of them.
pub proof fn law_replay_is_deterministic(
    p: VoteParams,
    one: Seq<Seq<u32>>,
    other: Seq<Seq<u32>>,
    blocks: Seq<Block>,
    i: int,
)
    requires
        is_replay(p, one, blocks),
        is_replay(p, other, blocks),
        one[0] == other[0],
        0 <= i <= blocks.len(),
    ensures
        one[i] == other[i],
    decreases i,
{
    if i > 0 {
        law_replay_is_deterministic(p, one, other, blocks, i - 1);
        assert(one[i - 1 + 1] == other[i - 1 + 1]);
    }
}

/// After a block its creator holds no vote, however many credits the block gave
/// it; nor does the first voted node of a deviation block, whatever its snapshot
/// says.
pub proof fn law_reset_nodes_hold_nothing(
    p: VoteParams,
    votes: Seq<u32>,
    block: Block,
    node: int,
)
    requires
        0 <= node < votes.len(),
        node == block.creator || block.penalizes(node),
    ensures
        transition::applied(p, votes, block)[node] == 0,
{
}

/// A block takes nothing from a node that it does not reset, and gives it its
/// credits and at most one scale of interest.
pub proof fn law_other_nodes_lose_nothing(
    p: VoteParams,
    votes: Seq<u32>,
    block: Block,
    node: int,
)
    requires
        p.valid(),
        transition::fits(p, votes, block),
        0 <= node < votes.len(),
        !block.resets(node),
    ensures
        ({
            let credit = block.credits(node) * p.scale as nat;
            votes[node] + credit <= transition::applied(p, votes, block)[node]
                <= votes[node] + credit + p.scale
        }),
{
    assert(transition::accrued(p, votes, block, node) <= u32::MAX);
    growth::law_growth_is_strictly_increasing(
        p,
        votes[node] as nat,
        votes[node] as nat + 1,
    );
}

/// A block without vote credits leaves the creator order of the nodes that it
/// does not reset as it was.
pub proof fn law_interest_keeps_the_order(
    p: VoteParams,
    votes: Seq<u32>,
    block: Block,
    i: int,
    j: int,
)
    requires
        p.valid(),
        transition::fits(p, votes, block),
        0 <= i < votes.len(),
        0 <= j < votes.len(),
        !block.resets(i),
        !block.resets(j),
        block.credits(i) == 0,
        block.credits(j) == 0,
    ensures
        order::precedes(votes, i, j) <==> order::precedes(
            transition::applied(p, votes, block),
            i,
            j,
        ),
{
    assert(transition::accrued(p, votes, block, i) <= u32::MAX);
    assert(transition::accrued(p, votes, block, j) <= u32::MAX);
    assert(0 * p.scale as nat == 0);
    if votes[i] < votes[j] {
        growth::law_growth_is_strictly_increasing(p, votes[i] as nat, votes[j] as nat);
    } else if votes[j] < votes[i] {
        growth::law_growth_is_strictly_increasing(p, votes[j] as nat, votes[i] as nat);
    }
}

/// The credits of a payload are those of its parts together.
pub proof fn law_credits_add_up(head: Seq<Transaction>, tail: Seq<Transaction>, node: int)
    ensures
        block::credit_count(head + tail, node) == block::credit_count(head, node)
            + block::credit_count(tail, node),
{
    let f = block::credited(head + tail, node);
    let g = block::credited(tail, node);
    assert forall|i: int| 0 <= i < tail.len() implies f(head.len() + i) == #[trigger] g(i) by {
        assert((head + tail)[head.len() + i] == tail[i]);
    }
    count::lemma_count_split(
        head.len(),
        tail.len(),
        f,
        block::credited(head, node),
        g,
    );
}

/// One transaction gives its target one credit and every other node none; a UTXO
/// carry-forward gives no node any.
pub proof fn law_credit_of_one_transaction(tx: Transaction, node: int)
    ensures
        block::credit_count(seq![tx], node) == if !tx.carried_forward() && tx.target()
            == node {
            1nat
        } else {
            0nat
        },
{
    let f = block::credited(seq![tx], node);
    assert(f(0) == tx.credits(node));
    assert(count::count(0, f) == 0);
    assert(count::count(1, f) == count::count(0, f) + if f(0) {
        1nat
    } else {
        0nat
    });
}

/// Repeating a UTXO carry-forward anywhere in a payload changes no node's credits.
pub proof fn law_carry_forward_is_replay_safe(
    head: Seq<Transaction>,
    tx: Transaction,
    tail: Seq<Transaction>,
    node: int,
)
    requires
        tx.carried_forward(),
    ensures
        block::credit_count(head + seq![tx] + tail, node) == block::credit_count(
            head + tail,
            node,
        ),
{
    law_credits_add_up(head + seq![tx], tail, node);
    law_credits_add_up(head, seq![tx], node);
    law_credits_add_up(head, tail, node);
    law_credit_of_one_transaction(tx, node);
}

/// Votes for nodes outside the roster credit no node in it.
pub proof fn law_unknown_targets_get_nothing(txs: Seq<Transaction>, nodes: nat, node: int)
    requires
        forall|i: int| 0 <= i < txs.len() ==> (#[trigger] txs[i]).target() >= nodes,
        0 <= node < nodes,
    ensures
        block::credit_count(txs, node) == 0,
{
    let f = block::credited(txs, node);
    assert forall|i: int| 0 <= i < txs.len() implies !#[trigger] f(i) by {
        assert(txs[i].target() >= nodes);
    }
    count::lemma_count_bound(txs.len(), f);
}

/// A block that is no balance block seeds nothing.
pub proof fn law_only_balance_blocks_seed(votes: Seq<u32>, block: Block)
    requires
        !(block.payload is Balances),
    ensures
        transition::seeded(votes, block) == votes,
{
    assert(transition::seeded(votes, block) =~= votes);
}

/// Seeding from the same balance block again changes nothing.
pub proof fn law_seeding_is_idempotent(votes: Seq<u32>, block: Block)
    ensures
        ({
            let once = transition::seeded(votes, block);
            transition::seeded(once, block) == once
        }),
{
    let once = transition::seeded(votes, block);
    assert(transition::seeded(once, block) =~= once);
}

/// A node is listed exactly when some entry has it as its owner, and takes the
/// value of the last such entry.
pub proof fn law_last_entry_counts(entries: Seq<NodeInfo>, node: int)
    ensures
        match block::listed_vote(entries, node) {
            Some(vote_count) => exists|i: int|
                0 <= i < entries.len() && (#[trigger] entries[i]).owner == node
                    && entries[i].vote_count == vote_count && forall|k: int|
                    i < k < entries.len() ==> (#[trigger] entries[k]).owner != node,
            None => forall|i: int|
                0 <= i < entries.len() ==> (#[trigger] entries[i]).owner != node,
        },
    decreases entries.len(),
{
    if entries.len() > 0 {
        let init = entries.drop_last();
        law_last_entry_counts(init, node);
        if entries.last().owner == node {
            assert(entries[entries.len() - 1].owner == node);
        } else {
            assert forall|i: int|
                0 <= i < entries.len() implies i == entries.len() - 1 || #[trigger] entries[i]
                == init[i] by {}
            if block::listed_vote(init, node) is Some {
                let i = choose|i: int|
                    0 <= i < init.len() && (#[trigger] init[i]).owner == node && init[i].vote_count
                        == block::listed_vote(init, node)->0 && forall|k: int|
                        i < k < init.len() ==> (#[trigger] init[k]).owner != node;
                assert(entries[i] == init[i]);
            }
        }
    }
}

/// What one transaction is worth to a node, by its fields: a simple one credits the
/// node it votes for once, a complex one does so if it has inputs, and no
/// transaction credits any other node.
pub proof fn law_credit_by_kind(tx: Transaction, node: int)
    ensures
        tx matches Transaction::Simple { vote } ==> block::credit_count(seq![tx], node) == if vote
            == node {
            1nat
        } else {
            0nat
        },
        tx matches Transaction::Complex { vote, input_count } ==> block::credit_count(
            seq![tx],
            node,
        ) == if input_count != 0 && vote == node {
            1nat
        } else {
            0nat
        },
{
    law_credit_of_one_transaction(tx, node);
}

/// A node's credits from a payload are the transactions in it that vote for the node,
/// complex ones without inputs aside.
pub proof fn law_credits_are_the_votes_for_a_node(txs: Seq<Transaction>, node: int)
    ensures
        block::credit_count(txs, node) == txs.filter(
            |tx: Transaction|
                match tx {
                    Transaction::Simple { vote } => vote == node,
                    Transaction::Complex { vote, input_count } => input_count != 0 && vote == node,
                },
        ).len(),
{
    let votes_for = |tx: Transaction|
        match tx {
            Transaction::Simple { vote } => vote == node,
            Transaction::Complex { vote, input_count } => input_count != 0 && vote == node,
        };
    lemma_credits_by_filter(txs, node, votes_for);
}

proof fn lemma_credits_by_filter(
    txs: Seq<Transaction>,
    node: int,
    votes_for: spec_fn(Transaction) -> bool,
)
    requires
        forall|tx: Transaction| #[trigger]
            votes_for(tx) == match tx {
                Transaction::Simple { vote } => vote == node,
                Transaction::Complex { vote, input_count } => input_count != 0 && vote == node,
            },
    ensures
        block::credit_count(txs, node) == txs.filter(votes_for).len(),
    decreases txs.len(),
{
    reveal(Seq::filter);
    if txs.len() > 0 {
        let init = txs.drop_last();
        lemma_credits_by_filter(init, node, votes_for);
        assert(txs =~= init + seq![txs.last()]);
        law_credits_add_up(init, seq![txs.last()], node);
        law_credit_by_kind(txs.last(), node);
        assert(votes_for(txs.last()) || !votes_for(txs.last()));
    } else {
        assert(block::credit_count(txs, node) == 0);
    }
}

/// A transaction block's credits are those of its transactions and a balance block's
/// entries are its entries; any other payload has neither.
pub proof fn law_payload_is_read_whole(block: Block, node: int)
    ensures
        match block.payload {
            Payload::Transactions(txs) => {
                &&& block.txs() == txs@
                &&& block.entries().len() == 0
                &&& block.credits(node) == txs@.filter(
                    |tx: Transaction|
                        match tx {
                            Transaction::Simple { vote } => vote == node,
                            Transaction::Complex { vote, input_count } => input_count != 0 && vote
                                == node,
                        },
                ).len()
            },
            Payload::Balances(entries) => {
                &&& block.txs().len() == 0
                &&& block.entries() == entries@
                &&& block.credits(node) == 0
            },
            Payload::Other => {
                &&& block.txs().len() == 0
                &&& block.entries().len() == 0
                &&& block.credits(node) == 0
            },
        },
{
    law_credits_are_the_votes_for_a_node(block.txs(), node);
    match block.payload {
        Payload::Transactions(_) => {},
        _ => {
            assert(block.credits(node) == 0);
        },
    }
}

/// What a node accrues in a block, in plain numbers: its vote, the vote's interest
/// `min(floor(vote * interest / scale), scale)`, and one scale per credit.
pub proof fn law_accrual_in_numbers(p: VoteParams, votes: Seq<u32>, block: Block, node: int)
    requires
        p.scale > 0,
    ensures
        transition::accrued(p, votes, block, node) == votes[node] + (if votes[node] * p.interest
            / p.scale as int <= p.scale {
            votes[node] * p.interest / p.scale as int
        } else {
            p.scale as int
        }) + block.credits(node) * p.scale,
{
    growth::law_growth_in_numbers(p, votes[node] as nat);
}

/// Applying a block, in terms of its header. It is refused exactly when some node of
/// the roster, whether reset or not, accrues more than a `u32` holds. Else the creator
/// and, if `consumed_votes_from_first_voted_node` is not zero, the first voted node
/// are left with nothing, whatever the header says they had, and every other node with
/// what it accrued.
pub proof fn law_apply_by_header(p: VoteParams, votes: Seq<u32>, block: Block, node: int)
    requires
        p.scale > 0,
    ensures
        transition::fits(p, votes, block) <==> forall|n: int|
            0 <= n < votes.len() ==> #[trigger] transition::accrued(p, votes, block, n)
                <= 0xffff_ffff,
        transition::applied(p, votes, block).len() == votes.len(),
        0 <= node < votes.len() && block.creator == node
            ==> transition::applied(p, votes, block)[node] == 0,
        0 <= node < votes.len() && block.consumed_votes_from_first_voted_node > 0
            && block.first_voted_node == node ==> transition::applied(p, votes, block)[node] == 0,
        0 <= node < votes.len() && block.creator != node && (
        block.consumed_votes_from_first_voted_node == 0 || block.first_voted_node != node)
            && transition::fits(p, votes, block) ==> transition::applied(p, votes, block)[node]
            == transition::accrued(p, votes, block, node),
{
    if 0 <= node < votes.len() && transition::fits(p, votes, block) {
        assert(transition::accrued(p, votes, block, node) <= u32::MAX);
    }
}

/// Two blocks that differ in one more vote for `target` at the end of the payload: what
/// `target` accrues differs by one scale, and what any other node accrues not at all.
/// The vote may be cast by a simple transaction or by a complex one with inputs.
pub proof fn law_one_more_vote_is_worth_one_scale(
    p: VoteParams,
    votes: Seq<u32>,
    fewer: Block,
    more: Block,
    target: u32,
    node: int,
)
    requires
        fewer.payload is Transactions,
        more.payload is Transactions,
        exists|tx: Transaction|
            #![trigger fewer.payload->Transactions_0@.push(tx)]
            more.payload->Transactions_0@ == fewer.payload->Transactions_0@.push(tx) && match tx {
                Transaction::Simple { vote } => vote == target,
                Transaction::Complex { vote, input_count } => vote == target && input_count > 0,
            },
    ensures
        transition::accrued(p, votes, more, node) == transition::accrued(p, votes, fewer, node)
            + if node == target {
            p.scale as int
        } else {
            0
        },
{
    let txs = fewer.payload->Transactions_0@;
    let tx = choose|tx: Transaction|
        #![trigger fewer.payload->Transactions_0@.push(tx)]
        more.payload->Transactions_0@ == fewer.payload->Transactions_0@.push(tx) && match tx {
            Transaction::Simple { vote } => vote == target,
            Transaction::Complex { vote, input_count } => vote == target && input_count > 0,
        };
    assert(txs.push(tx) =~= txs + seq![tx]);
    law_credits_add_up(txs, seq![tx], node);
    law_credit_by_kind(tx, node);
    let had = fewer.credits(node);
    assert((had + 1) * p.scale == had * p.scale + p.scale) by (nonlinear_arith);
}

/// Undoing a block for one node, in plain numbers. What the node had before the resets
/// is `consumed_votes` for the creator, else `consumed_votes_from_first_voted_node` for
/// the first voted node if that is not zero, else its vote. The node goes back to `v`
/// exactly when `v`, its interest and the credits make that up; it is an underflow
/// exactly when the credits alone exceed it, and else unreachable.
pub proof fn law_undo_in_numbers(
    p: VoteParams,
    votes: Seq<u32>,
    block: Block,
    node: int,
    had: u32,
    v: u32,
)
    requires
        p.scale > 0,
        had == if block.creator == node {
            block.consumed_votes
        } else if block.consumed_votes_from_first_voted_node > 0 && block.first_voted_node == node {
            block.consumed_votes_from_first_voted_node
        } else {
            votes[node]
        },
    ensures
        transition::unaccrued(p, votes, block, node) == Ok::<u32, error::VoteEngineError>(v)
            <==> had == v + (if v * p.interest / p.scale as int <= p.scale {
            v * p.interest / p.scale as int
        } else {
            p.scale as int
        }) + block.credits(node) * p.scale,
        transition::unaccrued(p, votes, block, node) == Err::<u32, error::VoteEngineError>(
            error::VoteEngineError::AccumulatedVoteUnderflow,
        ) <==> had < block.credits(node) * p.scale,
        transition::unaccrued(p, votes, block, node) != Err::<u32, error::VoteEngineError>(
            error::VoteEngineError::AccumulatedVoteOverflow,
        ),
{
    growth::law_growth_in_numbers(p, v as nat);
    law_undo_of_one_vote_is_exact(p, had, block, node, v);
}

/// The same for whatever slots are named as the creator's and the penalised one.
pub proof fn law_undo_value_in_numbers(
    p: VoteParams,
    votes: Seq<u32>,
    block: Block,
    node_id: usize,
    creator_idx: usize,
    victim: Option<(usize, u32)>,
    had: u32,
    v: u32,
)
    requires
        p.scale > 0,
        node_id == creator_idx ==> had == block.consumed_votes,
        node_id != creator_idx ==> (victim matches Some((victim_idx, consumed)) ==> had
            == if victim_idx == node_id {
            consumed
        } else {
            votes[node_id as int]
        }),
        node_id != creator_idx && victim is None ==> had == votes[node_id as int],
    ensures
        ({
            let r = transition::unaccrued_from(
                p,
                transition::unreset_for(votes, block.consumed_votes, node_id, creator_idx, victim),
                block,
                node_id as int,
            );
            let credit = block.credits(node_id as int) * p.scale;
            &&& r == Ok::<u32, error::VoteEngineError>(v) <==> had == v + (if v * p.interest
                / p.scale as int <= p.scale {
                v * p.interest / p.scale as int
            } else {
                p.scale as int
            }) + credit
            &&& r == Err::<u32, error::VoteEngineError>(
                error::VoteEngineError::AccumulatedVoteUnderflow,
            ) <==> had < credit
            &&& r != Err::<u32, error::VoteEngineError>(
                error::VoteEngineError::AccumulatedVoteOverflow,
            )
        }),
{
    growth::law_growth_in_numbers(p, v as nat);
    law_undo_of_one_vote_is_exact(p, had, block, node_id as int, v);
}

/// Undoing a block as a whole: it succeeds exactly when it does for every node of the
/// roster, and each node then has the vote that undoing gives it alone. A failure is
/// that of the lowest node with one.
pub proof fn law_undo_is_node_by_node(
    p: VoteParams,
    votes: Seq<u32>,
    block: Block,
    node: int,
    e: error::VoteEngineError,
)
    ensures
        transition::reversible(p, votes, block) <==> forall|n: int|
            0 <= n < votes.len() ==> #[trigger] transition::unaccrued(p, votes, block, n) is Ok,
        transition::undone(p, votes, block).len() == votes.len(),
        0 <= node < votes.len() && transition::unaccrued(p, votes, block, node) is Ok
            ==> transition::unaccrued(p, votes, block, node) == Ok::<u32, error::VoteEngineError>(
            transition::undone(p, votes, block)[node],
        ),
        transition::first_irreversible(p, votes, block, node, e) <==> 0 <= node < votes.len()
            && transition::unaccrued(p, votes, block, node) == Err::<u32, error::VoteEngineError>(e)
            && forall|m: int|
            0 <= m < node ==> #[trigger] transition::unaccrued(p, votes, block, m) is Ok,
{
}

/// Seeding, by the entries: a node takes the `vote_count` of the last entry that it
/// owns, whatever it had before, and keeps what it had if it owns none. Payloads other
/// than balances seed nothing.
pub proof fn law_seeding_by_entries(votes: Seq<u32>, block: Block, node: int)
    ensures
        transition::seeded(votes, block).len() == votes.len(),
        0 <= node < votes.len() ==> match block.payload {
            Payload::Balances(entries) => {
                &&& forall|i: int|
                    0 <= i < entries@.len() && (#[trigger] entries@[i]).owner == node && (forall|
                        k: int,
                    |
                        i < k < entries@.len() ==> (#[trigger] entries@[k]).owner != node)
                        ==> transition::seeded(votes, block)[node] == entries@[i].vote_count
                &&& (forall|i: int|
                    0 <= i < entries@.len() ==> (#[trigger] entries@[i]).owner != node)
                    ==> transition::seeded(votes, block)[node] == votes[node]
            },
            _ => transition::seeded(votes, block)[node] == votes[node],
        },
{
    match block.payload {
        Payload::Balances(entries) => {
            law_last_entry_counts(entries@, node);
        },
        _ => {},
    }
}

/// Seeding does not look at what a listed node had: from any two states, nodes listed
/// in the balance block end up with the same vote.
pub proof fn law_seeding_overrides(
    one: Seq<u32>,
    other: Seq<u32>,
    block: Block,
    i: int,
)
    requires
        block.payload is Balances,
        0 <= i < block.payload->Balances_0@.len(),
        block.payload->Balances_0@[i].owner < one.len(),
        one.len() == other.len(),
    ensures
        ({
            let node = block.payload->Balances_0@[i].owner as int;
            transition::seeded(one, block)[node] == transition::seeded(other, block)[node]
        }),
{
    law_last_entry_counts(block.payload->Balances_0@, block.payload->Balances_0@[i].owner as int);
}

} // verus!
