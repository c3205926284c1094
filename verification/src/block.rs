//! The part of a block that the vote engine reads: four header fields and the
//! payload.

use vstd::prelude::*;

verus! {

/// A payload transaction, as far as it bears on votes.
#[derive(Debug, Clone, Copy, PartialEq, Eq)]
pub enum Transaction {
    /// A transaction of any kind but complex.
    Simple {
        /// The node that the transaction's author votes for.
        vote: u32,
    },
    /// A complex transaction.
    Complex {
        /// The node that the transaction's author votes for.
        vote: u32,
        /// How many inputs it consumes; none in a UTXO carry-forward.
        input_count: usize,
    },
}

/// One entry of a balance block: a node's snapshot.
#[derive(Debug, Clone, Copy, PartialEq, Eq)]
pub struct NodeInfo {
    /// The node.
    pub owner: u32,
    /// Its accumulated vote at the time of the snapshot.
    pub vote_count: u32,
}

/// What a block carries.
#[derive(Debug, Clone, Copy)]
pub enum Payload<'a> {
    /// Transactions, in block order.
    Transactions(&'a [Transaction]),
    /// Node snapshots, in block order.
    Balances(&'a [NodeInfo]),
    /// Anything that bears on no vote.
    Other,
}

/// A block, as far as it bears on votes.
#[derive(Debug, Clone, Copy)]
pub struct Block<'a> {
    /// The node that created the block.
    pub creator: u32,
    /// The creator's accumulated vote after this block's interest and credits
    /// and before its reset.
    pub consumed_votes: u32,
    /// The node that was due to create the block.
    pub first_voted_node: u32,
    /// That node's accumulated vote after this block's interest and credits and
    /// before its penalty; zero in an ordinary block.
    pub consumed_votes_from_first_voted_node: u32,
    /// The payload.
    pub payload: Payload<'a>,
}

impl Transaction {
    /// The node voted for.
    pub open spec fn target(self) -> u32 {
        match self {
            Transaction::Simple { vote } => vote,
            Transaction::Complex { vote, .. } => vote,
        }
    }

    /// Whether this is a UTXO carry-forward: a complex transaction without
    /// inputs, whose vote has been counted before.
    pub open spec fn carried_forward(self) -> bool {
        self matches Transaction::Complex { input_count, .. } && input_count == 0
    }

    /// Whether the transaction gives `node` a vote credit.
    pub open spec fn credits(self, node: int) -> bool {
        !self.carried_forward() && self.target() == node
    }

    /// Returns the node that gets a vote credit from this transaction, or `None`
    /// for a UTXO carry-forward.
    pub fn credited_node(&self) -> (r: Option<u32>)
        ensures
            r is None <==> self.carried_forward(),
            r matches Some(node) ==> node == self.target(),
            *self matches Transaction::Simple { vote } ==> r == Some(vote),
            *self matches Transaction::Complex { vote, input_count } ==> r == if input_count == 0 {
                None
            } else {
                Some(vote)
            },
    {
        match self {
            Transaction::Simple { vote } => Some(*vote),
            Transaction::Complex { vote, input_count } => {
                if *input_count == 0 {
                    None
                } else {
                    Some(*vote)
                }
            },
        }
    }
}

/// The predicate "transaction number `i` gives `node` a vote credit".
pub open spec fn credited(txs: Seq<Transaction>, node: int) -> spec_fn(int) -> bool {
    |i: int| txs[i].credits(node)
}

/// How many vote credits `txs` give `node`.
pub open spec fn credit_count(txs: Seq<Transaction>, node: int) -> nat {
    crate::count::count(txs.len(), credited(txs, node))
}

/// The snapshot value that `entries` give `node`: that of its last entry, or
/// `None` where it has none.
pub open spec fn listed_vote(entries: Seq<NodeInfo>, node: int) -> Option<u32>
    decreases entries.len(),
{
    if entries.len() == 0 {
        None
    } else if entries.last().owner == node {
        Some(entries.last().vote_count)
    } else {
        listed_vote(entries.drop_last(), node)
    }
}

impl<'a> Block<'a> {
    /// The transactions carried, none where the payload is of another kind.
    pub open spec fn txs(self) -> Seq<Transaction> {
        match self.payload {
            Payload::Transactions(txs) => txs@,
            _ => Seq::empty(),
        }
    }

    /// The node snapshots carried, none where the payload is of another kind.
    pub open spec fn entries(self) -> Seq<NodeInfo> {
        match self.payload {
            Payload::Balances(entries) => entries@,
            _ => Seq::empty(),
        }
    }

    /// How many vote credits the block gives `node`.
    pub open spec fn credits(self, node: int) -> nat {
        credit_count(self.txs(), node)
    }

    /// Whether the block is a deviation block that penalises `node`.
    pub open spec fn penalizes(self, node: int) -> bool {
        self.consumed_votes_from_first_voted_node > 0 && self.first_voted_node == node
    }

    /// Whether the block sets the vote of `node` back to zero.
    pub open spec fn resets(self, node: int) -> bool {
        self.creator == node || self.penalizes(node)
    }

    /// Returns the transactions of a transaction block, `None` for any other.
    pub fn transactions(&self) -> (r: Option<&'a [Transaction]>)
        ensures
            r is Some <==> self.payload is Transactions,
            r matches Some(txs) ==> self.payload == Payload::Transactions(txs),
            r matches Some(txs) ==> txs@ == self.txs(),
            r is None ==> self.txs().len() == 0,
    {
        match self.payload {
            Payload::Transactions(txs) => Some(txs),
            _ => None,
        }
    }

    /// Returns the node snapshots of a balance block, `None` for any other.
    pub fn balances(&self) -> (r: Option<&'a [NodeInfo]>)
        ensures
            r is Some <==> self.payload is Balances,
            r matches Some(entries) ==> self.payload == Payload::Balances(entries),
            r matches Some(entries) ==> entries@ == self.entries(),
            r is None ==> self.entries().len() == 0,
    {
        match self.payload {
            Payload::Balances(entries) => Some(entries),
            _ => None,
        }
    }
}

} // verus!
