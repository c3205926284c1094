use vstd::prelude::*;

verus! {

/// Errors returned when a vote-state transition would violate the reversible
/// `u32` accumulated-vote contract.
#[derive(Debug, Clone, Copy, PartialEq, Eq, Structural)]
pub enum VoteEngineError {
    /// Applying interest or a vote credit would exceed `u32::MAX`.
    AccumulatedVoteOverflow,
    /// Reversing a vote credit would subtract below zero.
    AccumulatedVoteUnderflow,
    /// The post-interest value is not reachable from the configured growth function.
    UnreachableInterestState,
}

} // verus!
