//! The vote engine itself.

use vstd::prelude::*;

use crate::block::Block;
use crate::error::VoteEngineError;
use crate::growth::VoteParams;
use crate::nonzero::NonZeroU16;
#[allow(unused_imports)]
use crate::{block, count, growth, order, transition};

verus! {

/// The interest rule of an engine: the chain parameters and what follows from
/// them.
struct InterestRule {
    vote_scale: NonZeroU16,
    vote_interest: u8,
    // Smallest `av` for which `floor(av * vote_interest / vote_scale) >= vote_scale`.
    // From this point on the interest bump is capped at `vote_scale`, so growth is linear.
    cap_threshold: u32,
}

/// Per-node accumulated-vote registry.
///
/// Const generic:
/// - `MAX_NODES`: node-roster capacity. Node `n` has slot `n`.
///
/// Seen from outside, an engine is the sequence of its [`votes`](Self::votes) and
/// its [`params`](Self::params).
pub struct VoteEngine<const MAX_NODES: usize> {
    accumulated_vote: [u32; MAX_NODES],
    rule: InterestRule,
}

impl<const MAX_NODES: usize> VoteEngine<MAX_NODES> {
    #[verifier::type_invariant]
    spec fn inv(self) -> bool {
        &&& self.params().valid()
        &&& self.rule.cap_threshold == self.params().cap_threshold()
    }

    /// The accumulated vote of every node slot, in node-id order.
    pub closed spec fn votes(&self) -> Seq<u32> {
        self.accumulated_vote@
    }

    /// The chain parameters that the engine was made with.
    pub closed spec fn params(&self) -> VoteParams {
        VoteParams { scale: self.rule.vote_scale@, interest: self.rule.vote_interest }
    }

    /// An engine has one slot for each node id below `MAX_NODES`.
    pub proof fn law_one_slot_per_node(&self)
        ensures
            self.votes().len() == MAX_NODES,
    {
    }

    /// Constructs a `VoteEngine` with zero-initialized accumulated votes.
    ///
    /// `vote_scale` is non-zero because it is the denominator of the anti-capture
    /// interest rule. It is also the maximum interest bump per block and the worth
    /// of each transaction vote credit.
    pub fn new(vote_scale: NonZeroU16, vote_interest: u8) -> (r: Self)
        ensures
            r.votes() == Seq::new(MAX_NODES as nat, |n: int| 0u32),
            r.params() == (VoteParams { scale: vote_scale@, interest: vote_interest }),
            r.params().valid(),
    {
        let cap_threshold: u32 = Self::compute_cap_threshold(vote_scale, vote_interest);
        Self {
            accumulated_vote: [0u32; MAX_NODES],
            rule: InterestRule { vote_scale, vote_interest, cap_threshold },
        }
    }

    /// In-place construction: makes `dst` what [`new`](Self::new) returns, slot by
    /// slot, so that no second copy of the registry is ever materialized.
    pub fn init_in_place(dst: &mut Self, vote_scale: NonZeroU16, vote_interest: u8)
        ensures
            final(dst).votes() == Seq::new(MAX_NODES as nat, |n: int| 0u32),
            final(dst).params() == (VoteParams { scale: vote_scale@, interest: vote_interest }),
            final(dst).params().valid(),
    {
        let cap_threshold: u32 = Self::compute_cap_threshold(vote_scale, vote_interest);
        for node_id in 0..MAX_NODES
            invariant
                dst.votes().len() == MAX_NODES,
                forall|n: int| 0 <= n < node_id ==> #[trigger] dst.votes()[n] == 0,
        {
            proof {
                use_type_invariant(&*dst);
            }
            dst.accumulated_vote[node_id] = 0;
        }
        dst.rule = InterestRule { vote_scale, vote_interest, cap_threshold };
        assert(dst.votes() =~= Seq::new(MAX_NODES as nat, |n: int| 0u32));
    }

    /// Returns the scale that the engine was made with.
    pub fn vote_scale(&self) -> (r: NonZeroU16)
        ensures
            r@ == self.params().scale,
            self.params().valid(),
    {
        proof {
            use_type_invariant(self);
        }
        self.rule.vote_scale
    }

    /// Returns the interest that the engine was made with.
    pub fn vote_interest(&self) -> (r: u8)
        ensures
            r == self.params().interest,
    {
        self.rule.vote_interest
    }

    /// Returns the smallest accumulated vote whose interest reaches the cap,
    /// `u32::MAX` where no interest is paid.
    pub fn cap_threshold(&self) -> (r: u32)
        ensures
            r == self.params().cap_threshold(),
            self.params().interest > 0 ==> forall|av: nat|
                av >= r <==> #[trigger] self.params().raw_bump(av) >= self.params().scale,
    {
        proof {
            use_type_invariant(self);
            if self.params().interest > 0 {
                assert forall|av: nat|
                    av >= self.params().cap_threshold() <==> #[trigger] self.params().raw_bump(av)
                        >= self.params().scale by {
                    growth::lemma_cap_threshold(self.params(), av);
                }
            }
        }
        self.rule.cap_threshold
    }

    /// The cap threshold of an engine with these parameters; the scale is not zero.
    fn compute_cap_threshold(vote_scale: NonZeroU16, vote_interest: u8) -> (r: u32)
        ensures
            vote_scale@ > 0,
            r == (VoteParams { scale: vote_scale@, interest: vote_interest }).cap_threshold(),
    {
        let scale: u32 = vote_scale.get() as u32;
        if vote_interest == 0 {
            return u32::MAX;
        }
        let interest: u32 = vote_interest as u32;
        // `u16::MAX * u16::MAX + u8::MAX` still fits in `u32`.
        assert(scale * scale <= 0xfffe_0001) by (nonlinear_arith)
            requires
                0 <= scale <= 0xffff,
        ;
        ((scale * scale) + interest - 1) / interest
    }

    /// The scale as a `u32`.
    fn vote_scale_u32(&self) -> (r: u32)
        ensures
            r == self.params().scale,
            r > 0,
    {
        self.rule.vote_scale.get() as u32
    }

    /// Returns the interest that `av` earns in one block.
    pub fn interest_bump_for(&self, av: u32) -> (r: u32)
        ensures
            r == self.params().bump(av as nat),
    {
        proof {
            use_type_invariant(self);
            growth::law_growth_fixed_points(self.params(), av as nat);
        }
        if av == 0 || self.rule.vote_interest == 0 {
            return 0;
        }
        proof {
            growth::lemma_cap_threshold(self.params(), av as nat);
        }
        let scale: u32 = self.vote_scale_u32();
        if av >= self.rule.cap_threshold {
            return scale;
        }
        assert(scale * scale <= 0xfffe_0001) by (nonlinear_arith)
            requires
                0 <= scale <= 0xffff,
        ;
        (av * self.rule.vote_interest as u32) / scale
    }

    /// Returns `av` after one block's interest, or an overflow.
    pub fn apply_growth_to_value(&self, av: u32) -> (r: Result<u32, VoteEngineError>)
        ensures
            r == self.params().grow(av),
    {
        av.checked_add(self.interest_bump_for(av)).ok_or(VoteEngineError::AccumulatedVoteOverflow)
    }

    /// Returns the value that one block's interest turned into `after`, or that
    /// there is none.
    ///
    /// Growth is strictly increasing, so a reachable `after` has exactly one
    /// origin. Above the cap threshold it is `after - vote_scale`; below, it lies
    /// between `after - bump(after)` and `after - bump(lo)`, which leaves a search
    /// over few candidates.
    pub fn undo_growth_value(&self, after: u32) -> (r: Result<u32, VoteEngineError>)
        ensures
            r == self.params().ungrow(after),
    {
        let ghost p = self.params();
        proof {
            use_type_invariant(self);
        }
        let scale: u32 = self.vote_scale_u32();

        // Capped linear region: `after = before + vote_scale`.
        if let Some(min_capped_after) = self.rule.cap_threshold.checked_add(scale) {
            if after >= min_capped_after {
                let before: u32 = after - scale;
                proof {
                    if p.interest > 0 {
                        growth::lemma_cap_threshold(p, before as nat);
                    }
                    growth::law_growth_has_a_unique_origin(p, before as nat);
                }
                return Ok(before);
            }
        }

        let mut lo: u32 = after.saturating_sub(self.interest_bump_for(after));
        let mut hi: u32 = after.saturating_sub(self.interest_bump_for(lo));
        assert forall|x: nat| #[trigger] p.grown(x) == after implies lo <= x <= hi by {
            growth::law_origin_is_bracketed(p, x, 0);
            growth::law_growth_fixed_points(p, x);
            growth::law_origin_is_bracketed(p, x, lo as nat);
        }
        while lo <= hi
            invariant
                p == self.params(),
                p.valid(),
                hi <= after,
                forall|x: nat| #[trigger] p.grown(x) == after ==> lo <= x <= hi,
            decreases hi - lo + 1,
        {
            let mid: u32 = lo + (hi - lo) / 2;
            let grown: Result<u32, VoteEngineError> = self.apply_growth_to_value(mid);
            proof {
                growth::law_growth_has_a_unique_origin(p, mid as nat);
                growth::law_growth_fixed_points(p, mid as nat);
                assert forall|x: nat| #[trigger] p.grown(x) == after implies if p.grown(mid as nat)
                    < after {
                    mid < x
                } else {
                    x <= mid
                } by {
                    if x < mid {
                        growth::law_growth_is_strictly_increasing(p, x, mid as nat);
                    } else if mid < x {
                        growth::law_growth_is_strictly_increasing(p, mid as nat, x);
                    }
                }
                growth::law_growth_is_strictly_increasing(p, mid as nat, (mid + 1) as nat);
            }
            match grown {
                Ok(value) => {
                    if value == after {
                        return Ok(mid);
                    }
                    if value < after {
                        lo = mid + 1;
                    } else {
                        hi = mid - 1;
                    }
                },
                Err(_) => {
                    hi = mid - 1;
                },
            }
        }
        Err(VoteEngineError::UnreachableInterestState)
    }

    /// Counts the vote credits that the block's payload gives `node_id`.
    fn credit_count_for(node_id: usize, block: &Block<'_>) -> (r: Result<u32, VoteEngineError>)
        ensures
            match r {
                Ok(credit_count) => credit_count == block.credits(node_id as int),
                Err(e) => {
                    &&& e == VoteEngineError::AccumulatedVoteOverflow
                    &&& block.credits(node_id as int) > u32::MAX
                },
            },
    {
        let mut credit_count: u32 = 0;
        if let Some(payload) = block.transactions() {
            let ghost credited = block::credited(block.txs(), node_id as int);
            for i in 0..payload.len()
                invariant
                    payload@ == block.txs(),
                    credited == block::credited(block.txs(), node_id as int),
                    credit_count == count::count(i as nat, credited),
            {
                assert(credited(i as int) == payload@[i as int].credits(node_id as int));
                proof {
                    count::lemma_count_grows((i + 1) as nat, payload@.len(), credited);
                }
                if let Some(target) = payload[i].credited_node() {
                    if target as usize == node_id {
                        match credit_count.checked_add(1) {
                            Some(more) => credit_count = more,
                            None => return Err(VoteEngineError::AccumulatedVoteOverflow),
                        }
                    }
                }
            }
        }
        Ok(credit_count)
    }

    /// Computes one node's vote after the block's interest and credits, without
    /// mutating anything.
    fn accrued_value_for(&self, node_id: usize, block: &Block<'_>) -> (r: Result<
        u32,
        VoteEngineError,
    >)
        requires
            node_id < MAX_NODES,
        ensures
            match r {
                Ok(value) => value == transition::accrued(
                    self.params(),
                    self.votes(),
                    *block,
                    node_id as int,
                ),
                Err(e) => {
                    &&& e == VoteEngineError::AccumulatedVoteOverflow
                    &&& transition::accrued(
                        self.params(),
                        self.votes(),
                        *block,
                        node_id as int,
                    ) > u32::MAX
                },
            },
    {
        let vote_scale: u32 = self.vote_scale_u32();
        let ghost credits = block.credits(node_id as int);
        assert(credits * vote_scale >= credits) by (nonlinear_arith)
            requires
                credits >= 0,
                vote_scale >= 1,
        ;
        let post_interest: u32 = match self.apply_growth_to_value(self.accumulated_vote[node_id]) {
            Ok(post_interest) => post_interest,
            Err(e) => return Err(e),
        };
        let credit_count: u32 = match Self::credit_count_for(node_id, block) {
            Ok(credit_count) => credit_count,
            Err(e) => return Err(e),
        };
        match credit_count.checked_mul(vote_scale) {
            Some(credit_total) => post_interest.checked_add(credit_total).ok_or(
                VoteEngineError::AccumulatedVoteOverflow,
            ),
            None => Err(VoteEngineError::AccumulatedVoteOverflow),
        }
    }

    /// Applies the forward accumulation for `block`:
    ///
    /// 1. Anti-capture interest: every node's vote `av` gains
    ///    `min(floor(av * vote_interest / vote_scale), vote_scale)`, the creator's
    ///    included.
    /// 2. Vote credits: the `vote` target of every payload transaction gains one
    ///    `vote_scale`. Zero-input UTXO carry-forwards and targets outside the
    ///    roster are skipped.
    /// 3. Creator reset: the creator's vote is zeroed, last, so that a creator
    ///    voting for itself does not retain those votes.
    ///
    /// In a deviation block, one with a non-zero
    /// `consumed_votes_from_first_voted_node`, the first voted node's vote is zeroed
    /// as well.
    ///
    /// Where a vote would overflow, before any reset, the block is refused and
    /// the state stays as it was.
    pub fn apply_block(&mut self, block: Block<'_>) -> (r: Result<(), VoteEngineError>)
        ensures
            final(self).params() == old(self).params(),
            r is Ok <==> transition::fits(old(self).params(), old(self).votes(), block),
            r is Ok ==> final(self).votes() == transition::applied(
                old(self).params(),
                old(self).votes(),
                block,
            ),
            r matches Err(e) ==> {
                &&& e == VoteEngineError::AccumulatedVoteOverflow
                &&& final(self).votes() == old(self).votes()
            },
    {
        let ghost p = self.params();
        let ghost before = self.votes();
        let vote_scale: u32 = self.vote_scale_u32();

        // Preflight: check every addition before mutating, so that an overflow
        // leaves the state unchanged.
        for node_id in 0..MAX_NODES
            invariant
                p == self.params(),
                before == self.votes(),
                *self == *old(self),
                before.len() == MAX_NODES,
                forall|n: int|
                    0 <= n < node_id ==> #[trigger] transition::accrued(p, before, block, n)
                        <= u32::MAX,
        {
            if let Err(e) = self.accrued_value_for(node_id, &block) {
                return Err(e);
            }
        }
        assert(transition::fits(p, before, block));

        // Step 1: interest to every node, including the creator.
        for node_id in 0..MAX_NODES
            invariant
                p == self.params(),
                before.len() == MAX_NODES,
                self.votes().len() == MAX_NODES,
                transition::fits(p, before, block),
                forall|n: int|
                    0 <= n < node_id ==> #[trigger] self.votes()[n] == p.grown(before[n] as nat),
                forall|n: int| node_id <= n < MAX_NODES ==> #[trigger] self.votes()[n] == before[n],
        {
            assert(transition::accrued(p, before, block, node_id as int) <= u32::MAX);
            assert(self.votes()[node_id as int] == before[node_id as int]);
            proof {
                use_type_invariant(&*self);
            }
            match self.apply_growth_to_value(self.accumulated_vote[node_id]) {
                Ok(grown) => {
                    self.accumulated_vote[node_id] = grown;
                },
                Err(_) => {
                    assert(false);
                },
            }
        }

        // Step 2: vote credits from payload transactions.
        if let Some(payload) = block.transactions() {
            for i in 0..payload.len()
                invariant
                    p == self.params(),
                    p.scale == vote_scale,
                    payload@ == block.txs(),
                    before.len() == MAX_NODES,
                    self.votes().len() == MAX_NODES,
                    transition::fits(p, before, block),
                    forall|n: int|
                        0 <= n < MAX_NODES ==> #[trigger] self.votes()[n] == p.grown(
                            before[n] as nat,
                        ) + count::count(i as nat, block::credited(block.txs(), n))
                            * p.scale,
            {
                proof {
                    use_type_invariant(&*self);
                }
                let ghost votes = self.votes();
                if let Some(target) = payload[i].credited_node() {
                    let target: usize = target as usize;
                    if target < MAX_NODES {
                        let ghost credited = block::credited(block.txs(), target as int);
                        let ghost here = count::count(i as nat, credited);
                        let ghost all = block.credits(target as int);
                        proof {
                            assert(credited(i as int));
                            count::lemma_count_grows((i + 1) as nat, payload@.len(), credited);
                            assert((here + 1) * vote_scale <= all * vote_scale) by (nonlinear_arith)
                                requires
                                    here + 1 <= all,
                                    vote_scale >= 0,
                            ;
                            assert((here + 1) * vote_scale == here * vote_scale + vote_scale)
                                by (nonlinear_arith);
                            assert(transition::accrued(p, before, block, target as int)
                                <= u32::MAX);
                            assert(votes[target as int] == p.grown(before[target as int] as nat)
                                + here * p.scale);
                        }
                        self.accumulated_vote[target] = self.accumulated_vote[target] + vote_scale;
                    }
                }
                assert forall|n: int| 0 <= n < MAX_NODES implies #[trigger] self.votes()[n]
                    == p.grown(before[n] as nat) + count::count(
                    (i + 1) as nat,
                    block::credited(block.txs(), n),
                ) * p.scale by {
                    let credited = block::credited(block.txs(), n);
                    assert(credited(i as int) == payload@[i as int].credits(n));
                    assert(votes[n] == p.grown(before[n] as nat) + count::count(
                        i as nat,
                        credited,
                    ) * p.scale);
                    let here = count::count(i as nat, credited);
                    assert((here + 1) * p.scale == here * p.scale + p.scale) by (nonlinear_arith);
                }
            }
        } else {
            assert forall|n: int| 0 <= n < MAX_NODES implies #[trigger] self.votes()[n] == p.grown(
                before[n] as nat,
            ) + block.credits(n) * p.scale by {
                assert(0 * p.scale == 0);
            }
        }
        let ghost accrued = self.votes();
        assert forall|n: int| 0 <= n < MAX_NODES implies #[trigger] accrued[n]
            == transition::accrued(p, before, block, n) by {}
        proof {
            use_type_invariant(&*self);
        }

        // Step 3: creator reset, which wipes any self-credit.
        let creator_idx: usize = block.creator as usize;
        if creator_idx < MAX_NODES {
            self.accumulated_vote[creator_idx] = 0;
        }

        // Deviation-block penalty.
        if block.consumed_votes_from_first_voted_node > 0 {
            let victim: usize = block.first_voted_node as usize;
            if victim < MAX_NODES {
                self.accumulated_vote[victim] = 0;
            }
        }
        assert(self.votes() =~= transition::applied(p, before, block));
        Ok(())
    }

    /// Applies the exact inverse of [`apply_block`](Self::apply_block).
    ///
    /// Reverses the forward steps in reverse order, using the two pre-reset
    /// snapshots in the block header. A vote credit that cannot be taken back is an
    /// underflow; a post-interest value that nothing grows into is unreachable. The
    /// lowest node with such a fault decides the error, and any error leaves the
    /// state unchanged.
    pub fn undo_block(&mut self, block: Block<'_>) -> (r: Result<(), VoteEngineError>)
        ensures
            final(self).params() == old(self).params(),
            r is Ok <==> transition::reversible(
                old(self).params(),
                old(self).votes(),
                block,
            ),
            r is Ok ==> final(self).votes() == transition::undone(
                old(self).params(),
                old(self).votes(),
                block,
            ),
            r matches Err(e) ==> {
                &&& final(self).votes() == old(self).votes()
                &&& exists|node: int| #[trigger]
                    transition::first_irreversible(
                        old(self).params(),
                        old(self).votes(),
                        block,
                        node,
                        e,
                    )
            },
    {
        let ghost p = self.params();
        let ghost after = self.votes();
        let creator_idx: usize = block.creator as usize;
        let victim: Option<(usize, u32)> = if block.consumed_votes_from_first_voted_node > 0 {
            let victim_idx: usize = block.first_voted_node as usize;
            if victim_idx < MAX_NODES {
                Some((victim_idx, block.consumed_votes_from_first_voted_node))
            } else {
                None
            }
        } else {
            None
        };

        // Preflight: compute every node's post-undo value without mutating, so
        // that an error leaves the state unchanged.
        for node_id in 0..MAX_NODES
            invariant
                p == self.params(),
                after == self.votes(),
                *self == *old(self),
                after.len() == MAX_NODES,
                creator_idx == block.creator,
                victim == Self::victim_of(block),
                forall|n: int|
                    0 <= n < node_id ==> #[trigger] transition::unaccrued(p, after, block, n)
                        is Ok,
        {
            if let Err(e) = self.undo_value_for(node_id, &block, creator_idx, victim) {
                assert(transition::first_irreversible(
                    p,
                    after,
                    block,
                    node_id as int,
                    e,
                ));
                return Err(e);
            }
        }

        // Commit: a node's value depends only on its own slot and the block, so
        // writes in place do not influence later nodes.
        for node_id in 0..MAX_NODES
            invariant
                p == self.params(),
                after.len() == MAX_NODES,
                self.votes().len() == MAX_NODES,
                creator_idx == block.creator,
                victim == Self::victim_of(block),
                transition::reversible(p, after, block),
                forall|n: int|
                    0 <= n < node_id ==> Ok::<u32, VoteEngineError>(#[trigger] self.votes()[n])
                        == transition::unaccrued(p, after, block, n),
                forall|n: int| node_id <= n < MAX_NODES ==> #[trigger] self.votes()[n] == after[n],
        {
            proof {
                use_type_invariant(&*self);
                assert(self.votes()[node_id as int] == after[node_id as int]);
                assert(transition::unaccrued(p, after, block, node_id as int) is Ok);
            }
            match self.undo_value_for(node_id, &block, creator_idx, victim) {
                Ok(value) => {
                    self.accumulated_vote[node_id] = value;
                },
                Err(_) => {
                    assert(false);
                },
            }
        }
        assert(self.votes() =~= transition::undone(p, after, block));
        Ok(())
    }

    /// The node that `block` penalises, with its vote from before the penalty.
    spec fn victim_of(block: Block<'_>) -> Option<(usize, u32)> {
        if block.consumed_votes_from_first_voted_node > 0 && block.first_voted_node < MAX_NODES {
            Some((block.first_voted_node as usize, block.consumed_votes_from_first_voted_node))
        } else {
            None
        }
    }

    /// Computes one node's post-undo vote without mutating anything: the vote it
    /// has, or the snapshot that stands for it, less the block's credits, less the
    /// interest.
    ///
    /// The slot of the creator and that of the penalised node, with its snapshot,
    /// are the caller's to name. The creator's snapshot wins when both name the
    /// same node. A node that neither names must be in the roster.
    pub fn undo_value_for(
        &self,
        node_id: usize,
        block: &Block<'_>,
        creator_idx: usize,
        victim: Option<(usize, u32)>,
    ) -> (r: Result<u32, VoteEngineError>)
        requires
            node_id < MAX_NODES || node_id == creator_idx || (victim matches Some((victim_idx, _))
                && victim_idx == node_id),
        ensures
            r == transition::unaccrued_from(
                self.params(),
                transition::unreset_for(
                    self.votes(),
                    block.consumed_votes,
                    node_id,
                    creator_idx,
                    victim,
                ),
                *block,
                node_id as int,
            ),
    {
        let mut value: u32 = match victim {
            _ if node_id == creator_idx => block.consumed_votes,
            Some((victim_idx, consumed)) if victim_idx == node_id => consumed,
            _ => self.accumulated_vote[node_id],
        };
        let ghost base = value;
        let vote_scale: u32 = self.vote_scale_u32();
        let ghost credited = block::credited(block.txs(), node_id as int);
        assert(count::count(0, credited) == 0);
        assert(0 * vote_scale == 0);
        if let Some(payload) = block.transactions() {
            for i in 0..payload.len()
                invariant
                    payload@ == block.txs(),
                    credited == block::credited(block.txs(), node_id as int),
                    base == transition::unreset_for(
                        self.votes(),
                        block.consumed_votes,
                        node_id,
                        creator_idx,
                        victim,
                    ),
                    vote_scale == self.params().scale,
                    value == base - count::count(i as nat, credited) * vote_scale,
            {
                let ghost here = count::count(i as nat, credited);
                let ghost all = block.credits(node_id as int);
                proof {
                    assert(credited(i as int) == payload@[i as int].credits(node_id as int));
                    count::lemma_count_grows((i + 1) as nat, payload@.len(), credited);
                    assert((here + 1) * vote_scale == here * vote_scale + vote_scale)
                        by (nonlinear_arith);
                }
                if let Some(target) = payload[i].credited_node() {
                    if target as usize == node_id {
                        match value.checked_sub(vote_scale) {
                            Some(less) => value = less,
                            None => {
                                assert((here + 1) * vote_scale <= all * vote_scale)
                                    by (nonlinear_arith)
                                    requires
                                        here + 1 <= all,
                                        vote_scale >= 0,
                                ;
                                return Err(VoteEngineError::AccumulatedVoteUnderflow);
                            },
                        }
                    }
                }
            }
        }
        self.undo_growth_value(value)
    }

    /// Seeds the votes from a balance-block snapshot: each entry sets its owner's
    /// vote to its `vote_count`. Un-listed nodes are left untouched.
    ///
    /// If `block` is not a balance block, nothing happens. Owner ids outside
    /// `MAX_NODES` are skipped.
    pub fn seed_from_balance_block(&mut self, block: Block<'_>)
        ensures
            final(self).params() == old(self).params(),
            final(self).votes() == transition::seeded(old(self).votes(), block),
    {
        let ghost before = self.votes();
        let payload = match block.balances() {
            Some(payload) => payload,
            None => {
                assert(self.votes() =~= transition::seeded(before, block));
                return ;
            },
        };
        assert(payload@.take(0) =~= Seq::empty());
        for i in 0..payload.len()
            invariant
                payload@ == block.entries(),
                before.len() == MAX_NODES,
                self.votes().len() == MAX_NODES,
                self.params() == old(self).params(),
                forall|n: int|
                    0 <= n < MAX_NODES ==> #[trigger] self.votes()[n] == match block::listed_vote(
                        payload@.take(i as int),
                        n,
                    ) {
                        Some(vote_count) => vote_count,
                        None => before[n],
                    },
        {
            proof {
                use_type_invariant(&*self);
                assert(payload@.take(i + 1).drop_last() =~= payload@.take(i as int));
                assert(payload@.take(i + 1).last() == payload@[i as int]);
            }
            let owner: usize = payload[i].owner as usize;
            if owner < MAX_NODES {
                self.accumulated_vote[owner] = payload[i].vote_count;
            }
        }
        assert(payload@.take(payload@.len() as int) =~= payload@);
        assert(self.votes() =~= transition::seeded(before, block));
    }

    /// Returns the accumulated vote of `node_id`, `0` for a node outside the roster.
    pub fn accumulated_vote_of(&self, node_id: u32) -> (r: u32)
        ensures
            r == if node_id < MAX_NODES {
                self.votes()[node_id as int]
            } else {
                0
            },
    {
        let idx: usize = node_id as usize;
        if idx < MAX_NODES {
            self.accumulated_vote[idx]
        } else {
            0
        }
    }

    /// Returns the currently expected block creator: the head of the creator order.
    ///
    /// Zero-vote nodes are ranked too, after every non-zero node, so the all-zero
    /// state yields node 0. Returns `None` only when `MAX_NODES == 0`.
    pub fn top_creator(&self) -> (r: Option<u32>)
        ensures
            r == order::creator_at(self.votes(), 0),
    {
        let ghost votes = self.votes();
        let mut top: Option<(usize, u32)> = None;
        for node_id in 0..MAX_NODES
            invariant
                votes == self.votes(),
                match top {
                    None => node_id == 0,
                    Some((t, vote)) => {
                        &&& t < node_id
                        &&& vote == votes[t as int]
                        &&& forall|j: int|
                            0 <= j < node_id ==> j == t || #[trigger] order::precedes(
                                votes,
                                t as int,
                                j,
                            )
                    },
                },
        {
            let av: u32 = self.accumulated_vote[node_id];
            match top {
                None => {
                    top = Some((node_id, av));
                },
                Some((t, top_vote)) => {
                    if av > top_vote {
                        assert forall|j: int| 0 <= j < node_id implies #[trigger] order::precedes(
                            votes,
                            node_id as int,
                            j,
                        ) by {
                            assert(j == t || order::precedes(votes, t as int, j));
                        }
                        top = Some((node_id, av));
                    } else {
                        assert(order::precedes(votes, t as int, node_id as int));
                    }
                },
            }
        }
        match top {
            Some((node_id, _)) => {
                proof {
                    order::lemma_rank_of_first(votes, node_id as int);
                    order::law_ranks_are_a_bijection(votes, 0, node_id as int);
                }
                Some(node_id as u32)
            },
            None => None,
        }
    }

    /// Returns the `rank`-th creator, from 0, in the creator order.
    ///
    /// The order is total over all `MAX_NODES` slots, so `None` is returned only
    /// when `rank >= MAX_NODES`. Repeated linear scans, each of which looks for the
    /// first slot after the previous one.
    pub fn creator_at_rank(&self, rank: usize) -> (r: Option<u32>)
        ensures
            r == order::creator_at(self.votes(), rank as nat),
    {
        let ghost votes = self.votes();
        let mut cursor: Option<(u32, usize)> = None;
        let mut step: usize = 0;
        loop
            invariant
                votes == self.votes(),
                votes.len() == MAX_NODES,
                step <= rank,
                match cursor {
                    None => step == 0,
                    Some((vote, s)) => {
                        &&& s < MAX_NODES
                        &&& vote == votes[s as int]
                        &&& order::rank_of(votes, s as int) + 1 == step
                    },
                },
            decreases rank - step,
        {
            let mut best: Option<(u32, usize)> = None;
            for node_id in 0..MAX_NODES
                invariant
                    votes == self.votes(),
                    votes.len() == MAX_NODES,
                    cursor matches Some((vote, s)) ==> s < MAX_NODES && vote == votes[s as int],
                    match best {
                        None => forall|j: int|
                            0 <= j < node_id ==> !#[trigger] Self::after(votes, cursor, j),
                        Some((vote, t)) => {
                            &&& t < node_id
                            &&& vote == votes[t as int]
                            &&& Self::after(votes, cursor, t as int)
                            &&& forall|j: int|
                                0 <= j < node_id && Self::after(votes, cursor, j) ==> j == t
                                    || #[trigger] order::precedes(votes, t as int, j)
                        },
                    },
            {
                let key: (u32, usize) = (self.accumulated_vote[node_id], node_id);
                let candidate: bool = match cursor {
                    None => true,
                    Some(cur) => key.0 < cur.0 || (key.0 == cur.0 && key.1 > cur.1),
                };
                assert(candidate == Self::after(votes, cursor, node_id as int));
                if candidate {
                    match best {
                        None => {
                            best = Some(key);
                        },
                        Some(b) => {
                            if key.0 > b.0 {
                                assert forall|j: int|
                                    0 <= j < node_id && Self::after(
                                        votes,
                                        cursor,
                                        j,
                                    ) implies #[trigger] order::precedes(
                                    votes,
                                    node_id as int,
                                    j,
                                ) by {
                                    assert(j == b.1 || order::precedes(
                                        votes,
                                        b.1 as int,
                                        j,
                                    ));
                                }
                                best = Some(key);
                            }
                        },
                    }
                }
            }
            match best {
                None => {
                    proof {
                        match cursor {
                            None => {
                                if MAX_NODES > 0 {
                                    assert(Self::after(votes, cursor, 0));
                                }
                            },
                            Some((_, s)) => {
                                assert forall|j: int|
                                    0 <= j < votes.len() implies !#[trigger] order::precedes(
                                    votes,
                                    s as int,
                                    j,
                                ) by {
                                    assert(!Self::after(votes, cursor, j));
                                }
                                order::lemma_rank_of_last(votes, s as int);
                            },
                        }
                    }
                    return None;
                },
                Some((_, t)) => {
                    proof {
                        match cursor {
                            None => {
                                order::lemma_rank_of_first(votes, t as int);
                            },
                            Some((_, s)) => {
                                order::lemma_rank_of_next(votes, s as int, t as int);
                            },
                        }
                        order::law_ranks_are_a_bijection(votes, 0, t as int);
                        order::law_rank_follows_order(votes, t as int, t as int);
                    }
                    if step == rank {
                        return Some(t as u32);
                    }
                    cursor = best;
                    step += 1;
                },
            }
        }
    }

    /// Whether slot `j` comes after the cursor's in the creator order.
    spec fn after(votes: Seq<u32>, cursor: Option<(u32, usize)>, j: int) -> bool {
        cursor matches Some((_, s)) ==> order::precedes(votes, s as int, j)
    }

    /// Returns whether `node_id` is among the first `rank` creators of the creator
    /// order. `rank == 0` denotes an empty band; node ids outside the roster are in
    /// no band.
    ///
    /// Single scan with early exit: `node_id` is in the band iff fewer than `rank`
    /// nodes precede it.
    pub fn is_creator_within_rank(&self, rank: usize, node_id: u32) -> (r: bool)
        ensures
            r == order::within_band(self.votes(), node_id as int, rank as nat),
    {
        let idx: usize = node_id as usize;
        if rank == 0 || idx >= MAX_NODES {
            return false;
        }
        let ghost votes = self.votes();
        let ghost ahead_of = order::ahead_of(votes, idx as int);
        let own_vote: u32 = self.accumulated_vote[idx];
        let mut ahead: usize = 0;
        for other_id in 0..MAX_NODES
            invariant
                votes == self.votes(),
                votes.len() == MAX_NODES,
                idx < MAX_NODES,
                idx == node_id,
                own_vote == votes[idx as int],
                ahead_of == order::ahead_of(votes, idx as int),
                ahead == count::count(other_id as nat, ahead_of),
                ahead < rank,
        {
            assert(ahead_of(other_id as int) == order::precedes(
                votes,
                other_id as int,
                idx as int,
            ));
            let other_vote: u32 = self.accumulated_vote[other_id];
            if other_vote > own_vote || (other_vote == own_vote && other_id < idx) {
                ahead += 1;
                if ahead >= rank {
                    proof {
                        count::lemma_count_grows(
                            (other_id + 1) as nat,
                            votes.len(),
                            ahead_of,
                        );
                    }
                    return false;
                }
            }
        }
        true
    }

    /// Sets a node's accumulated vote directly; a node outside the roster is
    /// ignored. Meant for tests: `seed_from_balance_block` is the runtime seeding
    /// path.
    pub fn set_accumulated_vote_for_test(&mut self, node_id: u32, value: u32)
        ensures
            final(self).params() == old(self).params(),
            final(self).votes() == if node_id < MAX_NODES {
                old(self).votes().update(node_id as int, value)
            } else {
                old(self).votes()
            },
    {
        proof {
            use_type_invariant(&*self);
        }
        let idx: usize = node_id as usize;
        if idx < MAX_NODES {
            self.accumulated_vote[idx] = value;
        }
    }
}

} // verus!
