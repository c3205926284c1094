//! The creator order: descending by accumulated vote, ties broken by ascending
//! node id.

use vstd::prelude::*;

verus! {

/// Whether slot `i` comes strictly before slot `j` in the creator order.
pub open spec fn precedes(votes: Seq<u32>, i: int, j: int) -> bool {
    votes[i] > votes[j] || (votes[i] == votes[j] && i < j)
}

/// The predicate "slot `i` comes strictly before slot `j`", in `i`.
pub open spec fn ahead_of(votes: Seq<u32>, j: int) -> spec_fn(int) -> bool {
    |i: int| precedes(votes, i, j)
}

/// The rank of slot `j`: how many slots come strictly before it.
pub open spec fn rank_of(votes: Seq<u32>, j: int) -> nat {
    crate::count::count(votes.len(), ahead_of(votes, j))
}

/// Whether slot `j` exists and has the given rank.
pub open spec fn has_rank(votes: Seq<u32>, j: int, rank: nat) -> bool {
    0 <= j < votes.len() && rank_of(votes, j) == rank
}

/// The slot of the given rank, `None` where the order has ended.
pub open spec fn slot_at(votes: Seq<u32>, rank: nat) -> Option<int> {
    if rank < votes.len() {
        Some(choose|j: int| has_rank(votes, j, rank))
    } else {
        None
    }
}

/// The node id of the slot of the given rank.
pub open spec fn creator_at(votes: Seq<u32>, rank: nat) -> Option<u32> {
    match slot_at(votes, rank) {
        Some(slot) => Some(slot as u32),
        None => None,
    }
}

/// Whether slot `j` is in the band of the first `band` slots of the order.
pub open spec fn within_band(votes: Seq<u32>, j: int, band: nat) -> bool {
    0 <= j < votes.len() && rank_of(votes, j) < band
}

/// The creator order is a strict total order on the slots.
pub proof fn law_order_is_total(votes: Seq<u32>, i: int, j: int, k: int)
    requires
        0 <= i < votes.len(),
        0 <= j < votes.len(),
        0 <= k < votes.len(),
    ensures
        !precedes(votes, i, i),
        i != j ==> (precedes(votes, i, j) <==> !precedes(votes, j, i)),
        precedes(votes, i, j) && precedes(votes, j, k) ==> precedes(votes, i, k),
{
}

/// Ranks follow the order: a slot that comes before another has the smaller rank,
/// and every rank is below the number of slots.
pub proof fn law_rank_follows_order(votes: Seq<u32>, i: int, j: int)
    requires
        0 <= i < votes.len(),
        0 <= j < votes.len(),
    ensures
        precedes(votes, i, j) <==> rank_of(votes, i) < rank_of(votes, j),
        rank_of(votes, i) < votes.len(),
{
    if precedes(votes, i, j) {
        lemma_precedes_lowers_rank(votes, i, j);
    } else if i != j {
        lemma_precedes_lowers_rank(votes, j, i);
    }
    let everyone = |x: int| true;
    assert(!ahead_of(votes, i)(i) && everyone(i));
    crate::count::lemma_count_weaken(votes.len(), ahead_of(votes, i), everyone);
    crate::count::lemma_count_bound(votes.len(), everyone);
}

proof fn lemma_precedes_lowers_rank(votes: Seq<u32>, i: int, j: int)
    requires
        0 <= i < votes.len(),
        0 <= j < votes.len(),
        precedes(votes, i, j),
    ensures
        rank_of(votes, i) < rank_of(votes, j),
{
    let f = ahead_of(votes, i);
    let g = ahead_of(votes, j);
    assert(g(i) && !f(i));
    crate::count::lemma_count_weaken(votes.len(), f, g);
}

/// No two slots share a rank.
pub proof fn law_rank_is_unique(votes: Seq<u32>, i: int, j: int)
    requires
        0 <= i < votes.len(),
        0 <= j < votes.len(),
        rank_of(votes, i) == rank_of(votes, j),
    ensures
        i == j,
{
    law_rank_follows_order(votes, i, j);
    law_rank_follows_order(votes, j, i);
}

/// A slot that comes before all others has rank zero.
pub(crate) proof fn lemma_rank_of_first(votes: Seq<u32>, t: int)
    requires
        0 <= t < votes.len(),
        forall|j: int| 0 <= j < votes.len() ==> j == t || #[trigger] precedes(votes, t, j),
    ensures
        has_rank(votes, t, 0),
{
    assert forall|i: int| 0 <= i < votes.len() implies !#[trigger] ahead_of(votes, t)(i) by {
        assert(i == t || precedes(votes, t, i));
    }
    crate::count::lemma_count_bound(votes.len(), ahead_of(votes, t));
}

/// The first slot after `s` has the next rank.
pub(crate) proof fn lemma_rank_of_next(votes: Seq<u32>, s: int, t: int)
    requires
        0 <= s < votes.len(),
        0 <= t < votes.len(),
        precedes(votes, s, t),
        forall|j: int|
            0 <= j < votes.len() && precedes(votes, s, j) ==> j == t || #[trigger] precedes(
                votes,
                t,
                j,
            ),
    ensures
        has_rank(votes, t, rank_of(votes, s) + 1),
{
    let f = ahead_of(votes, s);
    let g = ahead_of(votes, t);
    assert forall|i: int| 0 <= i < votes.len() && i != s implies #[trigger] f(i) == g(i) by {
        if precedes(votes, s, i) {
            assert(i == t || precedes(votes, t, i));
        }
    }
    crate::count::lemma_count_one_more(votes.len(), f, g, s);
}

/// A slot with none after it has the highest rank.
pub(crate) proof fn lemma_rank_of_last(votes: Seq<u32>, s: int)
    requires
        0 <= s < votes.len(),
        forall|j: int| 0 <= j < votes.len() ==> !#[trigger] precedes(votes, s, j),
    ensures
        rank_of(votes, s) + 1 == votes.len(),
{
    let f = ahead_of(votes, s);
    let everyone = |x: int| true;
    assert forall|i: int| 0 <= i < votes.len() && i != s implies #[trigger] f(i) == everyone(i) by {
        assert(!precedes(votes, s, i));
    }
    crate::count::lemma_count_one_more(votes.len(), f, everyone, s);
    crate::count::lemma_count_bound(votes.len(), everyone);
}

/// Among the slots below `n` that satisfy `f`, one comes first.
proof fn lemma_first_among(votes: Seq<u32>, n: nat, f: spec_fn(int) -> bool) -> (t: Option<int>)
    requires
        n <= votes.len(),
    ensures
        match t {
            Some(t) => {
                &&& 0 <= t < n
                &&& f(t)
                &&& forall|j: int|
                    0 <= j < n && f(j) ==> j == t || #[trigger] precedes(votes, t, j)
            },
            None => forall|j: int| 0 <= j < n ==> !#[trigger] f(j),
        },
    decreases n,
{
    if n == 0 {
        None
    } else {
        match lemma_first_among(votes, (n - 1) as nat, f) {
            None => if f(n - 1) {
                Some(n - 1)
            } else {
                None
            },
            Some(t) => if f(n - 1) && precedes(votes, n - 1, t) {
                assert forall|j: int| 0 <= j < n && f(j) implies j == n - 1 || #[trigger] precedes(
                    votes,
                    n - 1,
                    j,
                ) by {
                    assert(j == n - 1 || j == t || precedes(votes, t, j));
                }
                Some(n - 1)
            } else {
                Some(t)
            },
        }
    }
}

/// Every rank below the number of slots is taken.
proof fn lemma_rank_is_taken(votes: Seq<u32>, rank: nat)
    requires
        rank < votes.len(),
    ensures
        exists|j: int| has_rank(votes, j, rank),
    decreases rank,
{
    if rank == 0 {
        let f = |x: int| true;
        let t = lemma_first_among(votes, votes.len(), f);
        assert(f(0));
        lemma_rank_of_first(votes, t->0);
    } else {
        let previous: nat = (rank - 1) as nat;
        lemma_rank_is_taken(votes, previous);
        let s = choose|j: int| has_rank(votes, j, previous);
        let f = |x: int| precedes(votes, s, x);
        match lemma_first_among(votes, votes.len(), f) {
            Some(t) => {
                lemma_rank_of_next(votes, s, t);
            },
            None => {
                assert forall|j: int| 0 <= j < votes.len() implies !#[trigger] precedes(
                    votes,
                    s,
                    j,
                ) by {
                    assert(!f(j));
                }
                lemma_rank_of_last(votes, s);
            },
        }
    }
}

/// Ranks and slots correspond one to one: the slot at a rank has that rank, and
/// the slot at a slot's rank is that slot. The order ends after as many ranks as
/// there are slots.
pub proof fn law_ranks_are_a_bijection(votes: Seq<u32>, rank: nat, slot: int)
    ensures
        slot_at(votes, rank) is None <==> rank >= votes.len(),
        slot_at(votes, rank) matches Some(s) ==> has_rank(votes, s, rank),
        0 <= slot < votes.len() ==> slot_at(votes, rank_of(votes, slot)) == Some(slot),
{
    if rank < votes.len() {
        lemma_rank_is_taken(votes, rank);
    }
    if 0 <= slot < votes.len() {
        law_rank_follows_order(votes, slot, slot);
        assert(has_rank(votes, slot, rank_of(votes, slot)));
        let found = slot_at(votes, rank_of(votes, slot))->0;
        law_rank_is_unique(votes, found, slot);
    }
}

/// The slot of rank zero holds the highest vote, and of the slots that hold it
/// has the lowest id.
pub proof fn law_first_slot_is_the_top(votes: Seq<u32>, top: int, j: int)
    requires
        slot_at(votes, 0) == Some(top),
        0 <= j < votes.len(),
    ensures
        0 <= top < votes.len(),
        votes[j] <= votes[top],
        votes[j] == votes[top] ==> top <= j,
{
    law_ranks_are_a_bijection(votes, 0, j);
    law_rank_follows_order(votes, j, top);
}

/// A node with a higher vote ranks before one with a lower vote, whatever their
/// ids; so zero-vote nodes come after all others. Among equal votes, the
/// zero-vote tail included, the lower id ranks first.
pub proof fn law_votes_then_ids_decide_rank(votes: Seq<u32>, i: int, j: int)
    requires
        0 <= i < votes.len(),
        0 <= j < votes.len(),
    ensures
        votes[i] > votes[j] ==> rank_of(votes, i) < rank_of(votes, j),
        votes[i] == votes[j] && i < j ==> rank_of(votes, i) < rank_of(votes, j),
{
    law_rank_follows_order(votes, i, j);
}

/// While all votes are equal, as they are before the first block, the order is
/// that of the node ids: the slot of each rank is the one with that number.
pub proof fn law_equal_votes_rank_by_id(votes: Seq<u32>, rank: nat)
    requires
        rank < votes.len(),
        forall|i: int, j: int|
            0 <= i < votes.len() && 0 <= j < votes.len() ==> votes[i] == votes[j],
    ensures
        slot_at(votes, rank) == Some(rank as int),
{
    let below = |i: int| i < rank;
    crate::count::lemma_count_agree(votes.len(), ahead_of(votes, rank as int), below);
    let head = |i: int| true;
    let tail = |i: int| false;
    let rest = (votes.len() - rank) as nat;
    crate::count::lemma_count_split(rank, rest, below, head, tail);
    crate::count::lemma_count_bound(rank, head);
    crate::count::lemma_count_bound(rest, tail);
    law_ranks_are_a_bijection(votes, rank, rank as int);
}

/// A band holds exactly the slots at the ranks below its width.
pub proof fn law_band_is_the_first_ranks(votes: Seq<u32>, slot: int, band: nat)
    ensures
        within_band(votes, slot, band) <==> exists|rank: nat|
            rank < band && #[trigger] slot_at(votes, rank) == Some(slot),
{
    law_ranks_are_a_bijection(votes, 0, slot);
    if within_band(votes, slot, band) {
        assert(slot_at(votes, rank_of(votes, slot)) == Some(slot));
    }
    assert forall|rank: nat|
        rank < band && #[trigger] slot_at(votes, rank) == Some(slot) implies within_band(
        votes,
        slot,
        band,
    ) by {
        law_ranks_are_a_bijection(votes, rank, slot);
    }
}

/// As long as every slot number is a `u32`, a node id is in the band of the
/// first `band` slots exactly when it is the creator at some rank below `band`.
pub proof fn law_band_is_the_first_creators(votes: Seq<u32>, node_id: u32, band: nat)
    requires
        votes.len() <= 0x1_0000_0000,
    ensures
        within_band(votes, node_id as int, band) <==> exists|rank: nat|
            rank < band && #[trigger] creator_at(votes, rank) == Some(node_id),
{
    law_band_is_the_first_ranks(votes, node_id as int, band);
    if within_band(votes, node_id as int, band) {
        let rank = choose|rank: nat|
            rank < band && #[trigger] slot_at(votes, rank) == Some(node_id as int);
        assert(creator_at(votes, rank) == Some(node_id));
    }
    assert forall|rank: nat|
        rank < band && #[trigger] creator_at(votes, rank) == Some(node_id) implies within_band(
        votes,
        node_id as int,
        band,
    ) by {
        law_ranks_are_a_bijection(votes, rank, 0);
        assert(slot_at(votes, rank) == Some(node_id as int));
    }
}

/// Bands are nested, the band of width zero is empty, the band of width one
/// holds the top slot alone, and a band as wide as the roster holds every slot.
pub proof fn law_bands_are_nested(votes: Seq<u32>, slot: int, narrow: nat, wide: nat)
    requires
        narrow <= wide,
    ensures
        within_band(votes, slot, narrow) ==> within_band(votes, slot, wide),
        !within_band(votes, slot, 0),
        within_band(votes, slot, 1) <==> slot_at(votes, 0) == Some(slot),
        within_band(votes, slot, votes.len()) <==> 0 <= slot < votes.len(),
{
    law_ranks_are_a_bijection(votes, 0, slot);
    if 0 <= slot < votes.len() {
        law_rank_follows_order(votes, slot, slot);
    }
}

/// Slots come at their ranks sorted: of the slots at two ranks, the one at the lower
/// rank has the higher vote, or the same vote and the lower number. Every slot comes
/// at some rank, and there are as many ranks as slots.
pub proof fn law_slots_are_sorted(
    votes: Seq<u32>,
    low: nat,
    high: nat,
    s: int,
    t: int,
    slot: int,
)
    requires
        slot_at(votes, low) == Some(s),
        slot_at(votes, high) == Some(t),
        low < high,
        0 <= slot < votes.len(),
    ensures
        0 <= s < votes.len(),
        0 <= t < votes.len(),
        votes[s] > votes[t] || (votes[s] == votes[t] && s < t),
        high < votes.len(),
        exists|rank: nat| rank < votes.len() && #[trigger] slot_at(votes, rank) == Some(slot),
{
    law_ranks_are_a_bijection(votes, low, s);
    law_ranks_are_a_bijection(votes, high, t);
    law_rank_follows_order(votes, s, t);
    law_ranks_are_a_bijection(votes, 0, slot);
    law_rank_follows_order(votes, slot, slot);
    assert(slot_at(votes, rank_of(votes, slot)) == Some(slot));
}

/// There is a creator at exactly the ranks below the number of slots, and its id is
/// the number of the slot at that rank.
pub proof fn law_creator_is_the_slot(votes: Seq<u32>, rank: nat)
    ensures
        creator_at(votes, rank) is Some <==> rank < votes.len(),
        slot_at(votes, rank) is Some <==> rank < votes.len(),
        slot_at(votes, rank) matches Some(s) ==> 0 <= s < votes.len() && creator_at(votes, rank)
            == Some(s as u32),
{
    law_ranks_are_a_bijection(votes, rank, 0);
}

/// As long as every slot number is a `u32`, the creators at the ranks are all nodes,
/// each once, sorted: of the creators at two ranks, the one at the lower rank has the
/// higher vote, or the same vote and the lower id.
pub proof fn law_creators_are_sorted(
    votes: Seq<u32>,
    low: nat,
    high: nat,
    x: u32,
    y: u32,
    node_id: u32,
)
    requires
        votes.len() <= 0x1_0000_0000,
        creator_at(votes, low) == Some(x),
        creator_at(votes, high) == Some(y),
        low < high,
        node_id < votes.len(),
    ensures
        x < votes.len(),
        y < votes.len(),
        votes[x as int] > votes[y as int] || (votes[x as int] == votes[y as int] && x < y),
        exists|rank: nat| rank < votes.len() && #[trigger] creator_at(votes, rank) == Some(node_id),
{
    law_creator_is_the_slot(votes, low);
    law_creator_is_the_slot(votes, high);
    law_slots_are_sorted(
        votes,
        low,
        high,
        slot_at(votes, low)->0,
        slot_at(votes, high)->0,
        node_id as int,
    );
    law_ranks_are_a_bijection(votes, 0, node_id as int);
    law_rank_follows_order(votes, node_id as int, node_id as int);
    assert(creator_at(votes, rank_of(votes, node_id as int)) == Some(node_id));
}

/// The first creator has the highest vote of all nodes and, of those that have it,
/// the lowest id.
pub proof fn law_top_creator_in_votes(votes: Seq<u32>, top: u32, j: int)
    requires
        votes.len() <= 0x1_0000_0000,
        creator_at(votes, 0) == Some(top),
        0 <= j < votes.len(),
    ensures
        top < votes.len(),
        votes[j] <= votes[top as int],
        votes[j] == votes[top as int] ==> top <= j,
{
    law_creator_is_the_slot(votes, 0);
    law_first_slot_is_the_top(votes, slot_at(votes, 0)->0, j);
}

/// A node outside a band has at least as many nodes before it as the band is wide,
/// and one inside has fewer: a node follows every node in a band that it is not in.
pub proof fn law_band_members_come_first(votes: Seq<u32>, i: int, j: int, band: nat)
    requires
        within_band(votes, i, band),
        0 <= j < votes.len(),
        !within_band(votes, j, band),
    ensures
        0 <= i < votes.len(),
        votes[i] > votes[j] || (votes[i] == votes[j] && i < j),
{
    law_rank_follows_order(votes, i, j);
}

} // verus!
