use std::slice;

use moonblokz_vote::{
    Block, NodeInfo, NonZeroU16, Payload, Transaction, VoteEngine, VoteEngineError,
};

const TEST_MAX_NODES: usize = 16;
const TEST_VOTE_SCALE: u32 = 1000;
const TEST_VOTE_INTEREST: u8 = 50; // 5% per block, capped at vote_scale

type TestEngine = VoteEngine<TEST_MAX_NODES>;

fn test_vote_scale() -> NonZeroU16 {
    NonZeroU16::new(TEST_VOTE_SCALE as u16).expect("test vote scale must be non-zero")
}

fn votes(engine: &TestEngine) -> Vec<u32> {
    (0..TEST_MAX_NODES).map(|i| engine.accumulated_vote_of(i as u32)).collect()
}

fn make_block_view(
    creator: u32,
    consumed_votes: u32,
    first_voted_node: u32,
    consumed_votes_from_first_voted_node: u32,
    txs: &[Transaction],
) -> Block<'_> {
    Block {
        creator,
        consumed_votes,
        first_voted_node,
        consumed_votes_from_first_voted_node,
        payload: Payload::Transactions(txs),
    }
}

fn make_empty_block(creator: u32) -> Block<'static> {
    make_block_view(creator, 0, 0, 0, &[])
}

fn make_balance_block(entries: &[NodeInfo]) -> Block<'_> {
    Block {
        creator: 0,
        consumed_votes: 0,
        first_voted_node: 0,
        consumed_votes_from_first_voted_node: 0,
        payload: Payload::Balances(entries),
    }
}

fn node_info(owner: u32, vote_count: u32) -> NodeInfo {
    NodeInfo { owner, vote_count }
}

fn nt_with_vote(vote: u32) -> Transaction {
    Transaction::Simple { vote }
}

#[test]
fn new_zero_state() {
    let engine = TestEngine::new(test_vote_scale(), TEST_VOTE_INTEREST);
    for i in 0..TEST_MAX_NODES {
        assert_eq!(engine.accumulated_vote_of(i as u32), 0);
    }
    // All-zero order is headed by node 0 (bootstrap rule).
    assert_eq!(engine.top_creator(), Some(0));
}

/// `init_in_place` must produce an engine indistinguishable from `new()`'s,
/// whatever stood in its place before.
#[test]
fn init_in_place_matches_new() {
    let a = TestEngine::new(test_vote_scale(), TEST_VOTE_INTEREST);

    let other_scale = NonZeroU16::new(7).expect("test vote scale must be non-zero");
    let mut b = TestEngine::new(other_scale, 3);
    for i in 0..TEST_MAX_NODES {
        b.set_accumulated_vote_for_test(i as u32, 100 + i as u32);
    }
    TestEngine::init_in_place(&mut b, test_vote_scale(), TEST_VOTE_INTEREST);

    for i in 0..TEST_MAX_NODES {
        assert_eq!(a.accumulated_vote_of(i as u32), b.accumulated_vote_of(i as u32));
        assert_eq!(a.accumulated_vote_of(i as u32), 0);
    }
    assert_eq!(a.vote_scale(), b.vote_scale());
    assert_eq!(a.vote_interest(), b.vote_interest());
    assert_eq!(a.cap_threshold(), b.cap_threshold());
    assert_eq!(b.top_creator(), Some(0));
}

#[test]
fn apply_block_step1_zero_stays_zero() {
    let mut engine = TestEngine::new(test_vote_scale(), TEST_VOTE_INTEREST);
    let block = make_empty_block(3);

    engine.apply_block(block).expect("apply block must succeed");

    for i in 0..TEST_MAX_NODES {
        assert_eq!(engine.accumulated_vote_of(i as u32), 0);
    }
}

#[test]
fn apply_block_step1_interest_then_creator_reset() {
    let mut engine = TestEngine::new(test_vote_scale(), TEST_VOTE_INTEREST);
    engine.set_accumulated_vote_for_test(2, 2000); // non-creator
    engine.set_accumulated_vote_for_test(5, 5000); // non-creator
    engine.set_accumulated_vote_for_test(3, 3000); // creator

    let block = make_empty_block(3); // creator = 3

    engine.apply_block(block).expect("apply block must succeed");

    // 2000 + min(floor(2000 * 50 / 1000), 1000) = 2100
    assert_eq!(engine.accumulated_vote_of(2), 2100);
    // 5000 + min(floor(5000 * 50 / 1000), 1000) = 5250
    assert_eq!(engine.accumulated_vote_of(5), 5250);
    // Creator also receives step-1 interest, then step 3 resets it to 0.
    assert_eq!(engine.accumulated_vote_of(3), 0);
}

#[test]
fn apply_block_interest_bump_is_capped_at_vote_scale() {
    let mut engine = TestEngine::new(test_vote_scale(), TEST_VOTE_INTEREST);
    // raw bump = floor(40_000 * 50 / 1000) = 2000, capped to vote_scale = 1000.
    engine.set_accumulated_vote_for_test(2, 40_000);

    let block = make_empty_block(3);

    engine.apply_block(block).expect("apply block must succeed");

    assert_eq!(engine.accumulated_vote_of(2), 41_000);
}

#[test]
fn apply_block_reports_overflow_instead_of_saturating() {
    let mut engine = TestEngine::new(test_vote_scale(), TEST_VOTE_INTEREST);
    engine.set_accumulated_vote_for_test(2, u32::MAX - 999);

    let block = make_empty_block(3);

    let result = engine.apply_block(block);

    assert_eq!(result, Err(VoteEngineError::AccumulatedVoteOverflow));
    assert_eq!(engine.accumulated_vote_of(2), u32::MAX - 999);
}

#[test]
fn apply_block_step2_vote_credit() {
    let mut engine = TestEngine::new(test_vote_scale(), TEST_VOTE_INTEREST);
    let nt = nt_with_vote(5);
    let block = make_block_view(3, 0, 0, 0, slice::from_ref(&nt));

    engine.apply_block(block).expect("apply block must succeed");

    assert_eq!(engine.accumulated_vote_of(5), TEST_VOTE_SCALE);
}

#[test]
fn apply_block_step2_node0_permanent_target() {
    // Creator = 3 (not 0), so step 3 does NOT wipe node 0.
    let mut engine = TestEngine::new(test_vote_scale(), TEST_VOTE_INTEREST);
    let nt = nt_with_vote(0);
    let block = make_block_view(3, 0, 0, 0, slice::from_ref(&nt));

    engine.apply_block(block).expect("apply block must succeed");

    assert_eq!(engine.accumulated_vote_of(0), TEST_VOTE_SCALE);
}

#[test]
fn apply_block_step2_zero_input_utxo_no_credit() {
    // Complex tx with `input_count == 0` (carry-forward) contributes no
    // vote credit even if `vote != 0`.
    let mut engine = TestEngine::new(test_vote_scale(), TEST_VOTE_INTEREST);
    let complex = Transaction::Complex { vote: 7, input_count: 0 };
    let block = make_block_view(3, 0, 0, 0, slice::from_ref(&complex));

    engine.apply_block(block).expect("apply block must succeed");

    assert_eq!(engine.accumulated_vote_of(7), 0);
}

#[test]
fn apply_block_step3_creator_reset() {
    let mut engine = TestEngine::new(test_vote_scale(), TEST_VOTE_INTEREST);
    engine.set_accumulated_vote_for_test(3, 8000);

    let block = make_empty_block(3);

    engine.apply_block(block).expect("apply block must succeed");

    assert_eq!(engine.accumulated_vote_of(3), 0);
}

#[test]
fn apply_block_creator_self_vote_does_not_retain() {
    // Creator = 3, tx votes for node 3 (self). Step 3 wipes step 2.
    let mut engine = TestEngine::new(test_vote_scale(), TEST_VOTE_INTEREST);
    let nt = nt_with_vote(3);
    let block = make_block_view(3, 0, 0, 0, slice::from_ref(&nt));

    engine.apply_block(block).expect("apply block must succeed");

    assert_eq!(engine.accumulated_vote_of(3), 0);
}

#[test]
fn apply_block_deviation_penalty() {
    // Deviation block: creator = 5, first_voted_node = 2,
    // consumed_votes_from_first_voted_node = 1. Node 2 reset.
    let mut engine = TestEngine::new(test_vote_scale(), TEST_VOTE_INTEREST);
    engine.set_accumulated_vote_for_test(2, 4000);

    let block = make_block_view(5, 0, 2, 1, &[]);

    engine.apply_block(block).expect("apply block must succeed");

    assert_eq!(engine.accumulated_vote_of(2), 0);
}

#[test]
fn apply_block_ordinary_block_no_deviation_penalty() {
    // Ordinary block: `consumed_votes_from_first_voted_node == 0` — no
    // deviation reset. Node 4 gets the interest bump instead.
    let mut engine = TestEngine::new(test_vote_scale(), TEST_VOTE_INTEREST);
    engine.set_accumulated_vote_for_test(4, 4000);

    let block = make_block_view(5, 0, 0, 0, &[]);

    engine.apply_block(block).expect("apply block must succeed");

    // 4000 + min(floor(4000 * 50 / 1000), 1000) = 4200
    assert_eq!(engine.accumulated_vote_of(4), 4200);
}

#[test]
fn apply_block_deterministic_replay() {
    // Two engines fed the identical block sequence must reach identical state.
    fn run() -> Vec<u32> {
        let mut engine = TestEngine::new(test_vote_scale(), TEST_VOTE_INTEREST);

        let nt1 = nt_with_vote(5);
        let block1 = make_block_view(3, 0, 0, 0, slice::from_ref(&nt1));
        engine
            .apply_block(block1)
            .expect("apply block must succeed");

        let nt2 = nt_with_vote(5);
        let block2 = make_block_view(7, 0, 0, 0, slice::from_ref(&nt2));
        engine
            .apply_block(block2)
            .expect("apply block must succeed");

        votes(&engine)
    }

    let a = run();
    let b = run();
    assert_eq!(a, b, "identical op sequence must yield identical state");
}

#[test]
fn accumulated_vote_of_out_of_bounds_returns_zero() {
    let engine = TestEngine::new(test_vote_scale(), TEST_VOTE_INTEREST);
    assert_eq!(engine.accumulated_vote_of(TEST_MAX_NODES as u32), 0);
    assert_eq!(engine.accumulated_vote_of(u32::MAX), 0);
}

#[test]
fn undo_reverses_step3_creator_reset() {
    // Post-interest value = 2000 + min(floor(2000 * 50 / 1000), 1000) = 2100.
    // The block header records that pre-reset value in `consumed_votes`.
    let mut engine = TestEngine::new(test_vote_scale(), TEST_VOTE_INTEREST);
    engine.set_accumulated_vote_for_test(3, 2000);

    let block = make_block_view(3, 2100, 0, 0, &[]);

    engine.apply_block(block).expect("apply block must succeed");
    assert_eq!(engine.accumulated_vote_of(3), 0);

    let block_for_undo = block;
    engine
        .undo_block(block_for_undo)
        .expect("undo block must succeed");

    assert_eq!(engine.accumulated_vote_of(3), 2000);
}

#[test]
fn undo_reverses_step2_vote_credit() {
    // Apply a block whose payload credits node 5 (via a transfer with
    // vote = 5). Undo must subtract the credit.
    let mut engine = TestEngine::new(test_vote_scale(), TEST_VOTE_INTEREST);
    let nt = nt_with_vote(5);
    let block = make_block_view(3, 0, 0, 0, slice::from_ref(&nt));

    engine.apply_block(block).expect("apply block must succeed");
    assert_eq!(engine.accumulated_vote_of(5), TEST_VOTE_SCALE);

    let block_for_undo = block;
    engine
        .undo_block(block_for_undo)
        .expect("undo block must succeed");

    assert_eq!(engine.accumulated_vote_of(5), 0);
}

#[test]
fn undo_reverses_step1_interest_values() {
    // Apply an empty block, then undo — nodes must be exactly restored.
    let mut engine = TestEngine::new(test_vote_scale(), TEST_VOTE_INTEREST);
    engine.set_accumulated_vote_for_test(2, 2000);
    engine.set_accumulated_vote_for_test(5, 5000);
    engine.set_accumulated_vote_for_test(7, 100);

    // Creator = 4 (uninhabited so step 3 is a no-op at av[4] = 0).
    let block = make_empty_block(4);

    engine.apply_block(block).expect("apply block must succeed");
    // Post-interest values:
    assert_eq!(engine.accumulated_vote_of(2), 2100);
    assert_eq!(engine.accumulated_vote_of(5), 5250);
    assert_eq!(engine.accumulated_vote_of(7), 105);

    let block_for_undo = block;
    engine
        .undo_block(block_for_undo)
        .expect("undo block must succeed");

    assert_eq!(engine.accumulated_vote_of(2), 2000);
    assert_eq!(engine.accumulated_vote_of(5), 5000);
    assert_eq!(engine.accumulated_vote_of(7), 100);
}

#[test]
fn undo_reverses_step1_interest_non_multiple_values() {
    // Values whose interest is not a whole number round-trip through the exact
    // monotonic inverse search.
    let mut engine = TestEngine::new(test_vote_scale(), TEST_VOTE_INTEREST);
    engine.set_accumulated_vote_for_test(2, 19); // bump 0, reachable after stays 19
    engine.set_accumulated_vote_for_test(5, 21); // bump 1, reachable after is 22

    let block = make_empty_block(4);

    engine.apply_block(block).expect("apply block must succeed");
    assert_eq!(engine.accumulated_vote_of(2), 19);
    assert_eq!(engine.accumulated_vote_of(5), 22);

    let block_for_undo = block;
    engine
        .undo_block(block_for_undo)
        .expect("undo block must succeed");

    assert_eq!(engine.accumulated_vote_of(2), 19);
    assert_eq!(engine.accumulated_vote_of(5), 21);
}

#[test]
fn undo_reverses_step1_interest_capped_region() {
    // cap_threshold = ceil(1000^2 / 50) = 20_000 with the test params.
    // Covers the capped linear region (fast-path inverse), the exact
    // fast-path boundary (`after == cap_threshold + vote_scale`), and a
    // just-below-threshold value that must take the binary-search path.
    let mut engine = TestEngine::new(test_vote_scale(), TEST_VOTE_INTEREST);
    engine.set_accumulated_vote_for_test(2, 20_000); // at threshold: bump capped to 1000
    engine.set_accumulated_vote_for_test(5, 25_000); // inside capped region
    engine.set_accumulated_vote_for_test(7, 19_999); // below threshold: raw bump 999

    let block = make_empty_block(4);

    engine.apply_block(block).expect("apply block must succeed");
    assert_eq!(engine.accumulated_vote_of(2), 21_000);
    assert_eq!(engine.accumulated_vote_of(5), 26_000);
    assert_eq!(engine.accumulated_vote_of(7), 20_998);

    let block_for_undo = block;
    engine
        .undo_block(block_for_undo)
        .expect("undo block must succeed");

    assert_eq!(engine.accumulated_vote_of(2), 20_000);
    assert_eq!(engine.accumulated_vote_of(5), 25_000);
    assert_eq!(engine.accumulated_vote_of(7), 19_999);
}

#[test]
fn undo_handles_vote_interest_above_vote_scale() {
    // Degenerate config: vote_interest (255) > vote_scale (2), so
    // cap_threshold = ceil(2^2 / 255) = 1 and bump(1) = vote_scale = 2
    // exceeds the value itself. The search lower bound
    // `after - bump(after)` must saturate at zero instead of underflowing.
    let scale = NonZeroU16::new(2).expect("test vote scale must be non-zero");
    let mut engine = VoteEngine::<TEST_MAX_NODES>::new(scale, 255);

    // Reachable round trip: 1 -> 3 (bump capped at vote_scale) -> 1.
    engine.set_accumulated_vote_for_test(5, 1);
    let block = make_empty_block(4);
    engine.apply_block(block).expect("apply block must succeed");
    assert_eq!(engine.accumulated_vote_of(5), 3);

    let block_for_undo = block;
    engine
        .undo_block(block_for_undo)
        .expect("undo block must succeed");
    assert_eq!(engine.accumulated_vote_of(5), 1);

    // `after = 1` is unreachable (f(0) = 0, f(1) = 3): the search must
    // report it — without underflow panic on `after - bump(after)`.
    let block2 = make_empty_block(4);
    let result = engine.undo_block(block2);
    assert_eq!(result, Err(VoteEngineError::UnreachableInterestState));
}

#[test]
fn undo_rejects_unreachable_interest_state() {
    // With bump(x) = floor(x / 20), f(1959) = 2056 and f(1960) = 2058:
    // 2057 has no pre-image under the configured growth function, so the
    // interest rollback must report it instead of guessing a nearby value.
    let mut engine = TestEngine::new(test_vote_scale(), TEST_VOTE_INTEREST);
    engine.set_accumulated_vote_for_test(2, 2057);

    let block = make_empty_block(4);
    let block_for_undo = block;

    let result = engine.undo_block(block_for_undo);

    assert_eq!(result, Err(VoteEngineError::UnreachableInterestState));
}

#[test]
fn undo_unreachable_error_leaves_state_unchanged() {
    // av[5] = 2057 has no interest pre-image; av[2] = 5000 does. The
    // preflight must reject the block before any slot (including the
    // reachable av[2]) is rewritten.
    let mut engine = TestEngine::new(test_vote_scale(), TEST_VOTE_INTEREST);
    engine.set_accumulated_vote_for_test(2, 5000);
    engine.set_accumulated_vote_for_test(5, 2057);
    let pre_state = votes(&engine);

    let block = make_empty_block(4);

    let result = engine.undo_block(block);

    assert_eq!(result, Err(VoteEngineError::UnreachableInterestState));
    assert_eq!(
        votes(&engine), pre_state,
        "failed undo must not mutate state"
    );
}

#[test]
fn undo_underflow_error_leaves_state_unchanged() {
    // The block's payload credits node 5, but av[5] = 500 < vote_scale, so
    // the step-2 rollback underflows. Every slot must stay untouched.
    let mut engine = TestEngine::new(test_vote_scale(), TEST_VOTE_INTEREST);
    engine.set_accumulated_vote_for_test(2, 5000);
    engine.set_accumulated_vote_for_test(5, 500);
    let pre_state = votes(&engine);

    let nt = nt_with_vote(5);
    let block = make_block_view(3, 0, 0, 0, slice::from_ref(&nt));

    let result = engine.undo_block(block);

    assert_eq!(result, Err(VoteEngineError::AccumulatedVoteUnderflow));
    assert_eq!(
        votes(&engine), pre_state,
        "failed undo must not mutate state"
    );
}

#[test]
fn undo_reverses_deviation_penalty() {
    // Deviation block: creator = 5, first_voted_node = 3.
    // Pre-apply av[3] = 4000. Forward step 1 bumps to 4200 before step 4 wipes; that is the value
    // recorded in `consumed_votes_from_first_voted_node` (post-interest,
    // post-credit, pre-penalty).
    // Undo restores av[3] = 4200 (step 4 rollback), then step 1 reverse
    // pulls it back to 4000.
    let mut engine = TestEngine::new(test_vote_scale(), TEST_VOTE_INTEREST);
    engine.set_accumulated_vote_for_test(3, 4000);

    let block = make_block_view(5, 0, 3, 4200, &[]);

    engine.apply_block(block).expect("apply block must succeed");
    assert_eq!(engine.accumulated_vote_of(3), 0);

    let block_for_undo = block;
    engine
        .undo_block(block_for_undo)
        .expect("undo block must succeed");

    assert_eq!(engine.accumulated_vote_of(3), 4000);
}

#[test]
fn apply_undo_round_trip_multi_block() {
    // The exact monotonic inverse supports arbitrary reachable values across
    // multiple blocks, not only values that satisfy a divisibility invariant.
    let mut engine = TestEngine::new(test_vote_scale(), TEST_VOTE_INTEREST);
    engine.set_accumulated_vote_for_test(2, 8000);
    let pre_state = votes(&engine);

    // Block A: creator 4, empty.
    let block_a = make_empty_block(4);
    engine
        .apply_block(block_a)
        .expect("apply block must succeed");

    // Block B: creator 6, empty.
    let block_b = make_empty_block(6);
    engine
        .apply_block(block_b)
        .expect("apply block must succeed");

    // Block C: creator 8, empty.
    let block_c = make_empty_block(8);
    engine
        .apply_block(block_c)
        .expect("apply block must succeed");

    // Undo in reverse: C, B, A.
    let block_c_undo = block_c;
    engine
        .undo_block(block_c_undo)
        .expect("undo block must succeed");

    let block_b_undo = block_b;
    engine
        .undo_block(block_b_undo)
        .expect("undo block must succeed");

    let block_a_undo = block_a;
    engine
        .undo_block(block_a_undo)
        .expect("undo block must succeed");

    assert_eq!(
        votes(&engine), pre_state,
        "apply→undo round-trip must restore the pre-state"
    );
}

#[test]
fn seed_from_balance_block_populates_snapshots() {
    let mut engine = TestEngine::new(test_vote_scale(), TEST_VOTE_INTEREST);
    let entries = [
        node_info(5, 2000),
        node_info(7, 5000),
        node_info(11, 100),
    ];
    let block = make_balance_block(&entries);

    engine.seed_from_balance_block(block);

    assert_eq!(engine.accumulated_vote_of(5), 2000);
    assert_eq!(engine.accumulated_vote_of(7), 5000);
    assert_eq!(engine.accumulated_vote_of(11), 100);
    // Other slots untouched.
    for i in 0..TEST_MAX_NODES {
        if i == 5 || i == 7 || i == 11 {
            continue;
        }
        assert_eq!(engine.accumulated_vote_of(i as u32), 0, "slot {i} must remain zero");
    }
}

#[test]
fn seed_from_balance_block_ignores_non_balance_block() {
    // Pass a transaction block — `balances()` returns None so the seed is
    // a defensive no-op. Pre-existing state stays unchanged.
    let mut engine = TestEngine::new(test_vote_scale(), TEST_VOTE_INTEREST);
    engine.set_accumulated_vote_for_test(2, 4000);

    let block = make_empty_block(3);
    // Sanity: this is a transaction block, not a balance block.
    assert!(block.balances().is_none());

    engine.seed_from_balance_block(block);

    assert_eq!(engine.accumulated_vote_of(2), 4000);
}

#[test]
fn seed_from_balance_block_bounds_checks_owner() {
    // Owner id at TEST_MAX_NODES is out of bounds — must be silently
    // skipped without panicking, and in-bounds slots stay unchanged.
    let mut engine = TestEngine::new(test_vote_scale(), TEST_VOTE_INTEREST);
    engine.set_accumulated_vote_for_test(2, 4000);

    let entries = [
        node_info(TEST_MAX_NODES as u32, 9999),
        node_info(u32::MAX, 42),
    ];
    let block = make_balance_block(&entries);

    engine.seed_from_balance_block(block);

    // Other slots untouched (defensive skip).
    assert_eq!(engine.accumulated_vote_of(2), 4000);
    for i in 0..TEST_MAX_NODES {
        if i == 2 {
            continue;
        }
        assert_eq!(engine.accumulated_vote_of(i as u32), 0, "slot {i} must remain zero");
    }
}

#[test]
fn top_creator_all_zero_bootstrap_starts_at_node_zero() {
    // Bootstrap: every accumulated vote is zero, yet the network must be
    // able to start — the order degrades to pure ascending node id, so
    // node 0 (genesis) is the expected creator and low ids fill the band.
    let engine = TestEngine::new(test_vote_scale(), TEST_VOTE_INTEREST);
    assert_eq!(engine.top_creator(), Some(0));
    assert_eq!(engine.creator_at_rank(0), Some(0));
    assert_eq!(engine.creator_at_rank(1), Some(1));
    assert!(engine.is_creator_within_rank(1, 0));
    assert!(!engine.is_creator_within_rank(1, 1));
    assert!(engine.is_creator_within_rank(2, 1));
}

#[test]
fn top_creator_single_node_returns_that_node() {
    let mut engine = TestEngine::new(test_vote_scale(), TEST_VOTE_INTEREST);
    engine.set_accumulated_vote_for_test(5, 100);
    assert_eq!(engine.top_creator(), Some(5));
}

#[test]
fn top_creator_returns_highest_accumulated_vote() {
    let mut engine = TestEngine::new(test_vote_scale(), TEST_VOTE_INTEREST);
    engine.set_accumulated_vote_for_test(2, 100);
    engine.set_accumulated_vote_for_test(5, 300);
    engine.set_accumulated_vote_for_test(7, 200);
    assert_eq!(engine.top_creator(), Some(5));
}

#[test]
fn top_creator_ties_broken_by_ascending_node_id() {
    let mut engine = TestEngine::new(test_vote_scale(), TEST_VOTE_INTEREST);
    // Equal votes on nodes 2, 5, 11 — node 2 (lowest id) must win.
    engine.set_accumulated_vote_for_test(2, 500);
    engine.set_accumulated_vote_for_test(5, 500);
    engine.set_accumulated_vote_for_test(11, 500);
    assert_eq!(engine.top_creator(), Some(2));
}

#[test]
fn top_creator_ranks_nonzero_vote_above_zero_vote() {
    let mut engine = TestEngine::new(test_vote_scale(), TEST_VOTE_INTEREST);
    // Only node 9 is non-zero — it outranks every zero-vote node,
    // including the lower ids.
    engine.set_accumulated_vote_for_test(9, 42);
    assert_eq!(engine.top_creator(), Some(9));
}

#[test]
fn top_creator_tracks_state_after_apply_block() {
    let mut engine = TestEngine::new(test_vote_scale(), TEST_VOTE_INTEREST);
    engine.set_accumulated_vote_for_test(5, 200);
    engine.set_accumulated_vote_for_test(7, 100);
    assert_eq!(engine.top_creator(), Some(5));

    // Apply a block where node 5 is the creator — step 3 resets av[5] to 0.
    // After apply: av[5] = 0, av[7] = 105 (interest bump). Top becomes 7.
    let block = make_empty_block(5);
    engine.apply_block(block).expect("apply block must succeed");

    assert_eq!(engine.top_creator(), Some(7));
}

#[test]
fn top_creator_tracks_state_after_undo_block() {
    let mut engine = TestEngine::new(test_vote_scale(), TEST_VOTE_INTEREST);
    engine.set_accumulated_vote_for_test(3, 2000);
    engine.set_accumulated_vote_for_test(7, 100);
    assert_eq!(engine.top_creator(), Some(3));

    // Apply a block where node 3 is creator (resets av[3] to 0). Then
    // undo it — av[3] should be restored to 2000, and top_creator should
    // recompute back to 3.
    let block = make_block_view(3, 2100, 0, 0, &[]);
    engine.apply_block(block).expect("apply block must succeed");
    // After apply: av[3] = 0, av[7] = 105 → top = 7.
    assert_eq!(engine.top_creator(), Some(7));

    let block_for_undo = block;
    engine
        .undo_block(block_for_undo)
        .expect("undo block must succeed");

    // After undo: av[3] = 2000, av[7] = 100 → top = 3 again.
    assert_eq!(engine.top_creator(), Some(3));
}

#[test]
fn top_creator_tracks_state_after_seed_from_balance_block() {
    let mut engine = TestEngine::new(test_vote_scale(), TEST_VOTE_INTEREST);
    engine.set_accumulated_vote_for_test(2, 100);
    assert_eq!(engine.top_creator(), Some(2));

    // Seed a balance block that reseeds node 5 with a much larger vote —
    // top should reflect node 5 afterwards.
    let entries = [node_info(5, 9999)];
    let block = make_balance_block(&entries);
    engine.seed_from_balance_block(block);

    assert_eq!(engine.top_creator(), Some(5));
}

#[test]
fn creator_at_rank_matches_descending_order() {
    let mut engine = TestEngine::new(test_vote_scale(), TEST_VOTE_INTEREST);
    engine.set_accumulated_vote_for_test(2, 100);
    engine.set_accumulated_vote_for_test(5, 300);
    engine.set_accumulated_vote_for_test(7, 200);

    assert_eq!(engine.creator_at_rank(0), Some(5)); // vote 300
    assert_eq!(engine.creator_at_rank(1), Some(7)); // vote 200
    assert_eq!(engine.creator_at_rank(2), Some(2)); // vote 100
}

#[test]
fn creator_at_rank_covers_zero_vote_tail_and_ends_at_max_nodes() {
    let mut engine = TestEngine::new(test_vote_scale(), TEST_VOTE_INTEREST);
    engine.set_accumulated_vote_for_test(2, 100);
    engine.set_accumulated_vote_for_test(5, 300);
    engine.set_accumulated_vote_for_test(7, 200);
    // Ranks 0-2 are the non-zero nodes; the zero-vote tail follows in
    // ascending-id order (0, 1, 3, 4, ...).
    assert_eq!(engine.creator_at_rank(3), Some(0));
    assert_eq!(engine.creator_at_rank(4), Some(1));
    assert_eq!(engine.creator_at_rank(5), Some(3));
    // The order is total over all MAX_NODES slots and ends there.
    assert_eq!(engine.creator_at_rank(TEST_MAX_NODES - 1), Some(15));
    assert_eq!(engine.creator_at_rank(TEST_MAX_NODES), None);
}

#[test]
fn creator_at_rank_zero_matches_top_creator() {
    let mut engine = TestEngine::new(test_vote_scale(), TEST_VOTE_INTEREST);
    engine.set_accumulated_vote_for_test(2, 100);
    engine.set_accumulated_vote_for_test(5, 500);
    engine.set_accumulated_vote_for_test(9, 500); // tied with 5, higher id

    assert_eq!(engine.creator_at_rank(0), engine.top_creator());
    // And that shared answer is the lowest-id tie-winner among the top-vote group.
    assert_eq!(engine.creator_at_rank(0), Some(5));
}

#[test]
fn creator_at_rank_ties_broken_by_ascending_node_id() {
    let mut engine = TestEngine::new(test_vote_scale(), TEST_VOTE_INTEREST);
    engine.set_accumulated_vote_for_test(2, 500);
    engine.set_accumulated_vote_for_test(5, 500);
    engine.set_accumulated_vote_for_test(11, 500);

    // Descending vote (all equal), tie-break ascending node id.
    assert_eq!(engine.creator_at_rank(0), Some(2));
    assert_eq!(engine.creator_at_rank(1), Some(5));
    assert_eq!(engine.creator_at_rank(2), Some(11));
    // The zero-vote tail starts right after: lowest zero-vote id is 0.
    assert_eq!(engine.creator_at_rank(3), Some(0));
}

#[test]
fn is_creator_within_rank_top_band() {
    let mut engine = TestEngine::new(test_vote_scale(), TEST_VOTE_INTEREST);
    engine.set_accumulated_vote_for_test(2, 100);
    engine.set_accumulated_vote_for_test(5, 300);
    engine.set_accumulated_vote_for_test(7, 200);

    // rank 1 == "is the top creator".
    assert!(engine.is_creator_within_rank(1, 5));
    assert!(!engine.is_creator_within_rank(1, 7));
    assert!(!engine.is_creator_within_rank(1, 2));
}

#[test]
fn is_creator_within_rank_band_membership() {
    let mut engine = TestEngine::new(test_vote_scale(), TEST_VOTE_INTEREST);
    engine.set_accumulated_vote_for_test(2, 100);
    engine.set_accumulated_vote_for_test(5, 300);
    engine.set_accumulated_vote_for_test(7, 200);

    // rank 2 band = {5, 7}.
    assert!(engine.is_creator_within_rank(2, 5));
    assert!(engine.is_creator_within_rank(2, 7));
    assert!(!engine.is_creator_within_rank(2, 2));
    // rank 3 band covers all three eligible nodes.
    assert!(engine.is_creator_within_rank(3, 2));
}

#[test]
fn is_creator_within_rank_ties_follow_ascending_node_id() {
    let mut engine = TestEngine::new(test_vote_scale(), TEST_VOTE_INTEREST);
    engine.set_accumulated_vote_for_test(2, 500);
    engine.set_accumulated_vote_for_test(5, 500);
    engine.set_accumulated_vote_for_test(11, 500);

    // Order under the tie-break: 2, 5, 11.
    assert!(engine.is_creator_within_rank(1, 2));
    assert!(!engine.is_creator_within_rank(1, 5));
    assert!(engine.is_creator_within_rank(2, 5));
    assert!(!engine.is_creator_within_rank(2, 11));
    assert!(engine.is_creator_within_rank(3, 11));
}

#[test]
fn is_creator_within_rank_zero_vote_tail_and_out_of_bounds() {
    let mut engine = TestEngine::new(test_vote_scale(), TEST_VOTE_INTEREST);
    engine.set_accumulated_vote_for_test(5, 100);

    // Zero-vote nodes rank after the non-zero node in ascending-id
    // order: 5, then 0, 1, 2, 3, 4, 6, 7, 8, 9, ... — node 9 sits at
    // 0-based position 9, so it needs a band of at least 10.
    assert!(engine.is_creator_within_rank(TEST_MAX_NODES, 9));
    assert!(!engine.is_creator_within_rank(9, 9));
    assert!(engine.is_creator_within_rank(10, 9));
    // Out-of-bounds ids are never in any band.
    assert!(!engine.is_creator_within_rank(1, TEST_MAX_NODES as u32));
    assert!(!engine.is_creator_within_rank(1, u32::MAX));
}

#[test]
fn is_creator_within_rank_zero_rank_is_empty_band() {
    let mut engine = TestEngine::new(test_vote_scale(), TEST_VOTE_INTEREST);
    engine.set_accumulated_vote_for_test(5, 100);
    // rank 0 = empty band — even the top creator is outside it.
    assert!(!engine.is_creator_within_rank(0, 5));
}

#[test]
fn is_creator_within_rank_one_matches_top_creator_after_writes() {
    let mut engine = TestEngine::new(test_vote_scale(), TEST_VOTE_INTEREST);
    engine.set_accumulated_vote_for_test(5, 300);
    engine.set_accumulated_vote_for_test(7, 200);

    // rank-1 band membership == "is the top creator".
    assert!(engine.is_creator_within_rank(1, 5));
    assert!(!engine.is_creator_within_rank(1, 7));

    // A write that changes the top flips membership accordingly.
    engine.set_accumulated_vote_for_test(7, 400);
    assert!(engine.is_creator_within_rank(1, 7));
    assert!(!engine.is_creator_within_rank(1, 5));
}

#[test]
fn is_creator_within_rank_matches_creator_at_rank() {
    // Cross-check the O(N) membership scan against the rank walk:
    // membership in the top-k band ⇔ creator_at_rank(r) hits the node
    // for some r < k.
    let mut engine = TestEngine::new(test_vote_scale(), TEST_VOTE_INTEREST);
    engine.set_accumulated_vote_for_test(1, 50);
    engine.set_accumulated_vote_for_test(3, 500);
    engine.set_accumulated_vote_for_test(6, 500);
    engine.set_accumulated_vote_for_test(9, 200);

    for band in 0..=5usize {
        for node in 0..TEST_MAX_NODES {
            let expected = (0..band).any(|r| engine.creator_at_rank(r) == Some(node as u32));
            assert_eq!(
                engine.is_creator_within_rank(band, node as u32),
                expected,
                "band={band} node={node}"
            );
        }
    }
}
