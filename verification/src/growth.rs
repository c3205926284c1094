//! The anti-capture interest rule: how one accumulated vote grows per block,
//! and which value it grew from.

use vstd::prelude::*;

use crate::error::VoteEngineError;

verus! {

/// The two chain parameters that fix the interest rule.
pub struct VoteParams {
    /// Denominator of the interest rate, cap on the interest of one block, and
    /// worth of one vote credit.
    pub scale: u16,
    /// Numerator of the interest rate.
    pub interest: u8,
}

impl VoteParams {
    /// The scale is a divisor, so it must not be zero.
    pub open spec fn valid(self) -> bool {
        self.scale > 0
    }

    /// Interest on `av` before the cap: `floor(av * interest / scale)`.
    pub open spec fn raw_bump(self, av: nat) -> nat {
        av * (self.interest as nat) / (self.scale as nat)
    }

    /// Interest that `av` earns in one block: the raw interest, but never more
    /// than `scale`.
    pub open spec fn bump(self, av: nat) -> nat {
        let raw = self.raw_bump(av);
        if raw <= self.scale {
            raw
        } else {
            self.scale as nat
        }
    }

    /// What `av` becomes after one block's interest.
    pub open spec fn grown(self, av: nat) -> nat {
        av + self.bump(av)
    }

    /// Smallest `av` whose raw interest reaches the cap, in closed form: the scale
    /// squared over the interest, rounded up. `u32::MAX` when no interest is paid
    /// at all.
    pub open spec fn cap_threshold(self) -> nat {
        if self.interest == 0 {
            u32::MAX as nat
        } else {
            ((self.scale * self.scale + self.interest - 1) / (self.interest as int)) as nat
        }
    }

    /// The value that one block's interest turned into `after`, if there is one.
    pub open spec fn ungrown(self, after: nat) -> Option<nat> {
        if exists|before: nat| #[trigger] self.grown(before) == after {
            Some(choose|before: nat| #[trigger] self.grown(before) == after)
        } else {
            None
        }
    }

    /// Growth on `u32` votes: the grown vote, or an overflow where it is no `u32`.
    pub open spec fn grow(self, av: u32) -> Result<u32, VoteEngineError> {
        if self.grown(av as nat) <= u32::MAX {
            Ok(self.grown(av as nat) as u32)
        } else {
            Err(VoteEngineError::AccumulatedVoteOverflow)
        }
    }

    /// Growth taken back on `u32` votes: the vote that grew into `after`, or that
    /// `after` is unreachable.
    pub open spec fn ungrow(self, after: u32) -> Result<u32, VoteEngineError> {
        match self.ungrown(after as nat) {
            Some(before) => Ok(before as u32),
            None => Err(VoteEngineError::UnreachableInterestState),
        }
    }
}

/// Below the cap threshold the raw interest is paid, from it on the scale.
pub(crate) proof fn lemma_cap_threshold(p: VoteParams, av: nat)
    requires
        p.valid(),
        p.interest > 0,
    ensures
        0 < p.cap_threshold() <= p.scale * p.scale,
        av >= p.cap_threshold() <==> p.raw_bump(av) >= p.scale,
        av >= p.cap_threshold() ==> p.bump(av) == p.scale,
        av < p.cap_threshold() ==> {
            &&& av * p.interest < p.scale * p.scale
            &&& p.bump(av) == av * p.interest / p.scale as int
        },
{
    let s = p.scale as int;
    let k = p.interest as int;
    let a = av as int;
    let c = p.cap_threshold() as int;
    assert(s * s >= 1) by (nonlinear_arith)
        requires
            s >= 1,
    ;
    assert(c * k >= s * s && (c - 1) * k < s * s) by (nonlinear_arith)
        requires
            c == (s * s + k - 1) / k,
            k >= 1,
    ;
    assert(0 < c <= s * s) by (nonlinear_arith)
        requires
            c * k >= s * s,
            (c - 1) * k < s * s,
            s * s >= 1,
            k >= 1,
    ;
    if a >= c {
        assert(a * k / s >= s) by (nonlinear_arith)
            requires
                a >= c,
                c * k >= s * s,
                k >= 1,
                s >= 1,
        ;
    } else {
        assert(a * k < s * s) by (nonlinear_arith)
            requires
                a <= c - 1,
                (c - 1) * k < s * s,
                k >= 1,
        ;
        assert(a * k / s < s) by (nonlinear_arith)
            requires
                0 <= a * k < s * s,
                s >= 1,
        ;
    }
}

/// The interest of a block never exceeds the scale, never shrinks as the vote
/// rises, and is nothing on nothing.
pub proof fn law_bump_is_capped_and_monotone(p: VoteParams, a: nat, b: nat)
    requires
        p.valid(),
        a <= b,
    ensures
        p.bump(a) <= p.bump(b) <= p.scale,
        p.bump(0) == 0,
{
    let s = p.scale as int;
    let k = p.interest as int;
    assert(a * k / s <= b * k / s) by (nonlinear_arith)
        requires
            0 <= a <= b,
            k >= 0,
            s >= 1,
    ;
    assert(0 * k / s == 0) by (nonlinear_arith)
        requires
            s >= 1,
    ;
}

/// Growth never lowers a vote, raises it by at most the scale, and is strictly
/// increasing: of two different votes the larger one stays the larger.
pub proof fn law_growth_is_strictly_increasing(p: VoteParams, a: nat, b: nat)
    requires
        p.valid(),
        a < b,
    ensures
        p.grown(a) < p.grown(b),
        a <= p.grown(a) <= a + p.scale,
{
    law_bump_is_capped_and_monotone(p, a, b);
}

/// A vote of zero earns nothing, and with an interest of zero no vote does.
pub proof fn law_growth_fixed_points(p: VoteParams, av: nat)
    requires
        p.valid(),
    ensures
        p.grown(0) == 0,
        p.interest == 0 ==> p.grown(av) == av,
{
    law_bump_is_capped_and_monotone(p, 0, av);
    if p.interest == 0 {
        assert(av * 0nat == 0);
        assert(0nat / (p.scale as nat) == 0) by (nonlinear_arith)
            requires
                p.scale > 0,
        ;
    }
}

/// A grown vote has exactly one origin: taking the interest back off `grown(av)`
/// gives `av` and nothing else.
pub proof fn law_growth_has_a_unique_origin(p: VoteParams, av: nat)
    requires
        p.valid(),
    ensures
        p.ungrown(p.grown(av)) == Some(av),
        forall|other: nat| #[trigger] p.grown(other) == p.grown(av) ==> other == av,
{
    assert forall|other: nat| #[trigger] p.grown(other) == p.grown(av) implies other == av by {
        if other < av {
            law_growth_is_strictly_increasing(p, other, av);
        } else if av < other {
            law_growth_is_strictly_increasing(p, av, other);
        }
    }
}

/// Whatever `ungrown` finds does grow into the value it was asked about.
pub proof fn law_ungrown_grows_back(p: VoteParams, after: nat)
    ensures
        p.ungrown(after) matches Some(before) ==> p.grown(before) == after,
{
}

/// The origin of `after` lies between `after - bump(after)` and
/// `after - bump(lo)` for every lower bound `lo` of it.
pub proof fn law_origin_is_bracketed(p: VoteParams, before: nat, lo: nat)
    requires
        p.valid(),
        lo <= before,
    ensures
        p.grown(before) - p.bump(p.grown(before)) <= before,
        before <= p.grown(before) - p.bump(lo),
{
    law_bump_is_capped_and_monotone(p, before, p.grown(before));
    law_bump_is_capped_and_monotone(p, lo, before);
}

/// The cap threshold is the smallest vote whose raw interest reaches the scale:
/// a vote is at or above it exactly when its raw interest is at or above the
/// scale.
pub proof fn law_cap_threshold_is_where_interest_reaches_the_scale(p: VoteParams, av: nat)
    requires
        p.valid(),
        p.interest > 0,
    ensures
        av >= p.cap_threshold() <==> av * p.interest / p.scale as int >= p.scale,
        p.bump(av) == p.scale <==> av >= p.cap_threshold(),
{
    lemma_cap_threshold(p, av);
}

/// Growth on `u32` votes is strictly increasing as far as it fits, and the votes
/// that overflow are those above some point: where a vote can grow, so can every
/// smaller one, and into less.
pub proof fn law_fitting_growth_is_strictly_increasing(p: VoteParams, a: u32, b: u32)
    requires
        p.valid(),
        a < b,
    ensures
        p.grow(b) matches Ok(y) ==> (p.grow(a) matches Ok(x) && x < y),
        p.grow(a) is Err ==> p.grow(b) is Err,
{
    law_growth_is_strictly_increasing(p, a as nat, b as nat);
}

/// Growing and taking the growth back are mutually inverse on `u32` votes: `v`
/// grows into `w` exactly when taking the interest off `w` gives `v`.
pub proof fn law_ungrow_is_the_inverse_of_grow(p: VoteParams, v: u32, w: u32)
    requires
        p.valid(),
    ensures
        p.grow(v) == Ok::<u32, VoteEngineError>(w) <==> p.ungrow(w) == Ok::<u32, VoteEngineError>(
            v,
        ),
{
    law_growth_has_a_unique_origin(p, v as nat);
    law_ungrown_grows_back(p, w as nat);
    if p.ungrown(w as nat) is Some {
        let origin = p.ungrown(w as nat)->0;
        law_growth_is_strictly_increasing(p, origin, origin + 1);
    }
}

/// One block's interest in plain numbers: a vote `av` becomes
/// `av + min(floor(av * interest / scale), scale)`. So what it gains, times the
/// scale, is the largest such multiple within `av * interest`, unless the gain is
/// the scale itself.
pub proof fn law_growth_in_numbers(p: VoteParams, av: nat)
    requires
        p.scale > 0,
    ensures
        p.grown(av) == av + if av * p.interest / p.scale as int <= p.scale {
            av * p.interest / p.scale as int
        } else {
            p.scale as int
        },
        p.bump(av) == p.grown(av) - av,
        p.raw_bump(av) == av * p.interest / p.scale as int,
        av <= p.grown(av) <= av + p.scale,
        (p.grown(av) - av) * p.scale <= av * p.interest,
        p.grown(av) == av + p.scale || av * p.interest < (p.grown(av) - av + 1) * p.scale,
{
    let a = av as int;
    let s = p.scale as int;
    let k = p.interest as int;
    let raw = a * k / s;
    let gain = p.grown(av) - av;
    assert(raw >= 0 && raw * s <= a * k && a * k < (raw + 1) * s) by (nonlinear_arith)
        requires
            raw == a * k / s,
            a >= 0,
            k >= 0,
            s >= 1,
    ;
    assert(gain * s <= raw * s) by (nonlinear_arith)
        requires
            gain <= raw,
            s >= 1,
    ;
}

/// Growth on `u32` votes in plain numbers: `av` grows into `g` exactly when `g` is
/// `av + min(floor(av * interest / scale), scale)`, and overflows exactly when that
/// is no `u32`.
pub proof fn law_grow_in_numbers(p: VoteParams, av: u32, g: u32)
    requires
        p.scale > 0,
    ensures
        p.grow(av) == Ok::<u32, VoteEngineError>(g) <==> g == av + if av * p.interest
            / p.scale as int <= p.scale {
            av * p.interest / p.scale as int
        } else {
            p.scale as int
        },
        p.grow(av) == Err::<u32, VoteEngineError>(VoteEngineError::AccumulatedVoteOverflow)
            <==> av + (if av * p.interest / p.scale as int <= p.scale {
            av * p.interest / p.scale as int
        } else {
            p.scale as int
        }) > 0xffff_ffff,
{
    law_growth_in_numbers(p, av as nat);
}

/// Growth taken back in plain numbers: `after` came from `v` exactly when
/// `v + min(floor(v * interest / scale), scale)` is `after`, so that it is unreachable,
/// and nothing else, when no `u32` is such a `v`.
pub proof fn law_ungrow_in_numbers(p: VoteParams, after: u32, v: u32)
    requires
        p.scale > 0,
    ensures
        p.ungrow(after) == Ok::<u32, VoteEngineError>(v) <==> after == v + if v * p.interest
            / p.scale as int <= p.scale {
            v * p.interest / p.scale as int
        } else {
            p.scale as int
        },
        p.ungrow(after) matches Err(e) ==> e == VoteEngineError::UnreachableInterestState,
{
    law_grow_in_numbers(p, v, after);
    law_ungrow_is_the_inverse_of_grow(p, v, after);
}

/// Parameters are valid exactly when the scale is not zero, and without interest
/// there is no vote that the cap holds back.
pub proof fn law_parameters_in_numbers(p: VoteParams)
    ensures
        p.valid() <==> p.scale > 0,
        p.interest == 0 ==> p.cap_threshold() == 0xffff_ffff,
{
}

} // verus!
