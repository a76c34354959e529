//! Score arithmetic shared by every scoring pipeline: pure integer
//! computations on amounts, multipliers and schedules.

use vstd::prelude::*;

use crate::keyed::KeyedMap;
use crate::order::{key_before, sorted, sorted_lists};
use crate::sums::{collect, collect_next, collect_prefix_error, collect_values, total};
use crate::types::{
    Bps, EvidenceLevel, IdentityId, PoiwError, ReliabilityInputs, SettledWorkUnit, BPS_DENOMINATOR,
};

verus! {

/// Scoring parameters (v0 draft values).
#[derive(Debug, Clone, Copy, PartialEq, Eq, Structural)]
pub struct ScoreParams {
    /// Hard cap on the share of one epoch budget that any single payee may
    /// take. Pro-rata payout above this share is not created.
    pub payout_cap_share_bps: Bps,
}

impl Default for ScoreParams {
    fn default() -> (r: ScoreParams)
        ensures
            r.payout_cap_share_bps == 500,
    {
        ScoreParams { payout_cap_share_bps: 500 }
    }
}

impl ScoreParams {
    /// Whether the cap share is within 1..=10_000.
    pub open spec fn valid(&self) -> bool {
        1 <= self.payout_cap_share_bps <= 10_000
    }

    /// Checks the parameters.
    pub fn validate(&self) -> (r: Result<(), PoiwError>)
        ensures
            r == if self.valid() {
                Ok::<(), PoiwError>(())
            } else {
                Err(PoiwError::InvalidParameter("payout_cap_share_bps must be within 1..=10_000"))
            },
    {
        if self.payout_cap_share_bps == 0 || self.payout_cap_share_bps > 10_000 {
            return Err(
                PoiwError::InvalidParameter("payout_cap_share_bps must be within 1..=10_000"),
            );
        }
        Ok(())
    }
}

/// `value * numerator / denominator`, rounded down, or overflow where the
/// product does not fit.
pub open spec fn scaled(value: nat, numerator: nat, denominator: nat) -> Result<u128, PoiwError> {
    if value * numerator > u128::MAX {
        Err(PoiwError::Overflow)
    } else {
        Ok((value * numerator / denominator) as u128)
    }
}

/// Multiplies by a ratio, flooring.
pub(crate) fn scale(value: u128, numerator: u128, denominator: u128) -> (r: Result<u128, PoiwError>)
    requires
        denominator > 0,
    ensures
        r == scaled(value as nat, numerator as nat, denominator as nat),
{
    match value.checked_mul(numerator) {
        Some(product) => Ok(product / denominator),
        None => Err(PoiwError::Overflow),
    }
}

/// Multiply an amount by a basis-point factor, flooring.
pub fn apply_bps(value: u128, bps: Bps) -> (r: Result<u128, PoiwError>)
    ensures
        r == scaled(value as nat, bps as nat, 10_000),
{
    scale(value, bps as u128, BPS_DENOMINATOR)
}

/// A ratio of at most one never makes an amount larger.
pub proof fn scaled_within(value: nat, numerator: nat, denominator: nat)
    requires
        denominator > 0,
        numerator <= denominator,
    ensures
        value * numerator / denominator <= value,
{
    assert(value * numerator / denominator <= value) by (nonlinear_arith)
        requires
            denominator > 0,
            numerator <= denominator,
    ;
}

/// The score of a settled work unit: the smaller of the rate-card valuation
/// and the settled price, times the evidence multiplier, floored.
pub open spec fn unit_score(unit: SettledWorkUnit) -> nat {
    let base = if unit.rate_card_value <= unit.settled_price {
        unit.rate_card_value as nat
    } else {
        unit.settled_price as nat
    };
    base * unit.evidence.percent() / 100
}

/// Score of one settled work unit: the rate-card valuation capped by the
/// actually settled price, times the evidence multiplier. `Declared`
/// evidence yields exactly zero.
pub fn work_unit_score(unit: &SettledWorkUnit) -> (r: Result<u128, PoiwError>)
    ensures
        r == Ok::<u128, PoiwError>(unit_score(*unit) as u128),
        unit_score(*unit) <= 2 * u64::MAX,
{
    let base: u128 = if unit.rate_card_value <= unit.settled_price {
        unit.rate_card_value as u128
    } else {
        unit.settled_price as u128
    };
    let percent: u128 = unit.evidence.multiplier_percent() as u128;
    assert(base * percent <= u64::MAX * 200) by (nonlinear_arith)
        requires
            base <= u64::MAX,
            percent <= 200,
    ;
    scale(base, percent, 100)
}

/// `Declared` evidence scores zero whatever was settled.
pub proof fn declared_scores_zero(unit: SettledWorkUnit)
    requires
        unit.evidence == EvidenceLevel::Declared,
    ensures
        unit_score(unit) == 0,
{
}

/// No unit scores more than twice the settled price, nor more than twice its
/// rate-card value; a multiplier of one gives exactly the smaller of the two.
pub proof fn unit_score_bounds(unit: SettledWorkUnit)
    ensures
        unit_score(unit) <= 2 * unit.settled_price,
        unit_score(unit) <= 2 * unit.rate_card_value,
        unit.evidence == EvidenceLevel::Observed ==> unit_score(unit) == if unit.rate_card_value
            <= unit.settled_price {
            unit.rate_card_value
        } else {
            unit.settled_price
        },
{
    let base = if unit.rate_card_value <= unit.settled_price {
        unit.rate_card_value as nat
    } else {
        unit.settled_price as nat
    };
    let percent = unit.evidence.percent();
    assert(base * percent <= base * 200) by (nonlinear_arith)
        requires
            percent <= 200,
    ;
}

/// A better evidence level never lowers the score of the same settlement.
pub proof fn evidence_never_lowers(a: SettledWorkUnit, b: SettledWorkUnit)
    requires
        a.rate_card_value == b.rate_card_value,
        a.settled_price == b.settled_price,
        a.evidence.percent() <= b.evidence.percent(),
    ensures
        unit_score(a) <= unit_score(b),
{
    let base = if a.rate_card_value <= a.settled_price {
        a.rate_card_value as nat
    } else {
        a.settled_price as nat
    };
    let p = a.evidence.percent();
    let q = b.evidence.percent();
    assert(base * p <= base * q) by (nonlinear_arith)
        requires
            p <= q,
    ;
}

/// All three shares are within 10_000 basis points.
pub open spec fn reliability_valid(inputs: ReliabilityInputs) -> bool {
    &&& inputs.settlement_success_bps <= 10_000
    &&& inputs.dispute_loss_bps <= 10_000
    &&& inputs.sla_breach_bps <= 10_000
}

/// Failures, lost disputes and breaches together.
pub open spec fn reliability_penalty(inputs: ReliabilityInputs) -> int {
    (10_000 - inputs.settlement_success_bps) + inputs.dispute_loss_bps + inputs.sla_breach_bps
}

/// The reliability factor of a history.
pub open spec fn reliability_factor(history: Option<ReliabilityInputs>) -> Result<Bps, PoiwError> {
    match history {
        None => Ok(10_000),
        Some(inputs) => if !reliability_valid(inputs) {
            Err(PoiwError::InvalidParameter("reliability inputs must be within 10_000 bps"))
        } else if reliability_penalty(inputs) == 0 {
            Ok(11_000)
        } else if reliability_penalty(inputs) >= 5_000 {
            Ok(5_000)
        } else {
            Ok((10_000 - reliability_penalty(inputs)) as Bps)
        },
    }
}

/// Reliability factor in basis points, clamped to [5_000, 11_000].
///
/// No history means a neutral 10_000: a new identity starts at 1.0 and
/// seniority alone is never rewarded. A window with zero penalties earns
/// the 11_000 ceiling; penalties subtract from the 10_000 baseline down
/// to the 5_000 floor.
pub fn reliability_factor_bps(history: Option<ReliabilityInputs>) -> (r: Result<Bps, PoiwError>)
    ensures
        r == reliability_factor(history),
{
    let inputs: ReliabilityInputs = match history {
        Some(inputs) => inputs,
        None => {
            return Ok(10_000);
        },
    };
    if inputs.settlement_success_bps > 10_000 || inputs.dispute_loss_bps > 10_000
        || inputs.sla_breach_bps > 10_000 {
        return Err(PoiwError::InvalidParameter("reliability inputs must be within 10_000 bps"));
    }
    let failure: u32 = 10_000 - inputs.settlement_success_bps;
    let penalty: u32 = failure + inputs.dispute_loss_bps + inputs.sla_breach_bps;
    if penalty == 0 {
        return Ok(11_000);
    }
    let remaining: u32 = 10_000u32.saturating_sub(penalty);
    if remaining > 5_000 {
        Ok(remaining)
    } else {
        Ok(5_000)
    }
}

/// Every factor lies within [5_000, 11_000].
pub proof fn reliability_factor_range(history: Option<ReliabilityInputs>)
    requires
        reliability_factor(history) is Ok,
    ensures
        5_000 <= reliability_factor(history)->Ok_0 <= 11_000,
{
}

/// A larger penalty never earns a larger factor.
pub proof fn reliability_factor_monotone(a: ReliabilityInputs, b: ReliabilityInputs)
    requires
        reliability_valid(a),
        reliability_valid(b),
        reliability_penalty(a) <= reliability_penalty(b),
    ensures
        reliability_factor(Some(a)) is Ok,
        reliability_factor(Some(b)) is Ok,
        reliability_factor(Some(a))->Ok_0 >= reliability_factor(Some(b))->Ok_0,
{
}

/// A history with any penalty earns less than no history at all.
pub proof fn only_clean_history_is_rewarded(inputs: ReliabilityInputs)
    requires
        reliability_valid(inputs),
        reliability_penalty(inputs) > 0,
    ensures
        reliability_factor(Some(inputs))->Ok_0 < reliability_factor(None)->Ok_0,
{
}

/// The demand-coupled pool: `k` percent of the organic value, floored, but
/// no more than the schedule allows.
pub open spec fn pool_size(schedule_cap: u128, k_percent: u32, organic: u128) -> Result<
    u128,
    PoiwError,
> {
    match scaled(organic as nat, k_percent as nat, 100) {
        Err(e) => Err(e),
        Ok(coupled) => Ok(
            if coupled <= schedule_cap {
                coupled
            } else {
                schedule_cap
            },
        ),
    }
}

/// Demand-coupled epoch pool: the smaller of the schedule ceiling and
/// `k` (integer percent) times the trailing organic settled value.
pub fn epoch_pool(schedule_cap: u128, k_percent: u32, organic_settled_value: u128) -> (r: Result<
    u128,
    PoiwError,
>)
    ensures
        r == pool_size(schedule_cap, k_percent, organic_settled_value),
{
    match scale(organic_settled_value, k_percent as u128, 100) {
        Err(e) => Err(e),
        Ok(coupled) => if coupled <= schedule_cap {
            Ok(coupled)
        } else {
            Ok(schedule_cap)
        },
    }
}

/// The pool never exceeds the schedule, and an epoch without organic value
/// emits nothing.
pub proof fn pool_is_demand_bounded(schedule_cap: u128, k_percent: u32, organic: u128)
    ensures
        pool_size(schedule_cap, k_percent, 0) == Ok::<u128, PoiwError>(0),
        pool_size(schedule_cap, k_percent, organic) matches Ok(pool) ==> pool <= schedule_cap
            && 100 * pool <= organic * k_percent,
{
    assert(0 * (k_percent as nat) == 0) by (nonlinear_arith);
}

/// More organic value never means a smaller pool.
pub proof fn pool_grows_with_demand(schedule_cap: u128, k_percent: u32, a: u128, b: u128)
    requires
        a <= b,
        pool_size(schedule_cap, k_percent, b) is Ok,
    ensures
        pool_size(schedule_cap, k_percent, a) is Ok,
        pool_size(schedule_cap, k_percent, a)->Ok_0 <= pool_size(schedule_cap, k_percent, b)->Ok_0,
{
    assert(a * k_percent <= b * k_percent) by (nonlinear_arith)
        requires
            a <= b,
    ;
}

/// A maturation schedule: the immediate part plus the per-epoch stream.
/// The parts always sum exactly to the input total.
#[derive(Debug, Clone, PartialEq, Eq)]
pub struct MaturationSchedule {
    pub immediate: u128,
    pub stream: Vec<u128>,
}

/// The part of `streamed` that matures at position `index` of `epochs`: an
/// even share, and one more in the earliest epochs for the remainder.
pub open spec fn stream_part(streamed: nat, epochs: nat, index: int) -> nat {
    if index < streamed % epochs {
        streamed / epochs + 1
    } else {
        streamed / epochs
    }
}

/// The stream of `streamed` over `epochs`.
pub open spec fn stream_parts(streamed: nat, epochs: nat) -> Seq<u128> {
    Seq::new(epochs, |i: int| stream_part(streamed, epochs, i) as u128)
}

/// The error that a schedule's parameters give, if any.
pub open spec fn maturation_error(total: u128, immediate_bps: Bps, stream_epochs: u32) -> Option<
    PoiwError,
> {
    if immediate_bps > 10_000 {
        Some(PoiwError::InvalidParameter("immediate_bps must not exceed 10_000"))
    } else if stream_epochs == 0 {
        Some(PoiwError::InvalidParameter("stream_epochs must be at least 1"))
    } else if total * immediate_bps > u128::MAX {
        Some(PoiwError::Overflow)
    } else {
        None
    }
}

/// Split a reward into the immediate part and a deterministic stream:
/// `immediate_bps` now, the remainder spread over `stream_epochs`, with
/// division remainders assigned to the earliest stream epochs.
pub fn maturation_schedule(total: u128, immediate_bps: Bps, stream_epochs: u32) -> (r: Result<
    MaturationSchedule,
    PoiwError,
>)
    ensures
        r matches Ok(schedule) ==> maturation_error(total, immediate_bps, stream_epochs) is None
            && schedule.immediate == total * immediate_bps / 10_000 && schedule.stream@
            == stream_parts((total - schedule.immediate) as nat, stream_epochs as nat),
        r matches Err(e) ==> maturation_error(total, immediate_bps, stream_epochs) == Some(e),
{
    if immediate_bps > 10_000 {
        return Err(PoiwError::InvalidParameter("immediate_bps must not exceed 10_000"));
    }
    if stream_epochs == 0 {
        return Err(PoiwError::InvalidParameter("stream_epochs must be at least 1"));
    }
    let immediate: u128 = match apply_bps(total, immediate_bps) {
        Ok(v) => v,
        Err(e) => {
            return Err(e);
        },
    };
    proof {
        scaled_within(total as nat, immediate_bps as nat, 10_000);
    }
    let streamed: u128 = total - immediate;
    let per: u128 = streamed / stream_epochs as u128;
    let remainder: u128 = streamed % stream_epochs as u128;
    proof {
        part_fits(streamed as nat, stream_epochs as nat);
    }
    let mut stream: Vec<u128> = Vec::new();
    let mut index: u32 = 0;
    while index < stream_epochs
        invariant
            index <= stream_epochs,
            stream_epochs > 0,
            per == streamed as nat / stream_epochs as nat,
            remainder == streamed as nat % stream_epochs as nat,
            remainder > 0 ==> per < u128::MAX,
            stream@.len() == index,
            forall|j: int|
                0 <= j < index ==> #[trigger] stream@[j] == stream_part(
                    streamed as nat,
                    stream_epochs as nat,
                    j,
                ),
        decreases stream_epochs - index,
    {
        if (index as u128) < remainder {
            stream.push(per + 1);
        } else {
            stream.push(per);
        }
        index = index + 1;
    }
    assert(stream@ =~= stream_parts(streamed as nat, stream_epochs as nat));
    Ok(MaturationSchedule { immediate, stream })
}

/// An even share with one more still fits in the streamed amount.
proof fn part_fits(streamed: nat, epochs: nat)
    requires
        epochs > 0,
    ensures
        streamed % epochs > 0 ==> streamed / epochs + 1 <= streamed,
        streamed / epochs <= streamed,
        streamed == epochs * (streamed / epochs) + streamed % epochs,
{
    let q = streamed / epochs;
    let m = streamed % epochs;
    vstd::arithmetic::div_mod::lemma_fundamental_div_mod(streamed as int, epochs as int);
    assert(q <= epochs * q) by (nonlinear_arith)
        requires
            epochs > 0,
            q >= 0,
    ;
}

/// The stream sums exactly to the streamed amount, and never increases from
/// one epoch to a later one.
pub proof fn stream_conserves(streamed: nat, epochs: nat)
    requires
        epochs > 0,
        streamed <= u128::MAX,
    ensures
        total(stream_parts(streamed, epochs).map_values(|v: u128| v as nat)) == streamed,
        forall|i: int, j: int|
            0 <= i <= j < epochs ==> #[trigger] stream_parts(streamed, epochs)[i]
                >= #[trigger] stream_parts(streamed, epochs)[j],
{
    let parts = stream_parts(streamed, epochs).map_values(|v: u128| v as nat);
    part_fits(streamed, epochs);
    stream_prefix(streamed, epochs, epochs as int);
    assert(parts.take(epochs as int) =~= parts);
    let q = streamed / epochs;
    assert(epochs * q + streamed % epochs == streamed);
}

/// The first `n` parts sum to `n` even shares and the remainder so far.
proof fn stream_prefix(streamed: nat, epochs: nat, n: int)
    requires
        epochs > 0,
        streamed <= u128::MAX,
        0 <= n <= epochs,
    ensures
        total(stream_parts(streamed, epochs).map_values(|v: u128| v as nat).take(n)) == n * (
        streamed / epochs) + if n <= streamed % epochs {
            n
        } else {
            (streamed % epochs) as int
        },
    decreases n,
{
    let parts = stream_parts(streamed, epochs).map_values(|v: u128| v as nat);
    let q = streamed / epochs;
    if n == 0 {
        assert(0 * q == 0) by (nonlinear_arith);
    } else {
        part_fits(streamed, epochs);
        stream_prefix(streamed, epochs, n - 1);
        crate::sums::total_next(parts, n - 1);
        assert(parts[n - 1] == stream_part(streamed, epochs, n - 1));
        assert((n - 1) * q + q == n * q) by (nonlinear_arith);
    }
}

/// The immediate part and the stream together are exactly the total.
pub proof fn maturation_conserves(reward: u128, immediate_bps: Bps, stream_epochs: u32)
    requires
        maturation_error(reward, immediate_bps, stream_epochs) is None,
    ensures
        ({
            let immediate = (reward * immediate_bps / 10_000) as nat;
            immediate <= reward && immediate + total(
                stream_parts((reward - immediate) as nat, stream_epochs as nat).map_values(
                    |v: u128| v as nat,
                ),
            ) == reward
        }),
{
    scaled_within(reward as nat, immediate_bps as nat, 10_000);
    let immediate = (reward * immediate_bps / 10_000) as nat;
    stream_conserves((reward - immediate) as nat, stream_epochs as nat);
}

/// One identity's final epoch score.
#[derive(Debug, Clone, Copy, PartialEq, Eq)]
pub struct IdentityScore {
    pub identity: IdentityId,
    pub score: u128,
}

/// One identity's payout from an epoch budget.
#[derive(Debug, Clone, Copy, PartialEq, Eq)]
pub struct IdentityPayout {
    pub identity: IdentityId,
    pub amount: u128,
}

/// The history of an identity, where there is one.
pub open spec fn history_of(
    reliability: Map<IdentityId, ReliabilityInputs>,
    identity: IdentityId,
) -> Option<ReliabilityInputs> {
    if reliability.dom().contains(identity) {
        Some(reliability[identity])
    } else {
        None
    }
}

/// A raw score under the identity's reliability factor.
pub open spec fn adjusted_score(
    identity: IdentityId,
    raw: u128,
    reliability: Map<IdentityId, ReliabilityInputs>,
) -> Result<IdentityScore, PoiwError> {
    match reliability_factor(history_of(reliability, identity)) {
        Err(e) => Err(e),
        Ok(factor) => match scaled(raw as nat, factor as nat, 10_000) {
            Err(e) => Err(e),
            Ok(score) => Ok(IdentityScore { identity, score }),
        },
    }
}

/// The adjusted scores of all identities with a raw score, in ascending
/// order, one outcome for each.
pub open spec fn adjusted_outcomes(
    raw: Map<IdentityId, u128>,
    reliability: Map<IdentityId, ReliabilityInputs>,
) -> Seq<Result<IdentityScore, PoiwError>> {
    sorted::<IdentityId>(raw.dom()).map_values(
        |id: IdentityId| adjusted_score(id, raw[id], reliability),
    )
}

/// Applies each identity's reliability factor to its raw score.
pub fn adjust(
    raw: &KeyedMap<IdentityId, u128>,
    reliability: &KeyedMap<IdentityId, ReliabilityInputs>,
) -> (r: Result<Vec<IdentityScore>, PoiwError>)
    ensures
        r matches Ok(scores) ==> collect(adjusted_outcomes(raw@, reliability@)) == Ok::<
            Seq<IdentityScore>,
            PoiwError,
        >(scores@),
        r matches Err(e) ==> collect(adjusted_outcomes(raw@, reliability@)) == Err::<
            Seq<IdentityScore>,
            PoiwError,
        >(e),
{
    let ghost outcomes = adjusted_outcomes(raw@, reliability@);
    let count: usize = raw.len();
    let mut scores: Vec<IdentityScore> = Vec::new();
    let mut i: usize = 0;
    assert(outcomes.take(0) =~= Seq::empty());
    while i < count
        invariant
            i <= count,
            count == raw.keys().len(),
            outcomes == adjusted_outcomes(raw@, reliability@),
            outcomes.len() == count,
            collect(outcomes.take(i as int)) == Ok::<Seq<IdentityScore>, PoiwError>(scores@),
        decreases count - i,
    {
        let identity: IdentityId = *raw.key_at(i);
        let raw_score: u128 = *raw.value_at(i);
        assert(outcomes[i as int] == adjusted_score(identity, raw_score, reliability@));
        proof {
            collect_next(outcomes, i as int);
        }
        let history: Option<ReliabilityInputs> = match reliability.get(&identity) {
            Some(inputs) => Some(*inputs),
            None => None,
        };
        let factor: Bps = match reliability_factor_bps(history) {
            Ok(factor) => factor,
            Err(e) => {
                proof {
                    collect_prefix_error(outcomes, i + 1);
                }
                return Err(e);
            },
        };
        match apply_bps(raw_score, factor) {
            Ok(score) => scores.push(IdentityScore { identity, score }),
            Err(e) => {
                proof {
                    collect_prefix_error(outcomes, i + 1);
                }
                return Err(e);
            },
        }
        i = i + 1;
    }
    assert(outcomes.take(i as int) =~= outcomes);
    Ok(scores)
}

/// Adjusted scores come in ascending order of identity, one for every
/// identity with a raw score.
pub proof fn adjusted_in_order(
    raw: Map<IdentityId, u128>,
    reliability: Map<IdentityId, ReliabilityInputs>,
)
    requires
        collect(adjusted_outcomes(raw, reliability)) is Ok,
    ensures
        ({
            let scores = collect(adjusted_outcomes(raw, reliability))->Ok_0;
            let keys = sorted::<IdentityId>(raw.dom());
            &&& scores.len() == keys.len()
            &&& forall|i: int|
                0 <= i < scores.len() ==> (#[trigger] scores[i]).identity == keys[i]
        }),
{
    let outcomes = adjusted_outcomes(raw, reliability);
    let scores = collect(outcomes)->Ok_0;
    let keys = sorted::<IdentityId>(raw.dom());
    collect_values(outcomes);
    assert forall|i: int| 0 <= i < scores.len() implies (#[trigger] scores[i]).identity
        == keys[i] by {
        assert(outcomes[i] == adjusted_score(keys[i], raw[keys[i]], reliability));
    }
}

/// The scores stand in ascending order of identity, and none repeats.
pub open spec fn ordered_by_identity(scores: Seq<IdentityScore>) -> bool {
    forall|i: int, j: int|
        0 <= i < j < scores.len() ==> key_before::<IdentityId>(
            (#[trigger] scores[i]).identity,
            (#[trigger] scores[j]).identity,
        )
}

/// Adjusted scores of finitely many identities are ordered by identity.
pub proof fn adjusted_are_ordered(
    raw: Map<IdentityId, u128>,
    reliability: Map<IdentityId, ReliabilityInputs>,
)
    requires
        raw.dom().finite(),
        collect(adjusted_outcomes(raw, reliability)) is Ok,
    ensures
        ordered_by_identity(collect(adjusted_outcomes(raw, reliability))->Ok_0),
{
    let scores = collect(adjusted_outcomes(raw, reliability))->Ok_0;
    let keys = sorted::<IdentityId>(raw.dom());
    adjusted_in_order(raw, reliability);
    sorted_lists::<IdentityId>(raw.dom());
    assert forall|i: int, j: int| 0 <= i < j < scores.len() implies key_before::<IdentityId>(
        (#[trigger] scores[i]).identity,
        (#[trigger] scores[j]).identity,
    ) by {
        assert(key_before::<IdentityId>(keys[i], keys[j]));
    }
}

/// Reliability never takes more than half of a raw score, and never adds more
/// than a tenth to it.
pub proof fn adjusted_score_range(
    identity: IdentityId,
    raw: u128,
    reliability: Map<IdentityId, ReliabilityInputs>,
)
    requires
        adjusted_score(identity, raw, reliability) is Ok,
    ensures
        ({
            let score = adjusted_score(identity, raw, reliability)->Ok_0.score;
            raw < 2 * (score + 1) && 10 * score <= 11 * raw
        }),
{
    let factor = reliability_factor(history_of(reliability, identity))->Ok_0 as nat;
    reliability_factor_range(history_of(reliability, identity));
    let r = raw as nat;
    let score = r * factor / 10_000;
    assert(5_000 * r <= r * factor <= 11_000 * r) by (nonlinear_arith)
        requires
            5_000 <= factor <= 11_000,
    ;
}

} // verus!
