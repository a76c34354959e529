//! Deterministic PoIW score computation.
//!
//! Scoring and payout are deliberately separate stages: [`score_epoch`]
//! produces evidence- and reliability-weighted scores, and
//! [`allocate_pool`] turns scores into payouts under the per-identity
//! cap. Pool value above the cap is simply never created, consistent with
//! the design rule that un-earned residue is not minted and not rolled
//! over.

use vstd::prelude::*;

pub use crate::score::{
    apply_bps, epoch_pool, maturation_schedule, reliability_factor_bps, work_unit_score,
    IdentityPayout, IdentityScore, MaturationSchedule, ScoreParams,
};

use crate::classifier::organic_value;
use crate::keyed::KeyedMap;
use crate::payout::{
    compute_shares, nothing_for, pay_nothing, score_total, shares, shares_within_budget, sum_scores,
};
use crate::poiw::classifier::{
    is_score_eligible, organic_payments, organic_settled_value, organic_value_ignores_order,
    score_eligible, ClassifierParams,
};
use crate::score::{adjust, adjusted_are_ordered, adjusted_outcomes, ordered_by_identity, scaled};
use crate::selection::{
    same_units, score_overflow_prefix, score_posts, score_totals_permuted,
    unselected_changes_nothing,
};
use crate::sums::{as_nats, collect, total};
use crate::tally::{
    post_keys, tallies, tally_add, tally_is_map, tally_map, tally_map_is_finite, tally_overflows,
    tally_step,
};
use crate::types::{IdentityId, PoiwError, ReliabilityInputs, SettledWorkUnit};

verus! {

/// The complete deterministic result of scoring one epoch.
#[derive(Debug, Clone, PartialEq, Eq)]
pub struct EpochScores {
    /// Final per-identity scores, ordered by identity.
    pub scores: Vec<IdentityScore>,
    /// Organic settled value for the emission formula.
    pub organic_settled_value: u128,
}

/// What [`EpochScores`] says.
#[verifier::ext_equal]
pub struct EpochScoresView {
    pub scores: Seq<IdentityScore>,
    pub organic_settled_value: u128,
}

impl View for EpochScores {
    type V = EpochScoresView;

    open spec fn view(&self) -> EpochScoresView {
        EpochScoresView {
            scores: self.scores@,
            organic_settled_value: self.organic_settled_value,
        }
    }
}

/// Selects the units that score.
pub open spec fn eligible_units() -> spec_fn(SettledWorkUnit) -> bool {
    |u: SettledWorkUnit| score_eligible(u)
}

/// The scores that an epoch's units post.
pub open spec fn eligible_posts(units: Seq<SettledWorkUnit>) -> Seq<(IdentityId, nat)> {
    score_posts(units, eligible_units())
}

/// The scores of one epoch. Sums that overflow come first, then the
/// reliability factors, and the organic value.
pub open spec fn epoch_scores(
    units: Seq<SettledWorkUnit>,
    reliability: Map<IdentityId, ReliabilityInputs>,
    params: ClassifierParams,
) -> Result<EpochScoresView, PoiwError> {
    let posts = eligible_posts(units);
    if tally_overflows(posts) {
        Err(PoiwError::Overflow)
    } else {
        match collect(adjusted_outcomes(tally_map(posts), reliability)) {
            Err(e) => Err(e),
            Ok(scores) => match organic_value(organic_payments(units), params) {
                Err(e) => Err(e),
                Ok(organic_settled_value) => Ok(EpochScoresView { scores, organic_settled_value }),
            },
        }
    }
}

/// Score one epoch of settled work.
///
/// Pipeline: filter score-eligible units, sum evidence-weighted unit
/// scores per identity, apply each identity's reliability factor.
/// Deterministic by construction: ascending identity order and integer
/// arithmetic only.
pub fn score_epoch(
    units: &[SettledWorkUnit],
    reliability: &KeyedMap<IdentityId, ReliabilityInputs>,
    classifier_params: &ClassifierParams,
) -> (r: Result<EpochScores, PoiwError>)
    ensures
        r matches Ok(scores) ==> epoch_scores(units@, reliability@, *classifier_params) == Ok::<
            EpochScoresView,
            PoiwError,
        >(scores@),
        r matches Err(e) ==> epoch_scores(units@, reliability@, *classifier_params) == Err::<
            EpochScoresView,
            PoiwError,
        >(e),
{
    let ghost selected = eligible_units();
    let mut raw: KeyedMap<IdentityId, u128> = KeyedMap::new();
    let mut i: usize = 0;
    assert(units@.take(0) =~= Seq::empty());
    proof {
        let none = Seq::<(IdentityId, nat)>::empty();
        assert(none.map_values(|p: (IdentityId, nat)| p.0) =~= Seq::empty());
        assert(raw@.dom() =~= post_keys(none));
    }
    while i < units.len()
        invariant
            i <= units@.len(),
            selected == eligible_units(),
            tallies(raw@, score_posts(units@.take(i as int), selected)),
        decreases units@.len() - i,
    {
        let unit: &SettledWorkUnit = &units[i];
        let ghost posts = score_posts(units@.take(i as int), selected);
        assert(units@.take(i + 1).drop_last() =~= units@.take(i as int));
        assert(units@.take(i + 1).last() == *unit);
        if is_score_eligible(unit) {
            let score: u128 = match work_unit_score(unit) {
                Ok(score) => score,
                Err(e) => {
                    return Err(e);
                },
            };
            proof {
                tally_step(raw@, posts, unit.identity, score as nat);
            }
            if let Err(e) = tally_add(&mut raw, unit.identity, score) {
                proof {
                    score_overflow_prefix(units@, selected, i + 1, unit.identity);
                }
                return Err(e);
            }
        }
        i = i + 1;
    }
    assert(units@.take(i as int) =~= units@);
    proof {
        tally_is_map(raw@, eligible_posts(units@));
    }
    let scores: Vec<IdentityScore> = match adjust(&raw, reliability) {
        Ok(scores) => scores,
        Err(e) => {
            return Err(e);
        },
    };
    match organic_settled_value(units, classifier_params) {
        Ok(organic_settled_value) => Ok(EpochScores { scores, organic_settled_value }),
        Err(e) => Err(e),
    }
}

/// The order in which units were settled does not matter to their scores.
pub proof fn scores_ignore_order(
    a: Seq<SettledWorkUnit>,
    b: Seq<SettledWorkUnit>,
    reliability: Map<IdentityId, ReliabilityInputs>,
    params: ClassifierParams,
)
    requires
        same_units(a, b),
    ensures
        epoch_scores(a, reliability, params) == epoch_scores(b, reliability, params),
{
    score_totals_permuted(a, b, eligible_units());
    organic_value_ignores_order(a, b, params);
}

/// Related-payer work contributes nothing.
pub proof fn related_units_score_nothing(
    units: Seq<SettledWorkUnit>,
    i: int,
    reliability: Map<IdentityId, ReliabilityInputs>,
    params: ClassifierParams,
)
    requires
        0 <= i < units.len(),
        units[i].payer_related,
    ensures
        epoch_scores(units.remove(i), reliability, params) == epoch_scores(
            units,
            reliability,
            params,
        ),
{
    unselected_changes_nothing(
        units,
        i,
        eligible_units(),
        crate::poiw::classifier::payer_of(),
    );
    crate::poiw::classifier::excluded_units_count_nothing(units, i, params);
}

/// The payouts of a pool.
pub open spec fn pool_payouts(pool: u128, scores: Seq<IdentityScore>, params: ScoreParams) -> Result<
    Seq<IdentityPayout>,
    PoiwError,
> {
    if !params.valid() {
        Err(PoiwError::InvalidParameter("payout_cap_share_bps must be within 1..=10_000"))
    } else if score_total(scores) > u128::MAX {
        Err(PoiwError::Overflow)
    } else if score_total(scores) == 0 || pool == 0 {
        Ok(nothing_for(scores))
    } else {
        match scaled(pool as nat, params.payout_cap_share_bps as nat, 10_000) {
            Err(e) => Err(e),
            Ok(most) => match collect(shares(pool, scores, Some(most))) {
                Err(e) => Err(e),
                Ok(amounts) => Ok(paid_to(scores, amounts)),
            },
        }
    }
}

/// The amounts, each with the identity it is for.
pub open spec fn paid_to(scores: Seq<IdentityScore>, amounts: Seq<u128>) -> Seq<IdentityPayout> {
    Seq::new(
        scores.len(),
        |i: int| IdentityPayout { identity: scores[i].identity, amount: amounts[i] },
    )
}

/// Allocate an epoch pool pro rata by score, capping every identity at
/// `payout_cap_share_bps` of the pool. Capped-off value is **not
/// redistributed and not created**: the same no-residue rule as the
/// demand-coupled pool itself. A zero score total allocates nothing.
pub fn allocate_pool(pool: u128, scores: &[IdentityScore], params: &ScoreParams) -> (r: Result<
    Vec<IdentityPayout>,
    PoiwError,
>)
    ensures
        r matches Ok(payouts) ==> pool_payouts(pool, scores@, *params) == Ok::<
            Seq<IdentityPayout>,
            PoiwError,
        >(payouts@),
        r matches Err(e) ==> pool_payouts(pool, scores@, *params) == Err::<
            Seq<IdentityPayout>,
            PoiwError,
        >(e),
{
    if let Err(e) = params.validate() {
        return Err(e);
    }
    let sum: u128 = match sum_scores(scores) {
        Ok(sum) => sum,
        Err(e) => {
            return Err(e);
        },
    };
    if sum == 0 || pool == 0 {
        return Ok(pay_nothing(scores));
    }
    let most: u128 = match apply_bps(pool, params.payout_cap_share_bps) {
        Ok(most) => most,
        Err(e) => {
            return Err(e);
        },
    };
    let amounts: Vec<u128> = match compute_shares(pool, scores, sum, Some(most)) {
        Ok(amounts) => amounts,
        Err(e) => {
            return Err(e);
        },
    };
    proof {
        shares_within_budget(pool, scores@, Some(most), amounts@);
    }
    let mut payouts: Vec<IdentityPayout> = Vec::new();
    let mut i: usize = 0;
    while i < scores.len()
        invariant
            i <= scores@.len(),
            amounts@.len() == scores@.len(),
            payouts@ == paid_to(scores@, amounts@).take(i as int),
        decreases scores@.len() - i,
    {
        payouts.push(IdentityPayout { identity: scores[i].identity, amount: amounts[i] });
        assert(payouts@ =~= paid_to(scores@, amounts@).take(i + 1));
        i = i + 1;
    }
    assert(paid_to(scores@, amounts@).take(i as int) =~= paid_to(scores@, amounts@));
    Ok(payouts)
}

/// The payouts together are no more than the pool; each goes to the scored
/// identity in its place, and is no more than the cap share of the pool nor
/// than the identity's pro-rata share.
pub proof fn pool_payouts_are_bounded(pool: u128, scores: Seq<IdentityScore>, params: ScoreParams)
    requires
        pool_payouts(pool, scores, params) is Ok,
    ensures
        ({
            let payouts = pool_payouts(pool, scores, params)->Ok_0;
            &&& payouts.len() == scores.len()
            &&& total(payouts.map_values(|p: IdentityPayout| p.amount as nat)) <= pool
            &&& forall|i: int|
                0 <= i < payouts.len() ==> {
                    &&& (#[trigger] payouts[i]).identity == scores[i].identity
                    &&& 10_000 * payouts[i].amount <= pool * params.payout_cap_share_bps
                    &&& payouts[i].amount * score_total(scores) <= pool * scores[i].score
                }
        }),
{
    let payouts = pool_payouts(pool, scores, params)->Ok_0;
    let amounts_paid = payouts.map_values(|p: IdentityPayout| p.amount as nat);
    let sum = score_total(scores);
    if sum == 0 || pool == 0 {
        crate::tally::zero_total(amounts_paid);
        assert forall|i: int| 0 <= i < payouts.len() implies {
            &&& (#[trigger] payouts[i]).identity == scores[i].identity
            &&& 10_000 * payouts[i].amount <= pool * params.payout_cap_share_bps
            &&& payouts[i].amount * sum <= pool * scores[i].score
        } by {
            let s = scores[i].score;
            assert(0 * sum == 0) by (nonlinear_arith);
            assert(0 <= pool * s) by (nonlinear_arith);
            assert(0 <= pool * params.payout_cap_share_bps) by (nonlinear_arith);
        }
    } else {
        let most = scaled(pool as nat, params.payout_cap_share_bps as nat, 10_000)->Ok_0;
        let amounts = collect(shares(pool, scores, Some(most)))->Ok_0;
        shares_within_budget(pool, scores, Some(most), amounts);
        assert(amounts_paid =~= as_nats(amounts));
        assert forall|i: int| 0 <= i < payouts.len() implies {
            &&& (#[trigger] payouts[i]).identity == scores[i].identity
            &&& 10_000 * payouts[i].amount <= pool * params.payout_cap_share_bps
            &&& payouts[i].amount * sum <= pool * scores[i].score
        } by {
            let a = amounts[i] as nat;
            let s = scores[i].score as nat;
            let b = pool as nat;
            assert(a <= b * s / sum);
            assert(a * sum <= b * s) by (nonlinear_arith)
                requires
                    a <= b * s / sum,
                    sum > 0,
            ;
        }
    }
}

/// The scores of an epoch come in ascending order of identity.
pub proof fn scores_are_ordered(
    units: Seq<SettledWorkUnit>,
    reliability: Map<IdentityId, ReliabilityInputs>,
    params: ClassifierParams,
)
    requires
        epoch_scores(units, reliability, params) is Ok,
    ensures
        ordered_by_identity(epoch_scores(units, reliability, params)->Ok_0.scores),
{
    let posts = eligible_posts(units);
    tally_map_is_finite(posts);
    adjusted_are_ordered(tally_map(posts), reliability);
}

} // verus!
