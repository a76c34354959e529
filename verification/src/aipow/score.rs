//! Deterministic AIPoW score computation.
//!
//! Scoring and payout are deliberately separate stages: [`score_epoch`]
//! produces evidence- and reliability-weighted scores in two buckets
//! (organic and challenge), and [`allocate_epoch`] turns scores into
//! payouts under the challenge-budget bounds and the per-control-domain
//! cap. Pool value above a cap is simply never created, consistent with
//! the design rule that un-earned residue is not minted and not rolled
//! over.

use vstd::prelude::*;

pub use crate::score::{
    apply_bps, epoch_pool, maturation_schedule, reliability_factor_bps, work_unit_score,
    IdentityPayout, IdentityScore, MaturationSchedule, ScoreParams,
};

use crate::aipow::classifier::{
    excluded_units_count_nothing, is_score_eligible, organic_payments, organic_settled_value,
    organic_value_ignores_order, payer_domain_in, score_eligible, ClassifierParams,
};
use crate::classifier::organic_value;
use crate::keyed::KeyedMap;
use crate::payout::{
    compute_shares, nothing_for, pay_nothing, score_total, shares, shares_within_budget, sum_scores,
};
use crate::score::{
    adjust, adjusted_are_ordered, adjusted_outcomes, ordered_by_identity, scale, scaled,
    scaled_within,
};
use crate::selection::{
    same_units, score_overflow_prefix, score_posts, score_totals_permuted,
    unselected_changes_nothing,
};
use crate::sums::{
    as_nats, collect, collect_next, collect_prefix_error, collect_values, total, total_monotone,
};
use crate::tally::{
    post_keys, post_total, tallies, tally_add, tally_is_map, tally_map, tally_map_is_finite,
    tally_overflows, tally_step, total_for, total_for_within,
};
use crate::types::{
    Bps, DomainKey, DomainKeyView, DomainMap, IdentityId, PoiwError, ReliabilityInputs,
    SettledWorkUnit,
};

verus! {

/// Challenge-task budget parameters (v0 draft values).
#[derive(Debug, Clone, Copy, PartialEq, Eq, Structural)]
pub struct ChallengeBudgetParams {
    /// Maximum share of the epoch pool the challenge bucket may take.
    pub max_pool_share_bps: Bps,
    /// The challenge budget may not exceed this multiple (integer
    /// percent) of the trailing organic settled value.
    pub organic_multiple_percent: u32,
    /// Small published floor so a brand-new network can bootstrap
    /// evidence before its first organic settlements. This is the only
    /// emission not gated by demand.
    pub cold_start_floor: u128,
    /// Per-identity cap on challenge payouts in one epoch.
    pub per_identity_cap: u128,
}

impl Default for ChallengeBudgetParams {
    fn default() -> (r: ChallengeBudgetParams)
        ensures
            r.max_pool_share_bps == 3_000,
            r.organic_multiple_percent == 200,
            r.cold_start_floor == 2_000_000_000_000,
            r.per_identity_cap == 100_000_000_000,
    {
        ChallengeBudgetParams {
            max_pool_share_bps: 3_000,
            organic_multiple_percent: 200,
            // Draft: 2,000 TOS per epoch, deliberately too small to farm
            // profitably at scale.
            cold_start_floor: 2_000_000_000_000,
            // Draft: 100 TOS per identity per epoch from challenges.
            per_identity_cap: 100_000_000_000,
        }
    }
}

impl ChallengeBudgetParams {
    /// Checks the parameters.
    pub fn validate(&self) -> (r: Result<(), PoiwError>)
        ensures
            r == if self.max_pool_share_bps <= 10_000 {
                Ok::<(), PoiwError>(())
            } else {
                Err(PoiwError::InvalidParameter("max_pool_share_bps must not exceed 10_000"))
            },
    {
        if self.max_pool_share_bps > 10_000 {
            return Err(PoiwError::InvalidParameter("max_pool_share_bps must not exceed 10_000"));
        }
        Ok(())
    }
}

/// The challenge budget: the smaller of the pool share and the organic
/// multiple, but never below the floor.
pub open spec fn budget_for_challenges(
    pool: u128,
    organic: u128,
    params: ChallengeBudgetParams,
) -> Result<u128, PoiwError> {
    if params.max_pool_share_bps > 10_000 {
        Err(PoiwError::InvalidParameter("max_pool_share_bps must not exceed 10_000"))
    } else {
        match (
            scaled(pool as nat, params.max_pool_share_bps as nat, 10_000),
            scaled(organic as nat, params.organic_multiple_percent as nat, 100),
        ) {
            (Ok(share), Ok(multiple)) => {
                let bound = if share <= multiple {
                    share
                } else {
                    multiple
                };
                Ok(
                    if bound >= params.cold_start_floor {
                        bound
                    } else {
                        params.cold_start_floor
                    },
                )
            },
            _ => Err(PoiwError::Overflow),
        }
    }
}

/// The challenge bucket for one epoch, bounded three ways: at most
/// `max_pool_share_bps` of the pool, at most `organic_multiple_percent`
/// of the organic settled value, but never below the cold-start floor:
/// the floor is the only emission not gated by demand, and it is sized
/// to be unprofitable to farm at scale.
pub fn challenge_budget(
    pool: u128,
    organic_settled_value: u128,
    params: &ChallengeBudgetParams,
) -> (r: Result<u128, PoiwError>)
    ensures
        r == budget_for_challenges(pool, organic_settled_value, *params),
{
    if let Err(e) = params.validate() {
        return Err(e);
    }
    let share_bound: u128 = match apply_bps(pool, params.max_pool_share_bps) {
        Ok(bound) => bound,
        Err(e) => {
            return Err(e);
        },
    };
    let organic_bound: u128 = match scale(
        organic_settled_value,
        params.organic_multiple_percent as u128,
        100,
    ) {
        Ok(bound) => bound,
        Err(e) => {
            return Err(e);
        },
    };
    let bound: u128 = if share_bound <= organic_bound {
        share_bound
    } else {
        organic_bound
    };
    if bound >= params.cold_start_floor {
        Ok(bound)
    } else {
        Ok(params.cold_start_floor)
    }
}

/// The challenge budget is never below the floor; where it is above the
/// floor it is within the pool share and within the organic multiple; and a
/// cold start gives exactly the floor.
pub proof fn challenge_budget_is_triple_bounded(
    pool: u128,
    organic: u128,
    params: ChallengeBudgetParams,
)
    requires
        budget_for_challenges(pool, organic, params) is Ok,
    ensures
        ({
            let budget = budget_for_challenges(pool, organic, params)->Ok_0;
            &&& budget >= params.cold_start_floor
            &&& budget > params.cold_start_floor ==> 10_000 * budget <= pool
                * params.max_pool_share_bps
            &&& budget > params.cold_start_floor ==> 100 * budget <= organic
                * params.organic_multiple_percent
        }),
        budget_for_challenges(0, 0, params) == Ok::<u128, PoiwError>(params.cold_start_floor),
{
    assert(0 * (params.max_pool_share_bps as nat) == 0) by (nonlinear_arith);
    assert(0 * (params.organic_multiple_percent as nat) == 0) by (nonlinear_arith);
}

/// The complete deterministic result of scoring one epoch, split into
/// the organic bucket and the challenge bucket.
#[derive(Debug, Clone, PartialEq, Eq)]
pub struct EpochScores {
    /// Scores from organic (consumer-paid) work, ordered by identity.
    pub organic: Vec<IdentityScore>,
    /// Scores from protocol-issued challenge tasks, ordered by identity.
    pub challenge: Vec<IdentityScore>,
    /// Organic settled value for the emission formula.
    pub organic_settled_value: u128,
}

/// What [`EpochScores`] says.
#[verifier::ext_equal]
pub struct EpochScoresView {
    pub organic: Seq<IdentityScore>,
    pub challenge: Seq<IdentityScore>,
    pub organic_settled_value: u128,
}

impl View for EpochScores {
    type V = EpochScoresView;

    open spec fn view(&self) -> EpochScoresView {
        EpochScoresView {
            organic: self.organic@,
            challenge: self.challenge@,
            organic_settled_value: self.organic_settled_value,
        }
    }
}

/// Selects the eligible units of one bucket.
pub open spec fn bucket_in(
    domains: DomainMap,
    challenge: bool,
) -> spec_fn(SettledWorkUnit) -> bool {
    |u: SettledWorkUnit| score_eligible(u, domains) && u.is_challenge_task == challenge
}

/// The scores that one bucket's units post.
pub open spec fn bucket_posts(
    units: Seq<SettledWorkUnit>,
    domains: DomainMap,
    challenge: bool,
) -> Seq<(IdentityId, nat)> {
    score_posts(units, bucket_in(domains, challenge))
}

/// The scores of one epoch. Sums that overflow come first, then the organic
/// bucket's reliability factors, the challenge bucket's, and the organic
/// value.
pub open spec fn epoch_scores(
    units: Seq<SettledWorkUnit>,
    reliability: Map<IdentityId, ReliabilityInputs>,
    domains: DomainMap,
    params: ClassifierParams,
) -> Result<EpochScoresView, PoiwError> {
    let organic_posts = bucket_posts(units, domains, false);
    let challenge_posts = bucket_posts(units, domains, true);
    if tally_overflows(organic_posts) || tally_overflows(challenge_posts) {
        Err(PoiwError::Overflow)
    } else {
        match collect(adjusted_outcomes(tally_map(organic_posts), reliability)) {
            Err(e) => Err(e),
            Ok(organic) => match collect(
                adjusted_outcomes(tally_map(challenge_posts), reliability),
            ) {
                Err(e) => Err(e),
                Ok(challenge) => match organic_value(organic_payments(units, domains), params) {
                    Err(e) => Err(e),
                    Ok(organic_settled_value) => Ok(
                        EpochScoresView { organic, challenge, organic_settled_value },
                    ),
                },
            },
        }
    }
}

/// Score one epoch of settled work.
///
/// Pipeline: filter score-eligible units (related payers and same-domain
/// payers excluded), sum evidence-weighted unit scores per identity into
/// the organic or challenge bucket, then apply each identity's
/// reliability factor. Deterministic by construction: ascending identity
/// order and integer arithmetic only.
pub fn score_epoch(
    units: &[SettledWorkUnit],
    reliability: &KeyedMap<IdentityId, ReliabilityInputs>,
    domains: &DomainMap,
    classifier_params: &ClassifierParams,
) -> (r: Result<EpochScores, PoiwError>)
    ensures
        r matches Ok(scores) ==> epoch_scores(
            units@,
            reliability@,
            *domains,
            *classifier_params,
        ) == Ok::<EpochScoresView, PoiwError>(scores@),
        r matches Err(e) ==> epoch_scores(units@, reliability@, *domains, *classifier_params)
            == Err::<EpochScoresView, PoiwError>(e),
{
    let ghost in_organic = bucket_in(*domains, false);
    let ghost in_challenge = bucket_in(*domains, true);
    let mut organic_raw: KeyedMap<IdentityId, u128> = KeyedMap::new();
    let mut challenge_raw: KeyedMap<IdentityId, u128> = KeyedMap::new();
    let mut i: usize = 0;
    assert(units@.take(0) =~= Seq::empty());
    proof {
        let none = Seq::<(IdentityId, nat)>::empty();
        assert(none.map_values(|p: (IdentityId, nat)| p.0) =~= Seq::empty());
        assert(organic_raw@.dom() =~= post_keys(none));
        assert(challenge_raw@.dom() =~= post_keys(none));
    }
    while i < units.len()
        invariant
            i <= units@.len(),
            in_organic == bucket_in(*domains, false),
            in_challenge == bucket_in(*domains, true),
            tallies(organic_raw@, score_posts(units@.take(i as int), in_organic)),
            tallies(challenge_raw@, score_posts(units@.take(i as int), in_challenge)),
        decreases units@.len() - i,
    {
        let unit: &SettledWorkUnit = &units[i];
        let ghost organic_posts = score_posts(units@.take(i as int), in_organic);
        let ghost challenge_posts = score_posts(units@.take(i as int), in_challenge);
        assert(units@.take(i + 1).drop_last() =~= units@.take(i as int));
        assert(units@.take(i + 1).last() == *unit);
        if is_score_eligible(unit, domains) {
            let score: u128 = match work_unit_score(unit) {
                Ok(score) => score,
                Err(e) => {
                    return Err(e);
                },
            };
            if unit.is_challenge_task {
                proof {
                    tally_step(challenge_raw@, challenge_posts, unit.identity, score as nat);
                }
                if let Err(e) = tally_add(&mut challenge_raw, unit.identity, score) {
                    proof {
                        score_overflow_prefix(units@, in_challenge, i + 1, unit.identity);
                    }
                    return Err(e);
                }
            } else {
                proof {
                    tally_step(organic_raw@, organic_posts, unit.identity, score as nat);
                }
                if let Err(e) = tally_add(&mut organic_raw, unit.identity, score) {
                    proof {
                        score_overflow_prefix(units@, in_organic, i + 1, unit.identity);
                    }
                    return Err(e);
                }
            }
        }
        i = i + 1;
    }
    assert(units@.take(i as int) =~= units@);
    proof {
        tally_is_map(organic_raw@, bucket_posts(units@, *domains, false));
        tally_is_map(challenge_raw@, bucket_posts(units@, *domains, true));
    }
    let organic: Vec<IdentityScore> = match adjust(&organic_raw, reliability) {
        Ok(scores) => scores,
        Err(e) => {
            return Err(e);
        },
    };
    let challenge: Vec<IdentityScore> = match adjust(&challenge_raw, reliability) {
        Ok(scores) => scores,
        Err(e) => {
            return Err(e);
        },
    };
    match organic_settled_value(units, domains, classifier_params) {
        Ok(organic_settled_value) => Ok(EpochScores { organic, challenge, organic_settled_value }),
        Err(e) => Err(e),
    }
}

/// The order in which units were settled does not matter to their scores.
pub proof fn scores_ignore_order(
    a: Seq<SettledWorkUnit>,
    b: Seq<SettledWorkUnit>,
    reliability: Map<IdentityId, ReliabilityInputs>,
    domains: DomainMap,
    params: ClassifierParams,
)
    requires
        same_units(a, b),
    ensures
        epoch_scores(a, reliability, domains, params) == epoch_scores(
            b,
            reliability,
            domains,
            params,
        ),
{
    score_totals_permuted(a, b, bucket_in(domains, false));
    score_totals_permuted(a, b, bucket_in(domains, true));
    organic_value_ignores_order(a, b, domains, params);
}

/// A related payer, or a payer from the earner's own control domain,
/// contributes nothing.
pub proof fn excluded_units_score_nothing(
    units: Seq<SettledWorkUnit>,
    i: int,
    reliability: Map<IdentityId, ReliabilityInputs>,
    domains: DomainMap,
    params: ClassifierParams,
)
    requires
        0 <= i < units.len(),
        !score_eligible(units[i], domains),
    ensures
        epoch_scores(units.remove(i), reliability, domains, params) == epoch_scores(
            units,
            reliability,
            domains,
            params,
        ),
{
    let who = payer_domain_in(domains);
    unselected_changes_nothing(units, i, bucket_in(domains, false), who);
    unselected_changes_nothing(units, i, bucket_in(domains, true), who);
    excluded_units_count_nothing(units, i, domains, params);
}

/// What the payees' control domains are paid.
pub open spec fn domain_posts(
    scores: Seq<IdentityScore>,
    amounts: Seq<u128>,
    domains: DomainMap,
) -> Seq<(DomainKeyView, nat)> {
    Seq::new(
        scores.len(),
        |i: int| (domains.domain(scores[i].identity), amounts[i] as nat),
    )
}

/// A payout in a domain that is paid `domain_sum` in all: scaled down where
/// that is more than the domain may take.
pub open spec fn domain_capped(amount: u128, domain_sum: nat, most: u128) -> Result<
    u128,
    PoiwError,
> {
    if domain_sum > most {
        scaled(amount as nat, most as nat, domain_sum)
    } else {
        Ok(amount)
    }
}

/// The payouts after the domain cap.
pub open spec fn domain_payouts(
    scores: Seq<IdentityScore>,
    amounts: Seq<u128>,
    domains: DomainMap,
    most: u128,
) -> Seq<Result<IdentityPayout, PoiwError>> {
    Seq::new(
        scores.len(),
        |i: int|
            match domain_capped(
                amounts[i],
                total_for(
                    domain_posts(scores, amounts, domains),
                    domains.domain(scores[i].identity),
                ),
                most,
            ) {
                Err(e) => Err(e),
                Ok(amount) => Ok(IdentityPayout { identity: scores[i].identity, amount }),
            },
    )
}

/// The allocation of one budget.
pub open spec fn allocation(
    budget: u128,
    scores: Seq<IdentityScore>,
    domains: DomainMap,
    cap_share_bps: Bps,
    per_identity_cap: Option<u128>,
) -> Result<Seq<IdentityPayout>, PoiwError> {
    if score_total(scores) > u128::MAX {
        Err(PoiwError::Overflow)
    } else if score_total(scores) == 0 || budget == 0 {
        Ok(nothing_for(scores))
    } else {
        match collect(shares(budget, scores, per_identity_cap)) {
            Err(e) => Err(e),
            Ok(amounts) => match scaled(budget as nat, cap_share_bps as nat, 10_000) {
                Err(e) => Err(e),
                Ok(most) => collect(domain_payouts(scores, amounts, domains, most)),
            },
        }
    }
}

/// Allocate one budget pro rata by score, then enforce the optional
/// per-identity cap and the per-control-domain cap. When a domain's
/// combined pro-rata payout exceeds the domain cap, every member's
/// payout is scaled down proportionally; the capped-off value is **not
/// redistributed and not created**.
pub fn allocate_bucket(
    budget: u128,
    scores: &[IdentityScore],
    domains: &DomainMap,
    cap_share_bps: Bps,
    per_identity_cap: Option<u128>,
) -> (r: Result<Vec<IdentityPayout>, PoiwError>)
    ensures
        r matches Ok(payouts) ==> allocation(
            budget,
            scores@,
            *domains,
            cap_share_bps,
            per_identity_cap,
        ) == Ok::<Seq<IdentityPayout>, PoiwError>(payouts@),
        r matches Err(e) ==> allocation(budget, scores@, *domains, cap_share_bps, per_identity_cap)
            == Err::<Seq<IdentityPayout>, PoiwError>(e),
{
    let sum: u128 = match sum_scores(scores) {
        Ok(sum) => sum,
        Err(e) => {
            return Err(e);
        },
    };
    if sum == 0 || budget == 0 {
        return Ok(pay_nothing(scores));
    }
    let amounts: Vec<u128> = match compute_shares(budget, scores, sum, per_identity_cap) {
        Ok(amounts) => amounts,
        Err(e) => {
            return Err(e);
        },
    };
    let most: u128 = match apply_bps(budget, cap_share_bps) {
        Ok(most) => most,
        Err(e) => {
            return Err(e);
        },
    };
    proof {
        shares_within_budget(budget, scores@, per_identity_cap, amounts@);
    }
    let per_domain: KeyedMap<DomainKey, u128> = domain_totals(scores, &amounts, domains);
    let ghost outcomes = domain_payouts(scores@, amounts@, *domains, most);
    let mut payouts: Vec<IdentityPayout> = Vec::new();
    let mut i: usize = 0;
    assert(outcomes.take(0) =~= Seq::empty());
    while i < scores.len()
        invariant
            i <= scores@.len(),
            amounts@.len() == scores@.len(),
            tallies(per_domain@, domain_posts(scores@, amounts@, *domains)),
            outcomes == domain_payouts(scores@, amounts@, *domains, most),
            allocation(budget, scores@, *domains, cap_share_bps, per_identity_cap) == collect(
                outcomes,
            ),
            collect(outcomes.take(i as int)) == Ok::<Seq<IdentityPayout>, PoiwError>(payouts@),
        decreases scores@.len() - i,
    {
        let identity: IdentityId = scores[i].identity;
        let key: DomainKey = domains.domain_of(identity);
        let ghost posts = domain_posts(scores@, amounts@, *domains);
        proof {
            collect_next(outcomes, i as int);
            let keys = posts.map_values(|p: (DomainKeyView, nat)| p.0);
            assert(keys[i as int] == key@);
            assert(post_keys(posts).contains(key@));
            assert(per_domain@.dom().contains(key@));
        }
        let domain_sum: u128 = match per_domain.get(&key) {
            Some(value) => *value,
            None => 0,
        };
        assert(domain_sum == total_for(posts, key@));
        let amount: u128 = if domain_sum > most {
            match scale(amounts[i], most, domain_sum) {
                Ok(amount) => amount,
                Err(e) => {
                    proof {
                        collect_prefix_error(outcomes, i + 1);
                    }
                    return Err(e);
                },
            }
        } else {
            amounts[i]
        };
        payouts.push(IdentityPayout { identity, amount });
        i = i + 1;
    }
    assert(outcomes.take(i as int) =~= outcomes);
    Ok(payouts)
}

/// Sums what each control domain is paid.
fn domain_totals(scores: &[IdentityScore], amounts: &Vec<u128>, domains: &DomainMap) -> (r:
    KeyedMap<DomainKey, u128>)
    requires
        amounts@.len() == scores@.len(),
        total(as_nats(amounts@)) <= u128::MAX,
    ensures
        tallies(r@, domain_posts(scores@, amounts@, *domains)),
{
    let ghost posts = domain_posts(scores@, amounts@, *domains);
    let mut per_domain: KeyedMap<DomainKey, u128> = KeyedMap::new();
    let mut i: usize = 0;
    proof {
        let none = posts.take(0);
        assert(none.map_values(|p: (DomainKeyView, nat)| p.0) =~= Seq::empty());
        assert(per_domain@.dom() =~= post_keys(none));
        assert(posts.map_values(|p: (DomainKeyView, nat)| p.1) =~= as_nats(amounts@));
    }
    while i < scores.len()
        invariant
            i <= scores@.len(),
            amounts@.len() == scores@.len(),
            posts == domain_posts(scores@, amounts@, *domains),
            post_total(posts) <= u128::MAX,
            tallies(per_domain@, posts.take(i as int)),
        decreases scores@.len() - i,
    {
        let key: DomainKey = domains.domain_of(scores[i].identity);
        let ghost k = key@;
        proof {
            assert(posts.take(i + 1) =~= posts.take(i as int).push((k, amounts@[i as int] as nat)));
            tally_step(per_domain@, posts.take(i as int), k, amounts@[i as int] as nat);
            crate::tally::total_for_prefix(posts, i + 1, k);
            total_for_within(posts, k);
        }
        let added: Result<(), PoiwError> = tally_add(&mut per_domain, key, amounts[i]);
        assert(added is Ok);
        i = i + 1;
    }
    assert(posts.take(i as int) =~= posts);
    per_domain
}

/// The complete allocation of one epoch's emission.
#[derive(Debug, Clone, PartialEq, Eq)]
pub struct EpochAllocation {
    /// Budget allocated to organic work: the pool less the part of the
    /// challenge budget that lies within the pool-share cap.
    pub organic_budget: u128,
    /// Budget allocated to challenge work (see [`challenge_budget`]).
    pub challenge_budget: u128,
    pub organic: Vec<IdentityPayout>,
    pub challenge: Vec<IdentityPayout>,
}

/// What an [`EpochAllocation`] says.
#[verifier::ext_equal]
pub struct EpochAllocationView {
    pub organic_budget: u128,
    pub challenge_budget: u128,
    pub organic: Seq<IdentityPayout>,
    pub challenge: Seq<IdentityPayout>,
}

impl View for EpochAllocation {
    type V = EpochAllocationView;

    open spec fn view(&self) -> EpochAllocationView {
        EpochAllocationView {
            organic_budget: self.organic_budget,
            challenge_budget: self.challenge_budget,
            organic: self.organic@,
            challenge: self.challenge@,
        }
    }
}

/// What is left of the pool for organic work: all but the part of the
/// challenge budget within the pool-share cap.
pub open spec fn budget_for_organic(
    pool: u128,
    challenge: u128,
    params: ChallengeBudgetParams,
) -> u128 {
    let share = (pool * params.max_pool_share_bps / 10_000) as u128;
    if challenge <= share {
        (pool - challenge) as u128
    } else {
        (pool - share) as u128
    }
}

/// The allocation of one epoch.
pub open spec fn epoch_allocation(
    pool: u128,
    scores: EpochScoresView,
    domains: DomainMap,
    score_params: ScoreParams,
    challenge_params: ChallengeBudgetParams,
) -> Result<EpochAllocationView, PoiwError> {
    if !score_params.valid() {
        Err(PoiwError::InvalidParameter("payout_cap_share_bps must be within 1..=10_000"))
    } else {
        match budget_for_challenges(pool, scores.organic_settled_value, challenge_params) {
            Err(e) => Err(e),
            Ok(challenge_budget) => {
                let organic_budget = budget_for_organic(pool, challenge_budget, challenge_params);
                match (
                    allocation(
                        organic_budget,
                        scores.organic,
                        domains,
                        score_params.payout_cap_share_bps,
                        None,
                    ),
                    allocation(
                        challenge_budget,
                        scores.challenge,
                        domains,
                        score_params.payout_cap_share_bps,
                        Some(challenge_params.per_identity_cap),
                    ),
                ) {
                    (Err(e), _) => Err(e),
                    (Ok(_), Err(e)) => Err(e),
                    (Ok(organic), Ok(challenge)) => Ok(
                        EpochAllocationView {
                            organic_budget,
                            challenge_budget,
                            organic,
                            challenge,
                        },
                    ),
                }
            },
        }
    }
}

/// Allocate one epoch: derive the challenge budget from the pool and
/// organic value, give the remainder of the pool to organic work, and
/// distribute both buckets under their caps.
///
/// Only the within-pool portion of the challenge budget (bounded by the
/// pool-share cap) is carved out of the organic pool; the cold-start
/// floor's excess above that is **additive** emission, because the floor
/// is deliberately the only emission not gated by demand and must not
/// cannibalize organic payouts. In a cold-start epoch (zero organic
/// value, zero pool) the challenge budget equals the floor and the
/// organic budget is zero: total emission is exactly the floor.
pub fn allocate_epoch(
    pool: u128,
    scores: &EpochScores,
    domains: &DomainMap,
    score_params: &ScoreParams,
    challenge_params: &ChallengeBudgetParams,
) -> (r: Result<EpochAllocation, PoiwError>)
    ensures
        r matches Ok(allocated) ==> epoch_allocation(
            pool,
            scores@,
            *domains,
            *score_params,
            *challenge_params,
        ) == Ok::<EpochAllocationView, PoiwError>(allocated@),
        r matches Err(e) ==> epoch_allocation(
            pool,
            scores@,
            *domains,
            *score_params,
            *challenge_params,
        ) == Err::<EpochAllocationView, PoiwError>(e),
{
    if let Err(e) = score_params.validate() {
        return Err(e);
    }
    let challenge_budget: u128 = match challenge_budget(
        pool,
        scores.organic_settled_value,
        challenge_params,
    ) {
        Ok(budget) => budget,
        Err(e) => {
            return Err(e);
        },
    };
    let share: u128 = match apply_bps(pool, challenge_params.max_pool_share_bps) {
        Ok(share) => share,
        Err(e) => {
            return Err(e);
        },
    };
    proof {
        scaled_within(pool as nat, challenge_params.max_pool_share_bps as nat, 10_000);
    }
    let carve: u128 = if challenge_budget <= share {
        challenge_budget
    } else {
        share
    };
    let organic_budget: u128 = pool - carve;
    let organic: Vec<IdentityPayout> = match allocate_bucket(
        organic_budget,
        scores.organic.as_slice(),
        domains,
        score_params.payout_cap_share_bps,
        None,
    ) {
        Ok(payouts) => payouts,
        Err(e) => {
            return Err(e);
        },
    };
    match allocate_bucket(
        challenge_budget,
        scores.challenge.as_slice(),
        domains,
        score_params.payout_cap_share_bps,
        Some(challenge_params.per_identity_cap),
    ) {
        Ok(challenge) => Ok(
            EpochAllocation { organic_budget, challenge_budget, organic, challenge },
        ),
        Err(e) => Err(e),
    }
}

/// The amounts paid.
pub open spec fn paid(payouts: Seq<IdentityPayout>) -> Seq<nat> {
    payouts.map_values(|p: IdentityPayout| p.amount as nat)
}

/// What each control domain is paid in the end.
pub open spec fn domain_paid(payouts: Seq<IdentityPayout>, domains: DomainMap) -> Seq<
    (DomainKeyView, nat),
> {
    payouts.map_values(|p: IdentityPayout| (domains.domain(p.identity), p.amount as nat))
}

/// A payout pays every scored identity once, in the order of the scores.
pub proof fn allocation_keeps_order(
    budget: u128,
    scores: Seq<IdentityScore>,
    domains: DomainMap,
    cap_share_bps: Bps,
    per_identity_cap: Option<u128>,
)
    requires
        allocation(budget, scores, domains, cap_share_bps, per_identity_cap) is Ok,
    ensures
        ({
            let payouts = allocation(
                budget,
                scores,
                domains,
                cap_share_bps,
                per_identity_cap,
            )->Ok_0;
            &&& payouts.len() == scores.len()
            &&& forall|i: int|
                0 <= i < scores.len() ==> (#[trigger] payouts[i]).identity == scores[i].identity
        }),
{
    let payouts = allocation(budget, scores, domains, cap_share_bps, per_identity_cap)->Ok_0;
    if score_total(scores) != 0 && budget != 0 {
        let amounts = collect(shares(budget, scores, per_identity_cap))->Ok_0;
        let most = scaled(budget as nat, cap_share_bps as nat, 10_000)->Ok_0;
        let outcomes = domain_payouts(scores, amounts, domains, most);
        collect_values(outcomes);
        assert forall|i: int| 0 <= i < scores.len() implies (#[trigger] payouts[i]).identity
            == scores[i].identity by {
            assert(outcomes[i] == Ok::<IdentityPayout, PoiwError>(payouts[i]));
        }
    }
}

/// No payout is more than the identity's pro-rata share, nor than the
/// per-identity cap.
pub proof fn allocation_within_share(
    budget: u128,
    scores: Seq<IdentityScore>,
    domains: DomainMap,
    cap_share_bps: Bps,
    per_identity_cap: Option<u128>,
    i: int,
)
    requires
        allocation(budget, scores, domains, cap_share_bps, per_identity_cap) is Ok,
        0 <= i < scores.len(),
    ensures
        ({
            let amount = allocation(
                budget,
                scores,
                domains,
                cap_share_bps,
                per_identity_cap,
            )->Ok_0[i].amount;
            &&& amount * score_total(scores) <= budget * scores[i].score
            &&& per_identity_cap matches Some(cap) ==> amount <= cap
        }),
{
    let payouts = allocation(budget, scores, domains, cap_share_bps, per_identity_cap)->Ok_0;
    let sum = score_total(scores);
    let b = budget as nat;
    let s = scores[i].score as nat;
    if sum != 0 && budget != 0 {
        let amounts = collect(shares(budget, scores, per_identity_cap))->Ok_0;
        let most = scaled(b, cap_share_bps as nat, 10_000)->Ok_0;
        let posts = domain_posts(scores, amounts, domains);
        let outcomes = domain_payouts(scores, amounts, domains, most);
        shares_within_budget(budget, scores, per_identity_cap, amounts);
        collect_values(outcomes);
        assert(outcomes[i] == Ok::<IdentityPayout, PoiwError>(payouts[i]));
        let domain_sum = total_for(posts, domains.domain(scores[i].identity));
        if domain_sum > most {
            scaled_within(amounts[i] as nat, most as nat, domain_sum);
        }
        assert(payouts[i].amount <= amounts[i]);
        let a = payouts[i].amount as nat;
        assert(a <= b * s / sum);
        assert(a * sum <= b * s) by (nonlinear_arith)
            requires
                a <= b * s / sum,
                sum > 0,
        ;
    } else {
        assert(payouts[i].amount == 0);
        assert(0 * sum == 0) by (nonlinear_arith);
        assert(0 <= b * s) by (nonlinear_arith);
    }
}

/// The payouts together are no more than the budget: capped-off value is not
/// created.
pub proof fn allocation_within_budget(
    budget: u128,
    scores: Seq<IdentityScore>,
    domains: DomainMap,
    cap_share_bps: Bps,
    per_identity_cap: Option<u128>,
)
    requires
        allocation(budget, scores, domains, cap_share_bps, per_identity_cap) is Ok,
    ensures
        total(
            paid(allocation(budget, scores, domains, cap_share_bps, per_identity_cap)->Ok_0),
        ) <= budget,
{
    let payouts = allocation(budget, scores, domains, cap_share_bps, per_identity_cap)->Ok_0;
    if score_total(scores) != 0 && budget != 0 {
        let amounts = collect(shares(budget, scores, per_identity_cap))->Ok_0;
        let most = scaled(budget as nat, cap_share_bps as nat, 10_000)->Ok_0;
        let posts = domain_posts(scores, amounts, domains);
        let outcomes = domain_payouts(scores, amounts, domains, most);
        shares_within_budget(budget, scores, per_identity_cap, amounts);
        collect_values(outcomes);
        assert forall|i: int| 0 <= i < scores.len() implies #[trigger] paid(payouts)[i]
            <= as_nats(amounts)[i] by {
            assert(outcomes[i] == Ok::<IdentityPayout, PoiwError>(payouts[i]));
            let domain_sum = total_for(posts, domains.domain(scores[i].identity));
            if domain_sum > most {
                scaled_within(amounts[i] as nat, most as nat, domain_sum);
            }
        }
        total_monotone(paid(payouts), as_nats(amounts));
    } else {
        crate::tally::zero_total(paid(payouts));
    }
}

/// Scaling the posts of one key down to a part of its total leaves no more
/// than that part.
proof fn scaled_total(
    before: Seq<(DomainKeyView, nat)>,
    after: Seq<(DomainKeyView, nat)>,
    key: DomainKeyView,
    most: nat,
    whole: nat,
)
    requires
        before.len() == after.len(),
        forall|i: int|
            0 <= i < before.len() ==> (#[trigger] after[i]).0 == before[i].0 && (after[i].0 == key
                ==> after[i].1 * whole <= before[i].1 * most),
    ensures
        total_for(after, key) * whole <= total_for(before, key) * most,
    decreases before.len(),
{
    if before.len() > 0 {
        assert forall|i: int| 0 <= i < before.len() - 1 implies (#[trigger] after.drop_last()[i]).0
            == before.drop_last()[i].0 && (after.drop_last()[i].0 == key
            ==> after.drop_last()[i].1 * whole <= before.drop_last()[i].1 * most) by {
            assert(after[i].0 == before[i].0);
        }
        scaled_total(before.drop_last(), after.drop_last(), key, most, whole);
        let x = total_for(after.drop_last(), key);
        let y = total_for(before.drop_last(), key);
        assert(after[after.len() - 1].0 == before[before.len() - 1].0);
        let p = after.last().1;
        let q = before.last().1;
        assert((x + p) * whole == x * whole + p * whole) by (nonlinear_arith);
        assert((y + q) * most == y * most + q * most) by (nonlinear_arith);
    } else {
        assert(0 * whole == 0) by (nonlinear_arith);
        assert(0 * most == 0) by (nonlinear_arith);
    }
}

/// No control domain is paid more than its cap share of the budget.
pub proof fn allocation_within_domain_cap(
    budget: u128,
    scores: Seq<IdentityScore>,
    domains: DomainMap,
    cap_share_bps: Bps,
    per_identity_cap: Option<u128>,
    key: DomainKeyView,
)
    requires
        allocation(budget, scores, domains, cap_share_bps, per_identity_cap) is Ok,
    ensures
        10_000 * total_for(
            domain_paid(
                allocation(budget, scores, domains, cap_share_bps, per_identity_cap)->Ok_0,
                domains,
            ),
            key,
        ) <= budget * cap_share_bps,
{
    let payouts = allocation(budget, scores, domains, cap_share_bps, per_identity_cap)->Ok_0;
    let after = domain_paid(payouts, domains);
    if score_total(scores) != 0 && budget != 0 {
        let amounts = collect(shares(budget, scores, per_identity_cap))->Ok_0;
        let most = scaled(budget as nat, cap_share_bps as nat, 10_000)->Ok_0;
        let before = domain_posts(scores, amounts, domains);
        let outcomes = domain_payouts(scores, amounts, domains, most);
        let whole = total_for(before, key);
        shares_within_budget(budget, scores, per_identity_cap, amounts);
        collect_values(outcomes);
        if whole > most {
            assert forall|i: int| 0 <= i < before.len() implies (#[trigger] after[i]).0
                == before[i].0 && (after[i].0 == key ==> after[i].1 * whole <= before[i].1
                * most) by {
                assert(outcomes[i] == Ok::<IdentityPayout, PoiwError>(payouts[i]));
                if after[i].0 == key {
                    let a = amounts[i] as nat;
                    let m = most as nat;
                    let v = (a * m / whole) as nat;
                    assert(v * whole <= a * m) by (nonlinear_arith)
                        requires
                            v == a * m / whole,
                            whole > 0,
                    ;
                }
            }
            scaled_total(before, after, key, most as nat, whole);
            let t = total_for(after, key);
            let m = most as nat;
            assert(t <= m) by (nonlinear_arith)
                requires
                    t * whole <= whole * m,
                    whole > 0,
            ;
        } else {
            assert forall|i: int| 0 <= i < before.len() implies (#[trigger] after[i]).0
                == before[i].0 && (after[i].0 == key ==> after[i].1 * 1 <= before[i].1 * 1) by {
                assert(outcomes[i] == Ok::<IdentityPayout, PoiwError>(payouts[i]));
            }
            scaled_total(before, after, key, 1, 1);
        }
        assert(total_for(after, key) <= most);
    } else {
        assert forall|i: int| 0 <= i < after.len() implies (#[trigger] after[i]).1 == 0 by {}
        zero_posts(after, key);
        assert(0 <= budget * cap_share_bps) by (nonlinear_arith);
    }
}

/// Posts of nothing total nothing.
proof fn zero_posts(posts: Seq<(DomainKeyView, nat)>, key: DomainKeyView)
    requires
        forall|i: int| 0 <= i < posts.len() ==> (#[trigger] posts[i]).1 == 0,
    ensures
        total_for(posts, key) == 0,
    decreases posts.len(),
{
    if posts.len() > 0 {
        assert forall|i: int| 0 <= i < posts.len() - 1 implies (#[trigger] posts.drop_last()[i]).1
            == 0 by {
            assert(posts[i].1 == 0);
        }
        zero_posts(posts.drop_last(), key);
        assert(posts[posts.len() - 1].1 == 0);
    }
}

/// What an epoch emits is within its two budgets; the budgets together never
/// exceed the pool and the cold-start floor; and they exceed the pool only
/// by what the floor adds above the pool-share cap.
pub proof fn emission_is_bounded(
    pool: u128,
    scores: EpochScoresView,
    domains: DomainMap,
    score_params: ScoreParams,
    challenge_params: ChallengeBudgetParams,
)
    requires
        epoch_allocation(pool, scores, domains, score_params, challenge_params) is Ok,
    ensures
        ({
            let a = epoch_allocation(
                pool,
                scores,
                domains,
                score_params,
                challenge_params,
            )->Ok_0;
            let share = (pool * challenge_params.max_pool_share_bps / 10_000) as nat;
            &&& total(paid(a.organic)) <= a.organic_budget
            &&& total(paid(a.challenge)) <= a.challenge_budget
            &&& a.challenge_budget <= share ==> a.organic_budget + a.challenge_budget == pool
            &&& a.challenge_budget > share ==> a.challenge_budget
                == challenge_params.cold_start_floor
            &&& a.organic_budget + a.challenge_budget <= pool + challenge_params.cold_start_floor
        }),
{
    let a = epoch_allocation(pool, scores, domains, score_params, challenge_params)->Ok_0;
    scaled_within(pool as nat, challenge_params.max_pool_share_bps as nat, 10_000);
    allocation_within_budget(
        a.organic_budget,
        scores.organic,
        domains,
        score_params.payout_cap_share_bps,
        None,
    );
    allocation_within_budget(
        a.challenge_budget,
        scores.challenge,
        domains,
        score_params.payout_cap_share_bps,
        Some(challenge_params.per_identity_cap),
    );
}

/// The cold-start floor does not cannibalize organic payouts: whatever the
/// floor, organic work keeps all of the pool but the pool-share cap.
pub proof fn floor_spares_organic_work(
    pool: u128,
    scores: EpochScoresView,
    domains: DomainMap,
    score_params: ScoreParams,
    challenge_params: ChallengeBudgetParams,
)
    requires
        epoch_allocation(pool, scores, domains, score_params, challenge_params) is Ok,
    ensures
        epoch_allocation(
            pool,
            scores,
            domains,
            score_params,
            challenge_params,
        )->Ok_0.organic_budget >= pool - pool * challenge_params.max_pool_share_bps / 10_000,
{
    scaled_within(pool as nat, challenge_params.max_pool_share_bps as nat, 10_000);
}

/// In a cold start the organic budget is zero and the challenge budget is
/// exactly the floor.
pub proof fn cold_start_emits_the_floor(
    scores: EpochScoresView,
    domains: DomainMap,
    score_params: ScoreParams,
    challenge_params: ChallengeBudgetParams,
)
    requires
        scores.organic_settled_value == 0,
        epoch_allocation(0, scores, domains, score_params, challenge_params) is Ok,
    ensures
        ({
            let a = epoch_allocation(0, scores, domains, score_params, challenge_params)->Ok_0;
            a.organic_budget == 0 && a.challenge_budget == challenge_params.cold_start_floor
        }),
{
    challenge_budget_is_triple_bounded(0, 0, challenge_params);
    scaled_within(0, challenge_params.max_pool_share_bps as nat, 10_000);
}

/// The scores of both buckets come in ascending order of identity.
pub proof fn scores_are_ordered(
    units: Seq<SettledWorkUnit>,
    reliability: Map<IdentityId, ReliabilityInputs>,
    domains: DomainMap,
    params: ClassifierParams,
)
    requires
        epoch_scores(units, reliability, domains, params) is Ok,
    ensures
        ordered_by_identity(epoch_scores(units, reliability, domains, params)->Ok_0.organic),
        ordered_by_identity(epoch_scores(units, reliability, domains, params)->Ok_0.challenge),
{
    let organic_posts = bucket_posts(units, domains, false);
    let challenge_posts = bucket_posts(units, domains, true);
    tally_map_is_finite(organic_posts);
    tally_map_is_finite(challenge_posts);
    adjusted_are_ordered(tally_map(organic_posts), reliability);
    adjusted_are_ordered(tally_map(challenge_posts), reliability);
}

} // verus!
