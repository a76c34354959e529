//! What is paid: to every scored identity its share of the budget, cut only
//! by the caps that are meant for it.

use vstd::prelude::*;

use crate::aipow::score::{
    allocation, budget_for_challenges, budget_for_organic, domain_payouts, domain_posts,
    epoch_allocation, ChallengeBudgetParams, EpochScoresView,
};
use crate::laws::plain::{is_floor, larger, one_party, smaller};
use crate::payout::{score_total, share, shares, shares_within_budget};
use crate::poiw::score::{paid_to, pool_payouts};
use crate::score::{
    maturation_error, pool_size, scaled, scaled_within, stream_parts, IdentityPayout, IdentityScore,
    ScoreParams,
};
use crate::sums::{as_nats, collect, collect_error, collect_values, total};
use crate::tally::total_for;
use crate::types::{Bps, DomainKeyView, DomainMap, PoiwError};

verus! {

/// All scores together.
pub open spec fn whole_score(scores: Seq<IdentityScore>) -> int {
    total(Seq::new(scores.len(), |j: int| scores[j].score as nat)) as int
}

/// The share of a budget that a score earns, floored; nothing where nobody
/// scored.
pub open spec fn pro_rata(budget: int, score: int, whole: int) -> int {
    if whole == 0 {
        0
    } else {
        budget * score / whole
    }
}

/// An amount under a cap, where there is one.
pub open spec fn under_cap(amount: int, cap: Option<u128>) -> int {
    match cap {
        Some(most) => smaller(amount, most as int),
        None => amount,
    }
}

/// The share of the identity at a position, under its own cap.
pub open spec fn own_share(
    budget: u128,
    scores: Seq<IdentityScore>,
    cap: Option<u128>,
    i: int,
) -> int {
    under_cap(pro_rata(budget as int, scores[i].score as int, whole_score(scores)), cap)
}

/// The shares of all identities that are one party with the one at a
/// position, itself included.
pub open spec fn party_share(
    budget: u128,
    scores: Seq<IdentityScore>,
    domains: DomainMap,
    cap: Option<u128>,
    i: int,
) -> int {
    total(
        Seq::new(
            scores.len(),
            |j: int|
                if one_party(domains, scores[i].identity, scores[j].identity) {
                    own_share(budget, scores, cap, j) as nat
                } else {
                    0
                },
        ),
    ) as int
}

/// Everyone who scored is paid, in order: its own share where its party's
/// shares together are within the party cap, and else the share's part of
/// that cap.
pub open spec fn paid_by_share(
    payouts: Seq<IdentityPayout>,
    budget: u128,
    scores: Seq<IdentityScore>,
    domains: DomainMap,
    cap_share_bps: Bps,
    cap: Option<u128>,
) -> bool {
    let most = (budget * cap_share_bps) as int / 10_000;
    &&& payouts.len() == scores.len()
    &&& forall|i: int|
        0 <= i < scores.len() ==> {
            let own = own_share(budget, scores, cap, i);
            let party = party_share(budget, scores, domains, cap, i);
            &&& (#[trigger] payouts[i]).identity == scores[i].identity
            &&& party <= most ==> payouts[i].amount == own
            &&& party > most ==> is_floor(payouts[i].amount as int, own * most, party)
        }
}

/// The total of a key, position by position.
proof fn key_total_by_position(posts: Seq<(DomainKeyView, nat)>, key: DomainKeyView)
    ensures
        total_for(posts, key) == total(
            Seq::new(
                posts.len(),
                |j: int|
                    if posts[j].0 == key {
                        posts[j].1
                    } else {
                        0
                    },
            ),
        ),
    decreases posts.len(),
{
    let by_position = Seq::new(
        posts.len(),
        |j: int|
            if posts[j].0 == key {
                posts[j].1
            } else {
                0
            },
    );
    if posts.len() > 0 {
        let rest = posts.drop_last();
        key_total_by_position(rest, key);
        assert(by_position.drop_last() =~= Seq::new(
            rest.len(),
            |j: int|
                if rest[j].0 == key {
                    rest[j].1
                } else {
                    0
                },
        ));
    }
}

proof fn whole_is_total(scores: Seq<IdentityScore>)
    ensures
        whole_score(scores) == score_total(scores),
{
    assert(Seq::new(scores.len(), |j: int| scores[j].score as nat) =~= scores.map_values(
        |s: IdentityScore| s.score as nat,
    ));
}

/// One budget is paid by share.
pub proof fn budgets_are_paid_by_share(
    budget: u128,
    scores: Seq<IdentityScore>,
    domains: DomainMap,
    cap_share_bps: Bps,
    cap: Option<u128>,
)
    requires
        allocation(budget, scores, domains, cap_share_bps, cap) is Ok,
    ensures
        paid_by_share(
            allocation(budget, scores, domains, cap_share_bps, cap)->Ok_0,
            budget,
            scores,
            domains,
            cap_share_bps,
            cap,
        ),
{
    let payouts = allocation(budget, scores, domains, cap_share_bps, cap)->Ok_0;
    let whole = whole_score(scores);
    let mostly = (budget * cap_share_bps) as int / 10_000;
    whole_is_total(scores);
    assert(budget * cap_share_bps >= 0) by (nonlinear_arith);
    if whole == 0 || budget == 0 {
        assert forall|i: int| 0 <= i < scores.len() implies own_share(budget, scores, cap, i)
            == 0 by {
            let s = scores[i].score as int;
            assert(0 * s == 0) by (nonlinear_arith);
            if whole != 0 {
                assert(0int / whole == 0) by (nonlinear_arith)
                    requires
                        whole != 0,
                ;
            }
        }
        assert forall|i: int| 0 <= i < scores.len() implies party_share(
            budget,
            scores,
            domains,
            cap,
            i,
        ) == 0 by {
            crate::tally::zero_total(
                Seq::new(
                    scores.len(),
                    |j: int|
                        if one_party(domains, scores[i].identity, scores[j].identity) {
                            own_share(budget, scores, cap, j) as nat
                        } else {
                            0
                        },
                ),
            );
        }
    } else {
        let amounts = collect(shares(budget, scores, cap))->Ok_0;
        let most = scaled(budget as nat, cap_share_bps as nat, 10_000)->Ok_0;
        let posts = domain_posts(scores, amounts, domains);
        let outcomes = domain_payouts(scores, amounts, domains, most);
        shares_within_budget(budget, scores, cap, amounts);
        collect_values(outcomes);
        collect_values(shares(budget, scores, cap));
        assert(most == mostly);
        assert forall|i: int| 0 <= i < scores.len() implies #[trigger] amounts[i] == own_share(
            budget,
            scores,
            cap,
            i,
        ) by {
            assert(shares(budget, scores, cap)[i] == Ok::<u128, PoiwError>(amounts[i]));
            assert(shares(budget, scores, cap)[i] == share(
                budget,
                scores[i].score,
                score_total(scores),
                cap,
            ));
        }
        assert forall|i: int| 0 <= i < scores.len() implies {
            let own = own_share(budget, scores, cap, i);
            let party = party_share(budget, scores, domains, cap, i);
            &&& (#[trigger] payouts[i]).identity == scores[i].identity
            &&& party <= mostly ==> payouts[i].amount == own
            &&& party > mostly ==> is_floor(payouts[i].amount as int, own * mostly, party)
        } by {
            let key = domains.domain(scores[i].identity);
            key_total_by_position(posts, key);
            let ours = Seq::new(
                scores.len(),
                |j: int|
                    if one_party(domains, scores[i].identity, scores[j].identity) {
                        own_share(budget, scores, cap, j) as nat
                    } else {
                        0
                    },
            );
            let theirs = Seq::new(
                posts.len(),
                |j: int|
                    if posts[j].0 == key {
                        posts[j].1
                    } else {
                        0
                    },
            );
            assert forall|j: int| 0 <= j < scores.len() implies ours[j] == theirs[j] by {
                assert(amounts[j] == own_share(budget, scores, cap, j));
            }
            assert(ours =~= theirs);
            assert(outcomes[i] == Ok::<IdentityPayout, PoiwError>(payouts[i]));
            assert(amounts[i] == own_share(budget, scores, cap, i));
            let party = total_for(posts, key);
            if party > most {
                let n = amounts[i] as nat * most as nat;
                let q = n / party;
                assert(q * party <= n < q * party + party) by (nonlinear_arith)
                    requires
                        q == n / party,
                        party > 0,
                ;
            }
        }
    }
}

/// The pool's share that challenges may take.
pub open spec fn pool_share(pool: u128, params: ChallengeBudgetParams) -> int {
    (pool * params.max_pool_share_bps) as int / 10_000
}

/// The multiple of the organic value that challenges may take.
pub open spec fn organic_multiple(organic: u128, params: ChallengeBudgetParams) -> int {
    (organic * params.organic_multiple_percent) as int / 100
}

/// The challenge budget is the smaller of the pool share and the organic
/// multiple, raised to the floor where it is below it.
pub proof fn challenge_budget_is_attained(
    pool: u128,
    organic: u128,
    params: ChallengeBudgetParams,
)
    ensures
        budget_for_challenges(pool, organic, params) matches Ok(budget) ==> {
            &&& params.max_pool_share_bps <= 10_000
            &&& budget == larger(
                params.cold_start_floor as int,
                smaller(pool_share(pool, params), organic_multiple(organic, params)),
            )
        },
        params.max_pool_share_bps > 10_000 ==> (budget_for_challenges(
            pool,
            organic,
            params,
        ) matches Err(PoiwError::InvalidParameter(_))),
        params.max_pool_share_bps <= 10_000 ==> (budget_for_challenges(pool, organic, params)
            is Ok <==> pool * params.max_pool_share_bps <= u128::MAX && organic
            * params.organic_multiple_percent <= u128::MAX),
        budget_for_challenges(pool, organic, params) matches Err(PoiwError::Overflow) ==> pool
            * params.max_pool_share_bps > u128::MAX || organic * params.organic_multiple_percent
            > u128::MAX,
{
}

/// An epoch is paid in two budgets. Challenge work gets the challenge budget,
/// organic work the rest of the pool, of which challenges take no more than
/// their pool share. Both are paid by share; only challenge payouts are under
/// the cap of one identity.
pub proof fn epochs_are_paid_by_share(
    pool: u128,
    scores: EpochScoresView,
    domains: DomainMap,
    score_params: ScoreParams,
    challenge_params: ChallengeBudgetParams,
)
    requires
        epoch_allocation(pool, scores, domains, score_params, challenge_params) is Ok,
    ensures
        ({
            let a = epoch_allocation(
                pool,
                scores,
                domains,
                score_params,
                challenge_params,
            )->Ok_0;
            &&& a.challenge_budget == larger(
                challenge_params.cold_start_floor as int,
                smaller(
                    pool_share(pool, challenge_params),
                    organic_multiple(scores.organic_settled_value, challenge_params),
                ),
            )
            &&& a.organic_budget == pool - smaller(
                a.challenge_budget as int,
                pool_share(pool, challenge_params),
            )
            &&& paid_by_share(
                a.organic,
                a.organic_budget,
                scores.organic,
                domains,
                score_params.payout_cap_share_bps,
                None,
            )
            &&& paid_by_share(
                a.challenge,
                a.challenge_budget,
                scores.challenge,
                domains,
                score_params.payout_cap_share_bps,
                Some(challenge_params.per_identity_cap),
            )
        }),
{
    let a = epoch_allocation(pool, scores, domains, score_params, challenge_params)->Ok_0;
    challenge_budget_is_attained(pool, scores.organic_settled_value, challenge_params);
    scaled_within(pool as nat, challenge_params.max_pool_share_bps as nat, 10_000);
    budgets_are_paid_by_share(
        a.organic_budget,
        scores.organic,
        domains,
        score_params.payout_cap_share_bps,
        None,
    );
    budgets_are_paid_by_share(
        a.challenge_budget,
        scores.challenge,
        domains,
        score_params.payout_cap_share_bps,
        Some(challenge_params.per_identity_cap),
    );
}

/// Organic work is paid in full: an identity whose party's shares are within
/// the party cap gets all of its share of the organic budget, whatever the
/// cap on challenge payouts is.
pub proof fn organic_work_is_paid_in_full(
    pool: u128,
    scores: EpochScoresView,
    domains: DomainMap,
    score_params: ScoreParams,
    challenge_params: ChallengeBudgetParams,
    i: int,
)
    requires
        epoch_allocation(pool, scores, domains, score_params, challenge_params) is Ok,
        0 <= i < scores.organic.len(),
        ({
            let budget = epoch_allocation(
                pool,
                scores,
                domains,
                score_params,
                challenge_params,
            )->Ok_0.organic_budget;
            party_share(budget, scores.organic, domains, None, i) <= (budget
                * score_params.payout_cap_share_bps) as int / 10_000
        }),
    ensures
        ({
            let a = epoch_allocation(
                pool,
                scores,
                domains,
                score_params,
                challenge_params,
            )->Ok_0;
            &&& a.organic[i].identity == scores.organic[i].identity
            &&& a.organic[i].amount == pro_rata(
                a.organic_budget as int,
                scores.organic[i].score as int,
                whole_score(scores.organic),
            )
        }),
{
    epochs_are_paid_by_share(pool, scores, domains, score_params, challenge_params);
}

/// The cap on an identity's challenge payouts does not touch organic work: two
/// allocations that differ only in that cap have the same budgets and pay
/// organic work the same.
pub proof fn challenge_cap_spares_organic_work(
    pool: u128,
    scores: EpochScoresView,
    domains: DomainMap,
    score_params: ScoreParams,
    a: ChallengeBudgetParams,
    b: ChallengeBudgetParams,
)
    requires
        a == (ChallengeBudgetParams { per_identity_cap: a.per_identity_cap, ..b }),
        epoch_allocation(pool, scores, domains, score_params, a) is Ok,
        epoch_allocation(pool, scores, domains, score_params, b) is Ok,
    ensures
        ({
            let x = epoch_allocation(pool, scores, domains, score_params, a)->Ok_0;
            let y = epoch_allocation(pool, scores, domains, score_params, b)->Ok_0;
            &&& x.organic_budget == y.organic_budget
            &&& x.challenge_budget == y.challenge_budget
            &&& x.organic == y.organic
        }),
{
}

/// Challenge scores do not touch organic payouts, nor organic scores
/// challenge payouts, as long as the organic value is the same.
pub proof fn buckets_are_paid_apart(
    pool: u128,
    a: EpochScoresView,
    b: EpochScoresView,
    domains: DomainMap,
    score_params: ScoreParams,
    challenge_params: ChallengeBudgetParams,
)
    requires
        a.organic_settled_value == b.organic_settled_value,
        epoch_allocation(pool, a, domains, score_params, challenge_params) is Ok,
        epoch_allocation(pool, b, domains, score_params, challenge_params) is Ok,
    ensures
        ({
            let x = epoch_allocation(pool, a, domains, score_params, challenge_params)->Ok_0;
            let y = epoch_allocation(pool, b, domains, score_params, challenge_params)->Ok_0;
            &&& a.organic == b.organic ==> x.organic == y.organic
            &&& a.challenge == b.challenge ==> x.challenge == y.challenge
        }),
{
}

/// A budget is allocated wherever amounts and scores stay below 64 bits.
pub proof fn ordinary_budgets_are_allocated(
    budget: u128,
    scores: Seq<IdentityScore>,
    domains: DomainMap,
    cap_share_bps: Bps,
    cap: Option<u128>,
)
    requires
        budget <= u64::MAX,
        whole_score(scores) <= u64::MAX,
        cap_share_bps <= 10_000,
    ensures
        allocation(budget, scores, domains, cap_share_bps, cap) is Ok,
{
    whole_is_total(scores);
    if whole_score(scores) != 0 && budget != 0 {
        let outcomes = shares(budget, scores, cap);
        let sum = score_total(scores);
        let b = budget as nat;
        if collect(outcomes) is Err {
            let j = collect_error(outcomes);
            let s = scores[j].score as nat;
            one_of_all(scores, j);
            assert(b * s <= u64::MAX * u64::MAX) by (nonlinear_arith)
                requires
                    b <= u64::MAX,
                    s <= u64::MAX,
            ;
            assert(outcomes[j] == share(budget, scores[j].score, sum, cap));
        }
        let amounts = collect(outcomes)->Ok_0;
        shares_within_budget(budget, scores, cap, amounts);
        let c = cap_share_bps as nat;
        assert(b * c <= u64::MAX * 10_000) by (nonlinear_arith)
            requires
                b <= u64::MAX,
                c <= 10_000,
        ;
        let most = scaled(b, c, 10_000)->Ok_0;
        scaled_within(b, c, 10_000);
        let paid = domain_payouts(scores, amounts, domains, most);
        if collect(paid) is Err {
            let j = collect_error(paid);
            let posts = domain_posts(scores, amounts, domains);
            amount_within(amounts, j);
            let a = amounts[j] as nat;
            let m = most as nat;
            assert(a * m <= u64::MAX * u64::MAX) by (nonlinear_arith)
                requires
                    a <= u64::MAX,
                    m <= u64::MAX,
            ;
            assert(paid[j] is Err);
        }
    }
}

proof fn one_of_all(scores: Seq<IdentityScore>, i: int)
    requires
        0 <= i < scores.len(),
    ensures
        scores[i].score <= score_total(scores),
{
    let values = scores.map_values(|s: IdentityScore| s.score as nat);
    crate::sums::largest_bounds(values, i);
    crate::sums::largest_within_total(values);
}

proof fn amount_within(amounts: Seq<u128>, i: int)
    requires
        0 <= i < amounts.len(),
    ensures
        amounts[i] <= total(as_nats(amounts)),
{
    crate::sums::largest_bounds(as_nats(amounts), i);
    crate::sums::largest_within_total(as_nats(amounts));
}

/// An epoch is allocated wherever its parameters are sound and amounts and
/// scores stay below 64 bits; unsound parameters are refused.
pub proof fn ordinary_epochs_are_allocated(
    pool: u128,
    scores: EpochScoresView,
    domains: DomainMap,
    score_params: ScoreParams,
    challenge_params: ChallengeBudgetParams,
)
    ensures
        1 <= score_params.payout_cap_share_bps <= 10_000 && challenge_params.max_pool_share_bps
            <= 10_000 && pool <= u64::MAX && scores.organic_settled_value <= u64::MAX
            && challenge_params.cold_start_floor <= u64::MAX && whole_score(scores.organic)
            <= u64::MAX && whole_score(scores.challenge) <= u64::MAX ==> epoch_allocation(
            pool,
            scores,
            domains,
            score_params,
            challenge_params,
        ) is Ok,
        !(1 <= score_params.payout_cap_share_bps <= 10_000) || challenge_params.max_pool_share_bps
            > 10_000 ==> (epoch_allocation(
            pool,
            scores,
            domains,
            score_params,
            challenge_params,
        ) matches Err(PoiwError::InvalidParameter(_))),
{
    if 1 <= score_params.payout_cap_share_bps <= 10_000 && challenge_params.max_pool_share_bps
        <= 10_000 && pool <= u64::MAX && scores.organic_settled_value <= u64::MAX
        && challenge_params.cold_start_floor <= u64::MAX && whole_score(scores.organic) <= u64::MAX
        && whole_score(scores.challenge) <= u64::MAX {
        let organic = scores.organic_settled_value;
        let p = challenge_params.max_pool_share_bps;
        let q = challenge_params.organic_multiple_percent;
        assert(pool * p <= u64::MAX * 10_000) by (nonlinear_arith)
            requires
                pool <= u64::MAX,
                p <= 10_000,
        ;
        assert(organic * q <= u64::MAX * u32::MAX) by (nonlinear_arith)
            requires
                organic <= u64::MAX,
                q <= u32::MAX,
        ;
        challenge_budget_is_attained(pool, organic, challenge_params);
        scaled_within(pool as nat, p as nat, 10_000);
        let challenge_budget = budget_for_challenges(pool, organic, challenge_params)->Ok_0;
        let organic_budget = budget_for_organic(pool, challenge_budget, challenge_params);
        ordinary_budgets_are_allocated(
            organic_budget,
            scores.organic,
            domains,
            score_params.payout_cap_share_bps,
            None,
        );
        ordinary_budgets_are_allocated(
            challenge_budget,
            scores.challenge,
            domains,
            score_params.payout_cap_share_bps,
            Some(challenge_params.per_identity_cap),
        );
    }
}

/// Everyone who scored is paid, in order: its share of the pool, or the cap
/// share of the pool where that is less.
pub open spec fn paid_by_capped_share(
    payouts: Seq<IdentityPayout>,
    pool: u128,
    scores: Seq<IdentityScore>,
    cap_share_bps: Bps,
) -> bool {
    &&& payouts.len() == scores.len()
    &&& forall|i: int|
        0 <= i < scores.len() ==> {
            &&& (#[trigger] payouts[i]).identity == scores[i].identity
            &&& payouts[i].amount == smaller(
                pro_rata(pool as int, scores[i].score as int, whole_score(scores)),
                (pool * cap_share_bps) as int / 10_000,
            )
        }
}

/// A pool is paid by capped share.
pub proof fn pools_are_paid_by_share(pool: u128, scores: Seq<IdentityScore>, params: ScoreParams)
    requires
        pool_payouts(pool, scores, params) is Ok,
    ensures
        paid_by_capped_share(
            pool_payouts(pool, scores, params)->Ok_0,
            pool,
            scores,
            params.payout_cap_share_bps,
        ),
{
    let payouts = pool_payouts(pool, scores, params)->Ok_0;
    let whole = whole_score(scores);
    let mostly = (pool * params.payout_cap_share_bps) as int / 10_000;
    whole_is_total(scores);
    assert(pool * params.payout_cap_share_bps >= 0) by (nonlinear_arith);
    if whole == 0 || pool == 0 {
        assert forall|i: int| 0 <= i < scores.len() implies pro_rata(
            pool as int,
            scores[i].score as int,
            whole,
        ) == 0 by {
            let s = scores[i].score as int;
            assert(0 * s == 0) by (nonlinear_arith);
            if whole != 0 {
                assert(0int / whole == 0) by (nonlinear_arith)
                    requires
                        whole != 0,
                ;
            }
        }
    } else {
        let most = scaled(pool as nat, params.payout_cap_share_bps as nat, 10_000)->Ok_0;
        let amounts = collect(shares(pool, scores, Some(most)))->Ok_0;
        shares_within_budget(pool, scores, Some(most), amounts);
        collect_values(shares(pool, scores, Some(most)));
        assert(payouts == paid_to(scores, amounts));
        assert forall|i: int| 0 <= i < scores.len() implies {
            &&& (#[trigger] payouts[i]).identity == scores[i].identity
            &&& payouts[i].amount == smaller(
                pro_rata(pool as int, scores[i].score as int, whole),
                mostly,
            )
        } by {
            assert(shares(pool, scores, Some(most))[i] == Ok::<u128, PoiwError>(amounts[i]));
            assert(shares(pool, scores, Some(most))[i] == share(
                pool,
                scores[i].score,
                score_total(scores),
                Some(most),
            ));
        }
    }
}

/// A pool is allocated wherever its parameters are sound and amounts and
/// scores stay below 64 bits; unsound parameters are refused.
pub proof fn ordinary_pools_are_allocated(
    pool: u128,
    scores: Seq<IdentityScore>,
    params: ScoreParams,
)
    ensures
        1 <= params.payout_cap_share_bps <= 10_000 && pool <= u64::MAX && whole_score(scores)
            <= u64::MAX ==> pool_payouts(pool, scores, params) is Ok,
        !(1 <= params.payout_cap_share_bps <= 10_000) ==> (pool_payouts(
            pool,
            scores,
            params,
        ) matches Err(PoiwError::InvalidParameter(_))),
{
    whole_is_total(scores);
    if 1 <= params.payout_cap_share_bps <= 10_000 && pool <= u64::MAX && whole_score(scores)
        <= u64::MAX && whole_score(scores) != 0 && pool != 0 {
        let b = pool as nat;
        let c = params.payout_cap_share_bps as nat;
        assert(b * c <= u64::MAX * 10_000) by (nonlinear_arith)
            requires
                b <= u64::MAX,
                c <= 10_000,
        ;
        let most = scaled(b, c, 10_000)->Ok_0;
        let outcomes = shares(pool, scores, Some(most));
        if collect(outcomes) is Err {
            let j = collect_error(outcomes);
            let s = scores[j].score as nat;
            one_of_all(scores, j);
            assert(b * s <= u64::MAX * u64::MAX) by (nonlinear_arith)
                requires
                    b <= u64::MAX,
                    s <= u64::MAX,
            ;
            assert(outcomes[j] == share(pool, scores[j].score, score_total(scores), Some(most)));
        }
    }
}

/// The pool is the smaller of the ceiling and the percentage of the organic
/// value, and is refused only where that percentage does not fit.
pub proof fn pool_is_attained(schedule_cap: u128, k_percent: u32, organic: u128)
    ensures
        organic * k_percent <= u128::MAX ==> (pool_size(
            schedule_cap,
            k_percent,
            organic,
        ) matches Ok(pool) && pool == smaller(
            schedule_cap as int,
            (organic * k_percent) as int / 100,
        )),
        organic * k_percent > u128::MAX ==> pool_size(schedule_cap, k_percent, organic) == Err::<
            u128,
            PoiwError,
        >(PoiwError::Overflow),
{
    assert(organic * k_percent >= 0) by (nonlinear_arith);
}

/// A stream is even: it has a part for every epoch, no two parts differ by
/// more than one, and the larger parts come first.
pub proof fn streams_are_even(streamed: nat, epochs: nat)
    requires
        epochs > 0,
        streamed <= u128::MAX,
    ensures
        stream_parts(streamed, epochs).len() == epochs,
        forall|i: int, j: int|
            0 <= i <= j < epochs ==> #[trigger] stream_parts(streamed, epochs)[j]
                <= #[trigger] stream_parts(streamed, epochs)[i] <= stream_parts(
                streamed,
                epochs,
            )[j] + 1,
        total(as_nats(stream_parts(streamed, epochs))) == streamed,
{
    crate::score::stream_conserves(streamed, epochs);
    let parts = stream_parts(streamed, epochs);
    assert(as_nats(parts) =~= parts.map_values(|v: u128| v as nat));
    vstd::arithmetic::div_mod::lemma_fundamental_div_mod(streamed as int, epochs as int);
    let q = streamed / epochs;
    assert(q <= epochs * q) by (nonlinear_arith)
        requires
            epochs > 0,
            q >= 0,
    ;
}

/// A schedule is refused exactly where more than everything would be
/// immediate, where there is no epoch to stream over, or where the immediate
/// part does not fit.
pub proof fn schedules_are_refused(reward: u128, immediate_bps: Bps, stream_epochs: u32)
    ensures
        maturation_error(reward, immediate_bps, stream_epochs) is None <==> immediate_bps <= 10_000
            && stream_epochs >= 1 && reward * immediate_bps <= u128::MAX,
        immediate_bps > 10_000 || stream_epochs == 0 ==> (maturation_error(
            reward,
            immediate_bps,
            stream_epochs,
        ) matches Some(PoiwError::InvalidParameter(_))),
{
}

} // verus!
