//! Pro-rata shares of a budget.

use vstd::prelude::*;

use crate::score::{scale, scaled, IdentityPayout, IdentityScore};
use crate::sums::{
    as_nats, collect, collect_next, collect_prefix_error, collect_values, floor_shares, total,
    total_monotone, total_next, total_prefix,
};
use crate::types::PoiwError;

verus! {

/// The sum of all scores.
pub open spec fn score_total(scores: Seq<IdentityScore>) -> nat {
    total(scores.map_values(|s: IdentityScore| s.score as nat))
}

/// Everyone gets nothing.
pub open spec fn nothing_for(scores: Seq<IdentityScore>) -> Seq<IdentityPayout> {
    scores.map_values(|s: IdentityScore| IdentityPayout { identity: s.identity, amount: 0 })
}

/// `amount`, but no more than the cap where there is one.
pub open spec fn capped(amount: u128, cap: Option<u128>) -> u128 {
    match cap {
        Some(most) => if amount <= most {
            amount
        } else {
            most
        },
        None => amount,
    }
}

/// The share of a budget in proportion to a score, floored and then capped.
pub open spec fn share(budget: u128, score: u128, sum: nat, cap: Option<u128>) -> Result<
    u128,
    PoiwError,
> {
    match scaled(budget as nat, score as nat, sum) {
        Err(e) => Err(e),
        Ok(amount) => Ok(capped(amount, cap)),
    }
}

/// The shares of all scores.
pub open spec fn shares(budget: u128, scores: Seq<IdentityScore>, cap: Option<u128>) -> Seq<
    Result<u128, PoiwError>,
> {
    scores.map_values(|s: IdentityScore| share(budget, s.score, score_total(scores), cap))
}

/// Sums all scores.
pub(crate) fn sum_scores(scores: &[IdentityScore]) -> (r: Result<u128, PoiwError>)
    ensures
        r matches Ok(sum) ==> sum == score_total(scores@),
        r matches Err(e) ==> e == PoiwError::Overflow && score_total(scores@) > u128::MAX,
{
    let ghost values = scores@.map_values(|s: IdentityScore| s.score as nat);
    let mut sum: u128 = 0;
    let mut i: usize = 0;
    assert(values.take(0) =~= Seq::<nat>::empty());
    while i < scores.len()
        invariant
            i <= scores@.len(),
            values == scores@.map_values(|s: IdentityScore| s.score as nat),
            sum == total(values.take(i as int)),
        decreases scores@.len() - i,
    {
        proof {
            total_next(values, i as int);
            total_prefix(values, i + 1);
        }
        sum = match sum.checked_add(scores[i].score) {
            Some(s) => s,
            None => {
                return Err(PoiwError::Overflow);
            },
        };
        i = i + 1;
    }
    assert(values.take(i as int) =~= values);
    Ok(sum)
}

/// A payout of nothing for everyone.
pub(crate) fn pay_nothing(scores: &[IdentityScore]) -> (r: Vec<IdentityPayout>)
    ensures
        r@ == nothing_for(scores@),
{
    let mut payouts: Vec<IdentityPayout> = Vec::new();
    let mut i: usize = 0;
    while i < scores.len()
        invariant
            i <= scores@.len(),
            payouts@ == nothing_for(scores@).take(i as int),
        decreases scores@.len() - i,
    {
        payouts.push(IdentityPayout { identity: scores[i].identity, amount: 0 });
        assert(payouts@ =~= nothing_for(scores@).take(i + 1));
        i = i + 1;
    }
    assert(nothing_for(scores@).take(i as int) =~= nothing_for(scores@));
    payouts
}

/// The shares of all scores, or the first overflow.
pub(crate) fn compute_shares(
    budget: u128,
    scores: &[IdentityScore],
    sum: u128,
    cap: Option<u128>,
) -> (r: Result<Vec<u128>, PoiwError>)
    requires
        sum > 0,
        sum == score_total(scores@),
    ensures
        r matches Ok(amounts) ==> collect(shares(budget, scores@, cap)) == Ok::<
            Seq<u128>,
            PoiwError,
        >(amounts@),
        r matches Err(e) ==> collect(shares(budget, scores@, cap)) == Err::<Seq<u128>, PoiwError>(
            e,
        ),
{
    let ghost outcomes = shares(budget, scores@, cap);
    let mut amounts: Vec<u128> = Vec::new();
    let mut i: usize = 0;
    assert(outcomes.take(0) =~= Seq::empty());
    while i < scores.len()
        invariant
            i <= scores@.len(),
            sum > 0,
            sum == score_total(scores@),
            outcomes == shares(budget, scores@, cap),
            collect(outcomes.take(i as int)) == Ok::<Seq<u128>, PoiwError>(amounts@),
        decreases scores@.len() - i,
    {
        let score: u128 = scores[i].score;
        proof {
            assert(outcomes[i as int] == share(budget, score, sum as nat, cap));
            collect_next(outcomes, i as int);
        }
        let amount: u128 = match scale(budget, score, sum) {
            Ok(amount) => amount,
            Err(e) => {
                proof {
                    collect_prefix_error(outcomes, i + 1);
                }
                return Err(e);
            },
        };
        let amount: u128 = match cap {
            Some(most) => if amount <= most {
                amount
            } else {
                most
            },
            None => amount,
        };
        amounts.push(amount);
        i = i + 1;
    }
    assert(outcomes.take(i as int) =~= outcomes);
    Ok(amounts)
}

/// The shares of a budget sum to no more than the budget; none exceeds its
/// proportion or the cap.
pub proof fn shares_within_budget(
    budget: u128,
    scores: Seq<IdentityScore>,
    cap: Option<u128>,
    amounts: Seq<u128>,
)
    requires
        score_total(scores) > 0,
        collect(shares(budget, scores, cap)) == Ok::<Seq<u128>, PoiwError>(amounts),
    ensures
        amounts.len() == scores.len(),
        total(as_nats(amounts)) <= budget,
        forall|i: int|
            0 <= i < scores.len() ==> #[trigger] amounts[i] <= budget * scores[i].score
                / score_total(scores) as int && amounts[i] == capped(
                (budget * scores[i].score / score_total(scores) as int) as u128,
                cap,
            ),
{
    let sum = score_total(scores);
    let outcomes = shares(budget, scores, cap);
    let parts = scores.map_values(|s: IdentityScore| s.score as nat);
    let floors = parts.map_values(|p: nat| (p * (budget as nat) / sum) as nat);
    collect_values(outcomes);
    assert forall|i: int| 0 <= i < scores.len() implies #[trigger] amounts[i] <= budget
        * scores[i].score / sum as int && amounts[i] == capped(
        (budget * scores[i].score / sum as int) as u128,
        cap,
    ) by {
        assert(outcomes[i] == Ok::<u128, PoiwError>(amounts[i]));
        assert(outcomes[i] == share(budget, scores[i].score, sum, cap));
    }
    assert forall|i: int| 0 <= i < amounts.len() implies #[trigger] as_nats(amounts)[i]
        <= floors[i] by {
        let s = scores[i].score as nat;
        let b = budget as nat;
        assert(amounts[i] <= budget * scores[i].score / sum as int);
        assert(b * s == s * b) by (nonlinear_arith);
    }
    total_monotone(as_nats(amounts), floors);
    floor_shares(parts, budget as nat, sum);
}

} // verus!
