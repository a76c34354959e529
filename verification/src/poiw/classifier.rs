//! Organic/wash classification by identity: every payer is a counterparty of
//! its own, and only flagged payers are related.

use vstd::prelude::*;

pub use crate::classifier::{counterparty_discount_bps, ClassifierParams};

use crate::classifier::{
    books, discounted_total, earners, earnings, organic_value, organic_value_within_settled,
    post_payment, Payment,
};
use crate::keyed::KeyedMap;
use crate::selection::{
    organic_value_permuted, payment_overflow_prefix, payments_from, same_units,
    unselected_changes_nothing,
};
use crate::tally::post_total;
use crate::types::{IdentityId, PoiwError, SettledWorkUnit};

verus! {

/// The payer is not flagged as related to the earner.
pub open spec fn score_eligible(unit: SettledWorkUnit) -> bool {
    !unit.payer_related
}

/// The unit is eligible and was paid by a consumer.
pub open spec fn organic(unit: SettledWorkUnit) -> bool {
    score_eligible(unit) && !unit.is_challenge_task
}

/// Selects the organic units.
pub open spec fn organic_units() -> spec_fn(SettledWorkUnit) -> bool {
    |u: SettledWorkUnit| organic(u)
}

/// A unit's payer.
pub open spec fn payer_of() -> spec_fn(SettledWorkUnit) -> IdentityId {
    |u: SettledWorkUnit| u.payer
}

/// The organic payments of an epoch.
pub open spec fn organic_payments(units: Seq<SettledWorkUnit>) -> Seq<Payment<IdentityId>> {
    payments_from(units, organic_units(), payer_of())
}

/// A work unit is eligible for scoring unless its payer is flagged as
/// related.
pub fn is_score_eligible(unit: &SettledWorkUnit) -> (r: bool)
    ensures
        r == score_eligible(*unit),
{
    !unit.payer_related
}

/// A work unit contributes to organic settled value only if it is
/// score-eligible and not a protocol-issued challenge task.
pub fn is_organic(unit: &SettledWorkUnit) -> (r: bool)
    ensures
        r == organic(*unit),
{
    is_score_eligible(unit) && !unit.is_challenge_task
}

/// Epoch-level organic settled value: for each earner, sum the settled
/// prices of organic units grouped by payer, apply that earner's
/// counterparty discount, and sum across earners.
pub fn organic_settled_value(units: &[SettledWorkUnit], params: &ClassifierParams) -> (r: Result<
    u128,
    PoiwError,
>)
    ensures
        r == organic_value(organic_payments(units@), *params),
{
    if let Err(e) = params.validate() {
        return Err(e);
    }
    let mut book: KeyedMap<IdentityId, KeyedMap<IdentityId, u128>> = KeyedMap::new();
    let mut i: usize = 0;
    assert(units@.take(0) =~= Seq::empty());
    proof {
        let none = earnings(organic_payments(units@.take(0)));
        assert(none.map_values(|p: (IdentityId, nat)| p.0) =~= Seq::empty());
        assert(book@.dom() =~= earners(organic_payments(units@.take(0))));
    }
    while i < units.len()
        invariant
            i <= units@.len(),
            params.error() is None,
            books(book@, organic_payments(units@.take(i as int))),
        decreases units@.len() - i,
    {
        let ghost payments = organic_payments(units@.take(i as int));
        let unit: &SettledWorkUnit = &units[i];
        assert(units@.take(i + 1).drop_last() =~= units@.take(i as int));
        assert(units@.take(i + 1).last() == *unit);
        if is_organic(unit) {
            match post_payment(
                &mut book,
                unit.identity,
                unit.payer,
                unit.settled_price as u128,
                Ghost(payments),
            ) {
                Ok(()) => {},
                Err(e) => {
                    proof {
                        payment_overflow_prefix(
                            units@,
                            organic_units(),
                            payer_of(),
                            *params,
                            i + 1,
                            unit.identity,
                        );
                    }
                    return Err(e);
                },
            }
        }
        i = i + 1;
    }
    assert(units@.take(i as int) =~= units@);
    discounted_total(&book, params, Ghost(organic_payments(units@)))
}

/// The organic value is no more than the organic settlements together.
pub proof fn organic_value_is_bounded(units: Seq<SettledWorkUnit>, params: ClassifierParams)
    requires
        organic_value(organic_payments(units), params) is Ok,
    ensures
        organic_value(organic_payments(units), params)->Ok_0 <= post_total(
            earnings(organic_payments(units)),
        ),
{
    organic_value_within_settled(organic_payments(units), params);
}

/// A challenge task or a related payer leaves the organic value as it is.
pub proof fn excluded_units_count_nothing(
    units: Seq<SettledWorkUnit>,
    i: int,
    params: ClassifierParams,
)
    requires
        0 <= i < units.len(),
        units[i].is_challenge_task || units[i].payer_related,
    ensures
        organic_value(organic_payments(units.remove(i)), params) == organic_value(
            organic_payments(units),
            params,
        ),
{
    unselected_changes_nothing(units, i, organic_units(), payer_of());
}

/// The order of the units does not matter to the organic value.
pub proof fn organic_value_ignores_order(
    a: Seq<SettledWorkUnit>,
    b: Seq<SettledWorkUnit>,
    params: ClassifierParams,
)
    requires
        same_units(a, b),
    ensures
        organic_value(organic_payments(a), params) == organic_value(organic_payments(b), params),
{
    organic_value_permuted(a, b, organic_units(), payer_of(), params);
}

} // verus!
