//! Organic/wash classification.
//!
//! Grouping is by disclosed control domain, not bare identity: payers
//! inside one control domain count as one counterparty, and work paid
//! for from inside the earner's own domain is treated exactly like a
//! `payer_related` flag.

use vstd::prelude::*;

pub use crate::classifier::{counterparty_discount_bps, ClassifierParams};

use crate::classifier::{
    discounted_total, organic_value, organic_value_within_settled, post_payment, Payment,
};
use crate::keyed::KeyedMap;
use crate::selection::{
    organic_value_permuted, payment_overflow_prefix, payments_from, same_units,
    unselected_changes_nothing,
};
use crate::types::{DomainKey, DomainKeyView, DomainMap, IdentityId, PoiwError, SettledWorkUnit};

verus! {

/// The payer is not related to the earner, by flag or by control domain.
pub open spec fn score_eligible(unit: SettledWorkUnit, domains: DomainMap) -> bool {
    !unit.payer_related && domains.domain(unit.identity) != domains.domain(unit.payer)
}

/// The unit is eligible and was paid by a consumer.
pub open spec fn organic(unit: SettledWorkUnit, domains: DomainMap) -> bool {
    score_eligible(unit, domains) && !unit.is_challenge_task
}

/// Selects the organic units.
pub open spec fn organic_in(domains: DomainMap) -> spec_fn(SettledWorkUnit) -> bool {
    |u: SettledWorkUnit| organic(u, domains)
}

/// The control domain of a unit's payer.
pub open spec fn payer_domain_in(domains: DomainMap) -> spec_fn(SettledWorkUnit) -> DomainKeyView {
    |u: SettledWorkUnit| domains.domain(u.payer)
}

/// The organic payments of an epoch.
pub open spec fn organic_payments(units: Seq<SettledWorkUnit>, domains: DomainMap) -> Seq<
    Payment<DomainKeyView>,
> {
    payments_from(units, organic_in(domains), payer_domain_in(domains))
}

/// A work unit is eligible for scoring unless its payer is flagged as
/// related or shares the earner's disclosed control domain.
pub fn is_score_eligible(unit: &SettledWorkUnit, domains: &DomainMap) -> (r: bool)
    ensures
        r == score_eligible(*unit, *domains),
{
    !unit.payer_related && !domains.same_domain(unit.identity, unit.payer)
}

/// A work unit contributes to organic settled value only if it is
/// score-eligible and not a protocol-issued challenge task.
pub fn is_organic(unit: &SettledWorkUnit, domains: &DomainMap) -> (r: bool)
    ensures
        r == organic(*unit, *domains),
{
    is_score_eligible(unit, domains) && !unit.is_challenge_task
}

/// Epoch-level organic settled value: for each earner, sum the settled
/// prices of organic units grouped by payer control domain, apply that
/// earner's counterparty discount, and sum across earners.
pub fn organic_settled_value(
    units: &[SettledWorkUnit],
    domains: &DomainMap,
    params: &ClassifierParams,
) -> (r: Result<u128, PoiwError>)
    ensures
        r == organic_value(organic_payments(units@, *domains), *params),
{
    if let Err(e) = params.validate() {
        return Err(e);
    }
    let ghost selected = organic_in(*domains);
    let ghost who = payer_domain_in(*domains);
    let mut book: KeyedMap<IdentityId, KeyedMap<DomainKey, u128>> = KeyedMap::new();
    let mut i: usize = 0;
    assert(units@.take(0) =~= Seq::empty());
    proof {
        let none = crate::classifier::earnings(organic_payments(units@.take(0), *domains));
        assert(none.map_values(|p: (IdentityId, nat)| p.0) =~= Seq::empty());
        assert(book@.dom() =~= crate::classifier::earners(
            organic_payments(units@.take(0), *domains),
        ));
    }
    while i < units.len()
        invariant
            i <= units@.len(),
            params.error() is None,
            selected == organic_in(*domains),
            who == payer_domain_in(*domains),
            crate::classifier::books(book@, organic_payments(units@.take(i as int), *domains)),
        decreases units@.len() - i,
    {
        let ghost payments = organic_payments(units@.take(i as int), *domains);
        let unit: &SettledWorkUnit = &units[i];
        assert(units@.take(i + 1).drop_last() =~= units@.take(i as int));
        assert(units@.take(i + 1).last() == *unit);
        if is_organic(unit, domains) {
            let counterparty: DomainKey = domains.domain_of(unit.payer);
            match post_payment(
                &mut book,
                unit.identity,
                counterparty,
                unit.settled_price as u128,
                Ghost(payments),
            ) {
                Ok(()) => {},
                Err(e) => {
                    proof {
                        payment_overflow_prefix(
                            units@,
                            selected,
                            who,
                            *params,
                            i + 1,
                            unit.identity,
                        );
                    }
                    return Err(e);
                },
            }
        }
        i = i + 1;
    }
    assert(units@.take(i as int) =~= units@);
    discounted_total(&book, params, Ghost(organic_payments(units@, *domains)))
}

/// The organic value is no more than the organic settlements together.
pub proof fn organic_value_is_bounded(
    units: Seq<SettledWorkUnit>,
    domains: DomainMap,
    params: ClassifierParams,
)
    requires
        organic_value(organic_payments(units, domains), params) is Ok,
    ensures
        organic_value(organic_payments(units, domains), params)->Ok_0
            <= crate::tally::post_total(
            crate::classifier::earnings(organic_payments(units, domains)),
        ),
{
    organic_value_within_settled(organic_payments(units, domains), params);
}

/// A challenge task, a related payer or a payer from the earner's own domain
/// leaves the organic value as it is.
pub proof fn excluded_units_count_nothing(
    units: Seq<SettledWorkUnit>,
    i: int,
    domains: DomainMap,
    params: ClassifierParams,
)
    requires
        0 <= i < units.len(),
        units[i].is_challenge_task || units[i].payer_related || domains.domain(units[i].identity)
            == domains.domain(units[i].payer),
    ensures
        organic_value(organic_payments(units.remove(i), domains), params) == organic_value(
            organic_payments(units, domains),
            params,
        ),
{
    unselected_changes_nothing(units, i, organic_in(domains), payer_domain_in(domains));
}

/// The order of the units does not matter to the organic value.
pub proof fn organic_value_ignores_order(
    a: Seq<SettledWorkUnit>,
    b: Seq<SettledWorkUnit>,
    domains: DomainMap,
    params: ClassifierParams,
)
    requires
        same_units(a, b),
    ensures
        organic_value(organic_payments(a, domains), params) == organic_value(
            organic_payments(b, domains),
            params,
        ),
{
    organic_value_permuted(a, b, organic_in(domains), payer_domain_in(domains), params);
}

/// The units differ at most in work, evidence and payers, and each payer in
/// one list is of the same control domain as the payer in the other.
pub open spec fn same_payer_domains(
    a: Seq<SettledWorkUnit>,
    b: Seq<SettledWorkUnit>,
    domains: DomainMap,
) -> bool {
    &&& a.len() == b.len()
    &&& forall|i: int|
        0 <= i < a.len() ==> {
            &&& (#[trigger] a[i]).identity == b[i].identity
            &&& a[i].settled_price == b[i].settled_price
            &&& a[i].is_challenge_task == b[i].is_challenge_task
            &&& a[i].payer_related == b[i].payer_related
            &&& domains.domain(a[i].payer) == domains.domain(b[i].payer)
        }
}

/// Payers in one control domain count as one counterparty: which of them
/// paid does not matter to the organic value.
pub proof fn payers_in_one_domain_are_one(
    a: Seq<SettledWorkUnit>,
    b: Seq<SettledWorkUnit>,
    domains: DomainMap,
    params: ClassifierParams,
)
    requires
        same_payer_domains(a, b, domains),
    ensures
        organic_value(organic_payments(a, domains), params) == organic_value(
            organic_payments(b, domains),
            params,
        ),
{
    same_domains_same_payments(a, b, domains);
}

proof fn same_domains_same_payments(
    a: Seq<SettledWorkUnit>,
    b: Seq<SettledWorkUnit>,
    domains: DomainMap,
)
    requires
        same_payer_domains(a, b, domains),
    ensures
        organic_payments(a, domains) == organic_payments(b, domains),
    decreases a.len(),
{
    if a.len() > 0 {
        assert forall|i: int| 0 <= i < a.len() - 1 implies {
            &&& (#[trigger] a.drop_last()[i]).identity == b.drop_last()[i].identity
            &&& a.drop_last()[i].settled_price == b.drop_last()[i].settled_price
            &&& a.drop_last()[i].is_challenge_task == b.drop_last()[i].is_challenge_task
            &&& a.drop_last()[i].payer_related == b.drop_last()[i].payer_related
            &&& domains.domain(a.drop_last()[i].payer) == domains.domain(b.drop_last()[i].payer)
        } by {
            assert(a[i].identity == b[i].identity);
        }
        same_domains_same_payments(a.drop_last(), b.drop_last(), domains);
        assert(a[a.len() - 1].identity == b[b.len() - 1].identity);
    }
}

} // verus!
