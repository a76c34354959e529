//! Plain readings of the quantities that the laws speak of.

use vstd::prelude::*;

use crate::selection::weight;
use crate::sums::total;
use crate::types::{
    DomainKeyView, DomainMap, EvidenceLevel, IdentityId, ReliabilityInputs, SettledWorkUnit,
};

verus! {

/// `q` is `n / d` rounded down.
pub open spec fn is_floor(q: int, n: int, d: int) -> bool {
    q * d <= n < q * d + d
}

/// The smaller of two numbers.
pub open spec fn smaller(a: int, b: int) -> int {
    if a < b {
        a
    } else {
        b
    }
}

/// The larger of two numbers.
pub open spec fn larger(a: int, b: int) -> int {
    if a > b {
        a
    } else {
        b
    }
}

/// Two identities are one party: the same, or disclosed under one name.
pub open spec fn one_party(domains: DomainMap, a: IdentityId, b: IdentityId) -> bool {
    ||| a == b
    ||| {
        &&& domains.0@.dom().contains(a)
        &&& domains.0@.dom().contains(b)
        &&& domains.0@[a].0@ == domains.0@[b].0@
    }
}

/// The published worth of a level of evidence, in percent.
pub open spec fn published_percent(level: EvidenceLevel) -> int {
    match level {
        EvidenceLevel::Declared => 0,
        EvidenceLevel::Observed => 100,
        EvidenceLevel::Benchmarked => 120,
        EvidenceLevel::Audited => 150,
        EvidenceLevel::Attested => 170,
        EvidenceLevel::Replicated => 200,
    }
}

/// What a unit is worth: what was both measured and paid for, at the
/// published percentage of its evidence.
pub open spec fn worth(unit: SettledWorkUnit) -> nat {
    (smaller(unit.rate_card_value as int, unit.settled_price as int) * published_percent(
        unit.evidence,
    ) / 100) as nat
}

/// The factor, in basis points, that a record of settling, disputes and
/// breaches earns.
pub open spec fn earned_factor(record: Option<ReliabilityInputs>) -> int {
    match record {
        None => 10_000,
        Some(r) => {
            let lost = 10_000 - r.settlement_success_bps + r.dispute_loss_bps + r.sla_breach_bps;
            if lost == 0 {
                11_000
            } else {
                larger(5_000, 10_000 - lost)
            }
        },
    }
}

/// The record of an identity, where it has one.
pub open spec fn record_of(
    reliability: Map<IdentityId, ReliabilityInputs>,
    id: IdentityId,
) -> Option<ReliabilityInputs> {
    if reliability.dom().contains(id) {
        Some(reliability[id])
    } else {
        None
    }
}

/// Every share in the record is one.
pub open spec fn record_is_sound(r: ReliabilityInputs) -> bool {
    r.settlement_success_bps <= 10_000 && r.dispute_loss_bps <= 10_000 && r.sla_breach_bps
        <= 10_000
}

/// Sums add up: of nothing they are zero, and one more term adds itself.
pub proof fn sums_add_up(
    numbers: Seq<nat>,
    number: nat,
    units: Seq<SettledWorkUnit>,
    unit: SettledWorkUnit,
    w: spec_fn(SettledWorkUnit) -> nat,
)
    ensures
        total(Seq::<nat>::empty()) == 0,
        total(numbers.push(number)) == total(numbers) + number,
        weight(Seq::<SettledWorkUnit>::empty(), w) == 0,
        weight(units.push(unit), w) == weight(units, w) + w(unit),
{
    assert(numbers.push(number).drop_last() =~= numbers);
    assert(units.push(unit).drop_last() =~= units);
}

/// Weights that agree on every unit sum to the same.
pub proof fn weight_agrees(
    units: Seq<SettledWorkUnit>,
    v: spec_fn(SettledWorkUnit) -> nat,
    w: spec_fn(SettledWorkUnit) -> nat,
)
    requires
        forall|u: SettledWorkUnit| #[trigger] v(u) == w(u),
    ensures
        weight(units, v) == weight(units, w),
    decreases units.len(),
{
    if units.len() > 0 {
        weight_agrees(units.drop_last(), v, w);
        assert(v(units.last()) == w(units.last()));
    }
}

/// A sum of weights that are each at most `most`.
pub proof fn weight_is_bounded(
    units: Seq<SettledWorkUnit>,
    w: spec_fn(SettledWorkUnit) -> nat,
    most: nat,
)
    requires
        forall|u: SettledWorkUnit| #[trigger] w(u) <= most,
    ensures
        weight(units, w) <= units.len() * most,
    decreases units.len(),
{
    if units.len() > 0 {
        let n = units.len();
        weight_is_bounded(units.drop_last(), w, most);
        assert(w(units.last()) <= most);
        assert((n - 1) * most + most == n * most) by (nonlinear_arith);
    } else {
        assert(0 * most == 0) by (nonlinear_arith);
    }
}

/// The domains of two identities are the same exactly if they are one party;
/// a disclosed identity's is the one disclosed, any other is its own.
pub proof fn domains_tell_parties_apart(domains: DomainMap, a: IdentityId, b: IdentityId)
    ensures
        domains.domain(a) == if domains.0@.dom().contains(a) {
            DomainKeyView::Declared(domains.0@[a].0@)
        } else {
            DomainKeyView::Solo(a)
        },
        domains.domain(a) == domains.domain(b) <==> one_party(domains, a, b),
{
}

} // verus!
