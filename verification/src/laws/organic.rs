//! What the organic value is: for every earner what consumers paid it,
//! discounted by how much of that came from its largest payer.

use vstd::prelude::*;

use crate::aipow;
use crate::classifier::{
    concentration_discount, discount_decays, discount_for, discount_never_adds, earner_posts,
    earner_total, earner_value, earner_values, earners, earnings, organic_value, share_discount,
    ClassifierParams, Payment,
};
use crate::laws::plain::{is_floor, one_party, weight_agrees};
use crate::order::{
    ascending_distinct, listing_is_sorted, lists, sorted, sorted_lists, OrdKey,
};
use crate::poiw;
use crate::selection::{
    earned_is_weight, earner_is_member, paid_is_weight, payer_is_member, payments_from, weight,
};
use crate::sums::{
    as_nats, collect, collect_error, collect_values, largest_attained, largest_bounds, total,
    total_monotone,
};
use crate::tally::{
    post_keys, post_total, top_total, total_for, total_for_within, totals_sum, values_at,
};
use crate::types::{DomainMap, IdentityId, PoiwError, SettledWorkUnit};

verus! {

/// What an earner was paid for the units that count.
pub open spec fn paid_to_earner(
    units: Seq<SettledWorkUnit>,
    counts: spec_fn(SettledWorkUnit) -> bool,
    earner: IdentityId,
) -> nat {
    weight(
        units,
        |u: SettledWorkUnit|
            if counts(u) && u.identity == earner {
                u.settled_price as nat
            } else {
                0
            },
    )
}

/// What an earner was paid by a payer and all who are one with it.
pub open spec fn paid_by_payer(
    units: Seq<SettledWorkUnit>,
    counts: spec_fn(SettledWorkUnit) -> bool,
    alike: spec_fn(IdentityId, IdentityId) -> bool,
    earner: IdentityId,
    payer: IdentityId,
) -> nat {
    weight(
        units,
        |u: SettledWorkUnit|
            if counts(u) && u.identity == earner && alike(u.payer, payer) {
                u.settled_price as nat
            } else {
                0
            },
    )
}

/// The unit counts for the earner.
pub open spec fn unit_counts_for(
    units: Seq<SettledWorkUnit>,
    counts: spec_fn(SettledWorkUnit) -> bool,
    earner: IdentityId,
    u: SettledWorkUnit,
) -> bool {
    units.contains(u) && counts(u) && u.identity == earner
}

/// The most that any one payer paid the earner.
pub open spec fn is_top_payment(
    units: Seq<SettledWorkUnit>,
    counts: spec_fn(SettledWorkUnit) -> bool,
    alike: spec_fn(IdentityId, IdentityId) -> bool,
    earner: IdentityId,
    top: nat,
) -> bool {
    &&& exists|u: SettledWorkUnit| #[trigger]
        unit_counts_for(units, counts, earner, u) && paid_by_payer(
            units,
            counts,
            alike,
            earner,
            u.payer,
        ) == top
    &&& forall|u: SettledWorkUnit| #[trigger]
        unit_counts_for(units, counts, earner, u) ==> paid_by_payer(
            units,
            counts,
            alike,
            earner,
            u.payer,
        ) <= top
}

/// The multiplier, in basis points, at a largest payer's share: full up to
/// one threshold, nothing from the other on, and linear in between.
pub open spec fn is_multiplier(multiplier: int, share: int, params: ClassifierParams) -> bool {
    let full = params.top_payer_full_bps as int;
    let zero = params.top_payer_zero_bps as int;
    if share <= full {
        multiplier == 10_000
    } else if share >= zero {
        multiplier == 0
    } else {
        is_floor(multiplier, (zero - share) * 10_000, zero - full)
    }
}

/// What `paid` counts where `top` of it came from the largest payer.
pub open spec fn counts_as(value: int, paid: int, top: int, params: ClassifierParams) -> bool {
    if paid == 0 {
        value == 0
    } else {
        exists|share: int, multiplier: int| #[trigger]
            is_floor(share, top * 10_000, paid) && #[trigger] is_multiplier(
                multiplier,
                share,
                params,
            ) && is_floor(value, paid * multiplier, 10_000)
    }
}

/// What the earner counts for.
pub open spec fn earner_counts(
    units: Seq<SettledWorkUnit>,
    counts: spec_fn(SettledWorkUnit) -> bool,
    alike: spec_fn(IdentityId, IdentityId) -> bool,
    params: ClassifierParams,
    earner: IdentityId,
    value: nat,
) -> bool {
    exists|top: nat| #[trigger]
        is_top_payment(units, counts, alike, earner, top) && counts_as(
            value as int,
            paid_to_earner(units, counts, earner) as int,
            top as int,
            params,
        )
}

/// The earners, each once, with what each of them counts for.
pub open spec fn counted_by_earner(
    units: Seq<SettledWorkUnit>,
    counts: spec_fn(SettledWorkUnit) -> bool,
    alike: spec_fn(IdentityId, IdentityId) -> bool,
    params: ClassifierParams,
    listed: Seq<IdentityId>,
    values: Seq<nat>,
) -> bool {
    &&& listed.no_duplicates()
    &&& listed.len() == values.len()
    &&& forall|id: IdentityId| #[trigger]
        listed.contains(id) <==> exists|u: SettledWorkUnit| #[trigger]
            unit_counts_for(units, counts, id, u)
    &&& forall|i: int|
        0 <= i < listed.len() ==> earner_counts(
            units,
            counts,
            alike,
            params,
            #[trigger] listed[i],
            values[i],
        )
}

/// The value is what all earners count for together.
pub open spec fn is_organic_value(
    value: u128,
    units: Seq<SettledWorkUnit>,
    counts: spec_fn(SettledWorkUnit) -> bool,
    alike: spec_fn(IdentityId, IdentityId) -> bool,
    params: ClassifierParams,
) -> bool {
    exists|listed: Seq<IdentityId>, values: Seq<nat>| #[trigger]
        counted_by_earner(units, counts, alike, params, listed, values) && value == total(values)
}

/// The discount at a share is the multiplier at that share.
pub proof fn discount_is_the_multiplier(share: nat, params: ClassifierParams)
    requires
        params.top_payer_full_bps < params.top_payer_zero_bps <= 10_000,
    ensures
        is_multiplier(share_discount(share, params) as int, share as int, params),
        share_discount(share, params) <= 10_000,
{
    let full = params.top_payer_full_bps as int;
    let zero = params.top_payer_zero_bps as int;
    discount_decays(share, share, params);
    if full < share < zero {
        let n = (zero - share) * 10_000;
        let d = zero - full;
        let q = n / d;
        assert(q >= 0 && q * d <= n < q * d + d) by (nonlinear_arith)
            requires
                q == n / d,
                d > 0,
                n >= 0,
        ;
    }
}

/// Bad thresholds are refused, whatever was settled.
pub proof fn bad_thresholds_are_refused<C>(payments: Seq<Payment<C>>, params: ClassifierParams)
    ensures
        !(params.top_payer_full_bps < params.top_payer_zero_bps <= 10_000) ==> (organic_value(
            payments,
            params,
        ) matches Err(PoiwError::InvalidParameter(_))),
{
}

/// The top of an earner's posts is the most that any one payer paid.
proof fn top_is_top_payment<C>(
    units: Seq<SettledWorkUnit>,
    counts: spec_fn(SettledWorkUnit) -> bool,
    counterparty: spec_fn(SettledWorkUnit) -> C,
    alike: spec_fn(IdentityId, IdentityId) -> bool,
    earner: IdentityId,
)
    requires
        forall|u: SettledWorkUnit, v: SettledWorkUnit|
            #![trigger counterparty(u), counterparty(v)]
            counterparty(u) == counterparty(v) <==> alike(u.payer, v.payer),
        exists|u: SettledWorkUnit| #[trigger] unit_counts_for(units, counts, earner, u),
    ensures
        is_top_payment(
            units,
            counts,
            alike,
            earner,
            top_total(earner_posts(payments_from(units, counts, counterparty), earner)),
        ),
{
    let posts = earner_posts(payments_from(units, counts, counterparty), earner);
    let tops = posts.map_values(|p: (C, nat)| total_for(posts, p.0));
    let keys = posts.map_values(|p: (C, nat)| p.0);
    assert forall|u: SettledWorkUnit| #[trigger]
        unit_counts_for(units, counts, earner, u) implies total_for(posts, counterparty(u))
        == paid_by_payer(units, counts, alike, earner, u.payer) && keys.contains(
        counterparty(u),
    ) by {
        let c = counterparty(u);
        paid_is_weight(units, counts, counterparty, earner, c);
        let v = |w: SettledWorkUnit|
            if counts(w) && w.identity == earner && counterparty(w) == c {
                w.settled_price as nat
            } else {
                0
            };
        let p = u.payer;
        let w = |w: SettledWorkUnit|
            if counts(w) && w.identity == earner && alike(w.payer, p) {
                w.settled_price as nat
            } else {
                0
            };
        assert forall|x: SettledWorkUnit| #[trigger] v(x) == w(x) by {
            assert(counterparty(x) == counterparty(u) <==> alike(x.payer, u.payer));
        }
        weight_agrees(units, v, w);
        payer_is_member(units, counts, counterparty, earner, c);
        assert(units.contains(u) && counts(u) && u.identity == earner && counterparty(u) == c);
    }
    let u0 = choose|u: SettledWorkUnit| #[trigger] unit_counts_for(units, counts, earner, u);
    assert(keys.contains(counterparty(u0)));
    assert(posts.len() > 0);
    let i = largest_attained(tops);
    let c = posts[i].0;
    assert(keys[i] == c);
    assert(post_keys(posts).contains(c));
    payer_is_member(units, counts, counterparty, earner, c);
    let u = choose|u: SettledWorkUnit| #[trigger]
        units.contains(u) && counts(u) && u.identity == earner && counterparty(u) == c;
    assert(unit_counts_for(units, counts, earner, u));
    assert forall|u: SettledWorkUnit| #[trigger]
        unit_counts_for(units, counts, earner, u) implies paid_by_payer(
        units,
        counts,
        alike,
        earner,
        u.payer,
    ) <= top_total(posts) by {
        let j = keys.index_of(counterparty(u));
        assert(tops[j] == total_for(posts, posts[j].0));
        largest_bounds(tops, j);
    }
}

/// The organic value is what all earners count for together.
proof fn value_is_counted_by_earner<C>(
    units: Seq<SettledWorkUnit>,
    counts: spec_fn(SettledWorkUnit) -> bool,
    counterparty: spec_fn(SettledWorkUnit) -> C,
    alike: spec_fn(IdentityId, IdentityId) -> bool,
    params: ClassifierParams,
) -> (r: (Seq<IdentityId>, Seq<nat>))
    requires
        forall|u: SettledWorkUnit, v: SettledWorkUnit|
            #![trigger counterparty(u), counterparty(v)]
            counterparty(u) == counterparty(v) <==> alike(u.payer, v.payer),
        organic_value(payments_from(units, counts, counterparty), params) is Ok,
    ensures
        counted_by_earner(units, counts, alike, params, r.0, r.1),
        organic_value(payments_from(units, counts, counterparty), params)->Ok_0 == total(r.1),
{
    let payments = payments_from(units, counts, counterparty);
    let set = earners(payments);
    let keys = sorted::<IdentityId>(set);
    let outcomes = earner_values(payments, params);
    let values = collect(outcomes)->Ok_0;
    vstd::seq_lib::seq_to_set_is_finite(
        earnings(payments).map_values(|p: (IdentityId, nat)| p.0),
    );
    sorted_lists::<IdentityId>(set);
    ascending_distinct::<IdentityId>(keys);
    collect_values(outcomes);
    assert forall|id: IdentityId| #[trigger]
        keys.contains(id) <==> exists|u: SettledWorkUnit| #[trigger]
            unit_counts_for(units, counts, id, u) by {
        earner_is_member(units, counts, counterparty, id);
        assert(keys.to_set().contains(id) == keys.contains(id));
        if set.contains(id) {
            let u = choose|u: SettledWorkUnit| #[trigger]
                units.contains(u) && counts(u) && u.identity == id;
            assert(unit_counts_for(units, counts, id, u));
        }
        if exists|u: SettledWorkUnit| #[trigger] unit_counts_for(units, counts, id, u) {
            let u = choose|u: SettledWorkUnit| #[trigger] unit_counts_for(units, counts, id, u);
            assert(units.contains(u) && counts(u) && u.identity == id);
        }
    }
    assert forall|i: int| 0 <= i < keys.len() implies earner_counts(
        units,
        counts,
        alike,
        params,
        #[trigger] keys[i],
        as_nats(values)[i],
    ) by {
        let id = keys[i];
        let posts = earner_posts(payments, id);
        assert(keys.contains(id));
        top_is_top_payment(units, counts, counterparty, alike, id);
        let top = top_total(posts);
        let paid = post_total(posts);
        earned_is_weight(units, counts, counterparty, id);
        assert(paid == paid_to_earner(units, counts, id));
        assert(outcomes[i] == earner_value(posts, params));
        let value = values[i] as int;
        if paid == 0 {
            let d = discount_for(paid, top, params)->Ok_0 as nat;
            assert(0 * d == 0) by (nonlinear_arith);
            assert(value == 0);
        } else {
            let n = top * 10_000;
            let share = n / paid;
            assert(is_floor(share as int, n as int, paid as int)) by {
                assert(share * paid <= n < share * paid + paid) by (nonlinear_arith)
                    requires
                        share == n / paid,
                        paid > 0,
                ;
            }
            discount_is_the_multiplier(share, params);
            let d = share_discount(share, params);
            assert(discount_for(paid, top, params)->Ok_0 == d);
            assert(is_multiplier(d as int, share as int, params));
            assert(paid * d >= 0) by (nonlinear_arith);
            assert(is_floor(value, (paid * d) as int, 10_000));
        }
        assert(counts_as(value, paid as int, top as int, params));
    }
    (keys, as_nats(values))
}

/// A consumer who is not related to the earner paid for the unit.
pub open spec fn consumer_paid() -> spec_fn(SettledWorkUnit) -> bool {
    |u: SettledWorkUnit| !u.payer_related && !u.is_challenge_task
}

/// Payers count one by one.
pub open spec fn payers_one_by_one() -> spec_fn(IdentityId, IdentityId) -> bool {
    |a: IdentityId, b: IdentityId| a == b
}

/// A consumer who is another party than the earner paid for the unit.
pub open spec fn other_party_paid(domains: DomainMap) -> spec_fn(SettledWorkUnit) -> bool {
    |u: SettledWorkUnit|
        !u.payer_related && !u.is_challenge_task && !one_party(domains, u.identity, u.payer)
}

/// Payers count by party.
pub open spec fn payers_by_party(domains: DomainMap) -> spec_fn(IdentityId, IdentityId) -> bool {
    |a: IdentityId, b: IdentityId| one_party(domains, a, b)
}

/// Units selected by the same rule make the same payments.
proof fn same_rule_same_payments<C>(
    units: Seq<SettledWorkUnit>,
    a: spec_fn(SettledWorkUnit) -> bool,
    b: spec_fn(SettledWorkUnit) -> bool,
    counterparty: spec_fn(SettledWorkUnit) -> C,
)
    requires
        forall|u: SettledWorkUnit| #[trigger] a(u) == b(u),
    ensures
        payments_from(units, a, counterparty) == payments_from(units, b, counterparty),
    decreases units.len(),
{
    if units.len() > 0 {
        same_rule_same_payments(units.drop_last(), a, b, counterparty);
        assert(a(units.last()) == b(units.last()));
    }
}

/// By identity: the organic value of an epoch is, over all earners that
/// unrelated consumers paid, each once, what each counts for by the share of
/// its largest payer.
pub proof fn organic_value_by_identity(
    units: Seq<SettledWorkUnit>,
    params: ClassifierParams,
)
    requires
        organic_value(poiw::classifier::organic_payments(units), params) is Ok,
    ensures
        is_organic_value(
            organic_value(poiw::classifier::organic_payments(units), params)->Ok_0,
            units,
            consumer_paid(),
            payers_one_by_one(),
            params,
        ),
{
    let mine = poiw::classifier::organic_units();
    let who = poiw::classifier::payer_of();
    assert forall|u: SettledWorkUnit| #[trigger] mine(u) == consumer_paid()(u) by {}
    same_rule_same_payments(units, mine, consumer_paid(), who);
    let (listed, values) = value_is_counted_by_earner(
        units,
        consumer_paid(),
        who,
        payers_one_by_one(),
        params,
    );
}

/// By control domain: the organic value of an epoch is, over all earners that
/// other parties paid as consumers, each once, what each counts for by the
/// share of its largest paying party.
pub proof fn organic_value_by_party(
    units: Seq<SettledWorkUnit>,
    domains: DomainMap,
    params: ClassifierParams,
)
    requires
        organic_value(aipow::classifier::organic_payments(units, domains), params) is Ok,
    ensures
        is_organic_value(
            organic_value(aipow::classifier::organic_payments(units, domains), params)->Ok_0,
            units,
            other_party_paid(domains),
            payers_by_party(domains),
            params,
        ),
{
    let mine = aipow::classifier::organic_in(domains);
    let who = aipow::classifier::payer_domain_in(domains);
    assert forall|u: SettledWorkUnit| #[trigger] mine(u) == other_party_paid(domains)(u) by {}
    same_rule_same_payments(units, mine, other_party_paid(domains), who);
    assert forall|u: SettledWorkUnit, v: SettledWorkUnit|
        #![trigger who(u), who(v)]
        who(u) == who(v) <==> payers_by_party(domains)(u.payer, v.payer) by {}
    let (listed, values) = value_is_counted_by_earner(
        units,
        other_party_paid(domains),
        who,
        payers_by_party(domains),
        params,
    );
}

/// The value that scoring reports is the organic value of the same units.
pub proof fn scoring_reports_the_organic_value(
    units: Seq<SettledWorkUnit>,
    reliability: Map<IdentityId, crate::types::ReliabilityInputs>,
    domains: DomainMap,
    params: ClassifierParams,
)
    ensures
        poiw::score::epoch_scores(units, reliability, params) matches Ok(scored)
            ==> is_organic_value(
            scored.organic_settled_value,
            units,
            consumer_paid(),
            payers_one_by_one(),
            params,
        ),
        aipow::score::epoch_scores(units, reliability, domains, params) matches Ok(scored)
            ==> is_organic_value(
            scored.organic_settled_value,
            units,
            other_party_paid(domains),
            payers_by_party(domains),
            params,
        ),
{
    if poiw::score::epoch_scores(units, reliability, params) is Ok {
        organic_value_by_identity(units, params);
    }
    if aipow::score::epoch_scores(units, reliability, domains, params) is Ok {
        organic_value_by_party(units, domains, params);
    }
}

/// What the listed payers paid.
pub open spec fn paid_by_each<C>(per_payer: Map<C, u128>, payers: Seq<C>) -> Seq<nat> {
    payers.map_values(|c: C| per_payer[c] as nat)
}

/// The position of a largest number.
pub open spec fn is_largest(numbers: Seq<nat>, i: int) -> bool {
    &&& 0 <= i < numbers.len()
    &&& forall|j: int| 0 <= j < numbers.len() ==> #[trigger] numbers[j] <= numbers[i]
}

/// The multiplier where payers paid these amounts: full where they paid
/// nothing, and else the multiplier at the largest one's share of them all.
pub open spec fn discounted_for(paid: Seq<nat>, discount: int, params: ClassifierParams) -> bool {
    if total(paid) == 0 {
        discount == 10_000
    } else {
        exists|i: int, share: int| #[trigger]
            is_largest(paid, i) && is_floor(share, (paid[i] * 10_000) as int, total(paid) as int)
                && #[trigger] is_multiplier(discount, share, params)
    }
}

/// The discount goes by the largest payer's share of what all payers, each
/// once, paid together.
pub proof fn discount_goes_by_the_largest_payer<K: OrdKey>(
    per_payer: Map<K::V, u128>,
    params: ClassifierParams,
    discount: u32,
)
    requires
        per_payer.dom().finite(),
        concentration_discount::<K>(per_payer, params) == Ok::<u32, PoiwError>(discount),
    ensures
        params.top_payer_full_bps < params.top_payer_zero_bps <= 10_000,
        exists|payers: Seq<K::V>|
            {
                &&& #[trigger] payers.no_duplicates()
                &&& payers.to_set() == per_payer.dom()
                &&& discounted_for(paid_by_each(per_payer, payers), discount as int, params)
            },
{
    let payers = sorted::<K>(per_payer.dom());
    sorted_lists::<K>(per_payer.dom());
    ascending_distinct::<K>(payers);
    let paid = paid_by_each(per_payer, payers);
    assert(paid =~= values_at(per_payer, payers));
    let whole = total(paid);
    if whole > 0 {
        if paid.len() == 0 {
            assert(paid =~= Seq::<nat>::empty());
        }
        let i = largest_attained(paid);
        let n = paid[i] * 10_000;
        let share = n / whole;
        assert(share * whole <= n < share * whole + whole) by (nonlinear_arith)
            requires
                share == n / whole,
                whole > 0,
        ;
        assert forall|j: int| 0 <= j < paid.len() implies #[trigger] paid[j] <= paid[i] by {
            largest_bounds(paid, j);
        }
        assert(is_largest(paid, i));
        assert(is_floor(share as int, (paid[i] * 10_000) as int, whole as int));
        discount_is_the_multiplier(share, params);
        assert(is_multiplier(discount as int, share as int, params));
    }
    assert(discounted_for(paid, discount as int, params));
}

/// All payments together are no more than the largest price for each unit.
proof fn payments_are_bounded<C>(
    units: Seq<SettledWorkUnit>,
    counts: spec_fn(SettledWorkUnit) -> bool,
    counterparty: spec_fn(SettledWorkUnit) -> C,
)
    ensures
        post_total(earnings(payments_from(units, counts, counterparty))) <= units.len() * u64::MAX,
    decreases units.len(),
{
    let payments = payments_from(units, counts, counterparty);
    let amounts = earnings(payments).map_values(|p: (IdentityId, nat)| p.1);
    if units.len() == 0 {
        assert(amounts =~= Seq::<nat>::empty());
    } else {
        let rest = payments_from(units.drop_last(), counts, counterparty);
        payments_are_bounded(units.drop_last(), counts, counterparty);
        if counts(units.last()) {
            assert(amounts.drop_last() =~= earnings(rest).map_values(
                |p: (IdentityId, nat)| p.1,
            ));
        }
    }
}

/// With sound thresholds, every epoch that fits in memory has an organic
/// value.
pub proof fn organic_value_is_given<C>(
    units: Seq<SettledWorkUnit>,
    counts: spec_fn(SettledWorkUnit) -> bool,
    counterparty: spec_fn(SettledWorkUnit) -> C,
    params: ClassifierParams,
)
    requires
        params.top_payer_full_bps < params.top_payer_zero_bps <= 10_000,
        units.len() <= 0x1_0000_0000_0000,
    ensures
        organic_value(payments_from(units, counts, counterparty), params) is Ok,
{
    let payments = payments_from(units, counts, counterparty);
    let set = earners(payments);
    let keys = sorted::<IdentityId>(set);
    let outcomes = earner_values(payments, params);
    let all = earnings(payments);
    let post_key = all.map_values(|p: (IdentityId, nat)| p.0);
    payments_are_bounded(units, counts, counterparty);
    let most = post_total(all);
    assert(most <= 0x1_0000_0000_0000 * u64::MAX) by (nonlinear_arith)
        requires
            most <= units.len() * u64::MAX,
            units.len() <= 0x1_0000_0000_0000,
    ;
    assert forall|id: IdentityId| #[trigger]
        earner_value(earner_posts(payments, id), params) is Ok by {
        let posts = earner_posts(payments, id);
        let paid = post_total(posts);
        let top = top_total(posts);
        earner_total(payments, id);
        total_for_within(all, id);
        let tops = posts.map_values(|p: (C, nat)| total_for(posts, p.0));
        if posts.len() > 0 {
            let i = largest_attained(tops);
            total_for_within(posts, posts[i].0);
        } else {
            assert(tops =~= Seq::<nat>::empty());
        }
        assert(top <= paid);
        if paid > 0 {
            discount_is_the_multiplier(top * 10_000 / paid, params);
        }
        let d = discount_for(paid, top, params)->Ok_0 as nat;
        assert(d <= 10_000);
        assert(paid * d <= paid * 10_000) by (nonlinear_arith)
            requires
                d <= 10_000,
        ;
    }
    if collect(outcomes) is Err {
        let j = collect_error(outcomes);
        assert(outcomes[j] == earner_value(earner_posts(payments, keys[j]), params));
    }
    collect_values(outcomes);
    let values = as_nats(collect(outcomes)->Ok_0);
    let sums = keys.map_values(|e: IdentityId| total_for(all, e));
    vstd::seq_lib::seq_to_set_is_finite(post_key);
    sorted_lists::<IdentityId>(set);
    ascending_distinct::<IdentityId>(keys);
    assert forall|i: int| 0 <= i < values.len() implies #[trigger] values[i] <= sums[i] by {
        let e = keys[i];
        assert(outcomes[i] == earner_value(earner_posts(payments, e), params));
        discount_never_adds(earner_posts(payments, e), params);
        earner_total(payments, e);
    }
    total_monotone(values, sums);
    assert forall|i: int| 0 <= i < all.len() implies keys.contains((#[trigger] all[i]).0) by {
        assert(post_key[i] == all[i].0);
        assert(set.contains(all[i].0));
        assert(keys.to_set().contains(all[i].0));
    }
    totals_sum(all, keys);
}

/// A discount is refused for bad thresholds, and else given wherever ten
/// thousand times the payers' total fits.
pub proof fn discounts_are_given<K: OrdKey>(per_payer: Map<K::V, u128>, params: ClassifierParams)
    requires
        per_payer.dom().finite(),
    ensures
        !(params.top_payer_full_bps < params.top_payer_zero_bps <= 10_000) ==> (
        concentration_discount::<K>(per_payer, params) matches Err(PoiwError::InvalidParameter(_))),
        forall|payers: Seq<K::V>|
            params.top_payer_full_bps < params.top_payer_zero_bps <= 10_000 && lists::<K>(
                payers,
                per_payer.dom(),
            ) && total(#[trigger] paid_by_each(per_payer, payers)) * 10_000
                <= u128::MAX ==> concentration_discount::<K>(per_payer, params) is Ok,
{
    sorted_lists::<K>(per_payer.dom());
    assert forall|payers: Seq<K::V>|
        params.top_payer_full_bps < params.top_payer_zero_bps <= 10_000 && lists::<K>(
            payers,
            per_payer.dom(),
        ) && total(#[trigger] paid_by_each(per_payer, payers)) * 10_000 <= u128::MAX implies
        concentration_discount::<K>(per_payer, params) is Ok by {
        listing_is_sorted::<K>(payers, per_payer.dom());
        let paid = paid_by_each(per_payer, payers);
        assert(paid =~= values_at(per_payer, payers));
        crate::sums::largest_within_total(paid);
    }
}

} // verus!
