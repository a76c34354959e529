//! What the settled work units of an epoch post: scores under their earners,
//! and payments from their counterparties.

use vstd::prelude::*;

use crate::classifier::{
    earner_posts, earner_total, earner_total_prefix, earner_value, earners, earnings, organic_value,
    Payment,
};
use crate::classifier::{earner_overflow_wins, ClassifierParams};
use crate::score::unit_score;
use crate::sums::{largest, largest_attained, largest_bounds};
use crate::tally::{
    post_keys, post_keys_push, post_total, tally_map, tally_overflows, top_total, total_for,
    total_for_prefix,
};
use crate::types::{IdentityId, PoiwError, SettledWorkUnit};

verus! {

/// The scores that the selected units post under their earners.
pub open spec fn score_posts(
    units: Seq<SettledWorkUnit>,
    selected: spec_fn(SettledWorkUnit) -> bool,
) -> Seq<(IdentityId, nat)>
    decreases units.len(),
{
    if units.len() == 0 {
        Seq::empty()
    } else {
        let before = score_posts(units.drop_last(), selected);
        let last = units.last();
        if selected(last) {
            before.push((last.identity, unit_score(last)))
        } else {
            before
        }
    }
}

/// The payments that the selected units stand for.
pub open spec fn payments_from<C>(
    units: Seq<SettledWorkUnit>,
    selected: spec_fn(SettledWorkUnit) -> bool,
    counterparty: spec_fn(SettledWorkUnit) -> C,
) -> Seq<Payment<C>>
    decreases units.len(),
{
    if units.len() == 0 {
        Seq::empty()
    } else {
        let before = payments_from(units.drop_last(), selected, counterparty);
        let last = units.last();
        if selected(last) {
            before.push(
                Payment {
                    earner: last.identity,
                    counterparty: counterparty(last),
                    amount: last.settled_price as nat,
                },
            )
        } else {
            before
        }
    }
}

/// The posts of the first units are the first posts.
pub proof fn score_posts_prefix(
    units: Seq<SettledWorkUnit>,
    selected: spec_fn(SettledWorkUnit) -> bool,
    n: int,
)
    requires
        0 <= n <= units.len(),
    ensures
        score_posts(units.take(n), selected).len() <= score_posts(units, selected).len(),
        score_posts(units, selected).take(score_posts(units.take(n), selected).len() as int)
            == score_posts(units.take(n), selected),
    decreases units.len(),
{
    let head = score_posts(units.take(n), selected);
    let all = score_posts(units, selected);
    if n == units.len() {
        assert(units.take(n) =~= units);
        assert(all.take(all.len() as int) =~= all);
    } else {
        assert(units.drop_last().take(n) =~= units.take(n));
        score_posts_prefix(units.drop_last(), selected, n);
        let before = score_posts(units.drop_last(), selected);
        assert(all.take(head.len() as int) =~= before.take(head.len() as int));
    }
}

/// An overflow among the first units is an overflow of all.
pub proof fn score_overflow_prefix(
    units: Seq<SettledWorkUnit>,
    selected: spec_fn(SettledWorkUnit) -> bool,
    n: int,
    key: IdentityId,
)
    requires
        0 <= n <= units.len(),
        total_for(score_posts(units.take(n), selected), key) > u128::MAX,
    ensures
        tally_overflows(score_posts(units, selected)),
{
    let head = score_posts(units.take(n), selected);
    let all = score_posts(units, selected);
    score_posts_prefix(units, selected, n);
    total_for_prefix(all, head.len() as int, key);
    assert(total_for(all, key) > u128::MAX);
}

/// The payments of the first units are the first payments.
pub proof fn payments_prefix<C>(
    units: Seq<SettledWorkUnit>,
    selected: spec_fn(SettledWorkUnit) -> bool,
    counterparty: spec_fn(SettledWorkUnit) -> C,
    n: int,
)
    requires
        0 <= n <= units.len(),
    ensures
        payments_from(units.take(n), selected, counterparty).len() <= payments_from(
            units,
            selected,
            counterparty,
        ).len(),
        payments_from(units, selected, counterparty).take(
            payments_from(units.take(n), selected, counterparty).len() as int,
        ) == payments_from(units.take(n), selected, counterparty),
    decreases units.len(),
{
    let head = payments_from(units.take(n), selected, counterparty);
    let all = payments_from(units, selected, counterparty);
    if n == units.len() {
        assert(units.take(n) =~= units);
        assert(all.take(all.len() as int) =~= all);
    } else {
        assert(units.drop_last().take(n) =~= units.take(n));
        payments_prefix(units.drop_last(), selected, counterparty, n);
        let before = payments_from(units.drop_last(), selected, counterparty);
        assert(all.take(head.len() as int) =~= before.take(head.len() as int));
    }
}

/// An earner's overflow among the first units is an overflow of all.
pub proof fn payment_overflow_prefix<C>(
    units: Seq<SettledWorkUnit>,
    selected: spec_fn(SettledWorkUnit) -> bool,
    counterparty: spec_fn(SettledWorkUnit) -> C,
    params: ClassifierParams,
    n: int,
    earner: IdentityId,
)
    requires
        0 <= n <= units.len(),
        params.error() is None,
        post_total(
            earner_posts(payments_from(units.take(n), selected, counterparty), earner),
        ) > u128::MAX,
    ensures
        organic_value(payments_from(units, selected, counterparty), params) == Err::<
            u128,
            PoiwError,
        >(PoiwError::Overflow),
{
    let head = payments_from(units.take(n), selected, counterparty);
    let all = payments_from(units, selected, counterparty);
    payments_prefix(units, selected, counterparty, n);
    earner_total_prefix(all, head.len() as int, earner);
    earner_overflow_wins(all, params, earner);
}

/// The sum of a weight over units.
pub open spec fn weight(units: Seq<SettledWorkUnit>, w: spec_fn(SettledWorkUnit) -> nat) -> nat
    decreases units.len(),
{
    if units.len() == 0 {
        0
    } else {
        weight(units.drop_last(), w) + w(units.last())
    }
}

/// The same units in another order.
pub open spec fn same_units(a: Seq<SettledWorkUnit>, b: Seq<SettledWorkUnit>) -> bool {
    a.to_multiset() =~= b.to_multiset()
}

/// Taking one unit out takes its weight out.
proof fn weight_remove(
    units: Seq<SettledWorkUnit>,
    i: int,
    w: spec_fn(SettledWorkUnit) -> nat,
)
    requires
        0 <= i < units.len(),
    ensures
        weight(units, w) == weight(units.remove(i), w) + w(units[i]),
    decreases units.len(),
{
    if i == units.len() - 1 {
        assert(units.remove(i) =~= units.drop_last());
    } else {
        weight_remove(units.drop_last(), i, w);
        assert(units.remove(i).drop_last() =~= units.drop_last().remove(i));
        assert(units.remove(i).last() == units.last());
    }
}

/// Order does not matter to a sum of weights.
pub proof fn weight_permuted(
    a: Seq<SettledWorkUnit>,
    b: Seq<SettledWorkUnit>,
    w: spec_fn(SettledWorkUnit) -> nat,
)
    requires
        same_units(a, b),
    ensures
        weight(a, w) == weight(b, w),
    decreases a.len(),
{
    broadcast use vstd::seq_lib::group_to_multiset_ensures;

    assert(a.len() == a.to_multiset().len());
    assert(b.len() == b.to_multiset().len());
    if a.len() > 0 {
        let last = a.last();
        assert(a.contains(last));
        assert(a.to_multiset().count(last) > 0);
        assert(b.contains(last));
        let i = b.index_of(last);
        assert(a.remove(a.len() - 1) =~= a.drop_last());
        assert(same_units(a.drop_last(), b.remove(i)));
        weight_permuted(a.drop_last(), b.remove(i), w);
        weight_remove(b, i, w);
    }
}

/// Order does not matter to whether some unit has a property.
pub proof fn member_permuted(
    a: Seq<SettledWorkUnit>,
    b: Seq<SettledWorkUnit>,
    unit: SettledWorkUnit,
)
    requires
        same_units(a, b),
    ensures
        a.contains(unit) == b.contains(unit),
{
    broadcast use vstd::seq_lib::group_to_multiset_ensures;

    assert(a.contains(unit) <==> a.to_multiset().count(unit) > 0);
    assert(b.contains(unit) <==> b.to_multiset().count(unit) > 0);
}

/// An identity's total is the weight of its selected units' scores.
pub proof fn score_total_is_weight(
    units: Seq<SettledWorkUnit>,
    selected: spec_fn(SettledWorkUnit) -> bool,
    key: IdentityId,
)
    ensures
        total_for(score_posts(units, selected), key) == weight(
            units,
            |u: SettledWorkUnit|
                if selected(u) && u.identity == key {
                    unit_score(u)
                } else {
                    0
                },
        ),
    decreases units.len(),
{
    if units.len() > 0 {
        score_total_is_weight(units.drop_last(), selected, key);
        let before = score_posts(units.drop_last(), selected);
        let last = units.last();
        if selected(last) {
            assert(before.push((last.identity, unit_score(last))).drop_last() =~= before);
        }
    }
}

/// An identity posts a score exactly if it earned a selected unit.
pub proof fn scored_is_member(
    units: Seq<SettledWorkUnit>,
    selected: spec_fn(SettledWorkUnit) -> bool,
    key: IdentityId,
)
    ensures
        post_keys(score_posts(units, selected)).contains(key) <==> exists|u: SettledWorkUnit|
            #[trigger] units.contains(u) && selected(u) && u.identity == key,
    decreases units.len(),
{
    if units.len() > 0 {
        let rest = units.drop_last();
        let last = units.last();
        scored_is_member(rest, selected, key);
        let before = score_posts(rest, selected);
        if selected(last) {
            post_keys_push(before, last.identity, unit_score(last));
        }
        assert(units.contains(last)) by {
            assert(units[units.len() - 1] == last);
        }
        assert forall|u: SettledWorkUnit| #[trigger] units.contains(u) implies rest.contains(u)
            || u == last by {
            let i = units.index_of(u);
            if i < rest.len() {
                assert(rest[i] == u);
            }
        }
        assert forall|u: SettledWorkUnit| #[trigger] rest.contains(u) implies units.contains(u) by {
            let i = rest.index_of(u);
            assert(units[i] == u);
        }
    }
}

/// Order does not matter to the totals of the posted scores.
pub proof fn score_totals_permuted(
    a: Seq<SettledWorkUnit>,
    b: Seq<SettledWorkUnit>,
    selected: spec_fn(SettledWorkUnit) -> bool,
)
    requires
        same_units(a, b),
    ensures
        tally_map(score_posts(a, selected)) == tally_map(score_posts(b, selected)),
        tally_overflows(score_posts(a, selected)) == tally_overflows(score_posts(b, selected)),
{
    let pa = score_posts(a, selected);
    let pb = score_posts(b, selected);
    assert forall|k: IdentityId| #[trigger] total_for(pa, k) == total_for(pb, k) by {
        let w = |u: SettledWorkUnit|
            if selected(u) && u.identity == k {
                unit_score(u)
            } else {
                0
            };
        score_total_is_weight(a, selected, k);
        score_total_is_weight(b, selected, k);
        weight_permuted(a, b, w);
    }
    assert forall|k: IdentityId| #[trigger] post_keys(pa).contains(k) == post_keys(pb).contains(
        k,
    ) by {
        scored_is_member(a, selected, k);
        scored_is_member(b, selected, k);
        assert forall|u: SettledWorkUnit|
            #![trigger a.contains(u)]
            #![trigger b.contains(u)]
            a.contains(u) == b.contains(u) by {
            member_permuted(a, b, u);
        }
    }
    assert(tally_map(pa) =~= tally_map(pb));
    if tally_overflows(pa) {
        let k = choose|k: IdentityId| #[trigger] total_for(pa, k) > u128::MAX;
        assert(total_for(pb, k) > u128::MAX);
    }
    if tally_overflows(pb) {
        let k = choose|k: IdentityId| #[trigger] total_for(pb, k) > u128::MAX;
        assert(total_for(pa, k) > u128::MAX);
    }
}

/// What a counterparty paid an earner is the weight of the units between them.
pub proof fn paid_is_weight<C>(
    units: Seq<SettledWorkUnit>,
    selected: spec_fn(SettledWorkUnit) -> bool,
    counterparty: spec_fn(SettledWorkUnit) -> C,
    earner: IdentityId,
    c: C,
)
    ensures
        total_for(earner_posts(payments_from(units, selected, counterparty), earner), c) == weight(
            units,
            |u: SettledWorkUnit|
                if selected(u) && u.identity == earner && counterparty(u) == c {
                    u.settled_price as nat
                } else {
                    0
                },
        ),
    decreases units.len(),
{
    if units.len() > 0 {
        paid_is_weight(units.drop_last(), selected, counterparty, earner, c);
        let before = payments_from(units.drop_last(), selected, counterparty);
        let last = units.last();
        if selected(last) {
            let p = Payment {
                earner: last.identity,
                counterparty: counterparty(last),
                amount: last.settled_price as nat,
            };
            assert(before.push(p).drop_last() =~= before);
            let posts = earner_posts(before, earner);
            assert(posts.push((p.counterparty, p.amount)).drop_last() =~= posts);
        }
    }
}

/// What an earner earned is the weight of the earner's selected units.
pub proof fn earned_is_weight<C>(
    units: Seq<SettledWorkUnit>,
    selected: spec_fn(SettledWorkUnit) -> bool,
    counterparty: spec_fn(SettledWorkUnit) -> C,
    earner: IdentityId,
)
    ensures
        post_total(earner_posts(payments_from(units, selected, counterparty), earner)) == weight(
            units,
            |u: SettledWorkUnit|
                if selected(u) && u.identity == earner {
                    u.settled_price as nat
                } else {
                    0
                },
        ),
    decreases units.len(),
{
    earner_total(payments_from(units, selected, counterparty), earner);
    if units.len() > 0 {
        let rest = units.drop_last();
        let before = payments_from(rest, selected, counterparty);
        earned_is_weight(rest, selected, counterparty, earner);
        earner_total(before, earner);
        let last = units.last();
        if selected(last) {
            let p = Payment {
                earner: last.identity,
                counterparty: counterparty(last),
                amount: last.settled_price as nat,
            };
            assert(earnings(before.push(p)).drop_last() =~= earnings(before));
        }
    } else {
        assert(earnings(payments_from(units, selected, counterparty)) =~= Seq::empty());
    }
}

/// A counterparty posts a payment to an earner exactly if a selected unit
/// stands between them.
pub proof fn payer_is_member<C>(
    units: Seq<SettledWorkUnit>,
    selected: spec_fn(SettledWorkUnit) -> bool,
    counterparty: spec_fn(SettledWorkUnit) -> C,
    earner: IdentityId,
    c: C,
)
    ensures
        post_keys(
            earner_posts(payments_from(units, selected, counterparty), earner),
        ).contains(c) <==> exists|u: SettledWorkUnit| #[trigger]
            units.contains(u) && selected(u) && u.identity == earner && counterparty(u) == c,
    decreases units.len(),
{
    if units.len() > 0 {
        let rest = units.drop_last();
        let last = units.last();
        payer_is_member(rest, selected, counterparty, earner, c);
        let before = payments_from(rest, selected, counterparty);
        if selected(last) {
            let p = Payment {
                earner: last.identity,
                counterparty: counterparty(last),
                amount: last.settled_price as nat,
            };
            assert(before.push(p).drop_last() =~= before);
            post_keys_push(earner_posts(before, earner), p.counterparty, p.amount);
        }
        assert(units.contains(last)) by {
            assert(units[units.len() - 1] == last);
        }
        assert forall|u: SettledWorkUnit| #[trigger] units.contains(u) implies rest.contains(u)
            || u == last by {
            let i = units.index_of(u);
            if i < rest.len() {
                assert(rest[i] == u);
            }
        }
        assert forall|u: SettledWorkUnit| #[trigger] rest.contains(u) implies units.contains(u) by {
            let i = rest.index_of(u);
            assert(units[i] == u);
        }
    }
}

/// An identity is an earner exactly if it earned a selected unit.
pub proof fn earner_is_member<C>(
    units: Seq<SettledWorkUnit>,
    selected: spec_fn(SettledWorkUnit) -> bool,
    counterparty: spec_fn(SettledWorkUnit) -> C,
    earner: IdentityId,
)
    ensures
        earners(payments_from(units, selected, counterparty)).contains(earner) <==> exists|
            u: SettledWorkUnit,
        | #[trigger]
            units.contains(u) && selected(u) && u.identity == earner,
    decreases units.len(),
{
    if units.len() > 0 {
        let rest = units.drop_last();
        let last = units.last();
        earner_is_member(rest, selected, counterparty, earner);
        let before = payments_from(rest, selected, counterparty);
        if selected(last) {
            let p = Payment {
                earner: last.identity,
                counterparty: counterparty(last),
                amount: last.settled_price as nat,
            };
            assert(earnings(before.push(p)) =~= earnings(before).push((p.earner, p.amount)));
            post_keys_push(earnings(before), p.earner, p.amount);
        }
        assert(units.contains(last)) by {
            assert(units[units.len() - 1] == last);
        }
        assert forall|u: SettledWorkUnit| #[trigger] units.contains(u) implies rest.contains(u)
            || u == last by {
            let i = units.index_of(u);
            if i < rest.len() {
                assert(rest[i] == u);
            }
        }
        assert forall|u: SettledWorkUnit| #[trigger] rest.contains(u) implies units.contains(u) by {
            let i = rest.index_of(u);
            assert(units[i] == u);
        }
    }
}

/// Posts with the same keys and the same totals have the same top.
proof fn same_totals_same_top<C>(a: Seq<(C, nat)>, b: Seq<(C, nat)>)
    requires
        forall|c: C| #[trigger] total_for(a, c) == total_for(b, c),
        forall|c: C| #[trigger] post_keys(a).contains(c) == post_keys(b).contains(c),
    ensures
        top_total(a) == top_total(b),
{
    top_at_most(a, b);
    top_at_most(b, a);
}

proof fn top_at_most<C>(a: Seq<(C, nat)>, b: Seq<(C, nat)>)
    requires
        forall|c: C| #[trigger] total_for(a, c) == total_for(b, c),
        forall|c: C| #[trigger] post_keys(a).contains(c) == post_keys(b).contains(c),
    ensures
        top_total(a) <= top_total(b),
{
    let ta = a.map_values(|p: (C, nat)| total_for(a, p.0));
    let tb = b.map_values(|p: (C, nat)| total_for(b, p.0));
    let ka = a.map_values(|p: (C, nat)| p.0);
    let kb = b.map_values(|p: (C, nat)| p.0);
    if a.len() > 0 {
        let i = largest_attained(ta);
        let c = a[i].0;
        assert(ka[i] == c);
        assert(post_keys(a).contains(c));
        assert(post_keys(b).contains(c));
        assert(kb.contains(c));
        let j = kb.index_of(c);
        assert(b[j].0 == c);
        assert(tb[j] == total_for(b, c));
        largest_bounds(tb, j);
    } else {
        assert(largest(ta) == 0);
    }
}

/// Order does not matter to the organic value.
pub proof fn organic_value_permuted<C>(
    a: Seq<SettledWorkUnit>,
    b: Seq<SettledWorkUnit>,
    selected: spec_fn(SettledWorkUnit) -> bool,
    counterparty: spec_fn(SettledWorkUnit) -> C,
    params: ClassifierParams,
)
    requires
        same_units(a, b),
    ensures
        organic_value(payments_from(a, selected, counterparty), params) == organic_value(
            payments_from(b, selected, counterparty),
            params,
        ),
{
    let pa = payments_from(a, selected, counterparty);
    let pb = payments_from(b, selected, counterparty);
    assert forall|u: SettledWorkUnit|
            #![trigger a.contains(u)]
            #![trigger b.contains(u)]
            a.contains(u) == b.contains(u) by {
        member_permuted(a, b, u);
    }
    assert forall|e: IdentityId| #[trigger] earners(pa).contains(e) == earners(pb).contains(e) by {
        earner_is_member(a, selected, counterparty, e);
        earner_is_member(b, selected, counterparty, e);
    }
    assert(earners(pa) =~= earners(pb));
    assert forall|e: IdentityId| #[trigger]
        earner_value(earner_posts(pa, e), params) == earner_value(
        earner_posts(pb, e),
        params,
    ) by {
        let qa = earner_posts(pa, e);
        let qb = earner_posts(pb, e);
        earned_is_weight(a, selected, counterparty, e);
        earned_is_weight(b, selected, counterparty, e);
        weight_permuted(
            a,
            b,
            |u: SettledWorkUnit|
                if selected(u) && u.identity == e {
                    u.settled_price as nat
                } else {
                    0
                },
        );
        assert forall|c: C| #[trigger] total_for(qa, c) == total_for(qb, c) by {
            paid_is_weight(a, selected, counterparty, e, c);
            paid_is_weight(b, selected, counterparty, e, c);
            weight_permuted(
                a,
                b,
                |u: SettledWorkUnit|
                    if selected(u) && u.identity == e && counterparty(u) == c {
                        u.settled_price as nat
                    } else {
                        0
                    },
            );
        }
        assert forall|c: C| #[trigger] post_keys(qa).contains(c) == post_keys(qb).contains(c) by {
            payer_is_member(a, selected, counterparty, e, c);
            payer_is_member(b, selected, counterparty, e, c);
        }
        same_totals_same_top(qa, qb);
    }
    assert(crate::classifier::earner_values(pa, params) =~= crate::classifier::earner_values(
        pb,
        params,
    ));
}

/// A unit that is not selected changes nothing.
pub proof fn unselected_changes_nothing<C>(
    units: Seq<SettledWorkUnit>,
    i: int,
    selected: spec_fn(SettledWorkUnit) -> bool,
    counterparty: spec_fn(SettledWorkUnit) -> C,
)
    requires
        0 <= i < units.len(),
        !selected(units[i]),
    ensures
        score_posts(units.remove(i), selected) == score_posts(units, selected),
        payments_from(units.remove(i), selected, counterparty) == payments_from(
            units,
            selected,
            counterparty,
        ),
    decreases units.len(),
{
    if i == units.len() - 1 {
        assert(units.remove(i) =~= units.drop_last());
    } else {
        unselected_changes_nothing(units.drop_last(), i, selected, counterparty);
        assert(units.remove(i).drop_last() =~= units.drop_last().remove(i));
        assert(units.remove(i).last() == units.last());
    }
}

} // verus!
