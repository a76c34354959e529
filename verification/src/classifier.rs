//! The counterparty-concentration discount and the organic settled value,
//! the input that drives demand-coupled emission.
//!
//! It is consensus-critical in effect: a wrong classification changes how
//! much TOS the protocol creates.

use vstd::prelude::*;

use crate::keyed::KeyedMap;
use crate::order::{sorted, sorted_lists, OrdKey};
use crate::score::{scale, scaled, scaled_within};
use crate::sums::{
    as_nats, collect, collect_error, collect_next, collect_values, largest_attained, total,
    total_monotone, total_prefix,
};
use crate::tally::{
    map_top, map_total, post_keys, post_keys_push, post_total, sum_values, tallies, tally_add,
    tally_measures, tally_step, top_total, total_for, total_for_prefix, total_for_within,
    totals_sum,
};
use crate::types::{Bps, IdentityId, PoiwError, BPS_DENOMINATOR};

verus! {

/// Classifier parameters (v0 draft values).
#[derive(Debug, Clone, Copy, PartialEq, Eq, Structural)]
pub struct ClassifierParams {
    /// Top-payer share at or below which the discount is full (10_000 bps
    /// multiplier, i.e. no reduction).
    pub top_payer_full_bps: Bps,
    /// Top-payer share at or above which the multiplier reaches zero.
    pub top_payer_zero_bps: Bps,
}

impl Default for ClassifierParams {
    fn default() -> (r: ClassifierParams)
        ensures
            r.top_payer_full_bps == 5_000,
            r.top_payer_zero_bps == 10_000,
    {
        ClassifierParams { top_payer_full_bps: 5_000, top_payer_zero_bps: 10_000 }
    }
}

impl ClassifierParams {
    /// What is wrong with the parameters, if anything.
    pub open spec fn error(&self) -> Option<PoiwError> {
        if self.top_payer_full_bps >= self.top_payer_zero_bps {
            Some(
                PoiwError::InvalidParameter("top_payer_full_bps must be below top_payer_zero_bps"),
            )
        } else if self.top_payer_zero_bps > 10_000 {
            Some(PoiwError::InvalidParameter("top_payer_zero_bps must not exceed 10_000"))
        } else {
            None
        }
    }

    /// Checks the parameters.
    pub fn validate(&self) -> (r: Result<(), PoiwError>)
        ensures
            r is Ok <==> self.error() is None,
            r matches Err(e) ==> self.error() == Some(e),
    {
        if self.top_payer_full_bps >= self.top_payer_zero_bps {
            return Err(
                PoiwError::InvalidParameter("top_payer_full_bps must be below top_payer_zero_bps"),
            );
        }
        if self.top_payer_zero_bps > 10_000 {
            return Err(PoiwError::InvalidParameter("top_payer_zero_bps must not exceed 10_000"));
        }
        Ok(())
    }
}

/// The multiplier at a top-payer share: full up to the full threshold, zero
/// from the zero threshold, linear and floored in between.
pub open spec fn share_discount(share: nat, params: ClassifierParams) -> nat {
    let full = params.top_payer_full_bps as nat;
    let zero = params.top_payer_zero_bps as nat;
    if share <= full {
        10_000
    } else if share >= zero {
        0
    } else {
        ((zero - share) * 10_000 / (zero - full)) as nat
    }
}

/// The multiplier for an earner whose settled value is `sum`, of which the
/// top counterparty paid `top`.
pub open spec fn discount_for(sum: nat, top: nat, params: ClassifierParams) -> Result<
    Bps,
    PoiwError,
> {
    if sum == 0 {
        Ok(10_000)
    } else if top * 10_000 > u128::MAX {
        Err(PoiwError::Overflow)
    } else {
        Ok(share_discount(top * 10_000 / sum, params) as Bps)
    }
}

/// The discount of an earner with these settled totals per counterparty.
pub open spec fn concentration_discount<K: OrdKey>(
    per_payer: Map<K::V, u128>,
    params: ClassifierParams,
) -> Result<Bps, PoiwError> {
    match params.error() {
        Some(e) => Err(e),
        None => if map_total::<K>(per_payer) > u128::MAX {
            Err(PoiwError::Overflow)
        } else {
            discount_for(map_total::<K>(per_payer), map_top::<K>(per_payer), params)
        },
    }
}

/// Every discount lies within [0, 10_000], and a larger top share never
/// earns a larger multiplier.
pub proof fn discount_decays(a: nat, b: nat, params: ClassifierParams)
    requires
        params.error() is None,
        a <= b,
    ensures
        share_discount(b, params) <= share_discount(a, params) <= 10_000,
{
    let full = params.top_payer_full_bps as int;
    let zero = params.top_payer_zero_bps as int;
    let span = zero - full;
    assert forall|s: int| full < s < zero implies 0 <= #[trigger] ((zero - s) * 10_000) / span
        <= 10_000 by {
        assert(0 <= ((zero - s) * 10_000) / span <= 10_000) by (nonlinear_arith)
            requires
                0 < zero - s < span,
                span == zero - full,
        ;
    }
    if full < a && b < zero {
        assert(((zero - b) * 10_000) / span <= ((zero - a) * 10_000) / span) by (nonlinear_arith)
            requires
                a <= b,
                span > 0,
        ;
    }
    if full < a < zero {
        let x = ((zero - a) * 10_000) / span;
        assert(0 <= x <= 10_000);
    }
    if full < b < zero {
        let x = ((zero - b) * 10_000) / span;
        assert(0 <= x <= 10_000);
    }
}

/// The multiplier for a settled value and the largest payment in it.
fn discount_bps(sum: u128, top: u128, params: &ClassifierParams) -> (r: Result<Bps, PoiwError>)
    requires
        params.error() is None,
        top <= sum,
    ensures
        r == discount_for(sum as nat, top as nat, *params),
        r matches Ok(d) ==> d <= 10_000,
{
    if sum == 0 {
        return Ok(10_000);
    }
    let share: u128 = match scale(top, BPS_DENOMINATOR, sum) {
        Ok(share) => share,
        Err(e) => {
            return Err(e);
        },
    };
    assert(share <= 10_000) by (nonlinear_arith)
        requires
            share == top * 10_000 / sum as int,
            top <= sum,
            sum > 0,
    ;
    proof {
        discount_decays(share as nat, share as nat, *params);
    }
    if share <= params.top_payer_full_bps as u128 {
        return Ok(10_000);
    }
    if share >= params.top_payer_zero_bps as u128 {
        return Ok(0);
    }
    let span: u128 = params.top_payer_zero_bps as u128 - params.top_payer_full_bps as u128;
    let remaining: u128 = params.top_payer_zero_bps as u128 - share;
    let multiplier: u128 = remaining * BPS_DENOMINATOR / span;
    Ok(multiplier as Bps)
}

/// Counterparty-concentration multiplier for one earner, from that
/// earner's settled totals grouped by counterparty: 10_000 bps at or below
/// the full threshold, decaying linearly to 0 at the zero threshold.
///
/// An earner with no settled value has nothing to discount and gets the
/// full multiplier.
pub fn counterparty_discount_bps<K: OrdKey>(
    per_payer_settled: &KeyedMap<K, u128>,
    params: &ClassifierParams,
) -> (r: Result<Bps, PoiwError>)
    ensures
        r == concentration_discount::<K>(per_payer_settled@, *params),
        r matches Ok(d) ==> d <= 10_000,
{
    if let Err(e) = params.validate() {
        return Err(e);
    }
    match sum_values(per_payer_settled) {
        Err(e) => Err(e),
        Ok((sum, top)) => {
            proof {
                crate::sums::largest_within_total(
                    crate::tally::values_at(per_payer_settled@, per_payer_settled.keys()),
                );
            }
            discount_bps(sum, top, params)
        },
    }
}

/// One organic settlement: who earned, from which counterparty, how much.
pub struct Payment<C> {
    pub earner: IdentityId,
    pub counterparty: C,
    pub amount: nat,
}

/// What an earner's counterparties paid, in order.
pub open spec fn earner_posts<C>(payments: Seq<Payment<C>>, earner: IdentityId) -> Seq<(C, nat)>
    decreases payments.len(),
{
    if payments.len() == 0 {
        Seq::empty()
    } else {
        let before = earner_posts(payments.drop_last(), earner);
        let last = payments.last();
        if last.earner == earner {
            before.push((last.counterparty, last.amount))
        } else {
            before
        }
    }
}

/// What every earner earned, in order.
pub open spec fn earnings<C>(payments: Seq<Payment<C>>) -> Seq<(IdentityId, nat)> {
    payments.map_values(|p: Payment<C>| (p.earner, p.amount))
}

/// All earners.
pub open spec fn earners<C>(payments: Seq<Payment<C>>) -> Set<IdentityId> {
    post_keys(earnings(payments))
}

/// An earner's settled value under the counterparty discount.
pub open spec fn earner_value<C>(posts: Seq<(C, nat)>, params: ClassifierParams) -> Result<
    u128,
    PoiwError,
> {
    if post_total(posts) > u128::MAX {
        Err(PoiwError::Overflow)
    } else {
        match discount_for(post_total(posts), top_total(posts), params) {
            Err(e) => Err(e),
            Ok(discount) => scaled(post_total(posts), discount as nat, 10_000),
        }
    }
}

/// The discounted values of all earners, in ascending order.
pub open spec fn earner_values<C>(payments: Seq<Payment<C>>, params: ClassifierParams) -> Seq<
    Result<u128, PoiwError>,
> {
    sorted::<IdentityId>(earners(payments)).map_values(
        |e: IdentityId| earner_value(earner_posts(payments, e), params),
    )
}

/// The organic settled value: the discounted values of all earners together.
pub open spec fn organic_value<C>(payments: Seq<Payment<C>>, params: ClassifierParams) -> Result<
    u128,
    PoiwError,
> {
    match params.error() {
        Some(e) => Err(e),
        None => match collect(earner_values(payments, params)) {
            Err(e) => Err(e),
            Ok(values) => if total(as_nats(values)) > u128::MAX {
                Err(PoiwError::Overflow)
            } else {
                Ok(total(as_nats(values)) as u128)
            },
        },
    }
}

/// `book` holds, for every earner, the exact total of every counterparty.
pub open spec fn books<K: OrdKey>(
    book: Map<IdentityId, KeyedMap<K, u128>>,
    payments: Seq<Payment<K::V>>,
) -> bool {
    &&& book.dom() =~= earners(payments)
    &&& forall|e: IdentityId| #[trigger]
        book.dom().contains(e) ==> tallies(book[e]@, earner_posts(payments, e))
}

/// Earners and their posts with one more payment.
proof fn payment_push<C>(payments: Seq<Payment<C>>, p: Payment<C>)
    ensures
        earners(payments.push(p)) == earners(payments).insert(p.earner),
        earner_posts(payments.push(p), p.earner) == earner_posts(payments, p.earner).push(
            (p.counterparty, p.amount),
        ),
        forall|e: IdentityId|
            e != p.earner ==> #[trigger] earner_posts(payments.push(p), e) == earner_posts(
                payments,
                e,
            ),
{
    assert(payments.push(p).drop_last() =~= payments);
    assert(earnings(payments.push(p)) =~= earnings(payments).push((p.earner, p.amount)));
    post_keys_push(earnings(payments), p.earner, p.amount);
}

/// Someone who earned nothing has no posts.
proof fn no_earner_no_posts<C>(payments: Seq<Payment<C>>, e: IdentityId)
    requires
        !earners(payments).contains(e),
    ensures
        earner_posts(payments, e) == Seq::<(C, nat)>::empty(),
    decreases payments.len(),
{
    if payments.len() > 0 {
        let rest = payments.drop_last();
        assert(payments =~= rest.push(payments.last()));
        payment_push(rest, payments.last());
        no_earner_no_posts(rest, e);
    }
}

/// An earner's total is what the earner earned.
pub proof fn earner_total<C>(payments: Seq<Payment<C>>, e: IdentityId)
    ensures
        post_total(earner_posts(payments, e)) == total_for(earnings(payments), e),
    decreases payments.len(),
{
    if payments.len() > 0 {
        let rest = payments.drop_last();
        let last = payments.last();
        earner_total(rest, e);
        assert(earnings(payments).drop_last() =~= earnings(rest));
        let posts = earner_posts(rest, e);
        if last.earner == e {
            let more = posts.push((last.counterparty, last.amount));
            let amounts = more.map_values(|p: (C, nat)| p.1);
            assert(amounts.drop_last() =~= posts.map_values(|p: (C, nat)| p.1));
        }
    }
}

/// Enters a payment in the book.
pub(crate) fn post_payment<K: OrdKey>(
    book: &mut KeyedMap<IdentityId, KeyedMap<K, u128>>,
    earner: IdentityId,
    counterparty: K,
    amount: u128,
    Ghost(payments): Ghost<Seq<Payment<K::V>>>,
) -> (r: Result<(), PoiwError>)
    requires
        books(old(book)@, payments),
    ensures
        r is Ok ==> books(
            final(book)@,
            payments.push(
                (Payment { earner, counterparty: counterparty@, amount: amount as nat }),
            ),
        ),
        r matches Err(e) ==> e == PoiwError::Overflow && post_total(
            earner_posts(
                payments.push(
                    (Payment { earner, counterparty: counterparty@, amount: amount as nat }),
                ),
                earner,
            ),
        ) > u128::MAX,
{
    let ghost p = Payment { earner, counterparty: counterparty@, amount: amount as nat };
    let ghost posts = earner_posts(payments, earner);
    proof {
        payment_push(payments, p);
    }
    let mut payers: KeyedMap<K, u128> = match book.remove(&earner) {
        Some(payers) => payers,
        None => {
            proof {
                no_earner_no_posts(payments, earner);
            }
            KeyedMap::new()
        },
    };
    proof {
        if !earners(payments).contains(earner) {
            assert(payers@.dom() =~= post_keys(posts));
        }
        assert(tallies(payers@, posts));
        tally_step(payers@, posts, counterparty@, amount as nat);
        total_for_within(posts.push((counterparty@, amount as nat)), counterparty@);
    }
    match tally_add(&mut payers, counterparty, amount) {
        Err(e) => Err(e),
        Ok(()) => {
            book.insert(earner, payers);
            Ok(())
        },
    }
}

/// Every failing earner fails by overflow.
proof fn earner_errors_are_overflow<C>(posts: Seq<(C, nat)>, params: ClassifierParams)
    ensures
        earner_value(posts, params) matches Err(e) ==> e == PoiwError::Overflow,
{
}

/// Where one earner's value overflows, so does the organic value.
pub proof fn earner_overflow_wins<C>(
    payments: Seq<Payment<C>>,
    params: ClassifierParams,
    e: IdentityId,
)
    requires
        params.error() is None,
        earner_value(earner_posts(payments, e), params) is Err,
    ensures
        organic_value(payments, params) == Err::<u128, PoiwError>(PoiwError::Overflow),
{
    let set = earners(payments);
    let keys = sorted::<IdentityId>(set);
    let outcomes = earner_values(payments, params);
    vstd::seq_lib::seq_to_set_is_finite(
        earnings(payments).map_values(|p: (IdentityId, nat)| p.0),
    );
    sorted_lists::<IdentityId>(set);
    if !set.contains(e) {
        no_earner_no_posts(payments, e);
        let none = Seq::<(C, nat)>::empty();
        assert(none.map_values(|p: (C, nat)| p.1) =~= Seq::<nat>::empty());
        assert(post_total(none) == 0);
        assert(0 * 10_000 == 0nat);
    }
    assert(keys.to_set().contains(e));
    let i = keys.index_of(e);
    assert(outcomes[i] == earner_value(earner_posts(payments, e), params));
    if collect(outcomes) is Ok {
        collect_values(outcomes);
    } else {
        let j = collect_error(outcomes);
        earner_errors_are_overflow(earner_posts(payments, keys[j]), params);
    }
}

/// The sum of the discounted values of all earners in the book.
pub(crate) fn discounted_total<K: OrdKey>(
    book: &KeyedMap<IdentityId, KeyedMap<K, u128>>,
    params: &ClassifierParams,
    Ghost(payments): Ghost<Seq<Payment<K::V>>>,
) -> (r: Result<u128, PoiwError>)
    requires
        books(book@, payments),
        params.error() is None,
    ensures
        r == organic_value(payments, *params),
{
    let count: usize = book.len();
    let ghost keys = book.keys();
    let ghost outcomes = earner_values(payments, *params);
    let mut sum: u128 = 0;
    let mut i: usize = 0;
    let ghost mut values = Seq::<u128>::empty();
    assert(book@.dom() == earners(payments));
    assert(outcomes.take(0) =~= Seq::empty());
    assert(as_nats(values) =~= Seq::<nat>::empty());
    while i < count
        invariant
            i <= count,
            keys == book.keys(),
            count == keys.len(),
            books(book@, payments),
            params.error() is None,
            keys == sorted::<IdentityId>(earners(payments)),
            outcomes == earner_values(payments, *params),
            outcomes.len() == count,
            collect(outcomes.take(i as int)) == Ok::<Seq<u128>, PoiwError>(values),
            sum == total(as_nats(values)),
        decreases count - i,
    {
        let earner: IdentityId = *book.key_at(i);
        let payers: &KeyedMap<K, u128> = book.value_at(i);
        let ghost posts = earner_posts(payments, earner);
        proof {
            assert(book@.dom().contains(earner));
            tally_measures::<K>(payers@, posts);
            assert(outcomes[i as int] == earner_value(posts, *params));
            collect_next(outcomes, i as int);
            if earner_value(posts, *params) is Err {
                earner_overflow_wins(payments, *params, earner);
            }
        }
        let earner_sum: u128 = match sum_values(payers) {
            Ok((earner_sum, _)) => earner_sum,
            Err(e) => {
                return Err(e);
            },
        };
        let discount: Bps = match counterparty_discount_bps(payers, params) {
            Ok(discount) => discount,
            Err(e) => {
                return Err(e);
            },
        };
        let discounted: u128 = match scale(earner_sum, discount as u128, BPS_DENOMINATOR) {
            Ok(discounted) => discounted,
            Err(e) => {
                return Err(e);
            },
        };
        let ghost more = values.push(discounted);
        assert(as_nats(more).drop_last() =~= as_nats(values));
        sum = match sum.checked_add(discounted) {
            Some(s) => s,
            None => {
                proof {
                    prefix_overflow(payments, *params, i + 1, more);
                }
                return Err(PoiwError::Overflow);
            },
        };
        proof {
            values = more;
        }
        i = i + 1;
    }
    assert(outcomes.take(i as int) =~= outcomes);
    Ok(sum)
}

/// Where the values of the first earners already overflow, so does the
/// organic value.
proof fn prefix_overflow<C>(
    payments: Seq<Payment<C>>,
    params: ClassifierParams,
    n: int,
    values: Seq<u128>,
)
    requires
        params.error() is None,
        0 <= n <= earner_values(payments, params).len(),
        collect(earner_values(payments, params).take(n)) == Ok::<Seq<u128>, PoiwError>(values),
        total(as_nats(values)) > u128::MAX,
    ensures
        organic_value(payments, params) == Err::<u128, PoiwError>(PoiwError::Overflow),
{
    let outcomes = earner_values(payments, params);
    if collect(outcomes) is Err {
        let j = collect_error(outcomes);
        let keys = sorted::<IdentityId>(earners(payments));
        earner_overflow_wins(payments, params, keys[j]);
    } else {
        let all = collect(outcomes)->Ok_0;
        collect_values(outcomes);
        collect_values(outcomes.take(n));
        assert forall|i: int| 0 <= i < n implies values[i] == all[i] by {
            assert(outcomes.take(n)[i] == outcomes[i]);
        }
        assert(as_nats(all).take(n) =~= as_nats(values));
        total_prefix(as_nats(all), n);
    }
}

/// An earner's discounted value is no more than what was settled.
pub proof fn discount_never_adds<C>(posts: Seq<(C, nat)>, params: ClassifierParams)
    requires
        params.error() is None,
        earner_value(posts, params) is Ok,
    ensures
        earner_value(posts, params)->Ok_0 <= post_total(posts),
{
    let sum = post_total(posts);
    let top = top_total(posts);
    if sum > 0 {
        let share = top * 10_000 / sum;
        discount_decays(share, share, params);
    }
    let d = discount_for(sum, top, params)->Ok_0;
    assert(d <= 10_000);
    scaled_within(sum, d as nat, 10_000);
}

/// An earner paid by a single counterparty counts nothing.
pub proof fn single_counterparty_counts_nothing<C>(
    posts: Seq<(C, nat)>,
    params: ClassifierParams,
)
    requires
        params.error() is None,
        earner_value(posts, params) is Ok,
        forall|i: int, j: int|
            0 <= i < posts.len() && 0 <= j < posts.len() ==> (#[trigger] posts[i]).0 == (
            #[trigger] posts[j]).0,
    ensures
        earner_value(posts, params)->Ok_0 == 0,
{
    let sum = post_total(posts);
    if posts.len() > 0 {
        let key = posts[0].0;
        only_key(posts, key);
        let tops = posts.map_values(|p: (C, nat)| total_for(posts, p.0));
        let i = largest_attained(tops);
        assert(posts[i].0 == key);
        assert(top_total(posts) == sum);
        if sum > 0 {
            assert(sum * 10_000 / sum == 10_000) by (nonlinear_arith)
                requires
                    sum > 0,
            ;
            assert(discount_for(sum, top_total(posts), params)->Ok_0 == 0);
        }
    } else {
        assert(posts.map_values(|p: (C, nat)| p.1) =~= Seq::<nat>::empty());
    }
    let d = discount_for(sum, top_total(posts), params)->Ok_0;
    assert(sum == 0 || d == 0);
    assert(sum * (d as nat) == 0) by (nonlinear_arith)
        requires
            sum == 0 || d == 0,
    ;
}

/// Where all posts have one key, its total is the total.
proof fn only_key<C>(posts: Seq<(C, nat)>, key: C)
    requires
        forall|i: int| 0 <= i < posts.len() ==> (#[trigger] posts[i]).0 == key,
    ensures
        total_for(posts, key) == post_total(posts),
    decreases posts.len(),
{
    if posts.len() > 0 {
        assert forall|i: int| 0 <= i < posts.len() - 1 implies (#[trigger] posts.drop_last()[i]).0
            == key by {
            assert(posts[i].0 == key);
        }
        only_key(posts.drop_last(), key);
        assert(posts[posts.len() - 1].0 == key);
        let amounts = posts.map_values(|p: (C, nat)| p.1);
        assert(amounts.drop_last() =~= posts.drop_last().map_values(|p: (C, nat)| p.1));
    }
}

/// The organic value is no more than all organic settlements together.
pub proof fn organic_value_within_settled<C>(payments: Seq<Payment<C>>, params: ClassifierParams)
    requires
        organic_value(payments, params) is Ok,
    ensures
        organic_value(payments, params)->Ok_0 <= post_total(earnings(payments)),
{
    let set = earners(payments);
    let keys = sorted::<IdentityId>(set);
    let posts = earnings(payments);
    let post_key = posts.map_values(|p: (IdentityId, nat)| p.0);
    vstd::seq_lib::seq_to_set_is_finite(post_key);
    sorted_lists::<IdentityId>(set);
    let outcomes = earner_values(payments, params);
    let values = as_nats(collect(outcomes)->Ok_0);
    let sums = keys.map_values(|e: IdentityId| total_for(posts, e));
    collect_values(outcomes);
    assert forall|i: int| 0 <= i < values.len() implies #[trigger] values[i] <= sums[i] by {
        let e = keys[i];
        assert(outcomes[i] == earner_value(earner_posts(payments, e), params));
        discount_never_adds(earner_posts(payments, e), params);
        earner_total(payments, e);
    }
    total_monotone(values, sums);
    assert forall|i: int| 0 <= i < posts.len() implies keys.contains((#[trigger] posts[i]).0) by {
        assert(post_key[i] == posts[i].0);
        assert(set.contains(posts[i].0));
        assert(keys.to_set().contains(posts[i].0));
    }
    totals_sum(posts, keys);
}

/// A longer list of payments gives no earner a smaller total.
pub proof fn earner_total_prefix<C>(payments: Seq<Payment<C>>, n: int, e: IdentityId)
    requires
        0 <= n <= payments.len(),
    ensures
        post_total(earner_posts(payments.take(n), e)) <= post_total(earner_posts(payments, e)),
{
    earner_total(payments, e);
    earner_total(payments.take(n), e);
    assert(earnings(payments).take(n) =~= earnings(payments.take(n)));
    total_for_prefix(earnings(payments), n, e);
}

} // verus!
