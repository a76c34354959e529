//! Sums, maxima and first errors of sequences.

use vstd::prelude::*;

verus! {

/// Amounts as unbounded numbers.
pub open spec fn as_nats(s: Seq<u128>) -> Seq<nat> {
    s.map_values(|v: u128| v as nat)
}

/// The sum of a sequence.
pub open spec fn total(s: Seq<nat>) -> nat
    decreases s.len(),
{
    if s.len() == 0 {
        0
    } else {
        total(s.drop_last()) + s.last()
    }
}

/// The largest element of a sequence, or zero if there is none.
pub open spec fn largest(s: Seq<nat>) -> nat
    decreases s.len(),
{
    if s.len() == 0 {
        0
    } else if largest(s.drop_last()) >= s.last() {
        largest(s.drop_last())
    } else {
        s.last()
    }
}

/// The sum with one more element.
pub proof fn total_next(s: Seq<nat>, i: int)
    requires
        0 <= i < s.len(),
    ensures
        total(s.take(i + 1)) == total(s.take(i)) + s[i],
{
    assert(s.take(i + 1).drop_last() =~= s.take(i));
}

/// A prefix sums to no more than the whole.
pub proof fn total_prefix(s: Seq<nat>, n: int)
    requires
        0 <= n <= s.len(),
    ensures
        total(s.take(n)) <= total(s),
    decreases s.len(),
{
    if n == s.len() {
        assert(s.take(n) =~= s);
    } else {
        total_prefix(s.drop_last(), n);
        assert(s.drop_last().take(n) =~= s.take(n));
    }
}

/// Sums are monotone in every element.
pub proof fn total_monotone(a: Seq<nat>, b: Seq<nat>)
    requires
        a.len() == b.len(),
        forall|i: int| 0 <= i < a.len() ==> #[trigger] a[i] <= b[i],
    ensures
        total(a) <= total(b),
    decreases a.len(),
{
    if a.len() > 0 {
        assert forall|i: int| 0 <= i < a.len() - 1 implies #[trigger] a.drop_last()[i]
            <= b.drop_last()[i] by {
            assert(a[i] <= b[i]);
        }
        total_monotone(a.drop_last(), b.drop_last());
        assert(a[a.len() - 1] <= b[b.len() - 1]);
    }
}

/// Changing one element changes the sum by the difference.
pub proof fn total_update(s: Seq<nat>, i: int, v: nat)
    requires
        0 <= i < s.len(),
    ensures
        total(s.update(i, v)) + s[i] == total(s) + v,
    decreases s.len(),
{
    let t = s.update(i, v);
    if i == s.len() - 1 {
        assert(t.drop_last() =~= s.drop_last());
    } else {
        total_update(s.drop_last(), i, v);
        assert(t.drop_last() =~= s.drop_last().update(i, v));
    }
}

/// No element is larger than the largest.
pub proof fn largest_bounds(s: Seq<nat>, i: int)
    requires
        0 <= i < s.len(),
    ensures
        s[i] <= largest(s),
    decreases s.len(),
{
    if i < s.len() - 1 {
        largest_bounds(s.drop_last(), i);
        assert(s.drop_last()[i] == s[i]);
    }
}

/// The largest element of a non-empty sequence is one of its elements.
pub proof fn largest_attained(s: Seq<nat>) -> (i: int)
    requires
        s.len() > 0,
    ensures
        0 <= i < s.len(),
        s[i] == largest(s),
    decreases s.len(),
{
    if s.len() == 1 {
        assert(largest(s.drop_last()) == 0);
        0
    } else if largest(s.drop_last()) < s.last() {
        s.len() - 1
    } else {
        largest_attained(s.drop_last())
    }
}

/// The largest element is no more than the sum.
pub proof fn largest_within_total(s: Seq<nat>)
    ensures
        largest(s) <= total(s),
    decreases s.len(),
{
    if s.len() > 0 {
        largest_within_total(s.drop_last());
    }
}

/// The largest element of a prefix and of one more.
pub proof fn largest_next(s: Seq<nat>, i: int)
    requires
        0 <= i < s.len(),
    ensures
        largest(s.take(i + 1)) == if largest(s.take(i)) >= s[i] {
            largest(s.take(i))
        } else {
            s[i]
        },
{
    assert(s.take(i + 1).drop_last() =~= s.take(i));
}

/// Shares of `c` in proportion to the parts of a whole, rounded down, sum to
/// no more than `c`.
pub proof fn floor_shares(parts: Seq<nat>, c: nat, whole: nat)
    requires
        whole > 0,
        total(parts) <= whole,
    ensures
        total(parts.map_values(|p: nat| (p * c / whole) as nat)) <= c,
{
    floor_shares_scaled(parts, c, whole);
    let t = total(parts.map_values(|p: nat| (p * c / whole) as nat));
    let sum = total(parts);
    assert(t <= c) by (nonlinear_arith)
        requires
            t * whole <= sum * c,
            sum <= whole,
            whole > 0,
    ;
}

proof fn floor_shares_scaled(parts: Seq<nat>, c: nat, whole: nat)
    requires
        whole > 0,
    ensures
        total(parts.map_values(|p: nat| (p * c / whole) as nat)) * whole <= total(parts) * c,
    decreases parts.len(),
{
    let shares = parts.map_values(|p: nat| (p * c / whole) as nat);
    if parts.len() > 0 {
        floor_shares_scaled(parts.drop_last(), c, whole);
        assert(shares.drop_last() =~= parts.drop_last().map_values(
            |p: nat| (p * c / whole) as nat,
        ));
        let p = parts.last();
        let a = total(shares.drop_last());
        let b = total(parts.drop_last());
        let q = (p * c / whole) as nat;
        assert(q * whole <= p * c) by (nonlinear_arith)
            requires
                q == p * c / whole,
                whole > 0,
        ;
        assert((a + q) * whole == a * whole + q * whole) by (nonlinear_arith);
        assert((b + p) * c == b * c + p * c) by (nonlinear_arith);
    } else {
        assert(0 * whole == 0) by (nonlinear_arith);
        assert(0 * c == 0) by (nonlinear_arith);
    }
}

/// All values of a sequence of outcomes, or the first error in it.
pub open spec fn collect<T, E>(outcomes: Seq<Result<T, E>>) -> Result<Seq<T>, E>
    decreases outcomes.len(),
{
    if outcomes.len() == 0 {
        Ok(Seq::empty())
    } else {
        match collect(outcomes.drop_last()) {
            Err(e) => Err(e),
            Ok(values) => match outcomes.last() {
                Err(e) => Err(e),
                Ok(v) => Ok(values.push(v)),
            },
        }
    }
}

/// Collecting one more outcome.
pub proof fn collect_next<T, E>(outcomes: Seq<Result<T, E>>, i: int)
    requires
        0 <= i < outcomes.len(),
    ensures
        collect(outcomes.take(i + 1)) == match collect(outcomes.take(i)) {
            Err(e) => Err::<Seq<T>, E>(e),
            Ok(values) => match outcomes[i] {
                Err(e) => Err::<Seq<T>, E>(e),
                Ok(v) => Ok::<Seq<T>, E>(values.push(v)),
            },
        },
{
    assert(outcomes.take(i + 1).drop_last() =~= outcomes.take(i));
}

/// An error in a prefix is the error of the whole.
pub proof fn collect_prefix_error<T, E>(outcomes: Seq<Result<T, E>>, n: int)
    requires
        0 <= n <= outcomes.len(),
        collect(outcomes.take(n)) is Err,
    ensures
        collect(outcomes) == collect(outcomes.take(n)),
    decreases outcomes.len(),
{
    if n == outcomes.len() {
        assert(outcomes.take(n) =~= outcomes);
    } else {
        assert(outcomes.drop_last().take(n) =~= outcomes.take(n));
        collect_prefix_error(outcomes.drop_last(), n);
    }
}

/// Collected values are the outcomes' values, in order.
pub proof fn collect_values<T, E>(outcomes: Seq<Result<T, E>>)
    requires
        collect(outcomes) is Ok,
    ensures
        collect(outcomes)->Ok_0.len() == outcomes.len(),
        forall|i: int|
            0 <= i < outcomes.len() ==> #[trigger] outcomes[i] == Ok::<T, E>(
                collect(outcomes)->Ok_0[i],
            ),
    decreases outcomes.len(),
{
    if outcomes.len() > 0 {
        collect_values(outcomes.drop_last());
        let values = collect(outcomes)->Ok_0;
        assert forall|i: int| 0 <= i < outcomes.len() implies #[trigger] outcomes[i] == Ok::<T, E>(
            values[i],
        ) by {
            if i < outcomes.len() - 1 {
                assert(outcomes.drop_last()[i] == outcomes[i]);
            }
        }
    }
}

/// Where collecting fails, the error is that of some outcome.
pub proof fn collect_error<T, E>(outcomes: Seq<Result<T, E>>) -> (i: int)
    requires
        collect(outcomes) is Err,
    ensures
        0 <= i < outcomes.len(),
        outcomes[i] is Err,
        collect(outcomes)->Err_0 == outcomes[i]->Err_0,
        forall|j: int| 0 <= j < i ==> #[trigger] outcomes[j] is Ok,
    decreases outcomes.len(),
{
    if collect(outcomes.drop_last()) is Err {
        let i = collect_error(outcomes.drop_last());
        assert forall|j: int| 0 <= j < i implies #[trigger] outcomes[j] is Ok by {
            assert(outcomes.drop_last()[j] is Ok);
        }
        i
    } else {
        collect_values(outcomes.drop_last());
        assert forall|j: int| 0 <= j < outcomes.len() - 1 implies #[trigger] outcomes[j] is Ok by {
            assert(outcomes.drop_last()[j] is Ok);
        }
        outcomes.len() - 1
    }
}

} // verus!
