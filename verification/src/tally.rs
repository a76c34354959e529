//! Amounts posted under keys, and the totals of each key.

use vstd::prelude::*;

use crate::keyed::KeyedMap;
use crate::order::{sorted, sorted_lists, OrdKey};
use crate::sums::{
    largest, largest_attained, largest_bounds, largest_next, total, total_next, total_prefix,
    total_update,
};
use crate::types::PoiwError;

verus! {

/// The sum of the amounts posted under `key`.
pub open spec fn total_for<K>(posts: Seq<(K, nat)>, key: K) -> nat
    decreases posts.len(),
{
    if posts.len() == 0 {
        0
    } else {
        total_for(posts.drop_last(), key) + if posts.last().0 == key {
            posts.last().1
        } else {
            0
        }
    }
}

/// The sum of all posted amounts.
pub open spec fn post_total<K>(posts: Seq<(K, nat)>) -> nat {
    total(posts.map_values(|p: (K, nat)| p.1))
}

/// The keys under which something is posted.
pub open spec fn post_keys<K>(posts: Seq<(K, nat)>) -> Set<K> {
    posts.map_values(|p: (K, nat)| p.0).to_set()
}

/// The largest total of any key.
pub open spec fn top_total<K>(posts: Seq<(K, nat)>) -> nat {
    largest(posts.map_values(|p: (K, nat)| total_for(posts, p.0)))
}

/// Some key's total does not fit in 128 bits.
pub open spec fn tally_overflows<K>(posts: Seq<(K, nat)>) -> bool {
    exists|k: K| #[trigger] total_for(posts, k) > u128::MAX
}

/// The totals of all keys.
pub open spec fn tally_map<K>(posts: Seq<(K, nat)>) -> Map<K, u128> {
    Map::new(|k: K| post_keys(posts).contains(k), |k: K| total_for(posts, k) as u128)
}

/// `map` holds the exact total of every key.
pub open spec fn tallies<K>(map: Map<K, u128>, posts: Seq<(K, nat)>) -> bool {
    &&& map.dom() =~= post_keys(posts)
    &&& forall|k: K| #[trigger] map.dom().contains(k) ==> map[k] == total_for(posts, k)
}

/// What a map holds under a key, or zero.
pub open spec fn value_or_zero<K>(map: Map<K, u128>, key: K) -> nat {
    if map.dom().contains(key) {
        map[key] as nat
    } else {
        0
    }
}

/// Adds an amount to the total of a key.
pub fn tally_add<K: OrdKey>(map: &mut KeyedMap<K, u128>, key: K, amount: u128) -> (r: Result<
    (),
    PoiwError,
>)
    ensures
        r is Ok ==> value_or_zero(old(map)@, key@) + amount <= u128::MAX && final(map)@ == old(
            map,
        )@.insert(key@, (value_or_zero(old(map)@, key@) + amount) as u128),
        r matches Err(e) ==> e == PoiwError::Overflow && value_or_zero(old(map)@, key@) + amount
            > u128::MAX && final(map)@ == old(map)@,
{
    let current: u128 = match map.get(&key) {
        Some(value) => *value,
        None => 0,
    };
    match current.checked_add(amount) {
        Some(sum) => {
            map.insert(key, sum);
            Ok(())
        },
        None => Err(PoiwError::Overflow),
    }
}

/// The keys of posts with one more.
pub proof fn post_keys_push<K>(posts: Seq<(K, nat)>, key: K, amount: nat)
    ensures
        post_keys(posts.push((key, amount))) == post_keys(posts).insert(key),
        post_keys(posts).finite(),
{
    let keys = posts.map_values(|p: (K, nat)| p.0);
    let more = posts.push((key, amount));
    let more_keys = more.map_values(|p: (K, nat)| p.0);
    assert(more_keys =~= keys.push(key));
    assert forall|x: K| #[trigger] post_keys(more).contains(x) == post_keys(posts).insert(
        key,
    ).contains(x) by {
        if keys.contains(x) {
            let i = keys.index_of(x);
            assert(more_keys[i] == x);
        }
        if more_keys.contains(x) {
            let i = more_keys.index_of(x);
            if i < keys.len() {
                assert(keys[i] == x);
            }
        }
        assert(more_keys[keys.len() as int] == key);
    }
    assert(post_keys(more) =~= post_keys(posts).insert(key));
    vstd::seq_lib::seq_to_set_is_finite(keys);
}

/// A key with nothing posted under it has no total.
pub proof fn no_posts_no_total<K>(posts: Seq<(K, nat)>, key: K)
    requires
        !post_keys(posts).contains(key),
    ensures
        total_for(posts, key) == 0,
    decreases posts.len(),
{
    if posts.len() > 0 {
        let rest = posts.drop_last();
        assert(posts =~= rest.push((posts.last().0, posts.last().1)));
        post_keys_push(rest, posts.last().0, posts.last().1);
        no_posts_no_total(rest, key);
    }
}

/// A tally stays exact when an amount is posted and added.
pub proof fn tally_step<K>(map: Map<K, u128>, posts: Seq<(K, nat)>, key: K, amount: nat)
    requires
        tallies(map, posts),
    ensures
        value_or_zero(map, key) + amount == total_for(posts.push((key, amount)), key),
        value_or_zero(map, key) + amount <= u128::MAX ==> tallies(
            map.insert(key, (value_or_zero(map, key) + amount) as u128),
            posts.push((key, amount)),
        ),
{
    let more = posts.push((key, amount));
    assert(more.drop_last() =~= posts);
    post_keys_push(posts, key, amount);
    if !map.dom().contains(key) {
        no_posts_no_total(posts, key);
    }
    if value_or_zero(map, key) + amount <= u128::MAX {
        let after = map.insert(key, (value_or_zero(map, key) + amount) as u128);
        assert forall|k: K| #[trigger] after.dom().contains(k) implies after[k] == total_for(
            more,
            k,
        ) by {
            if k != key {
                assert(map.dom().contains(k));
            }
        }
    }
}

/// A key's total over a prefix is no more than over the whole.
pub proof fn total_for_prefix<K>(posts: Seq<(K, nat)>, n: int, key: K)
    requires
        0 <= n <= posts.len(),
    ensures
        total_for(posts.take(n), key) <= total_for(posts, key),
    decreases posts.len(),
{
    if n == posts.len() {
        assert(posts.take(n) =~= posts);
    } else {
        assert(posts.drop_last().take(n) =~= posts.take(n));
        total_for_prefix(posts.drop_last(), n, key);
    }
}

/// No key's total exceeds the total of all posts.
pub proof fn total_for_within<K>(posts: Seq<(K, nat)>, key: K)
    ensures
        total_for(posts, key) <= post_total(posts),
    decreases posts.len(),
{
    let amounts = posts.map_values(|p: (K, nat)| p.1);
    if posts.len() > 0 {
        total_for_within(posts.drop_last(), key);
        assert(amounts.drop_last() =~= posts.drop_last().map_values(|p: (K, nat)| p.1));
    }
}

/// A map whose totals are exact is the map of totals.
pub proof fn tally_is_map<K>(map: Map<K, u128>, posts: Seq<(K, nat)>)
    requires
        tallies(map, posts),
    ensures
        map == tally_map(posts),
        !tally_overflows(posts),
{
    assert forall|k: K| #[trigger] total_for(posts, k) <= u128::MAX by {
        if map.dom().contains(k) {
        } else {
            no_posts_no_total(posts, k);
        }
    }
    assert(map =~= tally_map(posts));
}

/// The values of `map` at the listed keys.
pub open spec fn values_at<K>(map: Map<K, u128>, keys: Seq<K>) -> Seq<nat> {
    keys.map_values(|k: K| map[k] as nat)
}

/// The sum of a map's values.
pub open spec fn map_total<K: OrdKey>(map: Map<K::V, u128>) -> nat {
    total(values_at(map, sorted::<K>(map.dom())))
}

/// The largest of a map's values.
pub open spec fn map_top<K: OrdKey>(map: Map<K::V, u128>) -> nat {
    largest(values_at(map, sorted::<K>(map.dom())))
}

/// The totals of distinct keys that cover all posts sum to the total posted.
pub proof fn totals_sum<K>(posts: Seq<(K, nat)>, keys: Seq<K>)
    requires
        keys.no_duplicates(),
        forall|i: int| 0 <= i < posts.len() ==> keys.contains((#[trigger] posts[i]).0),
    ensures
        total(keys.map_values(|k: K| total_for(posts, k))) == post_total(posts),
    decreases posts.len(),
{
    let sums = keys.map_values(|k: K| total_for(posts, k));
    let amounts = posts.map_values(|p: (K, nat)| p.1);
    if posts.len() == 0 {
        assert forall|i: int| 0 <= i < sums.len() implies #[trigger] sums[i] == 0 by {}
        zero_total(sums);
    } else {
        let rest = posts.drop_last();
        let rest_sums = keys.map_values(|k: K| total_for(rest, k));
        assert forall|i: int| 0 <= i < rest.len() implies keys.contains((#[trigger] rest[i]).0) by {
            assert(posts[i] == rest[i]);
        }
        totals_sum(rest, keys);
        let last = posts[posts.len() - 1];
        assert(keys.contains(last.0));
        let at = keys.index_of(last.0);
        let v = (rest_sums[at] + last.1) as nat;
        assert(sums =~= rest_sums.update(at, v)) by {
            assert forall|i: int| 0 <= i < sums.len() implies #[trigger] sums[i]
                == rest_sums.update(at, v)[i] by {
                if i != at {
                    assert(keys[i] != keys[at]);
                }
            }
        }
        total_update(rest_sums, at, v);
        assert(amounts.drop_last() =~= rest.map_values(|p: (K, nat)| p.1));
    }
}

/// Zeros sum to zero.
pub proof fn zero_total(s: Seq<nat>)
    requires
        forall|i: int| 0 <= i < s.len() ==> #[trigger] s[i] == 0,
    ensures
        total(s) == 0,
    decreases s.len(),
{
    if s.len() > 0 {
        assert forall|i: int| 0 <= i < s.len() - 1 implies #[trigger] s.drop_last()[i] == 0 by {
            assert(s[i] == 0);
        }
        zero_total(s.drop_last());
        assert(s[s.len() - 1] == 0);
    }
}

/// The total and the largest value of an exact tally are those of its posts.
pub proof fn tally_measures<K: OrdKey>(map: Map<K::V, u128>, posts: Seq<(K::V, nat)>)
    requires
        tallies(map, posts),
    ensures
        map_total::<K>(map) == post_total(posts),
        map_top::<K>(map) == top_total(posts),
{
    let set = post_keys(posts);
    let keys = sorted::<K>(set);
    assert(map.dom() == set);
    vstd::seq_lib::seq_to_set_is_finite(posts.map_values(|p: (K::V, nat)| p.0));
    sorted_lists::<K>(set);
    let held = values_at(map, keys);
    let sums = keys.map_values(|k: K::V| total_for(posts, k));
    assert forall|i: int| 0 <= i < keys.len() implies #[trigger] held[i] == sums[i] by {
        assert(keys.to_set().contains(keys[i]));
        assert(map.dom().contains(keys[i]));
    }
    assert(held =~= sums);
    let post_key = posts.map_values(|p: (K::V, nat)| p.0);
    assert forall|i: int| 0 <= i < posts.len() implies keys.contains((#[trigger] posts[i]).0) by {
        assert(post_key[i] == posts[i].0);
        assert(set.contains(posts[i].0));
        assert(keys.to_set().contains(posts[i].0));
    }
    totals_sum(posts, keys);
    let tops = posts.map_values(|p: (K::V, nat)| total_for(posts, p.0));
    if posts.len() > 0 {
        let i = largest_attained(tops);
        assert(keys.contains(posts[i].0));
        let j = keys.index_of(posts[i].0);
        largest_bounds(sums, j);
        let a = largest_attained(sums);
        assert(keys.to_set().contains(keys[a]));
        assert(post_key.contains(keys[a]));
        let b = post_key.index_of(keys[a]);
        assert(posts[b].0 == keys[a]);
        assert(tops[b] == sums[a]);
        largest_bounds(tops, b);
    } else {
        if keys.len() > 0 {
            assert(keys.to_set().contains(keys[0]));
            assert(post_key.contains(keys[0]));
        }
        assert(tops =~= Seq::<nat>::empty());
        assert(sums =~= Seq::<nat>::empty());
    }
}

/// The sum and the largest of the values of a map, or overflow.
pub fn sum_values<K: OrdKey>(map: &KeyedMap<K, u128>) -> (r: Result<(u128, u128), PoiwError>)
    ensures
        r matches Ok(v) ==> v.0 == map_total::<K>(map@) && v.1 == map_top::<K>(map@),
        r matches Err(e) ==> e == PoiwError::Overflow && map_total::<K>(map@) > u128::MAX,
{
    let count: usize = map.len();
    let ghost values = values_at(map@, map.keys());
    let mut sum: u128 = 0;
    let mut top: u128 = 0;
    let mut i: usize = 0;
    assert(values.take(0) =~= Seq::<nat>::empty());
    while i < count
        invariant
            i <= count,
            count == map.keys().len(),
            values == values_at(map@, map.keys()),
            sum == total(values.take(i as int)),
            top == largest(values.take(i as int)),
        decreases count - i,
    {
        let value: u128 = *map.value_at(i);
        proof {
            total_next(values, i as int);
            largest_next(values, i as int);
            total_prefix(values, i + 1);
        }
        sum = match sum.checked_add(value) {
            Some(s) => s,
            None => {
                return Err(PoiwError::Overflow);
            },
        };
        if value > top {
            top = value;
        }
        i = i + 1;
    }
    assert(values.take(i as int) =~= values);
    Ok((sum, top))
}

/// The map of totals has finitely many keys.
pub proof fn tally_map_is_finite<K>(posts: Seq<(K, nat)>)
    ensures
        tally_map(posts).dom() == post_keys(posts),
        tally_map(posts).dom().finite(),
{
    vstd::seq_lib::seq_to_set_is_finite(posts.map_values(|p: (K, nat)| p.0));
    assert(tally_map(posts).dom() =~= post_keys(posts));
}

} // verus!
