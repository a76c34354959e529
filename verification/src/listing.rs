//! Maps keyed by sequence numbers, walked in ascending order.

use std::collections::BTreeMap;

use vstd::prelude::*;

verus! {

/// Numbers in strictly ascending order.
pub open spec fn is_ascending(keys: Seq<u64>) -> bool {
    forall|i: int, j: int| 0 <= i < j < keys.len() ==> #[trigger] keys[i] < #[trigger] keys[j]
}

/// `keys` lists exactly the members of `set`, in ascending order.
pub open spec fn lists_numbers(keys: Seq<u64>, set: Set<u64>) -> bool {
    is_ascending(keys) && keys.to_set() =~= set
}

/// The members of a finite set of numbers in ascending order.
pub open spec fn ascending_numbers(set: Set<u64>) -> Seq<u64> {
    choose|keys: Seq<u64>| lists_numbers(keys, set)
}

/// Puts a number in its place in an ascending list.
fn place(list: &mut Vec<u64>, key: u64)
    requires
        is_ascending(old(list)@),
    ensures
        is_ascending(final(list)@),
        final(list)@.to_set() == old(list)@.to_set().insert(key),
{
    let ghost before = list@;
    let mut at: usize = list.len();
    while at > 0 && list[at - 1] > key
        invariant
            at <= list@.len(),
            list@ == before,
            is_ascending(before),
            forall|j: int| at <= j < before.len() ==> #[trigger] before[j] > key,
        decreases at,
    {
        at = at - 1;
    }
    if at > 0 && list[at - 1] == key {
        assert(before.to_set().contains(before[at - 1]));
        assert(before.to_set() =~= before.to_set().insert(key));
        return ;
    }
    list.insert(at, key);
    proof {
        let after = before.insert(at as int, key);
        assert forall|i: int, j: int| 0 <= i < j < after.len() implies #[trigger] after[i]
            < #[trigger] after[j] by {
            if i < at {
                assert(before[i] <= before[at - 1]);
            }
        }
        assert forall|k: u64| #[trigger] after.to_set().contains(k) == before.to_set().insert(
            key,
        ).contains(k) by {
            if before.contains(k) {
                let i = before.index_of(k);
                if i < at {
                    assert(after[i] == k);
                } else {
                    assert(after[i + 1] == k);
                }
            }
            if after.contains(k) && k != key {
                let i = after.index_of(k);
                if i < at {
                    assert(before[i] == k);
                } else {
                    assert(before[i - 1] == k);
                }
            }
            assert(after[at as int] == key);
        }
        assert(after.to_set() =~= before.to_set().insert(key));
    }
}

/// The keys of a map, ascending.
pub fn ascending_keys<V>(map: &BTreeMap<u64, V>) -> (r: Vec<u64>)
    ensures
        lists_numbers(r@, map@.dom()),
        r@ == ascending_numbers(map@.dom()),
{
    broadcast use vstd::std_specs::btree::group_btree_axioms;

    let mut out: Vec<u64> = Vec::new();
    let ghost mut seen = Seq::<u64>::empty();
    assert(out@.to_set() =~= seen.to_set());
    let keys = map.keys();
    let ghost all = vstd::std_specs::iter::IteratorSpec::remaining(&keys).unref();
    for k in it: keys
        invariant
            it.seq().unref() == all,
            all.to_set() == map@.dom(),
            seen == all.take(it.index() as int),
            is_ascending(out@),
            out@.to_set() == seen.to_set(),
    {
        place(&mut out, *k);
        proof {
            let more = seen.push(*k);
            assert(more =~= all.take(it.index() as int + 1));
            assert forall|x: u64| #[trigger] more.to_set().contains(x) == seen.to_set().insert(
                *k,
            ).contains(x) by {
                if seen.contains(x) {
                    let i = seen.index_of(x);
                    assert(more[i] == x);
                }
                if more.contains(x) {
                    let i = more.index_of(x);
                    if i < seen.len() {
                        assert(seen[i] == x);
                    }
                }
                assert(more[seen.len() as int] == *k);
            }
            assert(more.to_set() =~= seen.to_set().insert(*k));
            seen = more;
        }
    }
    proof {
        assert(seen =~= all);
        assert(out@.to_set() =~= map@.dom());
        listing_of_numbers(out@, map@.dom());
    }
    out
}

/// A set has only one ascending listing.
pub proof fn listing_of_numbers(keys: Seq<u64>, set: Set<u64>)
    requires
        lists_numbers(keys, set),
    ensures
        keys == ascending_numbers(set),
{
    same_numbers(keys, ascending_numbers(set), set);
}

proof fn same_numbers(a: Seq<u64>, b: Seq<u64>, set: Set<u64>)
    requires
        lists_numbers(a, set),
        lists_numbers(b, set),
    ensures
        a == b,
    decreases a.len(),
{
    if a.len() == 0 {
        if b.len() > 0 {
            assert(b.to_set().contains(b[0]));
            assert(a.to_set().contains(b[0]));
        }
        assert(a =~= b);
    } else {
        assert(a.to_set().contains(a.last()));
        assert(b.contains(a.last()));
        assert(b.to_set().contains(b.last()));
        assert(a.contains(b.last()));
        let i = a.index_of(b.last());
        let j = b.index_of(a.last());
        assert(a[i] <= a[a.len() - 1]);
        assert(b[j] <= b[b.len() - 1]);
        let rest = set.remove(a.last());
        without_last(a, set);
        without_last(b, set);
        same_numbers(a.drop_last(), b.drop_last(), rest);
        assert(a =~= a.drop_last().push(a.last()));
        assert(b =~= b.drop_last().push(b.last()));
    }
}

proof fn without_last(keys: Seq<u64>, set: Set<u64>)
    requires
        keys.len() > 0,
        lists_numbers(keys, set),
    ensures
        lists_numbers(keys.drop_last(), set.remove(keys.last())),
{
    let rest = keys.drop_last();
    assert forall|k: u64| #[trigger] rest.to_set().contains(k) == set.remove(
        keys.last(),
    ).contains(k) by {
        if rest.contains(k) {
            let i = rest.index_of(k);
            assert(keys[i] == k);
            assert(keys.to_set().contains(k));
            assert(keys[i] < keys[keys.len() - 1]);
        }
        if set.contains(k) && k != keys.last() {
            assert(keys.to_set().contains(k));
            let i = keys.index_of(k);
            assert(rest[i] == k);
        }
    }
    assert(rest.to_set() =~= set.remove(keys.last()));
}

/// Where a number that is not among them belongs among ascending numbers.
proof fn number_place(keys: Seq<u64>, key: u64) -> (p: int)
    requires
        is_ascending(keys),
        !keys.contains(key),
    ensures
        0 <= p <= keys.len(),
        forall|j: int| 0 <= j < p ==> #[trigger] keys[j] < key,
        forall|j: int| p <= j < keys.len() ==> key < #[trigger] keys[j],
    decreases keys.len(),
{
    if keys.len() == 0 {
        0
    } else {
        let last = keys.len() - 1;
        let rest = keys.drop_last();
        assert(keys.contains(keys[last]));
        if keys[last] < key {
            assert forall|j: int| 0 <= j < keys.len() implies #[trigger] keys[j] < key by {
                if j < last {
                    assert(keys[j] < keys[last]);
                }
            }
            keys.len() as int
        } else {
            assert forall|j: int| 0 <= j < rest.len() implies rest[j] != key by {
                assert(keys.contains(keys[j]));
            }
            let p = number_place(rest, key);
            assert forall|j: int| 0 <= j < p implies #[trigger] keys[j] < key by {
                assert(rest[j] == keys[j]);
            }
            assert forall|j: int| p <= j < keys.len() implies key < #[trigger] keys[j] by {
                if j < last {
                    assert(rest[j] == keys[j]);
                }
            }
            p
        }
    }
}

/// Every finite set of numbers has an ascending listing.
pub proof fn numbers_are_listed(set: Set<u64>)
    requires
        set.finite(),
    ensures
        lists_numbers(ascending_numbers(set), set),
    decreases set.len(),
{
    if set.len() == 0 {
        assert(set =~= Set::empty());
        assert(lists_numbers(Seq::<u64>::empty(), set));
    } else {
        let a = set.choose();
        let rest = set.remove(a);
        numbers_are_listed(rest);
        let keys = ascending_numbers(rest);
        assert(!keys.contains(a)) by {
            if keys.contains(a) {
                assert(keys.to_set().contains(a));
            }
        }
        let p = number_place(keys, a);
        let more = keys.insert(p, a);
        assert forall|i: int, j: int| 0 <= i < j < more.len() implies #[trigger] more[i]
            < #[trigger] more[j] by {
            let i0 = if i < p {
                i
            } else {
                i - 1
            };
            let j0 = if j < p {
                j
            } else {
                j - 1
            };
            if i != p && j != p {
                assert(keys[i0] < keys[j0]);
            } else if i == p {
                assert(a < keys[j0]);
            } else {
                assert(keys[i0] < a);
            }
        }
        assert forall|x: u64| #[trigger] more.to_set().contains(x) == set.contains(x) by {
            if more.contains(x) {
                let i = more.index_of(x);
                if i < p {
                    assert(keys[i] == x);
                    assert(keys.to_set().contains(x));
                } else if i > p {
                    assert(keys[i - 1] == x);
                    assert(keys.to_set().contains(x));
                }
            }
            if set.contains(x) && x != a {
                assert(keys.to_set().contains(x));
                let i = keys.index_of(x);
                if i < p {
                    assert(more[i] == x);
                } else {
                    assert(more[i + 1] == x);
                }
            }
            assert(more[p] == a);
        }
        assert(lists_numbers(more, set));
    }
}

} // verus!
