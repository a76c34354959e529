//! A map kept in ascending key order.

use vstd::prelude::*;

use crate::order::{
    ascending, ascending_distinct, key_before, lex_irreflexive, lex_total, lex_transitive,
    listing_is_sorted, lists, sorted, sorted_lists, KeyOrder, OrdKey,
};

verus! {

/// A map from ordered keys to values, walked in ascending key order.
#[derive(Debug, PartialEq, Eq)]
pub struct KeyedMap<K: OrdKey, V> {
    entries: Vec<(K, V)>,
}

/// The keys of a list of entries.
pub closed spec fn entry_keys<K: OrdKey, V>(entries: Seq<(K, V)>) -> Seq<K::V> {
    Seq::new(entries.len(), |i: int| entries[i].0@)
}

/// The map that a list of entries with distinct keys stands for.
pub closed spec fn entry_map<K: OrdKey, V>(entries: Seq<(K, V)>) -> Map<K::V, V> {
    Map::new(
        |k: K::V| entry_keys(entries).contains(k),
        |k: K::V| entries[entry_keys(entries).index_of(k)].1,
    )
}

impl<K: OrdKey, V> View for KeyedMap<K, V> {
    type V = Map<K::V, V>;

    closed spec fn view(&self) -> Map<K::V, V> {
        entry_map(self.entries@)
    }
}

impl<K: OrdKey, V> Default for KeyedMap<K, V> {
    fn default() -> (r: Self)
        ensures
            r@ == Map::<K::V, V>::empty(),
    {
        KeyedMap::new()
    }
}

impl<K: OrdKey, V> KeyedMap<K, V> {
    /// The keys, ascending.
    pub open spec fn keys(&self) -> Seq<K::V> {
        sorted::<K>(self@.dom())
    }

    #[verifier::type_invariant]
    spec fn well_formed(self) -> bool {
        ascending::<K>(entry_keys(self.entries@))
    }

    /// The empty map.
    pub fn new() -> (r: Self)
        ensures
            r@ == Map::<K::V, V>::empty(),
    {
        let r = KeyedMap { entries: Vec::new() };
        assert(r@ =~= Map::<K::V, V>::empty());
        r
    }

    /// The number of entries.
    pub fn len(&self) -> (r: usize)
        ensures
            r == self.keys().len(),
            r == self@.dom().len(),
            self@.dom().finite(),
            lists::<K>(self.keys(), self@.dom()),
    {
        proof {
            use_type_invariant(self);
            keys_listed(self.entries@);
            ascending_distinct::<K>(entry_keys(self.entries@));
            entry_keys(self.entries@).unique_seq_to_set();
        }
        self.entries.len()
    }

    /// The `i`-th key in ascending order.
    pub fn key_at(&self, i: usize) -> (r: &K)
        requires
            i < self.keys().len(),
        ensures
            r@ == self.keys()[i as int],
            self@.dom().contains(r@),
    {
        proof {
            use_type_invariant(self);
            keys_listed(self.entries@);
            assert(entry_keys(self.entries@).contains(entry_keys(self.entries@)[i as int]));
        }
        &self.entries[i].0
    }

    /// The value under the `i`-th key in ascending order.
    pub fn value_at(&self, i: usize) -> (r: &V)
        requires
            i < self.keys().len(),
        ensures
            *r == self@[self.keys()[i as int]],
    {
        proof {
            use_type_invariant(self);
            keys_listed(self.entries@);
            entry_found(self.entries@, i as int);
        }
        &self.entries[i].1
    }

    /// The entries under the first `n` keys.
    pub open spec fn first_entries(&self, n: int) -> Map<K::V, V> {
        self@.restrict(self.keys().take(n).to_set())
    }

    /// The position of `key`, or the position at which it belongs.
    fn locate(&self, key: &K) -> (r: (bool, usize))
        ensures
            r.1 <= self.entries@.len(),
            r.0 ==> r.1 < self.entries@.len() && self.entries@[r.1 as int].0@ == key@,
            r.0 == self@.dom().contains(key@),
            forall|j: int|
                0 <= j < r.1 ==> key_before::<K>(#[trigger] self.entries@[j].0@, key@),
            !r.0 ==> forall|j: int|
                r.1 <= j < self.entries@.len() ==> key_before::<K>(
                    key@,
                    #[trigger] self.entries@[j].0@,
                ),
    {
        proof {
            use_type_invariant(self);
        }
        let ghost keys = entry_keys(self.entries@);
        let mut low: usize = 0;
        let mut high: usize = self.entries.len();
        while low < high
            invariant
                low <= high <= self.entries@.len(),
                keys == entry_keys(self.entries@),
                ascending::<K>(keys),
                forall|j: int|
                    0 <= j < low ==> key_before::<K>(#[trigger] self.entries@[j].0@, key@),
                forall|j: int|
                    high <= j < self.entries@.len() ==> key_before::<K>(
                        key@,
                        #[trigger] self.entries@[j].0@,
                    ),
            decreases high - low,
        {
            let middle: usize = low + (high - low) / 2;
            match key.compare(&self.entries[middle].0) {
                KeyOrder::Before => {
                    proof {
                        assert forall|j: int|
                            middle <= j < self.entries@.len() implies key_before::<K>(
                            key@,
                            #[trigger] self.entries@[j].0@,
                        ) by {
                            if j > middle {
                                assert(key_before::<K>(keys[middle as int], keys[j]));
                                lex_transitive(
                                    K::rank(key@),
                                    K::rank(keys[middle as int]),
                                    K::rank(keys[j]),
                                );
                            }
                        }
                    }
                    high = middle;
                },
                KeyOrder::Same => {
                    proof {
                        K::rank_injective(key@, self.entries@[middle as int].0@);
                        assert(keys[middle as int] == key@);
                        assert forall|j: int| 0 <= j < middle implies key_before::<K>(
                            #[trigger] self.entries@[j].0@,
                            key@,
                        ) by {
                            assert(key_before::<K>(keys[j], keys[middle as int]));
                        }
                    }
                    return (true, middle);
                },
                KeyOrder::After => {
                    proof {
                        lex_total(K::rank(key@), K::rank(keys[middle as int]));
                        assert forall|j: int| 0 <= j <= middle implies key_before::<K>(
                            #[trigger] self.entries@[j].0@,
                            key@,
                        ) by {
                            if j < middle {
                                assert(key_before::<K>(keys[j], keys[middle as int]));
                                lex_transitive(
                                    K::rank(keys[j]),
                                    K::rank(keys[middle as int]),
                                    K::rank(key@),
                                );
                            }
                        }
                    }
                    low = middle + 1;
                },
            }
        }
        proof {
            absent(self.entries@, low as int, key@);
        }
        (false, low)
    }

    /// The value under `key`.
    pub fn get(&self, key: &K) -> (r: Option<&V>)
        ensures
            r == (if self@.dom().contains(key@) {
                Some(&self@[key@])
            } else {
                None::<&V>
            }),
    {
        let (found, i) = self.locate(key);
        if found {
            proof {
                use_type_invariant(self);
                entry_found(self.entries@, i as int);
            }
            Some(&self.entries[i].1)
        } else {
            None
        }
    }

    /// Puts `value` under `key`, replacing what was there.
    pub fn insert(&mut self, key: K, value: V)
        ensures
            final(self)@ == old(self)@.insert(key@, value),
    {
        let (found, i) = self.locate(&key);
        proof {
            use_type_invariant(&*self);
        }
        let ghost before = self.entries@;
        let mut entries: Vec<(K, V)> = Vec::new();
        std::mem::swap(&mut entries, &mut self.entries);
        if found {
            entries.set(i, (key, value));
            proof {
                assert(entry_keys(entries@) =~= entry_keys(before));
                set_map(before, entries@, i as int, key@, value);
            }
        } else {
            entries.insert(i, (key, value));
            proof {
                insert_map(before, entries@, i as int, key@, value);
            }
        }
        self.entries = entries;
    }

    /// Takes the entry of `key` out.
    pub fn remove(&mut self, key: &K) -> (r: Option<V>)
        ensures
            final(self)@ == old(self)@.remove(key@),
            r == (if old(self)@.dom().contains(key@) {
                Some(old(self)@[key@])
            } else {
                None::<V>
            }),
    {
        let (found, i) = self.locate(key);
        proof {
            use_type_invariant(&*self);
        }
        if !found {
            assert(self@.remove(key@) =~= self@);
            return None;
        }
        let ghost before = self.entries@;
        let mut entries: Vec<(K, V)> = Vec::new();
        std::mem::swap(&mut entries, &mut self.entries);
        let (_, value) = entries.remove(i);
        proof {
            entry_found(before, i as int);
            remove_map(before, entries@, i as int);
        }
        self.entries = entries;
        Some(value)
    }
}

/// Keys that all stand before or all after `k` on their side do not hold it.
proof fn absent<K: OrdKey, V>(entries: Seq<(K, V)>, at: int, k: K::V)
    requires
        0 <= at <= entries.len(),
        forall|j: int| 0 <= j < at ==> key_before::<K>(#[trigger] entries[j].0@, k),
        forall|j: int| at <= j < entries.len() ==> key_before::<K>(k, #[trigger] entries[j].0@),
    ensures
        !entry_keys(entries).contains(k),
{
    if entry_keys(entries).contains(k) {
        let j = choose|j: int| 0 <= j < entries.len() && entry_keys(entries)[j] == k;
        assert(entries[j].0@ == k);
        lex_irreflexive(K::rank(k));
    }
}

/// The entry at `i` is what the map holds under its key.
proof fn entry_found<K: OrdKey, V>(entries: Seq<(K, V)>, i: int)
    requires
        ascending::<K>(entry_keys(entries)),
        0 <= i < entries.len(),
    ensures
        entry_map(entries).dom().contains(entries[i].0@),
        entry_map(entries)[entries[i].0@] == entries[i].1,
{
    let keys = entry_keys(entries);
    ascending_distinct::<K>(keys);
    assert(keys[i] == entries[i].0@);
    assert(keys.contains(keys[i]));
    assert(keys.index_of(keys[i]) == i);
}

/// The keys of ascending entries are the listing of the map's domain.
proof fn keys_listed<K: OrdKey, V>(entries: Seq<(K, V)>)
    requires
        ascending::<K>(entry_keys(entries)),
    ensures
        lists::<K>(entry_keys(entries), entry_map(entries).dom()),
        entry_keys(entries) == sorted::<K>(entry_map(entries).dom()),
        entry_keys(entries).to_set() == entry_map(entries).dom(),
{
    assert(entry_keys(entries).to_set() =~= entry_map(entries).dom());
    listing_is_sorted::<K>(entry_keys(entries), entry_map(entries).dom());
}

proof fn set_map<K: OrdKey, V>(
    before: Seq<(K, V)>,
    after: Seq<(K, V)>,
    i: int,
    k: K::V,
    value: V,
)
    requires
        ascending::<K>(entry_keys(before)),
        0 <= i < before.len(),
        before[i].0@ == k,
        after.len() == before.len(),
        after[i].0@ == k,
        after[i].1 == value,
        forall|j: int| 0 <= j < before.len() && j != i ==> after[j] == before[j],
        entry_keys(after) == entry_keys(before),
    ensures
        entry_map(after) == entry_map(before).insert(k, value),
{
    let keys = entry_keys(before);
    ascending_distinct::<K>(keys);
    entry_found(after, i);
    assert forall|x: K::V| #[trigger] keys.contains(x) && x != k implies entry_map(after)[x]
        == entry_map(before)[x] by {
        let j = keys.index_of(x);
        assert(keys[j] == x);
        entry_found(after, j);
        entry_found(before, j);
    }
    assert(entry_map(after) =~= entry_map(before).insert(k, value));
}

proof fn insert_map<K: OrdKey, V>(
    before: Seq<(K, V)>,
    after: Seq<(K, V)>,
    i: int,
    k: K::V,
    value: V,
)
    requires
        ascending::<K>(entry_keys(before)),
        0 <= i <= before.len(),
        after.len() == before.len() + 1,
        after[i].0@ == k,
        after[i].1 == value,
        forall|j: int| 0 <= j < i ==> after[j] == before[j],
        forall|j: int| i < j < after.len() ==> after[j] == before[j - 1],
        forall|j: int| 0 <= j < i ==> key_before::<K>(#[trigger] before[j].0@, k),
        forall|j: int| i <= j < before.len() ==> key_before::<K>(k, #[trigger] before[j].0@),
    ensures
        ascending::<K>(entry_keys(after)),
        entry_map(after) == entry_map(before).insert(k, value),
{
    let kb = entry_keys(before);
    let ka = entry_keys(after);
    assert forall|a: int, b: int| 0 <= a < b < ka.len() implies key_before::<K>(
        #[trigger] ka[a],
        #[trigger] ka[b],
    ) by {
        let a0 = if a < i {
            a
        } else {
            a - 1
        };
        let b0 = if b < i {
            b
        } else {
            b - 1
        };
        if a != i && b != i {
            assert(key_before::<K>(kb[a0], kb[b0]));
        } else if a == i {
            assert(key_before::<K>(k, before[b0].0@));
        } else {
            assert(key_before::<K>(before[a0].0@, k));
        }
    }
    assert forall|x: K::V| #[trigger] ka.contains(x) == (kb.contains(x) || x == k) by {
        if ka.contains(x) {
            let j = ka.index_of(x);
            if j < i {
                assert(kb[j] == x);
            } else if j > i {
                assert(kb[j - 1] == x);
            }
        }
        if kb.contains(x) {
            let j = kb.index_of(x);
            if j < i {
                assert(ka[j] == x);
            } else {
                assert(ka[j + 1] == x);
            }
        }
        assert(ka[i] == k);
    }
    assert forall|x: K::V| #[trigger] ka.contains(x) implies entry_map(after)[x] == entry_map(
        before,
    ).insert(k, value)[x] by {
        let j = ka.index_of(x);
        assert(ka[j] == x);
        entry_found(after, j);
        if j < i {
            entry_found(before, j);
            assert(key_before::<K>(before[j].0@, k));
            lex_irreflexive(K::rank(k));
        } else if j > i {
            entry_found(before, j - 1);
            assert(key_before::<K>(k, before[j - 1].0@));
            lex_irreflexive(K::rank(k));
        }
    }
    assert(entry_map(after) =~= entry_map(before).insert(k, value));
}

proof fn remove_map<K: OrdKey, V>(before: Seq<(K, V)>, after: Seq<(K, V)>, i: int)
    requires
        ascending::<K>(entry_keys(before)),
        0 <= i < before.len(),
        after == before.remove(i),
    ensures
        ascending::<K>(entry_keys(after)),
        entry_map(after) == entry_map(before).remove(before[i].0@),
{
    let kb = entry_keys(before);
    let ka = entry_keys(after);
    ascending_distinct::<K>(kb);
    assert forall|a: int, b: int| 0 <= a < b < ka.len() implies key_before::<K>(
        #[trigger] ka[a],
        #[trigger] ka[b],
    ) by {
        let a0 = if a < i {
            a
        } else {
            a + 1
        };
        let b0 = if b < i {
            b
        } else {
            b + 1
        };
        assert(key_before::<K>(kb[a0], kb[b0]));
    }
    assert forall|x: K::V| #[trigger] ka.contains(x) implies kb.contains(x) && x != before[i].0@
        && entry_map(after)[x] == entry_map(before)[x] by {
        let j = ka.index_of(x);
        let j0 = if j < i {
            j
        } else {
            j + 1
        };
        assert(kb[j0] == x);
        assert(ka[j] == x);
        assert(kb[i] == before[i].0@);
        entry_found(after, j);
        entry_found(before, j0);
    }
    assert forall|x: K::V| kb.contains(x) && x != before[i].0@ implies #[trigger] ka.contains(
        x,
    ) by {
        let j = kb.index_of(x);
        assert(kb[j] == x);
        assert(kb[i] == before[i].0@);
        if j < i {
            assert(ka[j] == x);
        } else {
            assert(ka[j - 1] == x);
        }
    }
    assert(entry_map(after) =~= entry_map(before).remove(before[i].0@));
}

/// The first entries with one more.
pub proof fn first_entries_next<K: OrdKey, V>(map: KeyedMap<K, V>, i: int)
    requires
        map@.dom().finite(),
        0 <= i < map.keys().len(),
    ensures
        map.first_entries(i + 1) == map.first_entries(i).insert(
            map.keys()[i],
            map@[map.keys()[i]],
        ),
{
    let keys = map.keys();
    sorted_lists::<K>(map@.dom());
    assert forall|k: K::V| #[trigger] keys.take(i + 1).to_set().contains(k) == keys.take(
        i,
    ).to_set().insert(keys[i]).contains(k) by {
        if keys.take(i).contains(k) {
            let j = keys.take(i).index_of(k);
            assert(keys.take(i + 1)[j] == k);
        }
        if keys.take(i + 1).contains(k) {
            let j = keys.take(i + 1).index_of(k);
            if j < i {
                assert(keys.take(i)[j] == k);
            }
        }
        assert(keys.take(i + 1)[i] == keys[i]);
    }
    assert(keys.to_set().contains(keys[i]));
    assert(map.first_entries(i + 1) =~= map.first_entries(i).insert(keys[i], map@[keys[i]]));
}

/// All entries are the first entries, and none are the first of none.
pub proof fn first_entries_ends<K: OrdKey, V>(map: KeyedMap<K, V>)
    requires
        map@.dom().finite(),
    ensures
        map.first_entries(0) == Map::<K::V, V>::empty(),
        map.first_entries(map.keys().len() as int) == map@,
{
    let keys = map.keys();
    sorted_lists::<K>(map@.dom());
    assert(keys.take(0).to_set() =~= Set::empty());
    assert(keys.take(keys.len() as int) =~= keys);
    assert(map.first_entries(0) =~= Map::<K::V, V>::empty());
    assert(map.first_entries(keys.len() as int) =~= map@);
}

} // verus!
