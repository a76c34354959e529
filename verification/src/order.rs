//! Byte-lexicographic order on keys, and the listing of a set in that order.

use vstd::prelude::*;

verus! {

/// How one key stands to another.
#[derive(Debug, Clone, Copy, PartialEq, Eq, Structural)]
pub enum KeyOrder {
    Before,
    Same,
    After,
}

/// `a` comes before `b` in the lexicographic order of byte strings.
pub open spec fn lex_before(a: Seq<u8>, b: Seq<u8>) -> bool
    decreases a.len(),
{
    if b.len() == 0 {
        false
    } else if a.len() == 0 {
        true
    } else if a[0] != b[0] {
        a[0] < b[0]
    } else {
        lex_before(a.drop_first(), b.drop_first())
    }
}

/// The position of `a` relative to `b`.
pub open spec fn order_of(a: Seq<u8>, b: Seq<u8>) -> KeyOrder {
    if lex_before(a, b) {
        KeyOrder::Before
    } else if a == b {
        KeyOrder::Same
    } else {
        KeyOrder::After
    }
}

/// No byte string comes before itself.
pub proof fn lex_irreflexive(a: Seq<u8>)
    ensures
        !lex_before(a, a),
    decreases a.len(),
{
    if a.len() > 0 {
        lex_irreflexive(a.drop_first());
    }
}

/// The order is transitive.
pub proof fn lex_transitive(a: Seq<u8>, b: Seq<u8>, c: Seq<u8>)
    requires
        lex_before(a, b),
        lex_before(b, c),
    ensures
        lex_before(a, c),
    decreases a.len(),
{
    if a.len() > 0 && b.len() > 0 && c.len() > 0 && a[0] == b[0] && b[0] == c[0] {
        lex_transitive(a.drop_first(), b.drop_first(), c.drop_first());
    }
}

/// Of two different byte strings one comes before the other.
pub proof fn lex_total(a: Seq<u8>, b: Seq<u8>)
    ensures
        a == b || lex_before(a, b) || lex_before(b, a),
    decreases a.len(),
{
    if a.len() == 0 && b.len() == 0 {
        assert(a =~= b);
    } else if a.len() > 0 && b.len() > 0 && a[0] == b[0] {
        lex_total(a.drop_first(), b.drop_first());
        if a.drop_first() == b.drop_first() {
            assert(a =~= seq![a[0]] + a.drop_first());
            assert(b =~= seq![b[0]] + b.drop_first());
        }
    }
}

/// Compares two byte strings lexicographically.
pub fn compare_bytes(a: &[u8], b: &[u8]) -> (r: KeyOrder)
    ensures
        r == order_of(a@, b@),
{
    let mut i: usize = 0;
    assert(a@.skip(0) =~= a@);
    assert(b@.skip(0) =~= b@);
    while i < a.len() && i < b.len()
        invariant
            i <= a@.len(),
            i <= b@.len(),
            forall|j: int| 0 <= j < i ==> a@[j] == b@[j],
            lex_before(a@, b@) == lex_before(a@.skip(i as int), b@.skip(i as int)),
        decreases a@.len() - i,
    {
        if a[i] < b[i] {
            return KeyOrder::Before;
        }
        if b[i] < a[i] {
            assert(a@[i as int] != b@[i as int]);
            return KeyOrder::After;
        }
        assert(a@.skip(i as int).drop_first() =~= a@.skip(i + 1));
        assert(b@.skip(i as int).drop_first() =~= b@.skip(i + 1));
        i = i + 1;
    }
    if i < b.len() {
        KeyOrder::Before
    } else if i < a.len() {
        KeyOrder::After
    } else {
        assert(a@ =~= b@);
        proof {
            lex_irreflexive(a@);
        }
        KeyOrder::Same
    }
}

/// A type whose values are ordered by a byte string that identifies them.
pub trait OrdKey: View + Sized {
    /// The byte string that orders a key.
    spec fn rank(key: Self::V) -> Seq<u8>;

    /// Different keys have different ranks.
    proof fn rank_injective(a: Self::V, b: Self::V)
        requires
            Self::rank(a) == Self::rank(b),
        ensures
            a == b,
    ;

    /// Compares two keys by rank.
    fn compare(&self, other: &Self) -> (r: KeyOrder)
        ensures
            r == order_of(Self::rank(self@), Self::rank(other@)),
    ;
}

/// `a` comes before `b` in the order of their ranks.
pub open spec fn key_before<K: OrdKey>(a: K::V, b: K::V) -> bool {
    lex_before(K::rank(a), K::rank(b))
}

/// The keys stand in strictly ascending order.
pub open spec fn ascending<K: OrdKey>(keys: Seq<K::V>) -> bool {
    forall|i: int, j: int|
        0 <= i < j < keys.len() ==> key_before::<K>(#[trigger] keys[i], #[trigger] keys[j])
}

/// `keys` lists exactly the members of `set`, in ascending order.
pub open spec fn lists<K: OrdKey>(keys: Seq<K::V>, set: Set<K::V>) -> bool {
    ascending::<K>(keys) && keys.to_set() =~= set
}

/// The members of a finite set in ascending order.
pub open spec fn sorted<K: OrdKey>(set: Set<K::V>) -> Seq<K::V> {
    choose|keys: Seq<K::V>| lists::<K>(keys, set)
}

/// Ascending keys never repeat.
pub proof fn ascending_distinct<K: OrdKey>(keys: Seq<K::V>)
    requires
        ascending::<K>(keys),
    ensures
        keys.no_duplicates(),
{
    assert forall|i: int, j: int| 0 <= i < keys.len() && 0 <= j < keys.len() && i != j implies
        keys[i] != keys[j] by {
        if i < j {
            assert(key_before::<K>(keys[i], keys[j]));
        } else {
            assert(key_before::<K>(keys[j], keys[i]));
        }
        lex_irreflexive(K::rank(keys[i]));
    }
}

/// A set has only one ascending listing.
pub proof fn listing_unique<K: OrdKey>(a: Seq<K::V>, b: Seq<K::V>, set: Set<K::V>)
    requires
        lists::<K>(a, set),
        lists::<K>(b, set),
    ensures
        a == b,
    decreases a.len(),
{
    if a.len() == 0 {
        if b.len() > 0 {
            assert(b.to_set().contains(b[0]));
            assert(a.to_set().contains(b[0]));
        }
        assert(a =~= b);
    } else {
        assert(a.to_set().contains(a.last()));
        assert(b.contains(a.last()));
        assert(b.len() > 0);
        assert(b.to_set().contains(b.last()));
        assert(a.contains(b.last()));
        let j = choose|j: int| 0 <= j < b.len() && b[j] == a.last();
        let i = choose|i: int| 0 <= i < a.len() && a[i] == b.last();
        if a.last() != b.last() {
            assert(key_before::<K>(b[j], b[b.len() - 1]));
            assert(key_before::<K>(a[i], a[a.len() - 1]));
            lex_transitive(K::rank(a.last()), K::rank(b.last()), K::rank(a.last()));
            lex_irreflexive(K::rank(a.last()));
        }
        let a0 = a.drop_last();
        let b0 = b.drop_last();
        let set0 = set.remove(a.last());
        ascending_distinct::<K>(a);
        ascending_distinct::<K>(b);
        assert(a0.to_set() =~= set0) by {
            drop_last_set(a);
        }
        assert(b0.to_set() =~= set0) by {
            drop_last_set(b);
        }
        listing_unique::<K>(a0, b0, set0);
        assert(a =~= a0.push(a.last()));
        assert(b =~= b0.push(b.last()));
    }
}

/// Dropping the last of distinct elements removes it from the set.
proof fn drop_last_set<A>(s: Seq<A>)
    requires
        s.len() > 0,
        s.no_duplicates(),
    ensures
        s.drop_last().to_set() =~= s.to_set().remove(s.last()),
{
    let t = s.drop_last();
    assert forall|x: A| #[trigger] t.to_set().contains(x) == s.to_set().remove(s.last()).contains(
        x,
    ) by {
        if t.contains(x) {
            let i = choose|i: int| 0 <= i < t.len() && t[i] == x;
            assert(s[i] == x);
        }
        if s.contains(x) && x != s.last() {
            let i = choose|i: int| 0 <= i < s.len() && s[i] == x;
            assert(t[i] == x);
        }
    }
}

/// The ascending listing of a set is the one that `sorted` names.
pub proof fn listing_is_sorted<K: OrdKey>(keys: Seq<K::V>, set: Set<K::V>)
    requires
        lists::<K>(keys, set),
    ensures
        keys == sorted::<K>(set),
        lists::<K>(sorted::<K>(set), set),
{
    listing_unique::<K>(keys, sorted::<K>(set), set);
}

/// Where `key`, which is not among them, belongs among ascending keys.
proof fn insertion_point<K: OrdKey>(keys: Seq<K::V>, key: K::V) -> (p: int)
    requires
        ascending::<K>(keys),
        !keys.contains(key),
    ensures
        0 <= p <= keys.len(),
        forall|j: int| 0 <= j < p ==> key_before::<K>(#[trigger] keys[j], key),
        forall|j: int| p <= j < keys.len() ==> key_before::<K>(key, #[trigger] keys[j]),
    decreases keys.len(),
{
    if keys.len() == 0 {
        0
    } else {
        let last = keys.len() - 1;
        let shorter = keys.drop_last();
        assert(keys.contains(keys[last]));
        lex_total(K::rank(keys[last]), K::rank(key));
        if K::rank(keys[last]) == K::rank(key) {
            K::rank_injective(keys[last], key);
        }
        if key_before::<K>(keys[last], key) {
            assert forall|j: int| 0 <= j < keys.len() implies key_before::<K>(
                #[trigger] keys[j],
                key,
            ) by {
                if j < last {
                    lex_transitive(K::rank(keys[j]), K::rank(keys[last]), K::rank(key));
                }
            }
            keys.len() as int
        } else {
            assert forall|j: int| 0 <= j < shorter.len() implies shorter[j] != key by {
                assert(keys[j] == shorter[j]);
                assert(keys.contains(keys[j]));
            }
            let p = insertion_point::<K>(shorter, key);
            assert forall|j: int| 0 <= j < p implies key_before::<K>(#[trigger] keys[j], key) by {
                assert(shorter[j] == keys[j]);
            }
            assert forall|j: int| p <= j < keys.len() implies key_before::<K>(
                key,
                #[trigger] keys[j],
            ) by {
                if j < last {
                    assert(shorter[j] == keys[j]);
                }
            }
            p
        }
    }
}

/// Every finite set has an ascending listing.
pub proof fn sorted_lists<K: OrdKey>(set: Set<K::V>)
    requires
        set.finite(),
    ensures
        lists::<K>(sorted::<K>(set), set),
        sorted::<K>(set).no_duplicates(),
        sorted::<K>(set).len() == set.len(),
    decreases set.len(),
{
    if set.len() == 0 {
        assert(set =~= Set::empty());
        assert(lists::<K>(Seq::<K::V>::empty(), set));
    } else {
        let a = set.choose();
        let rest = set.remove(a);
        sorted_lists::<K>(rest);
        let keys = sorted::<K>(rest);
        assert(!keys.contains(a)) by {
            if keys.contains(a) {
                assert(keys.to_set().contains(a));
            }
        }
        let p = insertion_point::<K>(keys, a);
        let more = keys.insert(p, a);
        assert forall|i: int, j: int| 0 <= i < j < more.len() implies key_before::<K>(
            #[trigger] more[i],
            #[trigger] more[j],
        ) by {
            let i0 = if i < p {
                i
            } else {
                i - 1
            };
            let j0 = if j < p {
                j
            } else {
                j - 1
            };
            if i != p && j != p {
                assert(key_before::<K>(keys[i0], keys[j0]));
            } else if i == p {
                assert(key_before::<K>(a, keys[j0]));
            } else {
                assert(key_before::<K>(keys[i0], a));
            }
        }
        assert forall|x: K::V| #[trigger] more.to_set().contains(x) == set.contains(x) by {
            if more.contains(x) {
                let i = more.index_of(x);
                if i < p {
                    assert(keys[i] == x);
                    assert(keys.to_set().contains(x));
                } else if i > p {
                    assert(keys[i - 1] == x);
                    assert(keys.to_set().contains(x));
                }
            }
            if set.contains(x) && x != a {
                assert(keys.to_set().contains(x));
                let i = keys.index_of(x);
                if i < p {
                    assert(more[i] == x);
                } else {
                    assert(more[i + 1] == x);
                }
            }
            assert(more[p] == a);
        }
        assert(lists::<K>(more, set));
    }
    ascending_distinct::<K>(sorted::<K>(set));
    sorted::<K>(set).unique_seq_to_set();
}

} // verus!
