//! Walking integer-keyed ordered maps.

use std::collections::BTreeMap;
use vstd::prelude::*;

verus! {

broadcast use vstd::std_specs::btree::group_btree_axioms;

/// Whether `keys` lists every element of `domain` once, in ascending order.
pub open spec fn ascending(keys: Seq<u32>, domain: Set<u32>) -> bool {
    &&& forall|i: int, j: int| 0 <= i < j < keys.len() ==> keys[i] < keys[j]
    &&& forall|key: u32| #[trigger] keys.contains(key) <==> domain.contains(key)
}

/// The elements of a set, in ascending order.
pub open spec fn in_order(domain: Set<u32>) -> Seq<u32> {
    choose|keys: Seq<u32>| ascending(keys, domain)
}

/// A set has one ascending listing.
pub proof fn lemma_in_order(keys: Seq<u32>, domain: Set<u32>)
    requires
        ascending(keys, domain),
    ensures
        in_order(domain) == keys,
{
    let other = in_order(domain);
    assert(ascending(other, domain));
    let shorter = if keys.len() <= other.len() {
        keys.len()
    } else {
        other.len()
    };
    lemma_same_listing(keys, other, domain, shorter as int);
    if keys.len() < other.len() {
        let extra = other[keys.len() as int];
        assert(other.contains(extra));
        assert(keys.contains(extra));
        let k = choose|k: int| 0 <= k < keys.len() && keys[k] == extra;
        assert(other[k] == extra);
    } else if other.len() < keys.len() {
        let extra = keys[other.len() as int];
        assert(keys.contains(extra));
        assert(other.contains(extra));
        let k = choose|k: int| 0 <= k < other.len() && other[k] == extra;
        assert(keys[k] == extra);
    }
    assert(keys =~= other);
}

/// `keys` with one more element, in its place.
spec fn with_key(keys: Seq<u32>, key: u32) -> Seq<u32>
    decreases keys.len(),
{
    if keys.len() == 0 || keys.last() < key {
        keys.push(key)
    } else {
        with_key(keys.drop_last(), key).push(keys.last())
    }
}

proof fn lemma_with_key(keys: Seq<u32>, key: u32)
    requires
        forall|i: int, j: int| 0 <= i < j < keys.len() ==> keys[i] < keys[j],
        !keys.contains(key),
    ensures
        with_key(keys, key).len() == keys.len() + 1,
        forall|i: int, j: int|
            0 <= i < j < with_key(keys, key).len() ==> with_key(keys, key)[i] < with_key(
                keys,
                key,
            )[j],
        forall|other: u32| #[trigger]
            with_key(keys, key).contains(other) <==> keys.contains(other) || other == key,
    decreases keys.len(),
{
    let longer = with_key(keys, key);
    if keys.len() == 0 || keys.last() < key {
        assert forall|other: u32| #[trigger] longer.contains(other) <==> keys.contains(other)
            || other == key by {
            crate::session::lemma_push_contains(keys, key, other);
        }
    } else {
        let rest = keys.drop_last();
        let last = keys.last();
        assert(!rest.contains(key)) by {
            if rest.contains(key) {
                let k = choose|k: int| 0 <= k < rest.len() && rest[k] == key;
                assert(keys[k] == key);
            }
        }
        lemma_with_key(rest, key);
        let inner = with_key(rest, key);
        assert(keys =~= rest.push(last));
        assert(keys.contains(last)) by {
            assert(keys[keys.len() - 1] == last);
        }
        assert forall|i: int| 0 <= i < inner.len() implies #[trigger] inner[i] < last by {
            assert(inner.contains(inner[i]));
            if inner[i] != key {
                let k = choose|k: int| 0 <= k < rest.len() && rest[k] == inner[i];
                assert(keys[k] < keys[keys.len() - 1]);
            }
        }
        assert forall|other: u32| #[trigger] longer.contains(other) <==> keys.contains(other)
            || other == key by {
            crate::session::lemma_push_contains(inner, last, other);
            crate::session::lemma_push_contains(rest, last, other);
        }
    }
}

/// Every finite set has an ascending listing.
pub proof fn lemma_in_order_lists(domain: Set<u32>)
    requires
        domain.finite(),
    ensures
        ascending(in_order(domain), domain),
    decreases domain.len(),
{
    if domain.len() == 0 {
        assert(domain =~= Set::empty());
        assert(ascending(Seq::empty(), domain));
    } else {
        let key = domain.choose();
        let rest = domain.remove(key);
        lemma_in_order_lists(rest);
        let keys = in_order(rest);
        assert(!keys.contains(key));
        lemma_with_key(keys, key);
        let longer = with_key(keys, key);
        assert forall|other: u32| #[trigger] longer.contains(other) <==> domain.contains(
            other,
        ) by {
            assert(keys.contains(other) <==> rest.contains(other));
        }
        assert(ascending(longer, domain));
    }
}

proof fn lemma_same_listing(a: Seq<u32>, b: Seq<u32>, domain: Set<u32>, count: int)
    requires
        ascending(a, domain),
        ascending(b, domain),
        0 <= count <= a.len(),
        count <= b.len(),
    ensures
        forall|i: int| 0 <= i < count ==> a[i] == b[i],
    decreases count,
{
    if count > 0 {
        let last = count - 1;
        lemma_same_listing(a, b, domain, last);
        assert(a.contains(a[last]));
        assert(b.contains(a[last]));
        let k = choose|k: int| 0 <= k < b.len() && b[k] == a[last];
        assert(k >= last) by {
            if k < last {
                assert(a[k] == b[k]);
            }
        }
        assert(b.contains(b[last]));
        assert(a.contains(b[last]));
        let m = choose|m: int| 0 <= m < a.len() && a[m] == b[last];
        assert(m >= last) by {
            if m < last {
                assert(a[m] == b[m]);
            }
        }
        assert(b[last] <= b[k]);
        assert(a[last] <= a[m]);
    }
}

/// The keys of a map, in ascending order.
pub fn ascending_keys<V>(map: &BTreeMap<u32, V>) -> (keys: Vec<u32>)
    ensures
        ascending(keys@, map@.dom()),
        keys@ == in_order(map@.dom()),
        keys@.len() == map@.dom().len(),
{
    let mut keys: Vec<u32> = Vec::new();
    let entries = map.iter();
    let ghost pairs = vstd::std_specs::iter::IteratorSpec::remaining(&entries);
    let ghost listed = pairs.map_values(|pair: (&u32, &V)| *pair.0);
    proof {
        assert(vstd::laws_cmp::obeys_cmp::<u32>());
        assert(vstd::std_specs::btree::increasing_seq(listed));
        assert forall|i: int, j: int| 0 <= i < j < listed.len() implies listed[i] < listed[j] by {
            assert(vstd::std_specs::cmp::OrdSpec::cmp_spec(&listed[i], &listed[j]) is Less);
        }
    }
    for pair in it: entries
        invariant
            it.seq() == pairs,
            keys@ == listed.take(it.index()),
            listed == pairs.map_values(|pair: (&u32, &V)| *pair.0),
    {
        keys.push(*pair.0);
        assert(listed.take(it.index() + 1) =~= listed.take(it.index()).push(*pair.0));
    }
    assert(keys@ =~= listed);
    assert forall|key: u32| #[trigger] keys@.contains(key) <==> map@.dom().contains(key) by {
        if keys@.contains(key) {
            let i = choose|i: int| 0 <= i < keys@.len() && keys@[i] == key;
            assert(map@.contains_key(*pairs[i].0));
        }
        if map@.contains_key(key) {
            assert(pairs.contains((&key, &map@[key])));
            let i = choose|i: int| 0 <= i < pairs.len() && pairs[i] == (&key, &map@[key]);
            assert(keys@[i] == key);
        }
    }
    proof {
        lemma_in_order(keys@, map@.dom());
    }
    keys
}

} // verus!
