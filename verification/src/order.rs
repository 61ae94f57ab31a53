//! Ordered maps, key by key.

use std::collections::BTreeMap;
use vstd::prelude::*;
use vstd::std_specs::btree::axiom_increasing_seq_meaning;
use vstd::std_specs::cmp::OrdSpec;
use vstd::std_specs::iter::IteratorSpec;

verus! {

/// A key of a pair of accounts.
pub type Pair = (usize, usize);

/// The order of account indices.
pub open spec fn index_before(a: usize, b: usize) -> bool {
    a < b
}

/// The order of pairs: by the first account, then by the second.
pub open spec fn pair_before(a: Pair, b: Pair) -> bool {
    a.0 < b.0 || (a.0 == b.0 && a.1 < b.1)
}

/// Whether `keys` come in strictly increasing order.
pub open spec fn increasing<K>(keys: Seq<K>, before: spec_fn(K, K) -> bool) -> bool {
    forall|i: int, j: int|
        0 <= i < j < keys.len() ==> before(#[trigger] keys[i], #[trigger] keys[j])
}

/// The account indices of a set in increasing order.
pub open spec fn indices_in_order(keys: Set<usize>) -> Seq<usize> {
    choose|s: Seq<usize>|
        increasing(s, |a: usize, b: usize| index_before(a, b)) && s.to_set() == keys
}

/// The pairs of a set in increasing order.
pub open spec fn pairs_in_order(keys: Set<Pair>) -> Seq<Pair> {
    choose|s: Seq<Pair>| increasing(s, |a: Pair, b: Pair| pair_before(a, b)) && s.to_set() == keys
}

/// A strict order in which any two keys compare.
pub open spec fn strict_order<K>(before: spec_fn(K, K) -> bool) -> bool {
    &&& forall|a: K| !(#[trigger] before(a, a))
    &&& forall|a: K, b: K, c: K| #[trigger]
        before(a, b) && #[trigger] before(b, c) ==> before(a, c)
    &&& forall|a: K, b: K| #[trigger] before(a, b) || before(b, a) || a == b
}

/// The order of byte strings: by the first byte in which they differ; one that the other starts
/// with comes first.
pub open spec fn bytes_before(a: Seq<u8>, b: Seq<u8>) -> bool
    decreases a.len(),
{
    if b.len() == 0 {
        false
    } else if a.len() == 0 {
        true
    } else if a[0] != b[0] {
        a[0] < b[0]
    } else {
        bytes_before(a.drop_first(), b.drop_first())
    }
}

/// No byte string comes before itself, and of two that differ one comes before the other.
pub proof fn bytes_are_ordered(a: Seq<u8>, b: Seq<u8>)
    ensures
        !bytes_before(a, a),
        bytes_before(a, b) || bytes_before(b, a) || a == b,
        !(bytes_before(a, b) && bytes_before(b, a)),
    decreases a.len(),
{
    if a.len() > 0 {
        if b.len() > 0 {
            bytes_are_ordered(a.drop_first(), b.drop_first());
            if a[0] == b[0] && a.drop_first() == b.drop_first() {
                assert(a =~= seq![a[0]] + a.drop_first());
                assert(b =~= seq![b[0]] + b.drop_first());
            }
        } else {
            bytes_are_ordered(a.drop_first(), b);
        }
    } else if b.len() == 0 {
        assert(a =~= b);
    }
}

/// What comes before a byte string comes before all that come after it.
pub proof fn byte_order_is_transitive(a: Seq<u8>, b: Seq<u8>, c: Seq<u8>)
    requires
        bytes_before(a, b),
        bytes_before(b, c),
    ensures
        bytes_before(a, c),
    decreases a.len(),
{
    if a.len() > 0 && a[0] == b[0] && b[0] == c[0] {
        byte_order_is_transitive(a.drop_first(), b.drop_first(), c.drop_first());
    }
}

/// Tells whether a byte string comes before another.
pub fn comes_first(a: &[u8], b: &[u8]) -> (yes: bool)
    ensures
        yes == bytes_before(a@, b@),
{
    let mut i: usize = 0;
    assert(a@.skip(0) =~= a@);
    assert(b@.skip(0) =~= b@);
    while i < a.len() && i < b.len()
        invariant
            i <= a@.len(),
            i <= b@.len(),
            bytes_before(a@, b@) == bytes_before(a@.skip(i as int), b@.skip(i as int)),
        decreases a@.len() - i,
    {
        assert(a@.skip(i as int).drop_first() =~= a@.skip(i + 1));
        assert(b@.skip(i as int).drop_first() =~= b@.skip(i + 1));
        if a[i] != b[i] {
            return a[i] < b[i];
        }
        i += 1;
    }
    i < b.len()
}

/// A set has one increasing sequence at most.
pub proof fn one_increasing_sequence<K>(s: Seq<K>, t: Seq<K>, before: spec_fn(K, K) -> bool)
    requires
        strict_order(before),
        increasing(s, before),
        increasing(t, before),
        s.to_set() == t.to_set(),
    ensures
        s == t,
    decreases s.len(),
{
    if s.len() == 0 {
        if t.len() > 0 {
            assert(t.to_set().contains(t[0]));
            assert(s.contains(t[0]));
        }
        assert(s =~= t);
    } else {
        assert(s.to_set().contains(s.last()));
        assert(t.contains(s.last()));
        assert(t.to_set().contains(t.last()));
        assert(s.contains(t.last()));
        let i = choose|i: int| 0 <= i < t.len() && t[i] == s.last();
        let j = choose|j: int| 0 <= j < s.len() && s[j] == t.last();
        if i < t.len() - 1 {
            assert(before(t[i], t[t.len() - 1]));
            if j < s.len() - 1 {
                assert(before(s[j], s[s.len() - 1]));
                assert(before(s.last(), s.last()));
            }
            assert(false);
        }
        assert(s.last() == t.last());
        let s1 = s.drop_last();
        let t1 = t.drop_last();
        assert forall|k: K| s1.to_set().contains(k) == t1.to_set().contains(k) by {
            if s1.contains(k) {
                let m = choose|m: int| 0 <= m < s1.len() && s1[m] == k;
                assert(before(s[m], s[s.len() - 1]));
                assert(s.to_set().contains(s[m]));
                assert(t.contains(k));
                let n = choose|n: int| 0 <= n < t.len() && t[n] == k;
                assert(n < t.len() - 1);
                assert(t1[n] == k);
            }
            if t1.contains(k) {
                let m = choose|m: int| 0 <= m < t1.len() && t1[m] == k;
                assert(before(t[m], t[t.len() - 1]));
                assert(t.to_set().contains(t[m]));
                assert(s.contains(k));
                let n = choose|n: int| 0 <= n < s.len() && s[n] == k;
                assert(n < s.len() - 1);
                assert(s1[n] == k);
            }
        }
        assert(s1.to_set() =~= t1.to_set());
        one_increasing_sequence(s1, t1, before);
        assert(s =~= s1.push(s.last()));
        assert(t =~= t1.push(t.last()));
    }
}

/// A finite set has a greatest key.
proof fn lemma_greatest<K>(keys: Set<K>, before: spec_fn(K, K) -> bool) -> (greatest: K)
    requires
        strict_order(before),
        keys.finite(),
        keys.len() > 0,
    ensures
        keys.contains(greatest),
        forall|k: K| #[trigger] keys.contains(k) && k != greatest ==> before(k, greatest),
    decreases keys.len(),
{
    let one = keys.choose();
    let rest = keys.remove(one);
    if rest.len() == 0 {
        assert forall|k: K| #[trigger] keys.contains(k) implies k == one by {
            if k != one {
                assert(rest.contains(k));
            }
        }
        one
    } else {
        let greatest = lemma_greatest(rest, before);
        let found = if before(greatest, one) {
            one
        } else {
            greatest
        };
        assert forall|k: K| #[trigger] keys.contains(k) && k != found implies before(k, found) by {
            if k != one {
                assert(rest.contains(k));
            }
        }
        found
    }
}

/// A finite set has an increasing sequence.
pub proof fn increasing_sequence<K>(keys: Set<K>, before: spec_fn(K, K) -> bool) -> (order: Seq<K>)
    requires
        strict_order(before),
        keys.finite(),
    ensures
        increasing(order, before),
        order.to_set() == keys,
    decreases keys.len(),
{
    if keys.len() == 0 {
        assert(Seq::<K>::empty().to_set() =~= keys);
        Seq::empty()
    } else {
        let last = lemma_greatest(keys, before);
        let init = increasing_sequence(keys.remove(last), before);
        let order = init.push(last);
        assert forall|i: int, j: int| 0 <= i < j < order.len() implies before(
            #[trigger] order[i],
            #[trigger] order[j],
        ) by {
            assert(init.to_set().contains(init[i]));
            assert(keys.contains(order[i]));
        }
        assert forall|k: K| order.to_set().contains(k) == keys.contains(k) by {
            if order.contains(k) {
                let i = choose|i: int| 0 <= i < order.len() && order[i] == k;
                if i < init.len() {
                    assert(init.to_set().contains(init[i]));
                }
            }
            if keys.contains(k) {
                if k == last {
                    assert(order[order.len() - 1] == k);
                } else {
                    assert(init.to_set().contains(k));
                    let i = choose|i: int| 0 <= i < init.len() && init[i] == k;
                    assert(order[i] == k);
                }
            }
        }
        assert(order.to_set() =~= keys);
        order
    }
}

/// The order of a finite set of indices holds all of them, and increases.
pub proof fn indices_in_order_are_ordered(keys: Set<usize>)
    requires
        keys.finite(),
    ensures
        increasing(indices_in_order(keys), |a: usize, b: usize| index_before(a, b)),
        indices_in_order(keys).to_set() == keys,
{
    let before = |a: usize, b: usize| index_before(a, b);
    let order = increasing_sequence(keys, before);
    assert(increasing(order, before) && order.to_set() == keys);
}

/// The order of a finite set of pairs holds all of them, and increases.
pub proof fn pairs_in_order_are_ordered(keys: Set<Pair>)
    requires
        keys.finite(),
    ensures
        increasing(pairs_in_order(keys), |a: Pair, b: Pair| pair_before(a, b)),
        pairs_in_order(keys).to_set() == keys,
{
    let before = |a: Pair, b: Pair| pair_before(a, b);
    let order = increasing_sequence(keys, before);
    assert(increasing(order, before) && order.to_set() == keys);
}

/// An increasing sequence of a set's indices is the set's order.
pub proof fn lemma_indices_in_order(s: Seq<usize>)
    requires
        increasing(s, |a: usize, b: usize| index_before(a, b)),
    ensures
        indices_in_order(s.to_set()) == s,
{
    let before = |a: usize, b: usize| index_before(a, b);
    let t = indices_in_order(s.to_set());
    assert(increasing(t, before) && t.to_set() == s.to_set());
    one_increasing_sequence(s, t, before);
}

/// An increasing sequence of a set's pairs is the set's order.
pub proof fn lemma_pairs_in_order(s: Seq<Pair>)
    requires
        increasing(s, |a: Pair, b: Pair| pair_before(a, b)),
    ensures
        pairs_in_order(s.to_set()) == s,
{
    let before = |a: Pair, b: Pair| pair_before(a, b);
    let t = pairs_in_order(s.to_set());
    assert(increasing(t, before) && t.to_set() == s.to_set());
    one_increasing_sequence(s, t, before);
}

/// The indices of a map, in increasing order.
pub fn indices<V>(map: &BTreeMap<usize, V>) -> (keys: Vec<usize>)
    ensures
        keys@ == indices_in_order(map@.dom()),
        keys@.to_set() == map@.dom(),
{
    let mut keys: Vec<usize> = Vec::new();
    let items = map.iter();
    let ghost found = items.remaining();
    for item in it: items
        invariant
            it.seq() == found,
            keys@.len() == it.index(),
            forall|k: int| 0 <= k < it.index() ==> keys@[k] == *found[k].0,
    {
        keys.push(*item.0);
    }
    proof {
        let named = found.map_values(|kv: (&usize, &V)| *kv.0);
        axiom_increasing_seq_meaning(named);
        assert(keys@ =~= named);
        assert forall|i: int, j: int| 0 <= i < j < named.len() implies index_before(
            #[trigger] named[i],
            #[trigger] named[j],
        ) by {
            assert(named[i].cmp_spec(&named[j]) is Less);
        }
        assert forall|k: usize| keys@.to_set().contains(k) == map@.dom().contains(k) by {
            if keys@.contains(k) {
                let i = choose|i: int| 0 <= i < keys@.len() && keys@[i] == k;
                assert(map@.contains_key(*found[i].0));
            }
            if map@.contains_key(k) {
                assert(found.contains((&k, &map@[k])));
                let i = choose|i: int| 0 <= i < found.len() && found[i] == (&k, &map@[k]);
                assert(keys@[i] == k);
            }
        }
        assert(keys@.to_set() =~= map@.dom());
        lemma_indices_in_order(keys@);
    }
    keys
}

/// The entries of a map from pairs, in increasing order of the pairs.
pub open spec fn entries_in_order(map: Map<Pair, i128>) -> Seq<(Pair, i128)> {
    pairs_in_order(map.dom()).map_values(|pair: Pair| (pair, map[pair]))
}

/// The entries of a map from pairs, in increasing order of the pairs.
pub fn entries(map: &BTreeMap<Pair, i128>) -> (items: Vec<(Pair, i128)>)
    ensures
        items@ == entries_in_order(map@),
        items@.len() == map@.dom().len(),
        forall|i: int|
            0 <= i < items@.len() ==> map@.contains_key((#[trigger] items@[i]).0)
                && map@[items@[i].0] == items@[i].1,
{
    let mut items: Vec<(Pair, i128)> = Vec::new();
    let source = map.iter();
    let ghost found = source.remaining();
    for item in it: source
        invariant
            it.seq() == found,
            items@.len() == it.index(),
            forall|k: int| 0 <= k < it.index() ==> items@[k] == (*found[k].0, *found[k].1),
    {
        items.push((*item.0, *item.1));
    }
    proof {
        let named = found.map_values(|kv: (&Pair, &i128)| *kv.0);
        axiom_increasing_seq_meaning(named);
        assert forall|i: int, j: int| 0 <= i < j < named.len() implies pair_before(
            #[trigger] named[i],
            #[trigger] named[j],
        ) by {
            assert(named[i].cmp_spec(&named[j]) is Less);
        }
        assert forall|k: Pair| named.to_set().contains(k) == map@.dom().contains(k) by {
            if named.contains(k) {
                let i = choose|i: int| 0 <= i < named.len() && named[i] == k;
                assert(map@.contains_key(*found[i].0));
            }
            if map@.contains_key(k) {
                assert(found.contains((&k, &map@[k])));
                let i = choose|i: int| 0 <= i < found.len() && found[i] == (&k, &map@[k]);
                assert(named[i] == k);
            }
        }
        assert(named.to_set() =~= map@.dom());
        lemma_pairs_in_order(named);
        assert forall|i: int| 0 <= i < items@.len() implies map@.contains_key(
            (#[trigger] items@[i]).0,
        ) && map@[items@[i].0] == items@[i].1 by {
            assert(map@.contains_key(*found[i].0));
        }
        assert(items@ =~= entries_in_order(map@));
    }
    items
}

} // verus!
