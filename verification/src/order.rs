//! The order in which a run visits its keys: lexicographic by character.

use vstd::prelude::*;
use vstd::relations::{sorted_by, total_ordering};
use vstd::seq_lib::{lemma_sorted_unique, to_multiset_contains};

verus! {

/// Whether `a` comes before `b`, or is `b`, in lexicographic order: at the
/// first position where they differ `a` has the smaller character, or `a`
/// ends first.
pub open spec fn key_le(a: Seq<char>, b: Seq<char>) -> bool
    decreases a.len(),
{
    if a.len() == 0 {
        true
    } else if b.len() == 0 {
        false
    } else if a[0] == b[0] {
        key_le(a.drop_first(), b.drop_first())
    } else {
        a[0] < b[0]
    }
}

/// `key_le` as a relation.
pub open spec fn key_order() -> spec_fn(Seq<char>, Seq<char>) -> bool {
    |a: Seq<char>, b: Seq<char>| key_le(a, b)
}

/// Whether `keys` is in ascending order.
pub open spec fn is_sorted(keys: Seq<Seq<char>>) -> bool {
    sorted_by(keys, key_order())
}

/// `keys` in ascending order.
pub open spec fn sorted_keys(keys: Seq<Seq<char>>) -> Seq<Seq<char>> {
    keys.sort_by(key_order())
}

proof fn lemma_key_le_reflexive(a: Seq<char>)
    ensures
        key_le(a, a),
    decreases a.len(),
{
    if a.len() > 0 {
        lemma_key_le_reflexive(a.drop_first());
    }
}

proof fn lemma_key_le_antisymmetric(a: Seq<char>, b: Seq<char>)
    requires
        key_le(a, b),
        key_le(b, a),
    ensures
        a == b,
    decreases a.len(),
{
    if a.len() > 0 && b.len() > 0 {
        lemma_key_le_antisymmetric(a.drop_first(), b.drop_first());
        assert(b =~= seq![b[0]] + b.drop_first());
    }
}

proof fn lemma_key_le_transitive(a: Seq<char>, b: Seq<char>, c: Seq<char>)
    requires
        key_le(a, b),
        key_le(b, c),
    ensures
        key_le(a, c),
    decreases a.len(),
{
    if a.len() > 0 && a[0] == b[0] && b[0] == c[0] {
        lemma_key_le_transitive(a.drop_first(), b.drop_first(), c.drop_first());
    }
}

proof fn lemma_key_le_connected(a: Seq<char>, b: Seq<char>)
    ensures
        key_le(a, b) || key_le(b, a),
    decreases a.len(),
{
    if a.len() > 0 && b.len() > 0 && a[0] == b[0] {
        lemma_key_le_connected(a.drop_first(), b.drop_first());
    }
}

/// Two keys that start alike compare as what follows the common start.
pub proof fn lemma_common_start(start: Seq<char>, a: Seq<char>, b: Seq<char>)
    ensures
        key_le(start + a, start + b) <==> key_le(a, b),
    decreases start.len(),
{
    if start.len() > 0 {
        assert((start + a).drop_first() =~= start.drop_first() + a);
        assert((start + b).drop_first() =~= start.drop_first() + b);
        lemma_common_start(start.drop_first(), a, b);
    }
}

/// The lexicographic order is total: any two keys compare, and two keys that
/// compare both ways are the same key.
pub proof fn lemma_key_order_is_total()
    ensures
        total_ordering(key_order()),
{
    let r = key_order();
    assert forall|a: Seq<char>| #[trigger] r(a, a) by {
        lemma_key_le_reflexive(a);
    }
    assert forall|a: Seq<char>, b: Seq<char>| #[trigger] r(a, b) && #[trigger] r(b, a) implies a
        == b by {
        lemma_key_le_antisymmetric(a, b);
    }
    assert forall|a: Seq<char>, b: Seq<char>, c: Seq<char>| #[trigger] r(a, b) && #[trigger] r(
        b,
        c,
    ) implies r(a, c) by {
        lemma_key_le_transitive(a, b, c);
    }
    assert forall|a: Seq<char>, b: Seq<char>| #[trigger] r(a, b) || #[trigger] r(b, a) by {
        lemma_key_le_connected(a, b);
    }
}

/// Sorting keeps every key, with its number of occurrences, and puts the
/// keys in ascending order; no other sequence does both.
pub proof fn lemma_sorted_keys(keys: Seq<Seq<char>>)
    ensures
        sorted_keys(keys).to_multiset() == keys.to_multiset(),
        sorted_keys(keys).len() == keys.len(),
        is_sorted(sorted_keys(keys)),
        forall|key: Seq<char>| #[trigger] sorted_keys(keys).contains(key) <==> keys.contains(key),
        forall|other: Seq<Seq<char>>|
            is_sorted(other) && other.to_multiset() == keys.to_multiset() ==> other == sorted_keys(
                keys,
            ),
{
    lemma_key_order_is_total();
    keys.lemma_sort_by_ensures(key_order());
    keys.to_multiset_ensures();
    sorted_keys(keys).to_multiset_ensures();
    assert forall|key: Seq<char>| #[trigger]
        sorted_keys(keys).contains(key) <==> keys.contains(key) by {
        to_multiset_contains(keys, key);
        to_multiset_contains(sorted_keys(keys), key);
    }
    assert forall|other: Seq<Seq<char>>|
        is_sorted(other) && other.to_multiset() == keys.to_multiset() implies other == sorted_keys(
        keys,
    ) by {
        lemma_sorted_unique(other, sorted_keys(keys), key_order());
    }
}

/// Sorts `keys` in place with `slice::sort`, which orders strings by their
/// bytes. Believed of it, as std documents: the strings afterwards are those
/// before, each as often as before, in ascending order. For text in UTF-8 the
/// order of the bytes is the order of the characters.
#[verifier::external_body]
fn sort_strings(keys: &mut Vec<String>)
    ensures
        final(keys).deep_view().to_multiset() == old(keys).deep_view().to_multiset(),
        is_sorted(final(keys).deep_view()),
{
    keys.sort();
}

/// Puts `keys` in ascending order.
pub fn sort_keys(keys: &mut Vec<String>)
    ensures
        final(keys).deep_view() == sorted_keys(old(keys).deep_view()),
        final(keys).deep_view().to_multiset() == old(keys).deep_view().to_multiset(),
        final(keys).len() == old(keys).len(),
        is_sorted(final(keys).deep_view()),
{
    proof {
        lemma_sorted_keys(keys.deep_view());
    }
    sort_strings(keys);
}

} // verus!
