//! Sorting by the bytes of a key.

use crate::bytes::{lex_less, lex_less_irreflexive, lex_less_transitive, lex_less_trichotomy};
use std::cmp::Ordering;
use vstd::prelude::*;
use vstd::seq_lib::*;

verus! {

/// Something that is ordered by the bytes of a key.
pub trait Keyed {
    /// The key.
    spec fn key(&self) -> Seq<u8>;

    /// Whether the key is below that of another.
    fn below(&self, other: &Self) -> (r: bool)
        ensures
            r == lex_less(self.key(), other.key()),
    ;
}

/// How the key of one item stands to that of another.
pub fn order_keys<T: Keyed>(a: &T, b: &T) -> (order: Ordering)
    ensures
        order is Less <==> lex_less(a.key(), b.key()),
        order is Greater <==> lex_less(b.key(), a.key()),
        order is Equal <==> a.key() == b.key(),
{
    proof {
        lex_less_trichotomy(a.key(), b.key());
        lex_less_irreflexive(a.key());
    }
    if a.below(b) {
        proof {
            lex_less_irreflexive(a.key());
            if lex_less(b.key(), a.key()) {
                lex_less_transitive(a.key(), b.key(), a.key());
            }
        }
        Ordering::Less
    } else if b.below(a) {
        proof {
            lex_less_irreflexive(b.key());
        }
        Ordering::Greater
    } else {
        Ordering::Equal
    }
}

/// No item is below an earlier one.
pub open spec fn keys_in_order<T: Keyed>(items: Seq<T>) -> bool {
    forall|i: int, j: int|
        0 <= i < j < items.len() ==> !lex_less((#[trigger] items[j]).key(), (#[trigger] items[i]).key())
}

/// `sort_by` of std's slices, on the order of the keys: the same items, none of them below an
/// earlier one. That the sort keeps items of one key in their order is not claimed.
#[verifier::external_body]
pub(crate) fn sort_keyed<T: Keyed>(items: &mut Vec<T>)
    ensures
        final(items)@.to_multiset() == old(items)@.to_multiset(),
        keys_in_order(final(items)@),
{
    items.sort_by(|a, b| order_keys(a, b));
}

/// Items in another order are the same items.
pub proof fn reordered_items<T>(a: Seq<T>, b: Seq<T>)
    requires
        a.to_multiset() == b.to_multiset(),
    ensures
        a.len() == b.len(),
        forall|item: T| #[trigger] a.contains(item) == b.contains(item),
{
    broadcast use group_to_multiset_ensures;

    assert(a.to_multiset().len() == a.len());
    assert(b.to_multiset().len() == b.len());
    assert forall|item: T| #[trigger] a.contains(item) == b.contains(item) by {
        assert(a.contains(item) == (a.to_multiset().count(item) > 0));
        assert(b.contains(item) == (b.to_multiset().count(item) > 0));
    }
}

/// No two items have one key.
pub open spec fn keys_differ<T: Keyed>(items: Seq<T>) -> bool {
    forall|i: int, j: int| 0 <= i < j < items.len() ==> (#[trigger] items[i]).key() != (#[trigger] items[j]).key()
}

/// Items whose keys differ have different keys in any order.
pub proof fn keys_differ_in_any_order<T: Keyed>(items: Seq<T>, others: Seq<T>)
    requires
        items.to_multiset() == others.to_multiset(),
        keys_differ(items),
    ensures
        keys_differ(others),
{
    reordered_items(items, others);
    assert forall|i: int, j: int| 0 <= i < items.len() && 0 <= j < items.len() && i != j implies items[i] != items[j] by {
        if i < j {
            assert(items[i].key() != items[j].key());
        } else {
            assert(items[j].key() != items[i].key());
        }
    }
    assert(items.no_duplicates());
    items.lemma_multiset_has_no_duplicates();
    others.lemma_multiset_has_no_duplicates_conv();
    assert forall|i: int, j: int| 0 <= i < j < others.len() implies (#[trigger] others[i]).key() != (#[trigger] others[j]).key() by {
        assert(others.contains(others[i]) && others.contains(others[j]));
        assert(items.contains(others[i]) && items.contains(others[j]));
        let a = choose|a: int| 0 <= a < items.len() && items[a] == others[i];
        let b = choose|b: int| 0 <= b < items.len() && items[b] == others[j];
        assert(others[i] != others[j]);
        if a < b {
            assert(items[a].key() != items[b].key());
        } else {
            assert(items[b].key() != items[a].key());
        }
    }
}

/// Items whose keys differ, once in order, are in strictly ascending order.
pub proof fn sorted_keys_ascend<T: Keyed>(items: Seq<T>, sorted: Seq<T>)
    requires
        items.to_multiset() == sorted.to_multiset(),
        keys_differ(items),
        keys_in_order(sorted),
    ensures
        forall|i: int, j: int|
            0 <= i < j < sorted.len() ==> lex_less((#[trigger] sorted[i]).key(), (#[trigger] sorted[j]).key()),
{
    keys_differ_in_any_order(items, sorted);
    assert forall|i: int, j: int| 0 <= i < j < sorted.len() implies lex_less(
        (#[trigger] sorted[i]).key(),
        (#[trigger] sorted[j]).key(),
    ) by {
        assert(sorted[i].key() != sorted[j].key());
        lex_less_trichotomy(sorted[i].key(), sorted[j].key());
    }
}

/// Items are in strictly ascending order of a key.
pub open spec fn ascends_by<A>(items: Seq<A>, key: spec_fn(A) -> Seq<u8>) -> bool {
    forall|i: int, j: int| 0 <= i < j < items.len() ==> lex_less(key(#[trigger] items[i]), key(#[trigger] items[j]))
}

/// Two ascending lists of the same items are the same list.
pub proof fn ascending_list_is_unique<A>(a: Seq<A>, b: Seq<A>, key: spec_fn(A) -> Seq<u8>)
    requires
        ascends_by(a, key),
        ascends_by(b, key),
        forall|item: A| #[trigger] a.contains(item) == b.contains(item),
    ensures
        a == b,
    decreases a.len(),
{
    if a.len() == 0 {
        if b.len() > 0 {
            assert(b.contains(b[0]));
            assert(a.contains(b[0]));
        }
        assert(a =~= b);
    } else {
        assert(a.contains(a.last()));
        assert(b.contains(a.last()));
        assert(b.contains(b.last()));
        assert(a.contains(b.last()));
        let i = choose|i: int| 0 <= i < b.len() && b[i] == a.last();
        let j = choose|j: int| 0 <= j < a.len() && a[j] == b.last();
        if i < b.len() - 1 {
            assert(lex_less(key(b[i]), key(b[b.len() - 1])));
            if j < a.len() - 1 {
                assert(lex_less(key(a[j]), key(a[a.len() - 1])));
                lex_less_transitive(key(a.last()), key(b.last()), key(a.last()));
            }
            lex_less_irreflexive(key(a.last()));
        }
        assert(a.last() == b.last());
        let last = a.last();
        let shorter_a = a.drop_last();
        let shorter_b = b.drop_last();
        assert forall|item: A| #[trigger] shorter_a.contains(item) implies shorter_b.contains(item) by {
            dropped_member(a, b, key, item);
        }
        assert forall|item: A| #[trigger] shorter_b.contains(item) implies shorter_a.contains(item) by {
            dropped_member(b, a, key, item);
        }
        ascending_list_is_unique(shorter_a, shorter_b, key);
        assert(a =~= shorter_a.push(last));
        assert(b =~= shorter_b.push(last));
    }
}

proof fn dropped_member<A>(a: Seq<A>, b: Seq<A>, key: spec_fn(A) -> Seq<u8>, item: A)
    requires
        a.len() > 0,
        b.len() > 0,
        a.last() == b.last(),
        ascends_by(a, key),
        a.drop_last().contains(item),
        forall|member: A| #[trigger] a.contains(member) ==> b.contains(member),
    ensures
        b.drop_last().contains(item),
{
    let k = choose|k: int| 0 <= k < a.drop_last().len() && a.drop_last()[k] == item;
    assert(a[k] == item);
    assert(a.contains(item));
    assert(b.contains(item));
    let m = choose|m: int| 0 <= m < b.len() && b[m] == item;
    if m == b.len() - 1 {
        assert(lex_less(key(a[k]), key(a[a.len() - 1])));
        lex_less_irreflexive(key(item));
    }
    assert(b.drop_last()[m] == item);
}

} // verus!
