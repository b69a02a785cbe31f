//! Ordering by a four-part key.
//!
//! Everything the library sorts, it sorts by at most three numbers and, where
//! those tie, by an index: a total order, so that no result ever depends on
//! the order in which things happened to arrive.
use vstd::prelude::*;
use vstd::relations;

verus! {

/// What a sort compares: the three numbers in turn, then the index.
pub type Key = (i128, i128, i128, usize);

/// Lexicographic order on keys, equality included.
pub open spec fn key_le(a: Key, b: Key) -> bool {
    a.0 < b.0 || (a.0 == b.0 && (a.1 < b.1 || (a.1 == b.1 && (a.2 < b.2 || (a.2 == b.2 && a.3
        <= b.3)))))
}

/// Every key is at most every later one.
pub open spec fn in_order(keys: Seq<Key>) -> bool {
    forall|i: int, j: int| 0 <= i < j < keys.len() ==> key_le(#[trigger] keys[i], #[trigger] keys[j])
}

fn at_most(a: &Key, b: &Key) -> (r: bool)
    ensures
        r == key_le(*a, *b),
{
    if a.0 != b.0 {
        a.0 < b.0
    } else if a.1 != b.1 {
        a.1 < b.1
    } else if a.2 != b.2 {
        a.2 < b.2
    } else {
        a.3 <= b.3
    }
}

/// Insert `key` into an ordered list, keeping it ordered.
fn insert_ordered(keys: &mut Vec<Key>, key: Key)
    requires
        in_order(old(keys)@),
    ensures
        in_order(final(keys)@),
        final(keys)@.to_multiset() == old(keys)@.to_multiset().insert(key),
        final(keys)@.len() == old(keys)@.len() + 1,
{
    let ghost before = keys@;
    let mut at: usize = keys.len();
    while at > 0 && !at_most(&keys[at - 1], &key)
        invariant
            at <= keys@.len(),
            keys@ == before,
            in_order(before),
            forall|j: int| at <= j < before.len() ==> key_le(key, #[trigger] before[j]),
        decreases at,
    {
        at = at - 1;
    }
    keys.insert(at, key);
    proof {
        assert forall|i: int, j: int| 0 <= i < j < keys@.len() implies key_le(
            #[trigger] keys@[i],
            #[trigger] keys@[j],
        ) by {
            if at > 0 {
                assert(key_le(before[at - 1], key));
            }
            if j == at {
                if i < at - 1 {
                    assert(key_le(before[i], before[at - 1]));
                }
            }
        }
        before.to_multiset_ensures();
        keys@.to_multiset_ensures();
        assert(keys@ =~= before.insert(at as int, key));
        vstd::seq_lib::to_multiset_insert(before, at as int, key);
    }
}

/// The keys in order. A permutation of what was given.
pub fn sort(keys: Vec<Key>) -> (sorted: Vec<Key>)
    ensures
        in_order(sorted@),
        sorted@.to_multiset() == keys@.to_multiset(),
        sorted@.len() == keys@.len(),
{
    let mut out: Vec<Key> = Vec::new();
    let mut i: usize = 0;
    proof {
        assert(keys@.take(0) =~= Seq::<Key>::empty());
        assert(out@ =~= Seq::<Key>::empty());
    }
    while i < keys.len()
        invariant
            i <= keys@.len(),
            out@.len() == i,
            in_order(out@),
            out@.to_multiset() == keys@.take(i as int).to_multiset(),
        decreases keys.len() - i,
    {
        proof {
            keys@.take(i as int).to_multiset_ensures();
            assert(keys@.take(i + 1) =~= keys@.take(i as int).push(keys@[i as int]));
        }
        insert_ordered(&mut out, keys[i]);
        i = i + 1;
    }
    proof {
        assert(keys@.take(i as int) =~= keys@);
    }
    out
}

/// What stands in one of two permuted lists stands in the other.
pub proof fn lemma_also_in(a: Seq<Key>, b: Seq<Key>, i: int) -> (j: int)
    requires
        a.to_multiset() == b.to_multiset(),
        0 <= i < a.len(),
    ensures
        0 <= j < b.len(),
        b[j] == a[i],
{
    a.to_multiset_ensures();
    b.to_multiset_ensures();
    assert(a.contains(a[i]));
    assert(b.to_multiset().count(a[i]) > 0);
    b.index_of(a[i])
}

/// A permutation of a list without repeats is without repeats.
pub proof fn lemma_still_distinct(a: Seq<Key>, b: Seq<Key>)
    requires
        a.to_multiset() == b.to_multiset(),
        a.no_duplicates(),
    ensures
        b.no_duplicates(),
{
    a.lemma_multiset_has_no_duplicates();
    b.lemma_multiset_has_no_duplicates_conv();
}

/// Ordered keys are what sorting gives: there is one way to put keys in
/// order.
pub proof fn lemma_sorts(loose: Seq<Key>, tight: Seq<Key>)
    requires
        in_order(tight),
        loose.to_multiset() == tight.to_multiset(),
    ensures
        tight == loose.sort_by(|a: Key, b: Key| key_le(a, b)),
{
    let leq = |a: Key, b: Key| key_le(a, b);
    assert(relations::total_ordering(leq)) by {
        assert(relations::reflexive(leq));
        assert(relations::antisymmetric(leq));
        assert(relations::transitive(leq));
        assert(relations::strongly_connected(leq));
    }
    loose.lemma_sort_by_ensures(leq);
    vstd::seq_lib::lemma_sorted_unique(tight, loose.sort_by(leq), leq);
}

} // verus!
