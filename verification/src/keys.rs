//! The set of translation keys found in the scanned sources.
//!
//! A `KeySet` holds each key once and keeps the keys in ascending order, so
//! that the same sources always give the same sequence of keys whatever the
//! order in which they were scanned.

use vstd::prelude::*;
use crate::text::{lemma_irreflexive, lemma_total, lemma_transitive, precedes, str_eq, str_precedes};

verus! {

/// The character sequences of a sequence of strings.
pub open spec fn views(strings: Seq<String>) -> Seq<Seq<char>> {
    strings.map_values(|s: String| s@)
}

/// Every element precedes all the elements after it.
pub open spec fn strictly_sorted(keys: Seq<Seq<char>>) -> bool {
    forall|i: int, j: int| 0 <= i < j < keys.len() ==> precedes(#[trigger] keys[i], #[trigger] keys[j])
}

/// A strictly sorted sequence holds no element twice.
pub proof fn lemma_sorted_distinct(keys: Seq<Seq<char>>)
    requires
        strictly_sorted(keys),
    ensures
        keys.no_duplicates(),
        keys.to_set().len() == keys.len(),
{
    assert forall|i: int, j: int| 0 <= i < keys.len() && 0 <= j < keys.len() && i != j implies keys[i]
        != keys[j] by {
        lemma_irreflexive(keys[i]);
        if i < j {
            assert(precedes(keys[i], keys[j]));
        } else {
            assert(precedes(keys[j], keys[i]));
        }
    }
    keys.unique_seq_to_set();
}

/// Two strictly sorted sequences with the same elements are the same sequence.
pub proof fn lemma_sorted_unique(a: Seq<Seq<char>>, b: Seq<Seq<char>>)
    requires
        strictly_sorted(a),
        strictly_sorted(b),
        a.to_set() == b.to_set(),
    ensures
        a == b,
    decreases a.len(),
{
    lemma_sorted_distinct(a);
    lemma_sorted_distinct(b);
    if a.len() == 0 {
        assert(a =~= b);
    } else {
        let x = a.last();
        let y = b.last();
        assert(a.to_set().contains(x));
        assert(b.contains(x));
        assert(b.to_set().contains(y));
        assert(a.contains(y));
        let i = choose|i: int| 0 <= i < b.len() && b[i] == x;
        let j = choose|j: int| 0 <= j < a.len() && a[j] == y;
        if x != y {
            // x sits before y in b, and y before x in a
            assert(precedes(b[i], b[b.len() - 1]));
            assert(precedes(a[j], a[a.len() - 1]));
            lemma_transitive(x, y, x);
            lemma_irreflexive(x);
        }
        let a0 = a.drop_last();
        let b0 = b.drop_last();
        assert forall|k: Seq<char>| a0.to_set().contains(k) == b0.to_set().contains(k) by {
            if a0.contains(k) {
                let p = choose|p: int| 0 <= p < a0.len() && a0[p] == k;
                assert(a[p] == k);
                assert(a.to_set().contains(k));
                assert(b.contains(k));
                let q = choose|q: int| 0 <= q < b.len() && b[q] == k;
                assert(q != b.len() - 1);
                assert(b0[q] == k);
            }
            if b0.contains(k) {
                let p = choose|p: int| 0 <= p < b0.len() && b0[p] == k;
                assert(b[p] == k);
                assert(b.to_set().contains(k));
                assert(a.contains(k));
                let q = choose|q: int| 0 <= q < a.len() && a[q] == k;
                assert(q != a.len() - 1);
                assert(a0[q] == k);
            }
        }
        assert(a0.to_set() =~= b0.to_set());
        lemma_sorted_unique(a0, b0);
        assert(a =~= a0.push(x));
        assert(b =~= b0.push(y));
    }
}

/// An ordered set of keys.
#[derive(Debug)]
pub struct KeySet {
    keys: Vec<String>,
}

impl View for KeySet {
    type V = Set<Seq<char>>;

    /// The keys as a mathematical set.
    open spec fn view(&self) -> Set<Seq<char>> {
        self.ordered().to_set()
    }
}

impl KeySet {
    /// The keys in the order in which the set hands them out.
    pub closed spec fn ordered(&self) -> Seq<Seq<char>> {
        views(self.keys@)
    }

    /// The keys are in strictly ascending order.
    #[verifier::type_invariant]
    pub open spec fn wf(&self) -> bool {
        strictly_sorted(self.ordered())
    }

    /// The empty set.
    pub fn new() -> (r: KeySet)
        ensures
            r.ordered() == Seq::<Seq<char>>::empty(),
            r@ == Set::<Seq<char>>::empty(),
    {
        let r = KeySet { keys: Vec::new() };
        assert(r.ordered() =~= Seq::<Seq<char>>::empty());
        assert(r@ =~= Set::<Seq<char>>::empty());
        r
    }

    /// The number of keys.
    pub fn len(&self) -> (n: usize)
        ensures
            n == self.ordered().len(),
            n == self@.len(),
            self.wf(),
    {
        proof {
            use_type_invariant(self);
            lemma_sorted_distinct(self.ordered());
        }
        self.keys.len()
    }

    /// Whether the set holds no key.
    pub fn is_empty(&self) -> (r: bool)
        ensures
            r == (self.ordered().len() == 0),
            r == (self@ == Set::<Seq<char>>::empty()),
    {
        proof {
            if self.ordered().len() == 0 {
                assert(self@ =~= Set::<Seq<char>>::empty());
            } else {
                assert(self@.contains(self.ordered()[0]));
            }
        }
        self.keys.len() == 0
    }

    /// The keys in ascending order.
    pub fn keys(&self) -> (r: &Vec<String>)
        ensures
            views(r@) == self.ordered(),
            strictly_sorted(self.ordered()),
    {
        proof {
            use_type_invariant(self);
        }
        &self.keys
    }

    /// The index of the first key that does not precede `key`.
    fn lower_bound(&self, key: &str) -> (at: usize)
        ensures
            at <= self.ordered().len(),
            forall|j: int| 0 <= j < at ==> precedes(#[trigger] self.ordered()[j], key@),
            forall|j: int| at <= j < self.ordered().len() ==> !precedes(#[trigger] self.ordered()[j], key@),
    {
        proof {
            use_type_invariant(self);
        }
        let mut low: usize = 0;
        let mut high: usize = self.keys.len();
        while low < high
            invariant
                0 <= low <= high <= self.keys.len(),
                strictly_sorted(self.ordered()),
                self.ordered() == views(self.keys@),
                forall|j: int| 0 <= j < low ==> precedes(#[trigger] self.ordered()[j], key@),
                forall|j: int| high <= j < self.ordered().len() ==> !precedes(#[trigger] self.ordered()[j], key@),
            decreases high - low,
        {
            let middle: usize = low + (high - low) / 2;
            if str_precedes(self.keys[middle].as_str(), key) {
                proof {
                    assert forall|j: int| 0 <= j < middle + 1 implies precedes(
                        #[trigger] self.ordered()[j],
                        key@,
                    ) by {
                        if j < middle {
                            assert(precedes(self.ordered()[j], self.ordered()[middle as int]));
                            lemma_transitive(self.ordered()[j], self.ordered()[middle as int], key@);
                        }
                    }
                }
                low = middle + 1;
            } else {
                proof {
                    assert forall|j: int| middle <= j < self.ordered().len() implies !precedes(
                        #[trigger] self.ordered()[j],
                        key@,
                    ) by {
                        if j > middle && precedes(self.ordered()[j], key@) {
                            assert(precedes(self.ordered()[middle as int], self.ordered()[j]));
                            lemma_transitive(self.ordered()[middle as int], self.ordered()[j], key@);
                        }
                    }
                }
                high = middle;
            }
        }
        low
    }

    /// Whether `key` is in the set.
    pub fn contains(&self, key: &str) -> (r: bool)
        ensures
            r == self@.contains(key@),
    {
        proof {
            use_type_invariant(self);
        }
        let at = self.lower_bound(key);
        let found = at < self.keys.len() && str_eq(self.keys[at].as_str(), key);
        proof {
            lemma_found_at_bound(self.ordered(), key@, at as int);
        }
        found
    }

    /// Adds `key` to the set. Returns whether the set did not hold it before.
    pub fn insert(&mut self, key: String) -> (added: bool)
        ensures
            final(self)@ == old(self)@.insert(key@),
            added == !old(self)@.contains(key@),
            final(self).wf(),
    {
        proof {
            use_type_invariant(&*self);
        }
        let at = self.lower_bound(key.as_str());
        let found = at < self.keys.len() && str_eq(self.keys[at].as_str(), key.as_str());
        proof {
            lemma_found_at_bound(self.ordered(), key@, at as int);
        }
        if found {
            assert(self@.insert(key@) =~= self@);
            false
        } else {
            proof {
                lemma_insert_at_bound(self.ordered(), key@, at as int);
                assert(views(self.keys@.insert(at as int, key)) =~= self.ordered().insert(at as int, key@));
            }
            let mut keys: Vec<String> = Vec::new();
            assert(views(keys@) =~= Seq::<Seq<char>>::empty());
            core::mem::swap(&mut self.keys, &mut keys);
            keys.insert(at, key);
            self.keys = keys;
            true
        }
    }

    /// Adds every key of `other` to the set.
    pub fn extend(&mut self, other: &KeySet)
        ensures
            final(self)@ == old(self)@.union(other@),
            final(self).wf(),
    {
        proof {
            use_type_invariant(&*self);
        }
        let mut i: usize = 0;
        while i < other.keys.len()
            invariant
                0 <= i <= other.keys.len(),
                self.wf(),
                self@ == old(self)@.union(views(other.keys@).take(i as int).to_set()),
            decreases other.keys.len() - i,
        {
            let key = other.keys[i].clone();
            proof {
                let seen = views(other.keys@).take(i as int);
                let next = views(other.keys@).take(i + 1);
                assert(next =~= seen.push(key@));
                seen.lemma_push_to_set_commute(key@);
                assert(old(self)@.union(seen.to_set()).insert(key@) =~= old(self)@.union(next.to_set()));
            }
            self.insert(key);
            i += 1;
        }
        proof {
            assert(views(other.keys@).take(i as int) =~= other.ordered());
        }
    }
}

/// Sets with the same keys hand them out in the same order: the order does
/// not depend on how a set was filled.
pub proof fn lemma_same_keys_same_order(a: KeySet, b: KeySet)
    requires
        a.wf(),
        b.wf(),
        a@ == b@,
    ensures
        a.ordered() == b.ordered(),
{
    lemma_sorted_unique(a.ordered(), b.ordered());
}

/// In a strictly sorted sequence `key` can only stand at its lower bound.
proof fn lemma_found_at_bound(keys: Seq<Seq<char>>, key: Seq<char>, at: int)
    requires
        strictly_sorted(keys),
        0 <= at <= keys.len(),
        forall|j: int| 0 <= j < at ==> precedes(#[trigger] keys[j], key),
        forall|j: int| at <= j < keys.len() ==> !precedes(#[trigger] keys[j], key),
    ensures
        keys.to_set().contains(key) <==> (at < keys.len() && keys[at] == key),
{
    if keys.contains(key) {
        let p = choose|p: int| 0 <= p < keys.len() && keys[p] == key;
        lemma_irreflexive(key);
        if p < at {
            assert(precedes(keys[p], key));
        } else if p > at {
            assert(precedes(keys[at], keys[p]));
            assert(!precedes(keys[at], key));
        }
    }
    if at < keys.len() && keys[at] == key {
        assert(keys.contains(key));
    }
}

/// Putting a new key at its lower bound keeps the sequence strictly sorted
/// and adds the key to its elements.
proof fn lemma_insert_at_bound(keys: Seq<Seq<char>>, key: Seq<char>, at: int)
    requires
        strictly_sorted(keys),
        0 <= at <= keys.len(),
        forall|j: int| 0 <= j < at ==> precedes(#[trigger] keys[j], key),
        forall|j: int| at <= j < keys.len() ==> !precedes(#[trigger] keys[j], key),
        !keys.to_set().contains(key),
    ensures
        strictly_sorted(keys.insert(at, key)),
        keys.insert(at, key).to_set() == keys.to_set().insert(key),
{
    let grown = keys.insert(at, key);
    assert forall|j: int| at <= j < keys.len() implies precedes(key, #[trigger] keys[j]) by {
        assert(keys.contains(keys[j]));
        lemma_total(key, keys[j]);
    }
    assert forall|i: int, j: int| 0 <= i < j < grown.len() implies precedes(
        #[trigger] grown[i],
        #[trigger] grown[j],
    ) by {
        if j < at {
            assert(grown[i] == keys[i] && grown[j] == keys[j]);
        } else if j == at {
            assert(grown[i] == keys[i]);
        } else if i < at {
            assert(grown[i] == keys[i] && grown[j] == keys[j - 1]);
            lemma_transitive(keys[i], key, keys[j - 1]);
        } else if i == at {
            assert(grown[j] == keys[j - 1]);
        } else {
            assert(grown[i] == keys[i - 1] && grown[j] == keys[j - 1]);
        }
    }
    assert forall|k: Seq<char>| grown.to_set().contains(k) == keys.to_set().insert(key).contains(
        k,
    ) by {
        if grown.contains(k) {
            let p = choose|p: int| 0 <= p < grown.len() && grown[p] == k;
            if p < at {
                assert(keys[p] == k);
            } else if p > at {
                assert(keys[p - 1] == k);
            }
        }
        if keys.contains(k) {
            let p = choose|p: int| 0 <= p < keys.len() && keys[p] == k;
            if p < at {
                assert(grown[p] == k);
            } else {
                assert(grown[p + 1] == k);
            }
        }
        if k == key {
            assert(grown[at] == k);
        }
    }
    assert(grown.to_set() =~= keys.to_set().insert(key));
}

} // verus!
