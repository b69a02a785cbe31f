//! A map keyed by text that remembers the order its keys came in.
use vstd::prelude::*;
use vstd::string::*;

verus! {

/// A map from texts to values. No key occurs twice, and a key keeps its place
/// for as long as it stays.
#[derive(Debug)]
pub struct Book<V> {
    keys: Vec<String>,
    values: Vec<V>,
}

/// The texts of a list of keys.
pub open spec fn texts(keys: Seq<String>) -> Seq<Seq<char>> {
    keys.map_values(|k: String| k@)
}

/// A list of texts without one of them.
pub open spec fn without(order: Seq<Seq<char>>, key: Seq<char>) -> Seq<Seq<char>> {
    order.filter(|k: Seq<char>| k != key)
}

impl<V> Book<V> {
    #[verifier::type_invariant]
    spec fn wf(self) -> bool {
        &&& self.keys@.len() == self.values@.len()
        &&& texts(self.keys@).no_duplicates()
    }

    /// The keys, in the order they came.
    pub closed spec fn order(self) -> Seq<Seq<char>> {
        texts(self.keys@)
    }

    /// Nothing stands in it.
    pub fn new() -> (b: Self)
        ensures
            b@ == Map::<Seq<char>, V>::empty(),
            b.order() == Seq::<Seq<char>>::empty(),
    {
        let b: Self = Book { keys: Vec::new(), values: Vec::new() };
        assert(b@ =~= Map::<Seq<char>, V>::empty());
        b
    }

    /// How many keys there are: those of the map, each once.
    pub fn len(&self) -> (n: usize)
        ensures
            n == self@.len(),
            n == self.order().len(),
            self.order().no_duplicates(),
            self@.dom().finite(),
            forall|k: Seq<char>| self.order().contains(k) <==> #[trigger] self@.contains_key(k),
    {
        proof {
            use_type_invariant(self);
            let order = self.order();
            order.unique_seq_to_set();
            assert(self@.dom() =~= order.to_set());
        }
        self.keys.len()
    }

    /// Where a key stands.
    fn find(&self, key: &str) -> (r: Option<usize>)
        ensures
            match r {
                Some(i) => i < self.keys@.len() && self.keys@[i as int]@ == key@,
                None => !self.order().contains(key@),
            },
    {
        let n: usize = self.keys.len();
        let mut i: usize = 0;
        while i < n
            invariant
                i <= n,
                n == self.keys@.len(),
                forall|j: int| 0 <= j < i ==> #[trigger] self.keys@[j]@ != key@,
            decreases n - i,
        {
            if self.keys[i].as_str().eq(key) {
                return Some(i);
            }
            i = i + 1;
        }
        None
    }

    /// A key stands where it stands and holds what stands there.
    proof fn lemma_at(self, i: int)
        requires
            self.wf(),
            0 <= i < self.keys@.len(),
        ensures
            self.order()[i] == self.keys@[i]@,
            self.order().contains(self.keys@[i]@),
            self.order().index_of(self.keys@[i]@) == i,
            self@.contains_key(self.keys@[i]@),
            self@[self.keys@[i]@] == self.values@[i],
    {
        assert(self.order()[i] == self.keys@[i]@);
    }

    /// A new value where a key stands is that key's value.
    proof fn lemma_set(self, after: Self, i: int, v: V)
        requires
            self.wf(),
            0 <= i < self.keys@.len(),
            after.keys == self.keys,
            after.values@ == self.values@.update(i, v),
        ensures
            after@ == self@.insert(self.keys@[i]@, v),
            after.order() == self.order(),
    {
        self.lemma_at(i);
        assert(after@ =~= self@.insert(self.keys@[i]@, v)) by {
            assert forall|k: Seq<char>| self.order().contains(k) && k != self.keys@[i]@ implies
                after@[k] == self@[k] by {
                assert(self.order()[self.order().index_of(k)] == k);
            }
        }
    }

    pub fn get(&self, key: &str) -> (r: Option<&V>)
        ensures
            match r {
                Some(v) => self@.contains_key(key@) && *v == self@[key@],
                None => !self@.contains_key(key@),
            },
    {
        proof {
            use_type_invariant(self);
        }
        match self.find(key) {
            Some(i) => {
                proof {
                    self.lemma_at(i as int);
                }
                Some(&self.values[i])
            },
            None => None,
        }
    }

    /// The key and the value at a place.
    pub fn at(&self, i: usize) -> (r: (&str, &V))
        requires
            i < self.order().len(),
        ensures
            r.0@ == self.order()[i as int],
            self@.contains_key(r.0@),
            *r.1 == self@[r.0@],
    {
        proof {
            use_type_invariant(self);
            self.lemma_at(i as int);
        }
        (self.keys[i].as_str(), &self.values[i])
    }

    pub fn get_mut(&mut self, key: &str) -> (r: Option<&mut V>)
        ensures
            match r {
                Some(v) => old(self)@.contains_key(key@) && *v == old(self)@[key@] && final(self)@
                    == old(self)@.insert(key@, *final(v)) && final(self).order() == old(
                    self,
                ).order(),
                None => !old(self)@.contains_key(key@) && *final(self) == *old(self),
            },
    {
        proof {
            use_type_invariant(&*self);
        }
        match self.find(key) {
            Some(i) => {
                proof {
                    self.lemma_at(i as int);
                }
                let ghost before = *old(self);
                assert forall|after: Self, v: V|
                    after.keys == before.keys && after.values@ == before.values@.update(
                        i as int,
                        v,
                    ) implies #[trigger] before@.insert(key@, v) == #[trigger] after@
                    && after.order() == before.order() by {
                    before.lemma_set(after, i as int, v);
                }
                Some(&mut self.values[i])
            },
            None => None,
        }
    }

    /// A key that stands already keeps its place and gets a new value.
    pub fn insert(&mut self, key: String, value: V)
        ensures
            final(self)@ == old(self)@.insert(key@, value),
            final(self).order() == (if old(self)@.contains_key(key@) {
                old(self).order()
            } else {
                old(self).order().push(key@)
            }),
    {
        proof {
            use_type_invariant(&*self);
        }
        let ghost before = *self;
        let found: Option<usize> = self.find(key.as_str());
        let mut whole: Self = Book::new();
        std::mem::swap(&mut whole, self);
        let Book { mut keys, mut values } = whole;
        match found {
            Some(i) => {
                values.set(i, value);
                *self = Book { keys, values };
                proof {
                    before.lemma_at(i as int);
                    before.lemma_set(*self, i as int, value);
                }
            },
            None => {
                let ghost n = keys@.len();
                keys.push(key);
                values.push(value);
                assert(texts(keys@) =~= before.order().push(key@));
                assert(texts(keys@).no_duplicates());
                *self = Book { keys, values };
                proof {
                    assert forall|k: Seq<char>| before.order().contains(k) implies self@[k]
                        == before@[k] && self.order().contains(k) by {
                        let i = before.order().index_of(k);
                        before.lemma_at(i);
                        assert(self.keys@[i] == before.keys@[i]);
                        self.lemma_at(i);
                    }
                    self.lemma_at(n as int);
                    assert(self@ =~= before@.insert(key@, value));
                }
            },
        }
    }

    pub fn remove(&mut self, key: &str)
        ensures
            final(self)@ == old(self)@.remove(key@),
            final(self).order() == without(old(self).order(), key@),
    {
        proof {
            use_type_invariant(&*self);
        }
        let ghost before = *self;
        match self.find(key) {
            Some(i) => {
                let mut whole: Self = Book::new();
                std::mem::swap(&mut whole, self);
                let Book { mut keys, mut values } = whole;
                keys.remove(i);
                values.remove(i);
                let ghost place = i as int;
                proof {
                    assert(keys@ =~= before.keys@.remove(place));
                    assert(values@ =~= before.values@.remove(place));
                    lemma_dropped(before.order(), place);
                    assert(texts(keys@) =~= before.order().remove(place));
                    assert(before.order()[place] == key@);
                }
                *self = Book { keys, values };
                proof {
                    before.lemma_at(place);
                    assert forall|k: Seq<char>| before.order().contains(k) && k != key@ implies
                        self@[k] == before@[k] && self.order().contains(k) by {
                        let j = before.order().index_of(k);
                        before.lemma_at(j);
                        let to = if j < place { j } else { j - 1 };
                        assert(self.keys@[to] == before.keys@[j]);
                        self.lemma_at(to);
                    }
                    assert forall|k: Seq<char>| self.order().contains(k) implies
                        before.order().contains(k) && k != key@ by {
                        let to = self.order().index_of(k);
                        let j = if to < place { to } else { to + 1 };
                        assert(before.order()[j] == k);
                    }
                    assert(self@ =~= before@.remove(key@));
                }
            },
            None => {
                proof {
                    assert(before@.remove(key@) =~= before@);
                    lemma_all_kept(before.order(), key@);
                }
            },
        }
    }
}

/// Leaving out one of several distinct texts leaves the others as they were.
proof fn lemma_dropped(order: Seq<Seq<char>>, i: int)
    requires
        order.no_duplicates(),
        0 <= i < order.len(),
    ensures
        order.remove(i) == without(order, order[i]),
        order.remove(i).no_duplicates(),
    decreases order.len(),
{
    reveal(Seq::filter);
    let rest = order.drop_last();
    if i == order.len() - 1 {
        lemma_all_kept(rest, order[i]);
        assert(order.remove(i) =~= rest);
    } else {
        lemma_dropped(rest, i);
        assert(order.remove(i) =~= rest.remove(i).push(order.last()));
        assert(without(order, order[i]) == without(rest, order[i]).push(order.last()));
    }
}

/// Leaving out a text that is not there changes nothing.
proof fn lemma_all_kept(order: Seq<Seq<char>>, key: Seq<char>)
    requires
        !order.contains(key),
    ensures
        without(order, key) == order,
    decreases order.len(),
{
    reveal(Seq::filter);
    if order.len() > 0 {
        assert(order.last() != key);
        lemma_all_kept(order.drop_last(), key);
        assert(order.drop_last().push(order.last()) =~= order);
    }
}

impl<V> View for Book<V> {
    type V = Map<Seq<char>, V>;

    closed spec fn view(&self) -> Map<Seq<char>, V> {
        Map::new(
            |k: Seq<char>| self.order().contains(k),
            |k: Seq<char>| self.values@[self.order().index_of(k)],
        )
    }
}

} // verus!
