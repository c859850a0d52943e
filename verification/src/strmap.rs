//! A map from texts to values that remembers in which order the texts first came.
use vstd::prelude::*;

use crate::text::{same_text, texts};

verus! {

/// A map whose keys are texts, each of which occurs once.
pub struct StrMap<V> {
    keys: Vec<String>,
    vals: Vec<V>,
}

impl<V> View for StrMap<V> {
    type V = Map<Seq<char>, V>;

    closed spec fn view(&self) -> Map<Seq<char>, V> {
        Map::new(
            |k: Seq<char>| texts(self.keys@).contains(k),
            |k: Seq<char>| self.vals@[texts(self.keys@).index_of(k)],
        )
    }
}

impl<V> StrMap<V> {
    /// The keys, in the order in which they first came.
    pub closed spec fn order(&self) -> Seq<Seq<char>> {
        texts(self.keys@)
    }

    /// Whether each key occurs once and has one value.
    pub closed spec fn wf(&self) -> bool {
        &&& self.keys@.len() == self.vals@.len()
        &&& texts(self.keys@).no_duplicates()
    }

    proof fn lemma_at(&self, i: int)
        requires
            self.wf(),
            0 <= i < self.keys@.len(),
        ensures
            self.order()[i] == self.keys@[i]@,
            self@.dom().contains(self.keys@[i]@),
            self@[self.keys@[i]@] == self.vals@[i],
    {
        let o = self.order();
        assert(o[i] == self.keys@[i]@);
        assert(o.contains(o[i]));
        let j = o.index_of(o[i]);
        assert(o[j] == o[i]);
        assert(j == i);
    }

    /// The keys of the order are those of the map, each once.
    pub proof fn lemma_order(&self)
        requires
            self.wf(),
        ensures
            self.order().no_duplicates(),
            forall|k: Seq<char>| #[trigger]
                self@.dom().contains(k) <==> self.order().contains(k),
    {
    }

    /// The empty map.
    pub fn new() -> (r: StrMap<V>)
        ensures
            r.wf(),
            r@ == Map::<Seq<char>, V>::empty(),
            r.order() == Seq::<Seq<char>>::empty(),
    {
        let r = StrMap { keys: Vec::new(), vals: Vec::new() };
        assert(texts(r.keys@) == Seq::<Seq<char>>::empty());
        assert(r@ == Map::<Seq<char>, V>::empty());
        r
    }

    /// How many keys there are.
    pub fn len(&self) -> (r: usize)
        requires
            self.wf(),
        ensures
            r == self.order().len(),
    {
        self.keys.len()
    }

    fn find(&self, key: &str) -> (r: Option<usize>)
        requires
            self.wf(),
        ensures
            match r {
                Some(i) => i < self.keys@.len() && self.keys@[i as int]@ == key@,
                None => !self.order().contains(key@),
            },
    {
        let mut i: usize = 0;
        while i < self.keys.len()
            invariant
                i <= self.keys@.len(),
                forall|j: int| 0 <= j < i ==> self.keys@[j]@ != key@,
            decreases self.keys@.len() - i,
        {
            if same_text(self.keys[i].as_str(), key) {
                return Some(i);
            }
            i = i + 1;
        }
        assert(!self.order().contains(key@)) by {
            let o = self.order();
            assert forall|j: int| 0 <= j < o.len() implies o[j] != key@ by {
                assert(o[j] == self.keys@[j]@);
            }
        }
        None
    }

    /// The value of a key.
    pub fn get(&self, key: &str) -> (r: Option<&V>)
        requires
            self.wf(),
        ensures
            match r {
                Some(v) => self@.dom().contains(key@) && *v == self@[key@],
                None => !self@.dom().contains(key@),
            },
    {
        match self.find(key) {
            Some(i) => {
                proof {
                    self.lemma_at(i as int);
                }
                Some(&self.vals[i])
            },
            None => None,
        }
    }

    /// The value of the key at position `i` of the order.
    pub fn value_at(&self, i: usize) -> (r: &V)
        requires
            self.wf(),
            i < self.order().len(),
        ensures
            *r == self@[self.order()[i as int]],
    {
        proof {
            self.lemma_at(i as int);
        }
        &self.vals[i]
    }

    /// The key at position `i` of the order.
    pub fn key_at(&self, i: usize) -> (r: &String)
        requires
            self.wf(),
            i < self.order().len(),
        ensures
            r@ == self.order()[i as int],
    {
        &self.keys[i]
    }

    /// Gives a key a value. A new key comes last in the order; a known one keeps its place.
    pub fn insert(&mut self, key: String, val: V)
        requires
            old(self).wf(),
        ensures
            final(self).wf(),
            final(self)@ == old(self)@.insert(key@, val),
            final(self).order() == (if old(self).order().contains(key@) {
                old(self).order()
            } else {
                old(self).order().push(key@)
            }),
    {
        match self.find(key.as_str()) {
            Some(i) => {
                proof {
                    self.lemma_at(i as int);
                }
                self.vals.set(i, val);
                proof {
                    assert(self.order() == old(self).order());
                    assert forall|k: Seq<char>| #[trigger] self@.dom().contains(k) implies self@[k]
                        == old(self)@.insert(key@, val)[k] by {
                        let j = self.order().index_of(k);
                        assert(self.order()[j] == k);
                        self.lemma_at(j);
                        old(self).lemma_at(j);
                        if j == i {
                            assert(k == key@);
                        } else {
                            assert(self.order()[i as int] == key@);
                        }
                    }
                    assert(self@ == old(self)@.insert(key@, val));
                }
            },
            None => {
                let ghost k0 = key@;
                self.keys.push(key);
                self.vals.push(val);
                proof {
                    let o = old(self).order();
                    assert(self.order() == o.push(k0));
                    assert(self.order().no_duplicates());
                    assert(self.order()[o.len() as int] == k0);
                    assert(self.wf());
                    assert forall|k: Seq<char>|
                        #![trigger self@.dom().contains(k)]
                        self@.dom().contains(k) <==> old(self)@.insert(k0, val).dom().contains(
                            k,
                        ) by {
                        if o.contains(k) {
                            let j = o.index_of(k);
                            assert(self.order()[j] == k);
                        }
                        if self.order().contains(k) && k != k0 {
                            let j = self.order().index_of(k);
                            assert(o[j] == k);
                        }
                    }
                    assert forall|k: Seq<char>| #[trigger] self@.dom().contains(k) implies self@[k]
                        == old(self)@.insert(k0, val)[k] by {
                        let j = self.order().index_of(k);
                        assert(self.order()[j] == k);
                        self.lemma_at(j);
                        if j < o.len() {
                            old(self).lemma_at(j);
                            assert(o[j] == k);
                        }
                    }
                    assert(self@ == old(self)@.insert(k0, val));
                }
            },
        }
    }

    /// Takes a key out, and gives its value.
    pub fn remove(&mut self, key: &str) -> (r: Option<V>)
        requires
            old(self).wf(),
        ensures
            final(self).wf(),
            final(self)@ == old(self)@.remove(key@),
            match r {
                Some(v) => {
                    &&& old(self)@.dom().contains(key@)
                    &&& v == old(self)@[key@]
                    &&& final(self).order() == old(self).order().remove(
                        old(self).order().index_of(key@),
                    )
                },
                None => !old(self)@.dom().contains(key@) && final(self).order() == old(
                    self,
                ).order(),
            },
    {
        match self.find(key) {
            Some(i) => {
                proof {
                    self.lemma_at(i as int);
                }
                let _key: String = self.keys.remove(i);
                let val: V = self.vals.remove(i);
                proof {
                    let o = old(self).order();
                    assert(o[i as int] == key@);
                    assert(o.index_of(key@) == i);
                    assert(self.order() == o.remove(i as int));
                    assert(self.order().no_duplicates());
                    assert(self.wf());
                    assert forall|k: Seq<char>|
                        #![trigger self@.dom().contains(k)]
                        self@.dom().contains(k) <==> old(self)@.remove(key@).dom().contains(k) by {
                        if self.order().contains(k) {
                            let j = self.order().index_of(k);
                            assert(self.order()[j] == k);
                            if j < i {
                                assert(o[j] == k);
                            } else {
                                assert(o[j + 1] == k);
                            }
                        }
                        if o.contains(k) && k != key@ {
                            let j = o.index_of(k);
                            if j < i {
                                assert(self.order()[j] == k);
                            } else {
                                assert(self.order()[j - 1] == k);
                            }
                        }
                    }
                    assert forall|k: Seq<char>| #[trigger] self@.dom().contains(k) implies self@[k]
                        == old(self)@.remove(key@)[k] by {
                        let j = self.order().index_of(k);
                        assert(self.order()[j] == k);
                        self.lemma_at(j);
                        if j < i {
                            assert(o[j] == k);
                            old(self).lemma_at(j);
                        } else {
                            assert(o[j + 1] == k);
                            old(self).lemma_at(j + 1);
                        }
                    }
                    assert(self@ == old(self)@.remove(key@));
                }
                Some(val)
            },
            None => {
                assert(self@ == old(self)@.remove(key@));
                None
            },
        }
    }
}

}
