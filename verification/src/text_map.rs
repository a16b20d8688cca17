//! A map from texts to values, in the order in which the keys came.
use vstd::prelude::*;

use crate::text::same_text;

verus! {

/// Key and value pairs, each key once.
pub struct TextMap<V> {
    keys: Vec<String>,
    values: Vec<V>,
}

impl<V> View for TextMap<V> {
    type V = Map<Seq<char>, V>;

    closed spec fn view(&self) -> Map<Seq<char>, V> {
        Map::new(|key: Seq<char>| self.has(key), |key: Seq<char>| self.values@[self.index(key)])
    }
}

impl<V> TextMap<V> {
    spec fn is_at(&self, i: int, key: Seq<char>) -> bool {
        0 <= i < self.keys@.len() && self.keys@[i]@ == key
    }

    spec fn has(&self, key: Seq<char>) -> bool {
        exists|i: int| self.is_at(i, key)
    }

    spec fn index(&self, key: Seq<char>) -> int {
        choose|i: int| self.is_at(i, key)
    }

    /// The keys are distinct and each has a value.
    pub closed spec fn wf(&self) -> bool {
        &&& self.keys@.len() == self.values@.len()
        &&& forall|i: int, j: int|
            0 <= i < j < self.keys@.len() ==> #[trigger] self.keys@[i]@ != #[trigger] self.keys@[j]@
    }

    /// The keys in order.
    pub closed spec fn order(&self) -> Seq<Seq<char>> {
        self.keys@.map_values(|k: String| k@)
    }

    proof fn index_is(&self, i: int)
        requires
            self.wf(),
            0 <= i < self.keys@.len(),
        ensures
            self.has(self.keys@[i]@),
            self.index(self.keys@[i]@) == i,
    {
        let key = self.keys@[i]@;
        assert(self.is_at(i, key));
        let j = self.index(key);
        assert(self.is_at(j, key));
        if i < j {
            assert(self.keys@[i]@ != self.keys@[j]@);
        } else if j < i {
            assert(self.keys@[j]@ != self.keys@[i]@);
        }
    }

    /// The order lists each key of the map once, and nothing else.
    pub proof fn order_facts(&self)
        requires
            self.wf(),
        ensures
            forall|i: int|
                0 <= i < self.order().len() ==> self@.dom().contains(#[trigger] self.order()[i]),
            forall|key: Seq<char>| #[trigger]
                self@.dom().contains(key) ==> exists|i: int|
                    0 <= i < self.order().len() && #[trigger] self.order()[i] == key,
            forall|i: int, j: int|
                0 <= i < j < self.order().len() ==> #[trigger] self.order()[i]
                    != #[trigger] self.order()[j],
            self@.dom().finite(),
            self@.dom() == self.order().to_set(),
    {
        assert forall|i: int| 0 <= i < self.order().len() implies self@.dom().contains(
            #[trigger] self.order()[i],
        ) by {
            assert(self.order()[i] == self.keys@[i]@);
            self.index_is(i);
        }
        assert forall|key: Seq<char>| #[trigger] self@.dom().contains(key) implies exists|i: int|
            0 <= i < self.order().len() && #[trigger] self.order()[i] == key by {
            let i = self.index(key);
            assert(self.is_at(i, key));
            assert(self.order()[i] == key);
        }
        assert forall|i: int, j: int| 0 <= i < j < self.order().len() implies #[trigger]
            self.order()[i] != #[trigger] self.order()[j] by {
            assert(self.order()[i] == self.keys@[i]@);
            assert(self.order()[j] == self.keys@[j]@);
        }
        assert(self@.dom() =~= self.order().to_set());
    }

    /// A map without keys.
    pub fn new() -> (r: Self)
        ensures
            r.wf(),
            r@ == Map::<Seq<char>, V>::empty(),
            r.order() == Seq::<Seq<char>>::empty(),
    {
        let r = TextMap { keys: Vec::new(), values: Vec::new() };
        proof {
            assert(r@ =~= Map::<Seq<char>, V>::empty());
            assert(r.order() =~= Seq::<Seq<char>>::empty());
        }
        r
    }

    /// The number of keys.
    pub fn len(&self) -> (r: usize)
        requires
            self.wf(),
        ensures
            r == self.order().len(),
    {
        self.keys.len()
    }

    /// The key at position `i` of the order.
    pub fn key(&self, i: usize) -> (r: &String)
        requires
            self.wf(),
            i < self.order().len(),
        ensures
            r@ == self.order()[i as int],
    {
        &self.keys[i]
    }

    /// The value at position `i` of the order.
    pub fn value(&self, i: usize) -> (r: &V)
        requires
            self.wf(),
            i < self.order().len(),
        ensures
            *r == self@[self.order()[i as int]],
    {
        proof {
            self.index_is(i as int);
        }
        &self.values[i]
    }

    /// The position of `key`.
    pub fn position(&self, key: &str) -> (r: Option<usize>)
        requires
            self.wf(),
        ensures
            match r {
                Some(i) => i < self.order().len() && self.order()[i as int] == key@
                    && self@.dom().contains(key@),
                None => !self@.dom().contains(key@),
            },
    {
        let mut i: usize = 0;
        while i < self.keys.len()
            invariant
                i <= self.keys@.len(),
                forall|j: int| 0 <= j < i ==> !self.is_at(j, key@),
            decreases self.keys@.len() - i,
        {
            if same_text(self.keys[i].as_str(), key) {
                proof {
                    assert(self.is_at(i as int, key@));
                }
                return Some(i);
            }
            i = i + 1;
        }
        proof {
            if self@.dom().contains(key@) {
                assert(self.is_at(self.index(key@), key@));
            }
        }
        None
    }

    /// The value of `key`.
    pub fn get(&self, key: &str) -> (r: Option<&V>)
        requires
            self.wf(),
        ensures
            match r {
                Some(v) => self@.dom().contains(key@) && *v == self@[key@],
                None => !self@.dom().contains(key@),
            },
    {
        match self.position(key) {
            Some(i) => Some(self.value(i)),
            None => None,
        }
    }

    /// The value at position `i`, to be changed.
    pub fn value_mut(&mut self, i: usize) -> (r: &mut V)
        requires
            old(self).wf(),
            i < old(self).order().len(),
        ensures
            *r == old(self)@[old(self).order()[i as int]],
            final(self).wf(),
            final(self).order() == old(self).order(),
            final(self)@ == old(self)@.insert(old(self).order()[i as int], *final(r)),
    {
        proof {
            self.index_is(i as int);
        }
        let ghost before = *self;
        let r = &mut self.values[i];
        proof {
            let after = after_borrow(*self);
            assert(after.keys == before.keys);
            assert(after.order() =~= before.order());
            assert forall|j: int, key: Seq<char>|
                #![trigger after.is_at(j, key)]
                #![trigger before.is_at(j, key)]
                after.is_at(j, key) == before.is_at(j, key) by {}
            assert(after.wf());
            assert(after@ =~= before@.insert(before.order()[i as int], *final(r))) by {
                assert forall|key: Seq<char>|
                    after@.dom().contains(key) == before@.dom().contains(key) && (
                    before@.dom().contains(key) ==> after.index(key) == before.index(key)) by {
                    if before.has(key) {
                        assert(before.is_at(before.index(key), key));
                        after.index_is(before.index(key));
                    }
                    if after.has(key) {
                        assert(after.is_at(after.index(key), key));
                        before.index_is(after.index(key));
                    }
                }
            }
        }
        r
    }

    /// Set the value of `key`; a key that was there keeps its position.
    pub fn insert(&mut self, key: &str, value: V)
        requires
            old(self).wf(),
        ensures
            final(self).wf(),
            final(self)@ == old(self)@.insert(key@, value),
            final(self).order() == if old(self)@.dom().contains(key@) {
                old(self).order()
            } else {
                old(self).order().push(key@)
            },
    {
        match self.position(key) {
            Some(i) => {
                *self.value_mut(i) = value;
            },
            None => {
                let ghost before = *self;
                self.keys.push(key.to_owned());
                self.values.push(value);
                proof {
                    let last = before.keys@.len() as int;
                    assert forall|i: int, j: int| 0 <= i < j < self.keys@.len() implies #[trigger]
                        self.keys@[i]@ != #[trigger] self.keys@[j]@ by {
                        if j == last {
                            assert(before.keys@[i]@ == self.keys@[i]@);
                            before.index_is(i);
                        } else {
                            assert(before.keys@[i]@ != before.keys@[j]@);
                        }
                    }
                    self.index_is(last);
                    assert(self@ =~= before@.insert(key@, value)) by {
                        assert forall|k: Seq<char>| k != key@ implies self.has(k) == before.has(k)
                            && (before.has(k) ==> self.index(k) == before.index(k)) by {
                            if before.has(k) {
                                let i = before.index(k);
                                assert(before.is_at(i, k));
                                assert(self.is_at(i, k));
                                self.index_is(i);
                            }
                            if self.has(k) {
                                let i = self.index(k);
                                assert(self.is_at(i, k));
                                assert(before.is_at(i, k));
                            }
                        }
                    }
                    assert(self.order() =~= before.order().push(key@));
                }
            },
        }
    }
}

} // verus!
