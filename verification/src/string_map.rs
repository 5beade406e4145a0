//! A small map from strings to strings, kept as a list of pairs with
//! distinct keys in the order they were first inserted.

use vstd::prelude::*;

use crate::text::str_eq;

verus! {

pub struct StringMap {
    entries: Vec<(String, String)>,
}

/// The key and value characters of a list of pairs.
pub open spec fn pair_models(entries: Seq<(String, String)>) -> Seq<(Seq<char>, Seq<char>)> {
    entries.map_values(|e: (String, String)| (e.0@, e.1@))
}

/// The map that a list of pairs with distinct keys describes.
pub open spec fn map_of(pairs: Seq<(Seq<char>, Seq<char>)>) -> Map<Seq<char>, Seq<char>>
    decreases pairs.len(),
{
    if pairs.len() == 0 {
        Map::empty()
    } else {
        map_of(pairs.drop_last()).insert(pairs.last().0, pairs.last().1)
    }
}

pub open spec fn keys_distinct(pairs: Seq<(Seq<char>, Seq<char>)>) -> bool {
    forall|i: int, j: int| 0 <= i < j < pairs.len() ==> pairs[i].0 != pairs[j].0
}

pub proof fn lemma_map_of(pairs: Seq<(Seq<char>, Seq<char>)>)
    requires
        keys_distinct(pairs),
    ensures
        map_of(pairs).dom().finite(),
        map_of(pairs).dom().len() == pairs.len(),
        forall|k: Seq<char>|
            map_of(pairs).contains_key(k) <==> exists|i: int| 0 <= i < pairs.len() && pairs[i].0 == k,
        forall|i: int| 0 <= i < pairs.len() ==> #[trigger] map_of(pairs)[pairs[i].0] == pairs[i].1,
    decreases pairs.len(),
{
    if pairs.len() > 0 {
        let rest = pairs.drop_last();
        lemma_map_of(rest);
        assert forall|k: Seq<char>|
            map_of(pairs).contains_key(k) <==> exists|i: int|
                0 <= i < pairs.len() && pairs[i].0 == k by {
            if map_of(pairs).contains_key(k) && k != pairs.last().0 {
                let i = choose|i: int| 0 <= i < rest.len() && rest[i].0 == k;
                assert(pairs[i].0 == k);
            }
            if exists|i: int| 0 <= i < pairs.len() && pairs[i].0 == k {
                let i = choose|i: int| 0 <= i < pairs.len() && pairs[i].0 == k;
                if i < pairs.len() - 1 {
                    assert(rest[i].0 == k);
                }
            }
        }
        assert forall|i: int| 0 <= i < pairs.len() implies #[trigger] map_of(pairs)[pairs[i].0]
            == pairs[i].1 by {
            if i < pairs.len() - 1 {
                assert(rest[i] == pairs[i]);
            }
        }
        assert(!map_of(rest).contains_key(pairs.last().0)) by {
            if map_of(rest).contains_key(pairs.last().0) {
                let i = choose|i: int| 0 <= i < rest.len() && rest[i].0 == pairs.last().0;
                assert(pairs[i].0 == pairs[pairs.len() - 1].0);
            }
        }
    } else {
        assert(map_of(pairs) =~= Map::empty());
    }
}

impl View for StringMap {
    type V = Map<Seq<char>, Seq<char>>;

    open spec fn view(&self) -> Map<Seq<char>, Seq<char>> {
        map_of(self.pairs())
    }
}

impl StringMap {
    /// The pairs, in insertion order.
    pub closed spec fn pairs(&self) -> Seq<(Seq<char>, Seq<char>)> {
        pair_models(self.entries@)
    }

    pub closed spec fn wf(&self) -> bool {
        keys_distinct(self.pairs())
    }

    pub fn new() -> (m: Self)
        ensures
            m.wf(),
            m.pairs() == Seq::<(Seq<char>, Seq<char>)>::empty(),
            m@ == Map::<Seq<char>, Seq<char>>::empty(),
    {
        let m = StringMap { entries: Vec::new() };
        assert(m.pairs() =~= Seq::<(Seq<char>, Seq<char>)>::empty());
        m
    }

    /// The number of keys.
    pub fn len(&self) -> (n: usize)
        ensures
            n == self.pairs().len(),
    {
        self.entries.len()
    }

    pub fn is_empty(&self) -> (b: bool)
        ensures
            b == (self.pairs().len() == 0),
    {
        self.entries.len() == 0
    }

    /// The key at position `i` in insertion order.
    pub fn key_at(&self, i: usize) -> (k: &String)
        requires
            i < self.pairs().len(),
        ensures
            k@ == self.pairs()[i as int].0,
    {
        &self.entries[i].0
    }

    /// The value at position `i` in insertion order.
    pub fn value_at(&self, i: usize) -> (v: &String)
        requires
            i < self.pairs().len(),
        ensures
            v@ == self.pairs()[i as int].1,
    {
        &self.entries[i].1
    }

    /// The position of `key`, if it is present.
    fn find(&self, key: &str) -> (r: Option<usize>)
        ensures
            match r {
                Some(i) => i < self.pairs().len() && self.pairs()[i as int].0 == key@,
                None => forall|i: int| 0 <= i < self.pairs().len() ==> self.pairs()[i].0 != key@,
            },
    {
        let mut i: usize = 0;
        while i < self.entries.len()
            invariant
                i <= self.entries@.len(),
                forall|j: int| 0 <= j < i ==> self.pairs()[j].0 != key@,
            decreases self.entries@.len() - i,
        {
            if str_eq(self.entries[i].0.as_str(), key) {
                return Some(i);
            }
            i = i + 1;
        }
        None
    }

    pub fn contains_key(&self, key: &str) -> (b: bool)
        requires
            self.wf(),
        ensures
            b == self@.contains_key(key@),
    {
        proof {
            lemma_map_of(self.pairs());
        }
        self.find(key).is_some()
    }

    pub fn get(&self, key: &str) -> (r: Option<&String>)
        requires
            self.wf(),
        ensures
            match r {
                Some(v) => self@.contains_key(key@) && self@[key@] == v@,
                None => !self@.contains_key(key@),
            },
    {
        proof {
            lemma_map_of(self.pairs());
        }
        match self.find(key) {
            Some(i) => Some(&self.entries[i].1),
            None => None,
        }
    }

    /// Sets the value of `key`; a new key goes after the existing ones.
    pub fn insert(&mut self, key: String, value: String)
        requires
            old(self).wf(),
        ensures
            final(self).wf(),
            final(self)@ == old(self)@.insert(key@, value@),
            old(self)@.contains_key(key@) ==> final(self).pairs().len() == old(self).pairs().len(),
            !old(self)@.contains_key(key@) ==> final(self).pairs() == old(self).pairs().push(
                (key@, value@),
            ),
    {
        proof {
            lemma_map_of(self.pairs());
        }
        let ghost before = self.pairs();
        match self.find(key.as_str()) {
            Some(i) => {
                self.entries.set(i, (key, value));
                proof {
                    let after = self.pairs();
                    assert(after =~= before.update(i as int, (key@, value@)));
                    lemma_map_of(after);
                    assert(self@ =~= old(self)@.insert(key@, value@)) by {
                        assert forall|k: Seq<char>| self@.contains_key(k) <==> old(
                            self,
                        )@.insert(key@, value@).contains_key(k) by {
                            if self@.contains_key(k) {
                                let j = choose|j: int| 0 <= j < after.len() && after[j].0 == k;
                                if j != i {
                                    assert(before[j].0 == k);
                                }
                            }
                            if old(self)@.contains_key(k) {
                                let j = choose|j: int| 0 <= j < before.len() && before[j].0 == k;
                                if j != i {
                                    assert(after[j].0 == k);
                                } else {
                                    assert(after[i as int].0 == k);
                                }
                            }
                            if k == key@ {
                                assert(after[i as int].0 == k);
                            }
                        }
                        assert forall|k: Seq<char>| #[trigger]
                            self@.contains_key(k) implies self@[k] == old(self)@.insert(
                            key@,
                            value@,
                        )[k] by {
                            let j = choose|j: int| 0 <= j < after.len() && after[j].0 == k;
                            assert(self@[after[j].0] == after[j].1);
                            if j != i {
                                assert(old(self)@[before[j].0] == before[j].1);
                            }
                        }
                    }
                }
            },
            None => {
                self.entries.push((key, value));
                proof {
                    let after = self.pairs();
                    assert(after =~= before.push((key@, value@)));
                    assert(after.drop_last() =~= before);
                    assert(!old(self)@.contains_key(key@)) by {
                        if old(self)@.contains_key(key@) {
                            let j = choose|j: int| 0 <= j < before.len() && before[j].0 == key@;
                        }
                    }
                }
            },
        }
    }
}

/// How a well-formed map's contents relate to its pairs.
pub proof fn lemma_string_map(m: StringMap)
    requires
        m.wf(),
    ensures
        m@.dom().finite(),
        m@.dom().len() == m.pairs().len(),
        forall|k: Seq<char>|
            m@.contains_key(k) <==> exists|i: int| 0 <= i < m.pairs().len() && m.pairs()[i].0 == k,
        forall|i: int| 0 <= i < m.pairs().len() ==> #[trigger] m@[m.pairs()[i].0] == m.pairs()[i].1,
{
    lemma_map_of(m.pairs());
}

} // verus!
