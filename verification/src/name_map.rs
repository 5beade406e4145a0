//! A map from names to values, kept as a list of pairs with distinct names
//! in the order they were first inserted.

use vstd::prelude::*;

use crate::text::str_eq;

verus! {

pub struct NameMap<V> {
    entries: Vec<(String, V)>,
}

/// The names of a list of pairs, in order.
pub open spec fn names_of<V>(entries: Seq<(String, V)>) -> Seq<Seq<char>> {
    entries.map_values(|e: (String, V)| e.0@)
}

pub open spec fn names_distinct(names: Seq<Seq<char>>) -> bool {
    forall|i: int, j: int| 0 <= i < j < names.len() ==> names[i] != names[j]
}

/// The map that a list of pairs with distinct names describes.
pub open spec fn named_map<V>(entries: Seq<(String, V)>) -> Map<Seq<char>, V>
    decreases entries.len(),
{
    if entries.len() == 0 {
        Map::empty()
    } else {
        named_map(entries.drop_last()).insert(entries.last().0@, entries.last().1)
    }
}

pub proof fn lemma_named_map<V>(entries: Seq<(String, V)>)
    requires
        names_distinct(names_of(entries)),
    ensures
        named_map(entries).dom().finite(),
        named_map(entries).dom().len() == entries.len(),
        forall|k: Seq<char>|
            named_map(entries).contains_key(k) <==> exists|i: int|
                0 <= i < entries.len() && entries[i].0@ == k,
        forall|i: int|
            0 <= i < entries.len() ==> #[trigger] named_map(entries)[entries[i].0@]
                == entries[i].1,
    decreases entries.len(),
{
    if entries.len() > 0 {
        let rest = entries.drop_last();
        assert(names_of(rest) =~= names_of(entries).drop_last());
        lemma_named_map(rest);
        let last = entries.last();
        assert forall|k: Seq<char>|
            named_map(entries).contains_key(k) <==> exists|i: int|
                0 <= i < entries.len() && entries[i].0@ == k by {
            if named_map(entries).contains_key(k) && k != last.0@ {
                let i = choose|i: int| 0 <= i < rest.len() && rest[i].0@ == k;
                assert(entries[i].0@ == k);
            }
            if exists|i: int| 0 <= i < entries.len() && entries[i].0@ == k {
                let i = choose|i: int| 0 <= i < entries.len() && entries[i].0@ == k;
                if i < entries.len() - 1 {
                    assert(rest[i].0@ == k);
                }
            }
        }
        assert forall|i: int| 0 <= i < entries.len() implies #[trigger] named_map(
            entries,
        )[entries[i].0@] == entries[i].1 by {
            if i < entries.len() - 1 {
                assert(rest[i] == entries[i]);
                assert(names_of(entries)[i] != names_of(entries)[entries.len() - 1]);
            }
        }
        assert(!named_map(rest).contains_key(last.0@)) by {
            if named_map(rest).contains_key(last.0@) {
                let i = choose|i: int| 0 <= i < rest.len() && rest[i].0@ == last.0@;
                assert(names_of(entries)[i] == names_of(entries)[entries.len() - 1]);
            }
        }
    } else {
        assert(named_map(entries) =~= Map::empty());
    }
}

impl<V> View for NameMap<V> {
    type V = Map<Seq<char>, V>;

    open spec fn view(&self) -> Map<Seq<char>, V> {
        named_map(self.entries())
    }
}

impl<V> NameMap<V> {
    /// The pairs, in insertion order.
    pub closed spec fn entries(&self) -> Seq<(String, V)> {
        self.entries@
    }

    pub closed spec fn wf(&self) -> bool {
        names_distinct(names_of(self.entries@))
    }

    pub fn new() -> (m: Self)
        ensures
            m.wf(),
            m.entries() == Seq::<(String, V)>::empty(),
            m@ == Map::<Seq<char>, V>::empty(),
    {
        let m = NameMap { entries: Vec::new() };
        assert(names_of(m.entries@) =~= Seq::<Seq<char>>::empty());
        assert(m@ =~= Map::<Seq<char>, V>::empty());
        m
    }

    pub fn len(&self) -> (n: usize)
        ensures
            n == self.entries().len(),
    {
        self.entries.len()
    }

    /// The name at position `i` in insertion order.
    pub fn name_at(&self, i: usize) -> (k: &String)
        requires
            i < self.entries().len(),
        ensures
            *k == self.entries()[i as int].0,
    {
        &self.entries[i].0
    }

    /// The value at position `i` in insertion order.
    pub fn value_at(&self, i: usize) -> (v: &V)
        requires
            i < self.entries().len(),
        ensures
            *v == self.entries()[i as int].1,
    {
        &self.entries[i].1
    }

    fn find(&self, name: &str) -> (r: Option<usize>)
        ensures
            match r {
                Some(i) => i < self.entries().len() && self.entries()[i as int].0@ == name@,
                None => forall|i: int|
                    0 <= i < self.entries().len() ==> self.entries()[i].0@ != name@,
            },
    {
        let mut i: usize = 0;
        while i < self.entries.len()
            invariant
                i <= self.entries@.len(),
                forall|j: int| 0 <= j < i ==> self.entries@[j].0@ != name@,
            decreases self.entries@.len() - i,
        {
            if str_eq(self.entries[i].0.as_str(), name) {
                return Some(i);
            }
            i = i + 1;
        }
        None
    }

    pub fn contains_key(&self, name: &str) -> (b: bool)
        requires
            self.wf(),
        ensures
            b == self@.contains_key(name@),
    {
        proof {
            lemma_named_map(self.entries@);
        }
        self.find(name).is_some()
    }

    pub fn get(&self, name: &str) -> (r: Option<&V>)
        requires
            self.wf(),
        ensures
            match r {
                Some(v) => self@.contains_key(name@) && self@[name@] == *v,
                None => !self@.contains_key(name@),
            },
    {
        proof {
            lemma_named_map(self.entries@);
        }
        match self.find(name) {
            Some(i) => Some(&self.entries[i].1),
            None => None,
        }
    }

    /// Adds `value` under `name` unless the name is already present.
    pub fn insert_if_absent(&mut self, name: String, value: V)
        requires
            old(self).wf(),
        ensures
            final(self).wf(),
            final(self)@ == (if old(self)@.contains_key(name@) {
                old(self)@
            } else {
                old(self)@.insert(name@, value)
            }),
            old(self)@.contains_key(name@) ==> final(self).entries() == old(self).entries(),
            !old(self)@.contains_key(name@) ==> final(self).entries() == old(self).entries().push(
                (name, value),
            ),
    {
        proof {
            lemma_named_map(self.entries@);
        }
        let found = self.find(name.as_str());
        if found.is_none() {
            let ghost before = self.entries@;
            let ghost key = name@;
            assert(names_distinct(names_of(before)));
            self.entries.push((name, value));
            proof {
                assert(self.entries@.drop_last() =~= before);
                let names = names_of(self.entries@);
                assert(names =~= names_of(before).push(key));
                assert forall|i: int, j: int| 0 <= i < j < names.len() implies names[i]
                    != names[j] by {
                    if j == names.len() - 1 {
                        assert(names[i] == before[i].0@);
                        assert(names[j] == key);
                        assert(before[i] == old(self).entries()[i]);
                    } else {
                        assert(names[i] == names_of(before)[i]);
                        assert(names[j] == names_of(before)[j]);
                        assert(names_of(before)[i] != names_of(before)[j]);
                    }
                }
            }
        }
    }
}

/// How a well-formed map's contents relate to its pairs.
pub proof fn lemma_name_map<V>(m: NameMap<V>)
    requires
        m.wf(),
    ensures
        m@.dom().finite(),
        m@.dom().len() == m.entries().len(),
        forall|k: Seq<char>|
            m@.contains_key(k) <==> exists|i: int|
                0 <= i < m.entries().len() && m.entries()[i].0@ == k,
        forall|i: int|
            0 <= i < m.entries().len() ==> #[trigger] m@[m.entries()[i].0@] == m.entries()[i].1,
{
    lemma_named_map(m.entries());
}

} // verus!
