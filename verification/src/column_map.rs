//! A mapping from column names to values, used both for the condition of a
//! lookup and for the row that a lookup returns.

use crate::text::same_text;
use vstd::prelude::*;

verus! {

/// A finite mapping from column name to value. No name occurs twice.
#[derive(Debug, Clone)]
pub struct ColumnMap {
    entries: Vec<(String, String)>,
}

impl ColumnMap {
    /// The position in `entries` of the entry for a name.
    spec fn slot(&self, name: Seq<char>) -> int {
        choose|i: int| 0 <= i < self.entries@.len() && self.entries@[i].0@ == name
    }

    /// The mapping that this value stands for.
    pub closed spec fn view(&self) -> Map<Seq<char>, Seq<char>> {
        Map::new(
            |name: Seq<char>|
                exists|i: int| 0 <= i < self.entries@.len() && self.entries@[i].0@ == name,
            |name: Seq<char>| self.entries@[self.slot(name)].1@,
        )
    }

    /// No name occurs twice, and the number of entries is the size of the
    /// mapping.
    pub closed spec fn wf(&self) -> bool {
        &&& forall|i: int, j: int|
            0 <= i < j < self.entries@.len() ==> self.entries@[i].0@ != self.entries@[j].0@
        &&& self@.dom().finite()
        &&& self@.dom().len() == self.entries@.len()
    }

    /// The empty mapping.
    pub fn new() -> (map: ColumnMap)
        ensures
            map.wf(),
            map@ == Map::<Seq<char>, Seq<char>>::empty(),
    {
        let map = ColumnMap { entries: Vec::new() };
        assert(map@.dom() =~= Set::<Seq<char>>::empty());
        assert(map@ =~= Map::<Seq<char>, Seq<char>>::empty());
        map
    }

    /// The position of the entry for a name, if there is one.
    fn position(&self, column: &str) -> (found: Option<usize>)
        requires
            self.wf(),
        ensures
            match found {
                Some(i) => i < self.entries@.len() && self.entries@[i as int].0@ == column@
                    && self@.contains_key(column@) && self.slot(column@) == i,
                None => !self@.contains_key(column@),
            },
    {
        let mut i: usize = 0;
        while i < self.entries.len()
            invariant
                self.wf(),
                i <= self.entries@.len(),
                forall|k: int| 0 <= k < i ==> self.entries@[k].0@ != column@,
            decreases self.entries@.len() - i,
        {
            if same_text(self.entries[i].0.as_str(), column) {
                assert(self.entries@[i as int].0@ == column@);
                return Some(i);
            }
            i += 1;
        }
        None
    }

    /// The name of the entry at a position. The positions run from 0 up to
    /// the size of the mapping.
    pub closed spec fn name_at(&self, i: int) -> Seq<char> {
        self.entries@[i].0@
    }

    /// Each name of the mapping stands at exactly one position.
    pub proof fn lemma_names(&self)
        requires
            self.wf(),
        ensures
            forall|name: Seq<char>|
                self@.contains_key(name) <==> exists|i: int|
                    0 <= i < self@.dom().len() && #[trigger] self.name_at(i) == name,
            forall|i: int, j: int|
                0 <= i < j < self@.dom().len() ==> self.name_at(i) != self.name_at(j),
    {
        assert forall|name: Seq<char>| self@.contains_key(name) implies exists|i: int|
            0 <= i < self@.dom().len() && #[trigger] self.name_at(i) == name by {
            let i = self.slot(name);
            assert(self.name_at(i) == name);
        }
        assert forall|name: Seq<char>|
            (exists|i: int| 0 <= i < self@.dom().len() && #[trigger] self.name_at(i) == name)
            implies self@.contains_key(name) by {
            let i = choose|i: int| 0 <= i < self@.dom().len() && #[trigger] self.name_at(i) == name;
            assert(self.entries@[i].0@ == name);
        }
    }

    /// The entry at a position: its name and its value.
    pub fn entry(&self, i: usize) -> (pair: (&String, &String))
        requires
            self.wf(),
            i < self@.dom().len(),
        ensures
            pair.0@ == self.name_at(i as int),
            self@.contains_key(pair.0@),
            pair.1@ == self@[pair.0@],
    {
        proof {
            let k = self.slot(self.entries@[i as int].0@);
            assert(k == i);
        }
        (&self.entries[i].0, &self.entries[i].1)
    }

    /// The number of columns that the mapping has a value for.
    pub fn len(&self) -> (n: usize)
        requires
            self.wf(),
        ensures
            n == self@.dom().len(),
    {
        self.entries.len()
    }

    /// Whether the mapping has a value for the column.
    pub fn contains_key(&self, column: &str) -> (found: bool)
        requires
            self.wf(),
        ensures
            found == self@.contains_key(column@),
    {
        self.position(column).is_some()
    }

    /// The value for a column, if the mapping has one.
    pub fn get(&self, column: &str) -> (value: Option<&String>)
        requires
            self.wf(),
        ensures
            match value {
                Some(found) => self@.contains_key(column@) && found@ == self@[column@],
                None => !self@.contains_key(column@),
            },
    {
        match self.position(column) {
            Some(i) => Some(&self.entries[i].1),
            None => None,
        }
    }

    /// Sets the value for a column and returns the value that it had before,
    /// if it had one. The other columns keep their values.
    pub fn insert(&mut self, column: String, value: String) -> (previous: Option<String>)
        requires
            old(self).wf(),
        ensures
            final(self).wf(),
            final(self)@ == old(self)@.insert(column@, value@),
            match previous {
                Some(before) => old(self)@.contains_key(column@) && before@ == old(self)@[column@],
                None => !old(self)@.contains_key(column@),
            },
    {
        let ghost before = *self;
        let found = self.position(column.as_str());
        match found {
            Some(i) => {
                let replaced = self.entries.remove(i);
                self.entries.insert(i, (column, value));
                proof {
                    assert forall|name: Seq<char>| self@.contains_key(name) implies #[trigger]
                        before@.contains_key(name) && self@[name] == before@.insert(
                        column@,
                        value@,
                    )[name] by {
                        let k = self.slot(name);
                        assert(before.entries@[k].0@ == name);
                        if name != column@ {
                            assert(before.slot(name) == k);
                        }
                    }
                    assert forall|name: Seq<char>| before@.contains_key(name) implies #[trigger]
                        self@.contains_key(name) by {
                        let k = before.slot(name);
                        assert(self.entries@[k].0@ == name);
                    }
                    assert(self@ =~= before@.insert(column@, value@));
                    assert(before@.insert(column@, value@).dom() =~= before@.dom());
                }
                Some(replaced.1)
            },
            None => {
                self.entries.push((column, value));
                proof {
                    let last = before.entries@.len() as int;
                    assert(self.entries@[last].0@ == column@);
                    assert forall|name: Seq<char>| self@.contains_key(name) implies #[trigger]
                        before@.insert(column@, value@).contains_key(name) && self@[name]
                        == before@.insert(column@, value@)[name] by {
                        let k = self.slot(name);
                        if k < last {
                            assert(before.entries@[k].0@ == name);
                            assert(before.slot(name) == k);
                        }
                    }
                    assert forall|name: Seq<char>| before@.contains_key(name) implies #[trigger]
                        self@.contains_key(name) by {
                        let k = before.slot(name);
                        assert(self.entries@[k].0@ == name);
                    }
                    assert(self@ =~= before@.insert(column@, value@));
                }
                None
            },
        }
    }

    /// The entries of the mapping, one pair of name and value for each
    /// column, in no particular order.
    pub fn into_pairs(self) -> (pairs: Vec<(String, String)>)
        requires
            self.wf(),
        ensures
            pairs@.len() == self@.dom().len(),
            forall|i: int|
                0 <= i < pairs@.len() ==> self@.contains_key(#[trigger] pairs@[i].0@)
                    && self@[pairs@[i].0@] == pairs@[i].1@,
            forall|i: int, j: int| 0 <= i < j < pairs@.len() ==> pairs@[i].0@ != pairs@[j].0@,
    {
        proof {
            assert forall|i: int| 0 <= i < self.entries@.len() implies self@.contains_key(
                #[trigger] self.entries@[i].0@,
            ) && self@[self.entries@[i].0@] == self.entries@[i].1@ by {
                let k = self.slot(self.entries@[i].0@);
                assert(k == i);
            }
        }
        self.entries
    }
}

} // verus!
