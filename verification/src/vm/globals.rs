//! The global variables of the virtual machine: a map from names to values,
//! kept as a list of entries in which no name occurs twice.
use vstd::prelude::*;

use crate::value::ValueType;

verus! {

/// The map that a list of entries stands for; a later entry for a name
/// replaces an earlier one.
pub open spec fn entries_map(s: Seq<(String, ValueType)>) -> Map<Seq<char>, ValueType>
    decreases s.len(),
{
    if s.len() == 0 {
        Map::empty()
    } else {
        entries_map(s.drop_last()).insert(s.last().0@, s.last().1)
    }
}

/// No name occurs twice in the list.
pub open spec fn names_distinct(s: Seq<(String, ValueType)>) -> bool {
    forall|i: int, j: int|
        0 <= i < s.len() && 0 <= j < s.len() && i != j ==> #[trigger] s[i].0@ != #[trigger] s[j].0@
}

/// A name that no entry has is not in the map.
proof fn lemma_absent(s: Seq<(String, ValueType)>, name: Seq<char>)
    requires
        forall|i: int| 0 <= i < s.len() ==> #[trigger] s[i].0@ != name,
    ensures
        !entries_map(s).dom().contains(name),
    decreases s.len(),
{
    if s.len() > 0 {
        assert forall|i: int| 0 <= i < s.drop_last().len() implies #[trigger] s.drop_last()[i].0@
            != name by {
            assert(s.drop_last()[i] == s[i]);
        }
        lemma_absent(s.drop_last(), name);
    }
}

/// The map holds, for the name of each entry, the value of that entry.
proof fn lemma_present(s: Seq<(String, ValueType)>, i: int)
    requires
        names_distinct(s),
        0 <= i < s.len(),
    ensures
        entries_map(s).dom().contains(s[i].0@),
        entries_map(s)[s[i].0@] == s[i].1,
    decreases s.len(),
{
    if i < s.len() - 1 {
        let t = s.drop_last();
        assert(t[i] == s[i]);
        assert forall|a: int, b: int|
            0 <= a < t.len() && 0 <= b < t.len() && a != b implies #[trigger] t[a].0@
            != #[trigger] t[b].0@ by {
            assert(t[a] == s[a] && t[b] == s[b]);
        }
        lemma_present(t, i);
        assert(s[i].0@ != s[s.len() - 1].0@);
    }
}

/// Replacing the value of an entry replaces the value of its name in the map.
proof fn lemma_replace(s: Seq<(String, ValueType)>, i: int, name: String, value: ValueType)
    requires
        names_distinct(s),
        0 <= i < s.len(),
        s[i].0@ == name@,
    ensures
        entries_map(s.update(i, (name, value))) == entries_map(s).insert(name@, value),
    decreases s.len(),
{
    let u = s.update(i, (name, value));
    if i == s.len() - 1 {
        assert(u.drop_last() =~= s.drop_last());
        assert(entries_map(u) =~= entries_map(s).insert(name@, value));
    } else {
        let t = s.drop_last();
        assert forall|a: int, b: int|
            0 <= a < t.len() && 0 <= b < t.len() && a != b implies #[trigger] t[a].0@
            != #[trigger] t[b].0@ by {
            assert(t[a] == s[a] && t[b] == s[b]);
        }
        assert(t[i] == s[i]);
        lemma_replace(t, i, name, value);
        assert(u.drop_last() =~= t.update(i, (name, value)));
        assert(s.last().0@ != name@);
        assert(entries_map(u) =~= entries_map(s).insert(name@, value));
    }
}

/// Global variables by name.
#[derive(Debug)]
pub struct Globals {
    entries: Vec<(String, ValueType)>,
}

impl View for Globals {
    type V = Map<Seq<char>, ValueType>;

    closed spec fn view(&self) -> Map<Seq<char>, ValueType> {
        entries_map(self.entries@)
    }
}

impl Globals {
    #[verifier::type_invariant]
    spec fn wf(self) -> bool {
        names_distinct(self.entries@)
    }

    /// No variables.
    pub fn new() -> (g: Globals)
        ensures
            g@ == Map::<Seq<char>, ValueType>::empty(),
    {
        Globals { entries: Vec::new() }
    }

    /// The index of the entry for `name`, if there is one.
    fn find(&self, name: &String) -> (r: Option<usize>)
        ensures
            r matches Some(i) ==> i < self.entries@.len() && self.entries@[i as int].0@ == name@,
            r is None ==> forall|i: int|
                0 <= i < self.entries@.len() ==> #[trigger] self.entries@[i].0@ != name@,
    {
        let n = self.entries.len();
        let mut i: usize = 0;
        while i < n
            invariant
                n == self.entries@.len(),
                i <= n,
                forall|j: int| 0 <= j < i ==> #[trigger] self.entries@[j].0@ != name@,
            decreases n - i,
        {
            if self.entries[i].0 == *name {
                return Some(i);
            }
            i = i + 1;
        }
        None
    }

    /// The value of the variable `name`, if it has one.
    pub fn get(&self, name: &String) -> (r: Option<ValueType>)
        ensures
            r == (if self@.dom().contains(name@) {
                Some(self@[name@])
            } else {
                None
            }),
    {
        proof {
            use_type_invariant(self);
        }
        match self.find(name) {
            Some(i) => {
                proof {
                    lemma_present(self.entries@, i as int);
                }
                Some(self.entries[i].1)
            },
            None => {
                proof {
                    lemma_absent(self.entries@, name@);
                }
                None
            },
        }
    }

    /// Gives the variable `name` the value `value`.
    pub fn insert(&mut self, name: String, value: ValueType)
        ensures
            final(self)@ == old(self)@.insert(name@, value),
    {
        proof {
            use_type_invariant(&*self);
        }
        match self.find(&name) {
            Some(i) => {
                proof {
                    lemma_replace(self.entries@, i as int, name, value);
                }
                let ghost before = self.entries@;
                let mut entries: Vec<(String, ValueType)> = Vec::new();
                std::mem::swap(&mut entries, &mut self.entries);
                entries.set(i, (name, value));
                proof {
                    assert forall|a: int, b: int|
                        0 <= a < entries@.len() && 0 <= b < entries@.len() && a != b implies
                        #[trigger] entries@[a].0@ != #[trigger] entries@[b].0@ by {
                        if a != i as int && b != i as int {
                            assert(entries@[a] == before[a] && entries@[b] == before[b]);
                        } else if a == i as int {
                            assert(entries@[b] == before[b]);
                        } else {
                            assert(entries@[a] == before[a]);
                        }
                    }
                }
                self.entries = entries;
            },
            None => {
                proof {
                    lemma_absent(self.entries@, name@);
                }
                let ghost before = self.entries@;
                let mut entries: Vec<(String, ValueType)> = Vec::new();
                std::mem::swap(&mut entries, &mut self.entries);
                entries.push((name, value));
                proof {
                    assert(entries@.drop_last() =~= before);
                    assert forall|a: int, b: int|
                        0 <= a < entries@.len() && 0 <= b < entries@.len() && a != b implies
                        #[trigger] entries@[a].0@ != #[trigger] entries@[b].0@ by {
                        if a < before.len() {
                            assert(entries@[a] == before[a]);
                        }
                        if b < before.len() {
                            assert(entries@[b] == before[b]);
                        }
                    }
                }
                self.entries = entries;
            },
        }
    }
}

} // verus!
