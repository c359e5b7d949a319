//! The table of global variables.
use crate::value::Value;
use vstd::prelude::*;

verus! {

/// A mapping from names to values. A later entry for a name hides an
/// earlier one.
#[derive(Debug)]
pub struct Globals {
    entries: Vec<(String, Value)>,
}

/// The mapping that a list of entries stands for.
pub open spec fn entries_map(entries: Seq<(String, Value)>) -> Map<Seq<char>, Value>
    decreases entries.len(),
{
    if entries.len() == 0 {
        Map::empty()
    } else {
        entries_map(entries.drop_last()).insert(entries.last().0@, entries.last().1)
    }
}

/// Entry `i` is the last one for `name`.
pub open spec fn is_last_entry(entries: Seq<(String, Value)>, name: Seq<char>, i: int) -> bool {
    &&& 0 <= i < entries.len()
    &&& entries[i].0@ == name
    &&& forall|j: int| i < j < entries.len() ==> (#[trigger] entries[j]).0@ != name
}

/// No entry is for `name`.
pub open spec fn no_entry(entries: Seq<(String, Value)>, name: Seq<char>) -> bool {
    forall|j: int| 0 <= j < entries.len() ==> (#[trigger] entries[j]).0@ != name
}

pub proof fn lemma_last_entry(entries: Seq<(String, Value)>, name: Seq<char>, i: int)
    requires
        is_last_entry(entries, name, i),
    ensures
        entries_map(entries).contains_key(name),
        entries_map(entries)[name] == entries[i].1,
    decreases entries.len(),
{
    if i == entries.len() - 1 {
    } else {
        let rest = entries.drop_last();
        assert(entries.last().0@ != name);
        assert forall|j: int| i < j < rest.len() implies (#[trigger] rest[j]).0@ != name by {
            assert(rest[j] == entries[j]);
        }
        lemma_last_entry(rest, name, i);
    }
}

pub proof fn lemma_no_entry(entries: Seq<(String, Value)>, name: Seq<char>)
    requires
        no_entry(entries, name),
    ensures
        !entries_map(entries).contains_key(name),
    decreases entries.len(),
{
    if entries.len() > 0 {
        let rest = entries.drop_last();
        assert(entries.last().0@ != name);
        assert forall|j: int| 0 <= j < rest.len() implies (#[trigger] rest[j]).0@ != name by {
            assert(rest[j] == entries[j]);
        }
        lemma_no_entry(rest, name);
    }
}

pub proof fn lemma_replace_entry(
    entries: Seq<(String, Value)>,
    name: Seq<char>,
    i: int,
    entry: (String, Value),
)
    requires
        is_last_entry(entries, name, i),
        entry.0@ == name,
    ensures
        entries_map(entries.update(i, entry)) == entries_map(entries).insert(name, entry.1),
    decreases entries.len(),
{
    let updated = entries.update(i, entry);
    if i == entries.len() - 1 {
        assert(updated.drop_last() =~= entries.drop_last());
        assert(entries_map(updated) =~= entries_map(entries).insert(name, entry.1));
    } else {
        let rest = entries.drop_last();
        assert(entries.last().0@ != name);
        assert forall|j: int| i < j < rest.len() implies (#[trigger] rest[j]).0@ != name by {
            assert(rest[j] == entries[j]);
        }
        lemma_replace_entry(rest, name, i, entry);
        assert(updated.drop_last() =~= rest.update(i, entry));
        assert(updated.last() == entries.last());
        assert(entries_map(updated) =~= entries_map(entries).insert(name, entry.1));
    }
}

impl View for Globals {
    type V = Map<Seq<char>, Value>;

    closed spec fn view(&self) -> Map<Seq<char>, Value> {
        entries_map(self.entries@)
    }
}

impl Globals {
    pub fn new() -> (r: Self)
        ensures
            r@ == Map::<Seq<char>, Value>::empty(),
    {
        Globals { entries: Vec::new() }
    }

    /// The index of the last entry for `name`.
    fn find(&self, name: &String) -> (r: Option<usize>)
        ensures
            match r {
                Some(i) => is_last_entry(self.entries@, name@, i as int),
                None => no_entry(self.entries@, name@),
            },
    {
        let mut i: usize = self.entries.len();
        while i > 0
            invariant
                i <= self.entries.len(),
                forall|j: int| i <= j < self.entries.len() ==> (#[trigger] self.entries@[j]).0@ != name@,
            decreases i,
        {
            i -= 1;
            if self.entries[i].0 == *name {
                return Some(i);
            }
        }
        None
    }

    /// The value bound to `name`, if there is one.
    pub fn get(&self, name: &String) -> (r: Option<&Value>)
        ensures
            match r {
                Some(v) => self@.contains_key(name@) && self@[name@] == *v,
                None => !self@.contains_key(name@),
            },
    {
        match self.find(name) {
            Some(i) => {
                proof {
                    lemma_last_entry(self.entries@, name@, i as int);
                }
                Some(&self.entries[i].1)
            },
            None => {
                proof {
                    lemma_no_entry(self.entries@, name@);
                }
                None
            },
        }
    }

    /// Binds `name` to `value`, whether or not it was bound before.
    pub fn insert(&mut self, name: String, value: Value)
        ensures
            final(self)@ == old(self)@.insert(name@, value),
    {
        match self.find(&name) {
            Some(i) => {
                proof {
                    lemma_replace_entry(self.entries@, name@, i as int, (name, value));
                }
                self.entries[i] = (name, value);
            },
            None => {
                self.entries.push((name, value));
                assert(self.entries@.drop_last() =~= old(self).entries@);
            },
        }
    }
}

} // verus!
