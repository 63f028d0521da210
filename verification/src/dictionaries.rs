//! The dictionary resolver: a session-scoped mapping from dictionary id to
//! a previously decoded values array, populated by dictionary-batch
//! messages before any record batch that references them. Registering an
//! id again replaces the earlier values (this crate's documented choice for
//! repeated ids).

use vstd::prelude::*;

use crate::array::Array;
use crate::model::Av;

verus! {

/// The ghost value of the resolver's entries: later registrations win.
pub open spec fn entries_map(s: Seq<(i64, Array)>) -> Map<int, Av>
    decreases s,
{
    if s.len() == 0 {
        Map::empty()
    } else {
        entries_map(s.drop_last()).insert(s.last().0 as int, s.last().1@)
    }
}

/// A lookup table from dictionary id to decoded values array.
pub struct Dictionaries {
    entries: Vec<(i64, Array)>,
}

impl View for Dictionaries {
    type V = Map<int, Av>;

    closed spec fn view(&self) -> Map<int, Av> {
        entries_map(self.entries@)
    }
}

/// The last entry with a given key decides both membership and value.
proof fn lemma_entries_map_found(s: Seq<(i64, Array)>, i: int)
    requires
        0 <= i < s.len(),
        forall|j: int| i < j < s.len() ==> (#[trigger] s[j]).0 != s[i].0,
    ensures
        entries_map(s).contains_key(s[i].0 as int),
        entries_map(s)[s[i].0 as int] == s[i].1@,
    decreases s,
{
    if i < s.len() - 1 {
        assert(s.drop_last()[i] == s[i]);
        lemma_entries_map_found(s.drop_last(), i);
    }
}

/// A key on no entry is absent from the map.
proof fn lemma_entries_map_missing(s: Seq<(i64, Array)>, k: int)
    requires
        forall|j: int| 0 <= j < s.len() ==> (#[trigger] s[j]).0 as int != k,
    ensures
        !entries_map(s).contains_key(k),
    decreases s,
{
    if s.len() > 0 {
        lemma_entries_map_missing(s.drop_last(), k);
    }
}

impl Dictionaries {
    /// An empty resolver.
    pub fn new() -> (d: Dictionaries)
        ensures
            d@ == Map::<int, Av>::empty(),
    {
        Dictionaries { entries: Vec::new() }
    }

    /// Registers (or replaces) the values array of a dictionary id.
    pub fn set(&mut self, id: i64, values: Array)
        ensures
            final(self)@ == old(self)@.insert(id as int, values@),
    {
        self.entries.push((id, values));
        proof {
            assert(self.entries@.drop_last() =~= old(self).entries@);
        }
    }

    /// Looks a dictionary id up; a pure read.
    pub fn get(&self, id: i64) -> (r: Option<&Array>)
        ensures
            match r {
                Some(a) => self@.contains_key(id as int) && a@ == self@[id as int],
                None => !self@.contains_key(id as int),
            },
    {
        let n: usize = self.entries.len();
        let mut i: usize = n;
        while i > 0
            invariant
                n == self.entries@.len(),
                0 <= i <= n,
                forall|j: int| i <= j < n ==> (#[trigger] self.entries@[j]).0 != id,
            decreases i,
        {
            i = i - 1;
            if self.entries[i].0 == id {
                proof {
                    lemma_entries_map_found(self.entries@, i as int);
                }
                return Some(&self.entries[i].1);
            }
        }
        proof {
            lemma_entries_map_missing(self.entries@, id as int);
        }
        None
    }

    /// Whether an id is registered.
    pub fn contains(&self, id: i64) -> (b: bool)
        ensures
            b == self@.contains_key(id as int),
    {
        match self.get(id) {
            Some(_) => true,
            None => false,
        }
    }
}

} // verus!
