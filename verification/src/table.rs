//! A small table from names to values, kept as a list in which no name
//! occurs twice.

use vstd::prelude::*;
use crate::text::str_eq;

verus! {

/// The mapping that a list of named values stands for: a later entry takes
/// the place of an earlier one of the same name.
pub open spec fn pairs_map<T>(s: Seq<(String, T)>) -> Map<Seq<char>, T>
    decreases s.len(),
{
    if s.len() == 0 {
        Map::empty()
    } else {
        pairs_map(s.drop_last()).insert(s.last().0@, s.last().1)
    }
}

/// Whether no two entries of the list have the same name.
pub open spec fn distinct_names<T>(s: Seq<(String, T)>) -> bool {
    forall|i: int, j: int| 0 <= i < j < s.len() ==> (#[trigger] s[i]).0@ != (#[trigger] s[j]).0@
}

/// The names of the mapping are those of the list.
pub proof fn lemma_pairs_map_names<T>(s: Seq<(String, T)>, name: Seq<char>)
    ensures
        pairs_map(s).contains_key(name) <==> exists|i: int|
            0 <= i < s.len() && (#[trigger] s[i]).0@ == name,
        pairs_map(s).dom().finite(),
    decreases s.len(),
{
    if s.len() > 0 {
        let head = s.drop_last();
        lemma_pairs_map_names(head, name);
        if pairs_map(s).contains_key(name) {
            if s.last().0@ == name {
                assert(s[s.len() - 1].0@ == name);
            } else {
                let i = choose|i: int| 0 <= i < head.len() && (#[trigger] head[i]).0@ == name;
                assert(s[i].0@ == name);
            }
        }
        if exists|i: int| 0 <= i < s.len() && (#[trigger] s[i]).0@ == name {
            let i = choose|i: int| 0 <= i < s.len() && (#[trigger] s[i]).0@ == name;
            if i < s.len() - 1 {
                assert(head[i].0@ == name);
            }
        }
    }
}

/// In a list without a repeated name, each entry is what the mapping holds
/// under its name, and the mapping has as many names as the list has entries.
pub proof fn lemma_pairs_map_distinct<T>(s: Seq<(String, T)>)
    requires
        distinct_names(s),
    ensures
        forall|i: int|
            0 <= i < s.len() ==> pairs_map(s).contains_key((#[trigger] s[i]).0@) && pairs_map(
                s,
            )[s[i].0@] == s[i].1,
        pairs_map(s).len() == s.len(),
    decreases s.len(),
{
    if s.len() > 0 {
        let head = s.drop_last();
        assert(distinct_names(head)) by {
            assert forall|i: int, j: int| 0 <= i < j < head.len() implies (#[trigger] head[i]).0@
                != (#[trigger] head[j]).0@ by {
                assert(head[i] == s[i] && head[j] == s[j]);
            }
        }
        lemma_pairs_map_distinct(head);
        lemma_pairs_map_names(head, s.last().0@);
        assert(!pairs_map(head).contains_key(s.last().0@)) by {
            if pairs_map(head).contains_key(s.last().0@) {
                let i = choose|i: int|
                    0 <= i < head.len() && (#[trigger] head[i]).0@ == s.last().0@;
                assert(s[i].0@ == s[s.len() - 1].0@);
            }
        }
        assert forall|i: int| 0 <= i < s.len() implies pairs_map(s).contains_key(
            (#[trigger] s[i]).0@,
        ) && pairs_map(s)[s[i].0@] == s[i].1 by {
            if i < s.len() - 1 {
                assert(head[i] == s[i]);
                assert(s[i].0@ != s[s.len() - 1].0@);
            }
        }
    }
}

/// A table from names to values.
#[derive(Debug)]
pub struct Table<T> {
    entries: Vec<(String, T)>,
}

impl<T> View for Table<T> {
    type V = Map<Seq<char>, T>;

    closed spec fn view(&self) -> Map<Seq<char>, T> {
        pairs_map(self.entries@)
    }
}

impl<T> Table<T> {
    #[verifier::type_invariant]
    spec fn no_name_twice(self) -> bool {
        distinct_names(self.entries@)
    }

    /// A table that holds nothing.
    pub fn new() -> (t: Table<T>)
        ensures
            t@ == Map::<Seq<char>, T>::empty(),
    {
        Table { entries: Vec::new() }
    }

    /// How many names the table holds.
    pub fn len(&self) -> (n: usize)
        ensures
            n == self@.len(),
            self@.dom().finite(),
    {
        proof {
            use_type_invariant(self);
            lemma_pairs_map_distinct(self.entries@);
            lemma_pairs_map_names(self.entries@, Seq::empty());
        }
        self.entries.len()
    }

    /// Whether the table holds nothing.
    pub fn is_empty(&self) -> (b: bool)
        ensures
            b == (self@ == Map::<Seq<char>, T>::empty()),
    {
        proof {
            if self.entries@.len() > 0 {
                assert(pairs_map(self.entries@).contains_key(self.entries@.last().0@));
            }
        }
        self.entries.len() == 0
    }

    /// The value under `name`, if the table holds the name.
    pub fn get(&self, name: &str) -> (found: Option<&T>)
        ensures
            match found {
                Some(v) => self@.contains_key(name@) && self@[name@] == *v,
                None => !self@.contains_key(name@),
            },
    {
        let mut i: usize = 0;
        while i < self.entries.len()
            invariant
                i <= self.entries.len(),
                forall|j: int| 0 <= j < i ==> (#[trigger] self.entries@[j]).0@ != name@,
            decreases self.entries.len() - i,
        {
            if str_eq(self.entries[i].0.as_str(), name) {
                proof {
                    use_type_invariant(self);
                    lemma_pairs_map_distinct(self.entries@);
                    assert(self.entries@[i as int].0@ == name@);
                }
                return Some(&self.entries[i].1);
            }
            i = i + 1;
        }
        proof {
            lemma_pairs_map_names(self.entries@, name@);
        }
        None
    }

    /// Puts `value` under `name`, in place of what the name held before.
    pub fn insert(&mut self, name: String, value: T)
        ensures
            final(self)@ == old(self)@.insert(name@, value),
    {
        proof {
            use_type_invariant(&*self);
        }
        let mut entries: Vec<(String, T)> = Vec::new();
        std::mem::swap(&mut self.entries, &mut entries);
        let ghost before = entries@;
        let mut i: usize = 0;
        let mut at: Option<usize> = None;
        while i < entries.len() && at.is_none()
            invariant
                i <= entries.len(),
                entries@ == before,
                at is None ==> forall|j: int| 0 <= j < i ==> (#[trigger] before[j]).0@ != name@,
                at matches Some(k) ==> k < before.len() && before[k as int].0@ == name@,
            decreases entries.len() - i + (if at is None { 1int } else { 0int }),
        {
            if str_eq(entries[i].0.as_str(), name.as_str()) {
                at = Some(i);
            } else {
                i = i + 1;
            }
        }
        match at {
            Some(k) => {
                proof {
                    lemma_pairs_map_update(before, k as int, (name, value));
                }
                entries.set(k, (name, value));
            },
            None => {
                proof {
                    let after = before.push((name, value));
                    assert(after.drop_last() =~= before);
                    assert forall|a: int, b: int| 0 <= a < b < after.len() implies (
                    #[trigger] after[a]).0@ != (#[trigger] after[b]).0@ by {
                        if b < before.len() {
                            assert(after[a] == before[a] && after[b] == before[b]);
                        } else {
                            assert(after[a] == before[a]);
                        }
                    }
                }
                entries.push((name, value));
            },
        }
        std::mem::swap(&mut self.entries, &mut entries);
    }

    /// The entries of the table, each name once.
    pub fn entries(&self) -> (list: &Vec<(String, T)>)
        ensures
            pairs_map(list@) == self@,
            distinct_names(list@),
    {
        proof {
            use_type_invariant(self);
        }
        &self.entries
    }
}

/// Putting another value in the place of an entry, under the same name,
/// keeps the names distinct and changes the mapping at that name only.
pub proof fn lemma_pairs_map_update<T>(s: Seq<(String, T)>, i: int, entry: (String, T))
    requires
        distinct_names(s),
        0 <= i < s.len(),
        entry.0@ == s[i].0@,
    ensures
        distinct_names(s.update(i, entry)),
        pairs_map(s.update(i, entry)) == pairs_map(s).insert(entry.0@, entry.1),
    decreases s.len(),
{
    let t = s.update(i, entry);
    assert forall|a: int, b: int| 0 <= a < b < t.len() implies (#[trigger] t[a]).0@ != (
    #[trigger] t[b]).0@ by {
        assert(t[a].0@ == s[a].0@ && t[b].0@ == s[b].0@);
    }
    let head = s.drop_last();
    if i == s.len() - 1 {
        assert(t.drop_last() =~= head);
        assert(pairs_map(t) =~= pairs_map(s).insert(entry.0@, entry.1));
    } else {
        assert(distinct_names(head)) by {
            assert forall|a: int, b: int| 0 <= a < b < head.len() implies (#[trigger] head[a]).0@
                != (#[trigger] head[b]).0@ by {
                assert(head[a] == s[a] && head[b] == s[b]);
            }
        }
        lemma_pairs_map_update(head, i, entry);
        assert(t.drop_last() =~= head.update(i, entry));
        assert(t.last() == s.last());
        assert(s[i].0@ != s[s.len() - 1].0@);
        assert(pairs_map(t) =~= pairs_map(s).insert(entry.0@, entry.1));
    }
}

} // verus!
