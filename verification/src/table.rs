//! A table from codes to values, kept as a list of entries.

use vstd::prelude::*;

verus! {

/// The mapping that a list of entries stands for: of two entries with one
/// code the later one counts.
pub open spec fn table_of<V>(entries: Seq<(String, V)>) -> Map<Seq<char>, V>
    decreases entries.len(),
{
    if entries.len() == 0 {
        Map::empty()
    } else {
        table_of(entries.drop_last()).insert(entries.last().0@, entries.last().1)
    }
}

/// A mapping from codes to values of type `V`.
pub struct CodeTable<V> {
    entries: Vec<(String, V)>,
}

impl<V> View for CodeTable<V> {
    type V = Map<Seq<char>, V>;

    closed spec fn view(&self) -> Map<Seq<char>, V> {
        table_of(self.entries@)
    }
}

impl<V> CodeTable<V> {
    /// The table without entries.
    pub fn new() -> (table: CodeTable<V>)
        ensures
            table@ == Map::<Seq<char>, V>::empty(),
    {
        CodeTable { entries: Vec::new() }
    }

    /// Maps `code` to `value`, in place of what it was mapped to before.
    pub fn insert(&mut self, code: String, value: V)
        ensures
            final(self)@ == old(self)@.insert(code@, value),
    {
        proof {
            assert(old(self).entries@.push((code, value)).drop_last() =~= old(self).entries@);
        }
        self.entries.push((code, value));
    }

    /// What `code` is mapped to.
    pub fn get(&self, code: &String) -> (found: Option<&V>)
        ensures
            match found {
                Some(value) => self@.contains_key(code@) && self@[code@] == *value,
                None => !self@.contains_key(code@),
            },
    {
        let mut i: usize = self.entries.len();
        assert(self.entries@.take(i as int) =~= self.entries@);
        while i > 0
            invariant
                i <= self.entries.len(),
                self@.contains_key(code@) == table_of(self.entries@.take(i as int)).contains_key(
                    code@,
                ),
                self@.contains_key(code@) ==> self@[code@] == table_of(
                    self.entries@.take(i as int),
                )[code@],
            decreases i,
        {
            i -= 1;
            proof {
                assert(self.entries@.take(i + 1).drop_last() =~= self.entries@.take(i as int));
                assert(self.entries@.take(i + 1).last() == self.entries@[i as int]);
            }
            if self.entries[i].0 == *code {
                return Some(&self.entries[i].1);
            }
        }
        None
    }
}

} // verus!
