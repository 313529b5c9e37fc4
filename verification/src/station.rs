//! Which observation stations lie in which `Class10` area.

use crate::table::CodeTable;
use vstd::prelude::*;

verus! {

/// A set of station codes.
pub struct StationSet {
    codes: Vec<String>,
}

/// The set of the texts of `codes`.
pub open spec fn code_set(codes: Seq<String>) -> Set<Seq<char>> {
    Set::new(|c: Seq<char>| exists|i: int| 0 <= i < codes.len() && (#[trigger] codes[i])@ == c)
}

impl View for StationSet {
    type V = Set<Seq<char>>;

    closed spec fn view(&self) -> Set<Seq<char>> {
        code_set(self.codes@)
    }
}

impl StationSet {
    /// The empty set.
    pub fn new() -> (set: StationSet)
        ensures
            set@ == Set::<Seq<char>>::empty(),
    {
        let set = StationSet { codes: Vec::new() };
        assert(set@ =~= Set::<Seq<char>>::empty());
        set
    }

    /// The set of the given codes; one that is given twice counts once.
    pub fn from_codes(codes: Vec<String>) -> (set: StationSet)
        ensures
            set@ == code_set(codes@),
    {
        StationSet { codes }
    }

    /// Whether `code` is in the set.
    pub(crate) fn has(&self, code: &String) -> (found: bool)
        ensures
            found == self@.contains(code@),
    {
        let mut i: usize = 0;
        while i < self.codes.len()
            invariant
                i <= self.codes.len(),
                forall|k: int| 0 <= k < i ==> (#[trigger] self.codes@[k])@ != code@,
            decreases self.codes.len() - i,
        {
            if self.codes[i] == *code {
                return true;
            }
            i += 1;
        }
        false
    }

    /// Whether `code` is in the set.
    pub fn contains(&self, code: &str) -> (found: bool)
        ensures
            found == self@.contains(code@),
    {
        let code: String = code.to_owned();
        self.has(&code)
    }

    /// Adds `code` to the set.
    pub fn insert(&mut self, code: &str)
        ensures
            final(self)@ == old(self)@.insert(code@),
    {
        let code: String = code.to_owned();
        if !self.has(&code) {
            let ghost before = self.codes@;
            self.codes.push(code);
            assert forall|c: Seq<char>| code_set(self.codes@).contains(c) == code_set(
                before,
            ).insert(code@).contains(c) by {
                if code_set(before).insert(code@).contains(c) {
                    if c == code@ {
                        assert(self.codes@[before.len() as int]@ == c);
                    } else {
                        let i = choose|i: int| 0 <= i < before.len() && (#[trigger] before[i])@ == c;
                        assert(self.codes@[i]@ == c);
                    }
                }
            }
            assert(self@ =~= old(self)@.insert(code@));
        } else {
            assert(self@ =~= old(self)@.insert(code@));
        }
    }

    /// Whether the set has no member.
    pub fn is_empty(&self) -> (empty: bool)
        ensures
            empty == (self@ == Set::<Seq<char>>::empty()),
    {
        let empty = self.codes.len() == 0;
        proof {
            if empty {
                assert(self@ =~= Set::<Seq<char>>::empty());
            } else {
                assert(self@.contains(self.codes@[0]@));
            }
        }
        empty
    }
}

/// The station membership: for a `Class10` code the stations that lie in that
/// area. A code without an entry has no stations recorded.
pub struct StationIndex {
    table: CodeTable<StationSet>,
}

impl View for StationIndex {
    type V = Map<Seq<char>, Set<Seq<char>>>;

    closed spec fn view(&self) -> Map<Seq<char>, Set<Seq<char>>> {
        self.table@.map_values(|set: StationSet| set@)
    }
}

/// The stations recorded for `class10_code`, if it has an entry.
pub open spec fn stations_of(index: Map<Seq<char>, Set<Seq<char>>>, class10_code: Seq<char>) -> Option<
    Set<Seq<char>>,
> {
    if index.contains_key(class10_code) {
        Some(index[class10_code])
    } else {
        None
    }
}

/// The view of an optional borrowed set.
pub open spec fn set_view_of(found: Option<&StationSet>) -> Option<Set<Seq<char>>> {
    match found {
        Some(set) => Some(set@),
        None => None,
    }
}

impl StationIndex {
    /// The index without entries.
    pub fn new() -> (index: StationIndex)
        ensures
            index@ == Map::<Seq<char>, Set<Seq<char>>>::empty(),
    {
        let index = StationIndex { table: CodeTable::new() };
        assert(index@ =~= Map::<Seq<char>, Set<Seq<char>>>::empty());
        index
    }

    /// Records `stations` as the stations of `class10_code`, in place of an
    /// earlier entry for that code.
    pub fn insert(&mut self, class10_code: &str, stations: StationSet)
        ensures
            final(self)@ == old(self)@.insert(class10_code@, stations@),
    {
        self.table.insert(class10_code.to_owned(), stations);
        assert(self@ =~= old(self)@.insert(class10_code@, stations@));
    }

    /// The stations of `class10_code`, or `None` where the code has no entry.
    pub fn stations_for(&self, class10_code: &str) -> (found: Option<&StationSet>)
        ensures
            set_view_of(found) == stations_of(self@, class10_code@),
    {
        let code: String = class10_code.to_owned();
        self.table.get(&code)
    }
}

} // verus!
