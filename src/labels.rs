//! The label table: where each declared label points.

use vstd::prelude::*;
use crate::text::same_text;

verus! {

/// The map that a list of declarations describes, later entries over
/// earlier ones.
spec fn entries_map(e: Seq<(String, usize)>) -> Map<Seq<char>, usize>
    decreases e.len(),
{
    if e.len() == 0 {
        Map::empty()
    } else {
        entries_map(e.drop_last()).insert(e.last().0@, e.last().1)
    }
}

/// Label names, case-sensitive, each mapped to the index of the instruction
/// that follows its declaration. A name, once in, keeps its index.
pub struct LabelTable {
    entries: Vec<(String, usize)>,
}

impl View for LabelTable {
    type V = Map<Seq<char>, usize>;

    closed spec fn view(&self) -> Map<Seq<char>, usize> {
        entries_map(self.entries@)
    }
}

impl LabelTable {
    /// An empty table.
    pub fn new() -> (r: LabelTable)
        ensures
            r@ == Map::<Seq<char>, usize>::empty(),
    {
        LabelTable { entries: Vec::new() }
    }

    /// The index recorded for `name`, if it is declared.
    pub fn get(&self, name: &str) -> (r: Option<usize>)
        ensures
            r == (if self@.contains_key(name@) {
                Some(self@[name@])
            } else {
                None
            }),
    {
        let ghost e = self.entries@;
        let mut i: usize = self.entries.len();
        assert(e.take(i as int) =~= e);
        while i > 0
            invariant
                i <= e.len(),
                e == self.entries@,
                entries_map(e.take(i as int)).contains_key(name@) == self@.contains_key(name@),
                self@.contains_key(name@) ==> entries_map(e.take(i as int))[name@]
                    == self@[name@],
            decreases i,
        {
            let j = i - 1;
            assert(e.take(i as int).drop_last() =~= e.take(j as int));
            if same_text(self.entries[j].0.as_str(), name) {
                return Some(self.entries[j].1);
            }
            i = j;
        }
        None
    }

    /// Whether `name` is declared.
    pub fn contains_key(&self, name: &str) -> (r: bool)
        ensures
            r == self@.contains_key(name@),
    {
        self.get(name).is_some()
    }

    /// Declares `name` at `index`, unless it is declared already; a declared
    /// name is never moved. Tells whether the table grew.
    pub fn insert(&mut self, name: String, index: usize) -> (r: bool)
        ensures
            r == !old(self)@.contains_key(name@),
            r ==> final(self)@ == old(self)@.insert(name@, index),
            !r ==> final(self)@ == old(self)@,
    {
        if self.contains_key(name.as_str()) {
            return false;
        }
        let ghost e = self.entries@;
        let ghost key = name@;
        self.entries.push((name, index));
        assert(self.entries@.drop_last() =~= e);
        true
    }
}

} // verus!
