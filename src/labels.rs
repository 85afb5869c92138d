//! The label table: names of instruction positions, where a later
//! definition of a name replaces an earlier one.
use vstd::prelude::*;
use crate::text::same_chars;

verus! {

/// One named position.
pub struct LabelEntry {
    pub name: Vec<char>,
    pub index: u8,
}

/// A map from label names to instruction positions, each name held once.
pub struct LabelTable {
    entries: Vec<LabelEntry>,
    map: Ghost<Map<Seq<char>, u8>>,
}

impl View for LabelTable {
    type V = Map<Seq<char>, u8>;

    closed spec fn view(&self) -> Map<Seq<char>, u8> {
        self.map@
    }
}

impl LabelTable {
    /// The entries hold exactly the map, each name once.
    pub closed spec fn wf(&self) -> bool {
        &&& forall|i: int|
            0 <= i < self.entries@.len() ==> {
                &&& self.map@.contains_key(#[trigger] self.entries@[i].name@)
                &&& self.map@[self.entries@[i].name@] == self.entries@[i].index
            }
        &&& forall|k: Seq<char>|
            #[trigger] self.map@.contains_key(k) ==> exists|i: int|
                0 <= i < self.entries@.len() && #[trigger] self.entries@[i].name@ == k
        &&& forall|i: int, j: int|
            0 <= i < self.entries@.len() && 0 <= j < self.entries@.len() && i != j
                ==> #[trigger] self.entries@[i].name@ != #[trigger] self.entries@[j].name@
    }

    /// An empty table.
    pub fn new() -> (r: Self)
        ensures
            r.wf(),
            r@ == Map::<Seq<char>, u8>::empty(),
    {
        LabelTable { entries: Vec::new(), map: Ghost(Map::empty()) }
    }

    /// The position of `entries` that holds `name`, if one does.
    fn find(&self, name: &Vec<char>) -> (r: Option<usize>)
        requires
            self.wf(),
        ensures
            match r {
                Some(i) => i < self.entries@.len() && self.entries@[i as int].name@ == name@,
                None => !self@.contains_key(name@),
            },
    {
        let mut i: usize = 0;
        while i < self.entries.len()
            invariant
                self.wf(),
                i <= self.entries@.len(),
                forall|j: int| 0 <= j < i ==> self.entries@[j].name@ != name@,
            decreases self.entries@.len() - i,
        {
            if same_chars(&self.entries[i].name, name) {
                return Some(i);
            }
            i = i + 1;
        }
        None
    }

    /// The position that `name` denotes, if it is defined.
    pub fn get(&self, name: &Vec<char>) -> (r: Option<u8>)
        requires
            self.wf(),
        ensures
            r == if self@.contains_key(name@) {
                Some(self@[name@])
            } else {
                None
            },
    {
        match self.find(name) {
            Some(i) => Some(self.entries[i].index),
            None => None,
        }
    }

    /// Defines `name` as `index`, replacing any earlier definition.
    pub fn insert(&mut self, name: Vec<char>, index: u8)
        requires
            old(self).wf(),
        ensures
            final(self).wf(),
            final(self)@ == old(self)@.insert(name@, index),
    {
        let ghost key = name@;
        let ghost mut pos: int = 0;
        match self.find(&name) {
            Some(i) => {
                let entry = LabelEntry { name, index };
                self.entries.set(i, entry);
                proof {
                    pos = i as int;
                }
            },
            None => {
                let entry = LabelEntry { name, index };
                self.entries.push(entry);
                proof {
                    pos = self.entries@.len() - 1;
                }
            },
        }
        assert(self.entries@[pos].name@ == key);
        self.map = Ghost(self.map@.insert(key, index));
        assert forall|k: Seq<char>| #[trigger] self.map@.contains_key(k) implies exists|i: int|
            0 <= i < self.entries@.len() && #[trigger] self.entries@[i].name@ == k by {
            if k != key {
                let i = choose|i: int|
                    0 <= i < old(self).entries@.len() && #[trigger] old(self).entries@[i].name@
                        == k;
                assert(self.entries@[i].name@ == k);
            } else {
                assert(self.entries@[pos].name@ == k);
            }
        }
    }
}

} // verus!
