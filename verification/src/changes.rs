//! The change buffer: the cell values that a growth step proposes, keyed by
//! the index of the cell each is meant for.

use crate::cell::Cell;
use std::collections::HashMap;
use vstd::std_specs::iter::IteratorSpec;
use vstd::prelude::*;

verus! {

broadcast use vstd::std_specs::hash::group_hash_axioms;

/// Proposed cell values by target index.
pub struct ChangeBuffer {
    map: HashMap<u32, Cell>,
}

impl View for ChangeBuffer {
    type V = Map<u32, Cell>;

    closed spec fn view(&self) -> Map<u32, Cell> {
        self.map@
    }
}

impl ChangeBuffer {
    /// The empty buffer.
    pub fn new() -> (b: ChangeBuffer)
        ensures
            b@ == Map::<u32, Cell>::empty(),
    {
        ChangeBuffer { map: HashMap::new() }
    }

    /// Records `value` for `index`, replacing what was recorded for it.
    pub fn insert(&mut self, index: u32, value: Cell)
        ensures
            final(self)@ == old(self)@.insert(index, value),
    {
        self.map.insert(index, value);
    }

    /// The number of indices with a recorded value.
    pub fn len(&self) -> (n: usize)
        ensures
            self@.dom().finite(),
            n == self@.len(),
    {
        self.map.len()
    }

    /// The value recorded for `index`, if any.
    pub fn get(&self, index: u32) -> (value: Option<Cell>)
        ensures
            value == (if self@.contains_key(index) {
                Some(self@[index])
            } else {
                None
            }),
    {
        match self.map.get(&index) {
            Some(c) => Some(*c),
            None => None,
        }
    }

    /// Forgets every recorded value.
    pub fn clear(&mut self)
        ensures
            final(self)@ == Map::<u32, Cell>::empty(),
    {
        self.map.clear();
    }

    /// The recorded values with their indices, each index once, in no
    /// particular order.
    pub fn entries(&self) -> (pairs: Vec<(u32, Cell)>)
        ensures
            pairs@.no_duplicates(),
            pairs@.to_set() == self@.kv_pairs(),
            pairs@.len() == self@.len(),
    {
        let mut pairs: Vec<(u32, Cell)> = Vec::new();
        for pair in walk: self.map.iter()
            invariant
                walk.seq() == vstd::std_specs::hash::spec_hash_map_iter(&self.map).remaining(),
                pairs@ == walk.seq().take(walk.index()).unref(),
        {
            pairs.push((*pair.0, *pair.1));
            assert(pairs@ =~= walk.seq().take(walk.index() + 1).unref());
        }
        proof {
            let all = vstd::std_specs::hash::spec_hash_map_iter(&self.map).remaining();
            assert(all.take(all.len() as int) =~= all);
            assert(all.no_duplicates());
            assert(pairs@.no_duplicates()) by {
                assert forall|i: int, j: int|
                    0 <= i < pairs@.len() && 0 <= j < pairs@.len() && i != j implies pairs@[i]
                    != pairs@[j] by {
                    assert(self.map@.contains_key(*all[i].0) && self.map@[*all[i].0] == *all[i].1);
                    assert(self.map@.contains_key(*all[j].0) && self.map@[*all[j].0] == *all[j].1);
                    assert(all[i] != all[j]);
                }
            }
        }
        pairs
    }
}

} // verus!
