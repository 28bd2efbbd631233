//! The substitution table behind `$sub`: an integer-indexed store of
//! strings, scoped to one conditional pass. Modelled as a map from index
//! to character sequence; a later assignment to an index overrides an
//! earlier one.

use vstd::prelude::*;

verus! {

/// The store `$sub(n) = value` writes and `$sub(n)` reads.
pub struct SubMap {
    entries: Vec<(u64, String)>,
}

/// The map an entry list denotes: later entries win.
pub open spec fn map_of(es: Seq<(u64, String)>) -> Map<u64, Seq<char>>
    decreases es.len(),
{
    if es.len() == 0 {
        Map::empty()
    } else {
        map_of(es.drop_last()).insert(es.last().0, es.last().1@)
    }
}

impl View for SubMap {
    type V = Map<u64, Seq<char>>;

    closed spec fn view(&self) -> Map<u64, Seq<char>> {
        map_of(self.entries@)
    }
}

impl SubMap {
    /// An empty table.
    pub fn new() -> (r: SubMap)
        ensures
            r@ == Map::<u64, Seq<char>>::empty(),
    {
        SubMap { entries: Vec::new() }
    }

    /// Stores `v` under `idx`, overriding any earlier value there.
    pub fn insert(&mut self, idx: u64, v: String)
        ensures
            final(self)@ == old(self)@.insert(idx, v@),
    {
        let ghost old_es = self.entries@;
        let ghost vv = v@;
        self.entries.push((idx, v));
        proof {
            assert(self.entries@.drop_last() =~= old_es);
            assert(self.entries@.last().0 == idx);
            assert(self.entries@.last().1@ == vv);
        }
    }

    /// The value stored under `idx`, if any.
    pub fn get(&self, idx: u64) -> (r: Option<String>)
        ensures
            match r {
                Some(v) => self@.contains_key(idx) && v@ == self@[idx],
                None => !self@.contains_key(idx),
            },
    {
        let mut i = self.entries.len();
        proof {
            assert(self.entries@.subrange(0, self.entries@.len() as int) =~= self.entries@);
        }
        while i > 0
            invariant
                i <= self.entries@.len(),
                map_of(self.entries@).contains_key(idx) == map_of(
                    self.entries@.subrange(0, i as int),
                ).contains_key(idx),
                map_of(self.entries@).contains_key(idx) ==> map_of(self.entries@)[idx] == map_of(
                    self.entries@.subrange(0, i as int),
                )[idx],
            decreases i,
        {
            proof {
                let part = self.entries@.subrange(0, i as int);
                assert(part.drop_last() =~= self.entries@.subrange(0, i as int - 1));
                assert(part.last() == self.entries@[i as int - 1]);
            }
            if self.entries[i - 1].0 == idx {
                return Some(self.entries[i - 1].1.clone());
            }
            i = i - 1;
        }
        proof {
            assert(self.entries@.subrange(0, 0) =~= Seq::<(u64, String)>::empty());
        }
        None
    }
}

} // verus!
