//! The set of scoped identifiers whose reads are redirected.

use vstd::prelude::*;
use crate::ast::{Id, Ident};

verus! {

/// A set of scoped-identifier keys.
#[derive(Debug)]
pub struct IdentSet {
    ids: Vec<Ident>,
}

impl View for IdentSet {
    type V = Set<Id>;

    closed spec fn view(&self) -> Set<Id> {
        Set::new(
            |id: Id| exists|i: int| 0 <= i < self.ids@.len() && #[trigger] self.ids@[i]@ == id,
        )
    }
}

impl IdentSet {
    /// The empty set.
    pub fn new() -> (r: IdentSet)
        ensures
            r@ == Set::<Id>::empty(),
    {
        let r = IdentSet { ids: Vec::new() };
        assert(r@ =~= Set::<Id>::empty());
        r
    }

    /// Adds `id` to the set.
    pub fn insert(&mut self, id: Ident)
        ensures
            final(self)@ == old(self)@.insert(id@),
    {
        let ghost before = self.ids@;
        self.ids.push(id);
        proof {
            assert forall|k: Id| self@.contains(k) <==> old(self)@.insert(id@).contains(k) by {
                if self@.contains(k) {
                    let i = choose|i: int| 0 <= i < self.ids@.len() && #[trigger] self.ids@[i]@ == k;
                    if i < before.len() {
                        assert(before[i]@ == k);
                    }
                }
                if old(self)@.contains(k) {
                    let i = choose|i: int| 0 <= i < before.len() && #[trigger] before[i]@ == k;
                    assert(self.ids@[i]@ == k);
                }
                if k == id@ {
                    assert(self.ids@[before.len() as int]@ == k);
                }
            }
            assert(self@ =~= old(self)@.insert(id@));
        }
    }

    /// Whether `id` is in the set.
    pub fn contains(&self, id: &Ident) -> (b: bool)
        ensures
            b == self@.contains(id@),
    {
        let mut i: usize = 0;
        while i < self.ids.len()
            invariant
                i <= self.ids@.len(),
                forall|j: int| 0 <= j < i ==> self.ids@[j]@ != id@,
            decreases self.ids@.len() - i,
        {
            if self.ids[i].ctxt == id.ctxt && self.ids[i].sym == id.sym {
                assert(self.ids@[i as int]@ == id@);
                return true;
            }
            i += 1;
        }
        false
    }

    /// Whether the set holds no identifier.
    pub fn is_empty(&self) -> (b: bool)
        ensures
            b == (self@ == Set::<Id>::empty()),
    {
        proof {
            if self.ids@.len() == 0 {
                assert(self@ =~= Set::<Id>::empty());
            } else {
                assert(self.ids@[0]@ == self.ids@[0]@);
                assert(self@.contains(self.ids@[0]@));
            }
        }
        self.ids.len() == 0
    }
}

} // verus!
