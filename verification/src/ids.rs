use vstd::prelude::*;

verus! {

use crate::GameId;

/// A set of game identifiers, as produced for one account or by folding
/// several accounts together. Membership is what matters; the insertion
/// order is still tracked so that output built from the set is reproducible
/// within one run.
#[derive(Debug)]
pub struct GameIdSet {
    ids: Vec<GameId>,
}

impl View for GameIdSet {
    type V = Set<GameId>;

    closed spec fn view(&self) -> Set<GameId> {
        self.ids@.to_set()
    }
}

impl GameIdSet {
    #[verifier::type_invariant]
    spec fn wf(self) -> bool {
        self.ids@.no_duplicates()
    }

    /// The members in iteration order, each exactly once.
    pub closed spec fn order(&self) -> Seq<GameId> {
        self.ids@
    }

    pub fn new() -> (s: Self)
        ensures
            s@ == Set::<GameId>::empty(),
            s.order() == Seq::<GameId>::empty(),
    {
        let s = GameIdSet { ids: Vec::new() };
        proof {
            assert(s.ids@.to_set() =~= Set::<GameId>::empty());
        }
        s
    }

    /// How many members there are. The extra clauses publish what holds of
    /// every set this module hands out: the iteration order lists each member
    /// exactly once.
    pub fn len(&self) -> (n: usize)
        ensures
            n == self@.len(),
            n == self.order().len(),
            self@ == self.order().to_set(),
            self.order().no_duplicates(),
            self@.finite(),
    {
        proof {
            use_type_invariant(self);
            self.ids@.unique_seq_to_set();
            vstd::seq_lib::seq_to_set_is_finite(self.ids@);
        }
        self.ids.len()
    }

    pub fn is_empty(&self) -> (r: bool)
        ensures
            r == (self@.len() == 0),
    {
        self.len() == 0
    }

    pub fn index(&self, i: usize) -> (g: GameId)
        requires
            i < self.order().len(),
        ensures
            g == self.order()[i as int],
            self@.contains(g),
    {
        proof {
            use_type_invariant(self);
        }
        self.ids[i]
    }

    pub fn contains(&self, g: GameId) -> (r: bool)
        ensures
            r == self@.contains(g),
    {
        let n = self.ids.len();
        let mut i: usize = 0;
        while i < n
            invariant
                n == self.ids@.len(),
                0 <= i <= n,
                forall|j: int| 0 <= j < i ==> self.ids@[j] != g,
            decreases n - i,
        {
            if self.ids[i] == g {
                return true;
            }
            i += 1;
        }
        proof {
            assert(!self.ids@.contains(g));
        }
        false
    }

    /// Adds one identifier; a duplicate collapses, leaving the set unchanged.
    pub fn insert(&mut self, g: GameId)
        ensures
            final(self)@ == old(self)@.insert(g),
            final(self).order() == if old(self)@.contains(g) {
                old(self).order()
            } else {
                old(self).order().push(g)
            },
    {
        proof {
            use_type_invariant(&*self);
        }
        if !self.contains(g) {
            let mut v: Vec<GameId> = Vec::new();
            core::mem::swap(&mut v, &mut self.ids);
            v.push(g);
            proof {
                assert(v@.no_duplicates());
            }
            self.ids = v;
        }
        proof {
            broadcast use vstd::seq_lib::lemma_seq_contains_after_push;

            assert(self@ =~= old(self)@.insert(g));
        }
    }

    /// An exact copy.
    pub fn duplicate(&self) -> (r: Self)
        ensures
            r@ == self@,
            r.order() == self.order(),
    {
        proof {
            use_type_invariant(self);
        }
        let n = self.ids.len();
        let mut out: Vec<GameId> = Vec::new();
        let mut i: usize = 0;
        while i < n
            invariant
                n == self.ids@.len(),
                0 <= i <= n,
                out@ == self.ids@.take(i as int),
            decreases n - i,
        {
            out.push(self.ids[i]);
            proof {
                assert(out@ =~= self.ids@.take(i + 1));
            }
            i += 1;
        }
        proof {
            assert(out@ =~= self.ids@);
        }
        GameIdSet { ids: out }
    }

    /// The members present in both sets.
    pub fn intersect(&self, other: &Self) -> (r: Self)
        ensures
            r@ == self@.intersect(other@),
    {
        proof {
            use_type_invariant(self);
        }
        let n = self.ids.len();
        let mut out = GameIdSet::new();
        let mut i: usize = 0;
        while i < n
            invariant
                n == self.ids@.len(),
                0 <= i <= n,
                forall|x: GameId| #[trigger]
                    out@.contains(x) <==> (self.ids@.take(i as int).contains(x)
                        && other@.contains(x)),
            decreases n - i,
        {
            let g = self.ids[i];
            proof {
                broadcast use vstd::seq_lib::lemma_seq_contains_after_push;

                assert(self.ids@.take(i + 1) =~= self.ids@.take(i as int).push(
                    self.ids@[i as int],
                ));
            }
            if other.contains(g) {
                out.insert(g);
            }
            i += 1;
        }
        proof {
            assert(self.ids@.take(n as int) =~= self.ids@);
            assert(out@ =~= self@.intersect(other@));
        }
        out
    }
}

} // verus!
