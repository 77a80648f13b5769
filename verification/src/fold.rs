use vstd::prelude::*;

verus! {

use crate::GameId;
use crate::ids::GameIdSet;

/// The common members of a non-empty family of sets, folded left to right:
/// the first set seeds the running value, each later set is intersected in.
pub open spec fn intersection_of(sets: Seq<Set<GameId>>) -> Set<GameId>
    recommends
        sets.len() >= 1,
    decreases sets.len(),
{
    if sets.len() <= 1 {
        sets[0]
    } else {
        intersection_of(sets.drop_last()).intersect(sets.last())
    }
}

/// What a running accumulator holds after one more owned-game set: the first
/// set seeds it, each later one is intersected against the running value.
pub open spec fn absorb_spec(acc: Option<Set<GameId>>, s: Set<GameId>) -> Option<Set<GameId>> {
    match acc {
        None => Some(s),
        Some(a) => Some(a.intersect(s)),
    }
}

/// The accumulator after folding a whole family, starting unset.
pub open spec fn fold_absorb(sets: Seq<Set<GameId>>) -> Option<Set<GameId>>
    decreases sets.len(),
{
    if sets.len() == 0 {
        None
    } else {
        absorb_spec(fold_absorb(sets.drop_last()), sets.last())
    }
}

/// Folding one set returns that set unchanged, and an element survives a
/// non-empty fold exactly when every set of the family holds it.
pub proof fn lemma_intersection_members(sets: Seq<Set<GameId>>)
    requires
        sets.len() >= 1,
    ensures
        forall|x: GameId| #[trigger]
            intersection_of(sets).contains(x) <==> (forall|j: int|
                0 <= j < sets.len() ==> #[trigger] sets[j].contains(x)),
        sets.len() == 1 ==> intersection_of(sets) == sets[0],
    decreases sets.len(),
{
    if sets.len() > 1 {
        let rest = sets.drop_last();
        lemma_intersection_members(rest);
        assert(intersection_of(sets) == intersection_of(rest).intersect(sets.last()));
        assert forall|x: GameId| #[trigger]
            intersection_of(sets).contains(x) implies (forall|j: int|
            0 <= j < sets.len() ==> #[trigger] sets[j].contains(x)) by {
            assert(intersection_of(rest).contains(x));
            assert(sets.last().contains(x));
            assert forall|j: int| 0 <= j < sets.len() implies #[trigger] sets[j].contains(x) by {
                if j < sets.len() - 1 {
                    assert(rest[j].contains(x));
                    assert(rest[j] == sets[j]);
                } else {
                    assert(sets[j] == sets.last());
                }
            }
        }
        assert forall|x: GameId|
            (forall|j: int|
                0 <= j < sets.len() ==> #[trigger] sets[j].contains(
                    x,
                )) implies #[trigger] intersection_of(sets).contains(x) by {
            assert forall|j: int| 0 <= j < rest.len() implies #[trigger] rest[j].contains(x) by {
                assert(sets[j].contains(x));
            }
            assert(intersection_of(rest).contains(x));
            assert(sets[sets.len() - 1].contains(x));
            assert(sets.last().contains(x));
        }
    }
}

/// The accumulator after folding a non-empty family is set, and holds exactly
/// the mathematical intersection of the family.
pub proof fn lemma_fold_absorb_is_intersection(sets: Seq<Set<GameId>>)
    requires
        sets.len() >= 1,
    ensures
        fold_absorb(sets) == Some(intersection_of(sets)),
    decreases sets.len(),
{
    if sets.len() == 1 {
        assert(sets.drop_last().len() == 0);
        assert(fold_absorb(sets.drop_last()) is None);
        assert(fold_absorb(sets) == Some(sets.last()));
        assert(intersection_of(sets) == sets[0]);
        assert(sets.last() == sets[0]);
    } else {
        lemma_fold_absorb_is_intersection(sets.drop_last());
        assert(fold_absorb(sets) == Some(intersection_of(sets.drop_last()).intersect(sets.last())));
    }
}

/// Intersection is order-independent: two account orders that process the
/// same owned-game sets, each the same number of times, fold to the same set.
pub proof fn lemma_intersection_order_independent(a: Seq<Set<GameId>>, b: Seq<Set<GameId>>)
    requires
        a.len() >= 1,
        b.len() >= 1,
        a.to_multiset() == b.to_multiset(),
    ensures
        intersection_of(a) == intersection_of(b),
{
    broadcast use vstd::seq_lib::group_to_multiset_ensures;

    lemma_intersection_members(a);
    lemma_intersection_members(b);
    assert forall|x: GameId, j: int|
        intersection_of(a).contains(x) && 0 <= j < b.len() implies #[trigger] b[j].contains(x) by {
        assert(b.contains(b[j]));
        assert(b.to_multiset().count(b[j]) > 0);
        assert(a.contains(b[j]));
        let k = choose|k: int| 0 <= k < a.len() && a[k] == b[j];
        assert(a[k].contains(x));
    }
    assert forall|x: GameId, j: int|
        intersection_of(b).contains(x) && 0 <= j < a.len() implies #[trigger] a[j].contains(x) by {
        assert(a.contains(a[j]));
        assert(a.to_multiset().count(a[j]) > 0);
        assert(b.contains(a[j]));
        let k = choose|k: int| 0 <= k < b.len() && b[k] == a[j];
        assert(b[k].contains(x));
    }
    assert(intersection_of(a) =~= intersection_of(b));
}

/// The running intersection over the accounts seen so far. Freshly created it
/// is unset, which is not the same as holding an empty set: the first
/// owned-game set seeds it even when that set is empty.
pub struct Accumulator {
    current: Option<GameIdSet>,
}

impl View for Accumulator {
    type V = Option<Set<GameId>>;

    closed spec fn view(&self) -> Option<Set<GameId>> {
        match self.current {
            None => None,
            Some(ref s) => Some(s@),
        }
    }
}

impl Accumulator {
    pub fn new() -> (a: Self)
        ensures
            a@ is None,
    {
        Accumulator { current: None }
    }

    pub fn is_seeded(&self) -> (r: bool)
        ensures
            r == (self@ is Some),
    {
        self.current.is_some()
    }

    /// Folds one account's owned games into the running value.
    pub fn absorb(&mut self, s: &GameIdSet)
        ensures
            final(self)@ == absorb_spec(old(self)@, s@),
    {
        match &self.current {
            None => {
                self.current = Some(s.duplicate());
            },
            Some(cur) => {
                let next = cur.intersect(s);
                self.current = Some(next);
            },
        }
    }

    /// Hands the folded set out; the accumulator must have been seeded.
    pub fn finish(self) -> (r: GameIdSet)
        requires
            self@ is Some,
        ensures
            Some(r@) == self@,
    {
        match self.current {
            Some(s) => s,
            None => GameIdSet::new(),
        }
    }
}

/// Folds a whole non-empty family of owned-game sets into their intersection.
pub fn intersect_all(sets: &Vec<GameIdSet>) -> (r: GameIdSet)
    requires
        sets@.len() >= 1,
    ensures
        r@ == intersection_of(sets@.map_values(|s: GameIdSet| s@)),
        forall|x: GameId| #[trigger]
            r@.contains(x) <==> (forall|j: int| 0 <= j < sets@.len() ==> sets@[j]@.contains(x)),
{
    let ghost family = sets@.map_values(|s: GameIdSet| s@);
    let mut acc = Accumulator::new();
    let n = sets.len();
    let mut i: usize = 0;
    while i < n
        invariant
            n == sets@.len(),
            0 <= i <= n,
            family == sets@.map_values(|s: GameIdSet| s@),
            acc@ == fold_absorb(family.take(i as int)),
        decreases n - i,
    {
        acc.absorb(&sets[i]);
        proof {
            let t = family.take(i + 1);
            assert(t.drop_last() =~= family.take(i as int));
            assert(t.last() == sets@[i as int]@);
        }
        i += 1;
    }
    proof {
        assert(family.take(n as int) =~= family);
        lemma_fold_absorb_is_intersection(family);
    }
    let r = acc.finish();
    proof {
        lemma_intersection_members(family);
        assert forall|x: GameId| #[trigger]
            r@.contains(x) <==> (forall|j: int|
                0 <= j < sets@.len() ==> sets@[j]@.contains(x)) by {
            if r@.contains(x) {
                assert(intersection_of(family).contains(x));
                assert forall|j: int| 0 <= j < sets@.len() implies sets@[j]@.contains(x) by {
                    assert(family[j].contains(x));
                    assert(family[j] == sets@[j]@);
                }
            }
            if forall|j: int| 0 <= j < sets@.len() ==> sets@[j]@.contains(x) {
                assert forall|j: int| 0 <= j < family.len() implies #[trigger] family[j].contains(
                    x,
                ) by {
                    assert(sets@[j]@.contains(x));
                }
                assert(intersection_of(family).contains(x));
            }
        }
    }
    r
}

} // verus!
