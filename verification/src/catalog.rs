use vstd::prelude::*;

verus! {

use crate::GameId;
use crate::ids::GameIdSet;

/// One catalog row: a game identifier and the title it carries.
#[derive(Debug)]
pub struct CatalogEntry {
    pub appid: GameId,
    pub name: String,
}

/// The mapping that a list of catalog rows describes; a repeated identifier
/// is overwritten, so the last row wins.
pub open spec fn map_of(entries: Seq<CatalogEntry>) -> Map<GameId, Seq<char>>
    decreases entries.len(),
{
    if entries.len() == 0 {
        Map::empty()
    } else {
        map_of(entries.drop_last()).insert(entries.last().appid, entries.last().name@)
    }
}

/// No two rows carry the same identifier.
pub open spec fn keys_unique(entries: Seq<CatalogEntry>) -> bool {
    forall|i: int, j: int|
        0 <= i < entries.len() && 0 <= j < entries.len() && i != j ==> entries[i].appid
            != entries[j].appid
}

/// A key is in the mapping exactly when some row carries it.
pub proof fn lemma_map_of_dom(entries: Seq<CatalogEntry>, k: GameId)
    ensures
        map_of(entries).contains_key(k) <==> exists|j: int|
            0 <= j < entries.len() && #[trigger] entries[j].appid == k,
    decreases entries.len(),
{
    if entries.len() > 0 {
        lemma_map_of_dom(entries.drop_last(), k);
        if map_of(entries).contains_key(k) {
            if entries.last().appid == k {
                assert(entries[entries.len() - 1].appid == k);
            } else {
                let j = choose|j: int|
                    0 <= j < entries.drop_last().len() && #[trigger] entries.drop_last()[j].appid
                        == k;
                assert(entries[j].appid == k);
            }
        }
        if exists|j: int| 0 <= j < entries.len() && #[trigger] entries[j].appid == k {
            let j = choose|j: int| 0 <= j < entries.len() && #[trigger] entries[j].appid == k;
            if j < entries.len() - 1 {
                assert(entries.drop_last()[j].appid == k);
            }
        }
    }
}

/// With unique identifiers, each row is read back exactly as written.
pub proof fn lemma_map_of_values(entries: Seq<CatalogEntry>, j: int)
    requires
        keys_unique(entries),
        0 <= j < entries.len(),
    ensures
        map_of(entries).contains_key(entries[j].appid),
        map_of(entries)[entries[j].appid] == entries[j].name@,
    decreases entries.len(),
{
    lemma_map_of_dom(entries, entries[j].appid);
    if j < entries.len() - 1 {
        assert forall|i1: int, i2: int|
            0 <= i1 < entries.drop_last().len() && 0 <= i2 < entries.drop_last().len() && i1
                != i2 implies entries.drop_last()[i1].appid != entries.drop_last()[i2].appid by {
            assert(entries[i1].appid != entries[i2].appid);
        }
        assert(entries.drop_last()[j] == entries[j]);
        lemma_map_of_values(entries.drop_last(), j);
        assert(entries.last().appid != entries[j].appid);
    }
}

/// The in-memory snapshot of the platform catalog: for each known game
/// identifier, its title.
pub struct Catalog {
    entries: Vec<CatalogEntry>,
}

impl View for Catalog {
    type V = Map<GameId, Seq<char>>;

    closed spec fn view(&self) -> Map<GameId, Seq<char>> {
        map_of(self.entries@)
    }
}

impl Catalog {
    #[verifier::type_invariant]
    spec fn wf(self) -> bool {
        keys_unique(self.entries@)
    }

    pub fn new() -> (c: Self)
        ensures
            c@ == Map::<GameId, Seq<char>>::empty(),
    {
        Catalog { entries: Vec::new() }
    }

    /// Records one row; a row already present under the same identifier is
    /// overwritten.
    pub fn insert(&mut self, id: GameId, name: String)
        ensures
            final(self)@ == old(self)@.insert(id, name@),
    {
        proof {
            use_type_invariant(&*self);
        }
        let mut v: Vec<CatalogEntry> = Vec::new();
        core::mem::swap(&mut v, &mut self.entries);
        let ghost base = v@;
        let n = v.len();
        let mut i: usize = 0;
        while i < n && v[i].appid != id
            invariant
                v@ == base,
                n == base.len(),
                0 <= i <= n,
                forall|j: int| 0 <= j < i ==> base[j].appid != id,
            decreases n - i,
        {
            i += 1;
        }
        if i < n {
            let _ = v.remove(i);
        }
        let ghost mid = v@;
        proof {
            assert forall|a: int| 0 <= a < mid.len() implies #[trigger] mid[a].appid != id by {
                if i < n {
                    if a < i {
                        assert(mid[a] == base[a]);
                    } else {
                        assert(mid[a] == base[a + 1]);
                        assert(base[i as int].appid == id);
                        assert(base[a + 1].appid != base[i as int].appid);
                    }
                } else {
                    assert(mid[a] == base[a]);
                }
            }
            assert forall|a: int, b: int|
                0 <= a < mid.len() && 0 <= b < mid.len() && a != b implies mid[a].appid
                != mid[b].appid by {
                let a0: int = if i < n && a >= i {
                    a + 1
                } else {
                    a
                };
                let b0: int = if i < n && b >= i {
                    b + 1
                } else {
                    b
                };
                assert(mid[a] == base[a0] && mid[b] == base[b0]);
                assert(base[a0].appid != base[b0].appid);
            }
        }
        v.push(CatalogEntry { appid: id, name });
        proof {
            let new_entries = v@;
            assert(keys_unique(new_entries));
            assert forall|k: GameId|
                map_of(new_entries).contains_key(k) == map_of(base).insert(
                    id,
                    name@,
                ).contains_key(k) by {
                lemma_map_of_dom(new_entries, k);
                lemma_map_of_dom(base, k);
                if k == id {
                    assert(new_entries[new_entries.len() - 1].appid == k);
                } else {
                    if map_of(new_entries).contains_key(k) {
                        let j = choose|j: int|
                            0 <= j < new_entries.len() && #[trigger] new_entries[j].appid == k;
                        assert(j < mid.len());
                        let j0: int = if i < n && j >= i {
                            j + 1
                        } else {
                            j
                        };
                        assert(base[j0].appid == k);
                    }
                    if map_of(base).contains_key(k) {
                        let j0 = choose|j0: int|
                            0 <= j0 < base.len() && #[trigger] base[j0].appid == k;
                        if i < n {
                            assert(j0 != i);
                            let j: int = if j0 > i {
                                j0 - 1
                            } else {
                                j0
                            };
                            assert(mid[j].appid == k);
                            assert(new_entries[j].appid == k);
                        } else {
                            assert(new_entries[j0].appid == k);
                        }
                    }
                }
            }
            assert forall|k: GameId| #[trigger]
                map_of(new_entries).contains_key(k) implies map_of(new_entries)[k] == map_of(
                base,
            ).insert(id, name@)[k] by {
                lemma_map_of_dom(new_entries, k);
                let j = choose|j: int|
                    0 <= j < new_entries.len() && #[trigger] new_entries[j].appid == k;
                lemma_map_of_values(new_entries, j);
                if k != id {
                    assert(j < new_entries.len() - 1);
                    assert(j < mid.len());
                    let j0: int = if i < n && j >= i {
                        j + 1
                    } else {
                        j
                    };
                    assert(base[j0].appid == k);
                    lemma_map_of_values(base, j0);
                    assert(new_entries[j].name@ == base[j0].name@);
                } else {
                    assert(new_entries[new_entries.len() - 1].appid == id);
                    assert(j == new_entries.len() - 1);
                }
            }
            assert(map_of(new_entries) =~= map_of(base).insert(id, name@));
        }
        self.entries = v;
    }

    /// Builds the catalog that a list of rows describes.
    pub fn from_entries(list: &Vec<CatalogEntry>) -> (c: Self)
        ensures
            c@ == map_of(list@),
    {
        let mut c = Catalog::new();
        let n = list.len();
        let mut i: usize = 0;
        while i < n
            invariant
                n == list@.len(),
                0 <= i <= n,
                c@ == map_of(list@.take(i as int)),
            decreases n - i,
        {
            let e = &list[i];
            c.insert(e.appid, e.name.clone());
            proof {
                let t = list@.take(i + 1);
                assert(t.drop_last() =~= list@.take(i as int));
                assert(t.last() == list@[i as int]);
            }
            i += 1;
        }
        proof {
            assert(list@.take(n as int) =~= list@);
        }
        c
    }

    /// The title recorded for one identifier, if any.
    pub fn lookup(&self, id: GameId) -> (r: Option<&String>)
        ensures
            match r {
                Some(name) => self@.contains_key(id) && name@ == self@[id],
                None => !self@.contains_key(id),
            },
    {
        proof {
            use_type_invariant(self);
            lemma_map_of_dom(self.entries@, id);
        }
        let n = self.entries.len();
        let mut i: usize = 0;
        while i < n
            invariant
                n == self.entries@.len(),
                0 <= i <= n,
                keys_unique(self.entries@),
                self@ == map_of(self.entries@),
                map_of(self.entries@).contains_key(id) <==> exists|j: int|
                    0 <= j < self.entries@.len() && #[trigger] self.entries@[j].appid == id,
                forall|j: int| 0 <= j < i ==> self.entries@[j].appid != id,
            decreases n - i,
        {
            let e = &self.entries[i];
            if e.appid == id {
                proof {
                    lemma_map_of_values(self.entries@, i as int);
                }
                return Some(&e.name);
            }
            i += 1;
        }
        None
    }
}

/// Holds of an identifier the mapping knows.
pub open spec fn known_by(m: Map<GameId, Seq<char>>) -> spec_fn(GameId) -> bool {
    |g: GameId| m.contains_key(g)
}

/// Holds of an identifier the mapping does not know.
pub open spec fn unknown_by(m: Map<GameId, Seq<char>>) -> spec_fn(GameId) -> bool {
    |g: GameId| !m.contains_key(g)
}

/// The title the mapping records for an identifier.
pub open spec fn title_by(m: Map<GameId, Seq<char>>) -> spec_fn(GameId) -> Seq<char> {
    |g: GameId| m[g]
}

/// The titles that a list of identifiers resolves to, in order: one per
/// identifier the mapping knows.
pub open spec fn resolved_names(m: Map<GameId, Seq<char>>, ids: Seq<GameId>) -> Seq<Seq<char>> {
    ids.filter(known_by(m)).map_values(title_by(m))
}

/// The identifiers the mapping does not know, in order: each one is reported
/// as a diagnostic and dropped from the titles.
pub open spec fn missed_ids(m: Map<GameId, Seq<char>>, ids: Seq<GameId>) -> Seq<GameId> {
    ids.filter(unknown_by(m))
}

/// What resolving a set of identifiers produces: the titles found, and the
/// identifiers that had none.
pub struct Resolution {
    pub names: Vec<String>,
    pub misses: Vec<GameId>,
}

/// Round trip: a row written into the catalog under an identifier that no
/// other row carries is read back under exactly the name it was written with.
pub proof fn lemma_round_trip(entries: Seq<CatalogEntry>, k: int)
    requires
        0 <= k < entries.len(),
        forall|j: int|
            0 <= j < entries.len() && j != k ==> #[trigger] entries[j].appid != entries[k].appid,
    ensures
        map_of(entries).contains_key(entries[k].appid),
        map_of(entries)[entries[k].appid] == entries[k].name@,
    decreases entries.len(),
{
    if k < entries.len() - 1 {
        assert(entries.drop_last()[k] == entries[k]);
        assert forall|j: int|
            0 <= j < entries.drop_last().len() && j
                != k implies #[trigger] entries.drop_last()[j].appid
            != entries.drop_last()[k].appid by {
            assert(entries[j].appid != entries[k].appid);
        }
        lemma_round_trip(entries.drop_last(), k);
        assert(entries.last().appid != entries[k].appid);
    }
}

/// A single identifier the mapping knows resolves to exactly its recorded
/// title, with no diagnostic.
pub proof fn lemma_known_id_resolves(m: Map<GameId, Seq<char>>, id: GameId)
    requires
        m.contains_key(id),
    ensures
        resolved_names(m, seq![id]) =~= seq![m[id]],
        missed_ids(m, seq![id]) =~= Seq::<GameId>::empty(),
{
    reveal_with_fuel(Seq::filter, 2);
    let s = seq![id];
    assert(s.drop_last() =~= Seq::<GameId>::empty());
    assert(s.last() == id);
    assert(known_by(m)(id));
    assert(s.filter(known_by(m)) =~= seq![id]);
    assert(s.filter(unknown_by(m)) =~= Seq::<GameId>::empty());
    assert(title_by(m)(id) == m[id]);
}

/// Resolving no identifiers yields no titles and no diagnostics.
pub proof fn lemma_resolve_empty(m: Map<GameId, Seq<char>>, ids: Seq<GameId>)
    requires
        ids.len() == 0,
    ensures
        resolved_names(m, ids).len() == 0,
        missed_ids(m, ids).len() == 0,
{
    reveal_with_fuel(Seq::filter, 1);
    assert(ids.filter(known_by(m)).len() == 0);
    assert(ids.filter(unknown_by(m)).len() == 0);
}

/// An identifier the mapping does not know is reported as a miss, and the
/// titles are exactly those of the other identifiers: the run is not aborted
/// and nothing else is lost.
pub proof fn lemma_unknown_id_dropped(m: Map<GameId, Seq<char>>, ids: Seq<GameId>, k: int)
    requires
        0 <= k < ids.len(),
        !m.contains_key(ids[k]),
    ensures
        missed_ids(m, ids).contains(ids[k]),
        resolved_names(m, ids) == resolved_names(m, ids.remove(k)),
{
    reveal_with_fuel(Seq::filter, 2);
    assert(unknown_by(m)(ids[k]));
    ids.lemma_filter_contains(unknown_by(m), k);
    let a = ids.subrange(0, k);
    let b = seq![ids[k]];
    let c = ids.subrange(k + 1, ids.len() as int);
    assert(ids =~= (a + b) + c);
    assert(ids.remove(k) =~= a + c);
    Seq::filter_distributes_over_add(a + b, c, known_by(m));
    Seq::filter_distributes_over_add(a, b, known_by(m));
    Seq::filter_distributes_over_add(a, c, known_by(m));
    assert(!known_by(m)(ids[k]));
    assert(b.drop_last() =~= Seq::<GameId>::empty());
    assert(b.filter(known_by(m)) =~= Seq::<GameId>::empty());
    assert(a.filter(known_by(m)) + b.filter(known_by(m)) =~= a.filter(known_by(m)));
    assert(ids.filter(known_by(m)) == ((a + b) + c).filter(known_by(m)));
    assert(ids.filter(known_by(m)) =~= ids.remove(k).filter(known_by(m)));
}

impl Catalog {
    /// Translates each identifier of the set, in the set's iteration order:
    /// a known one contributes its title, an unknown one is reported in
    /// `misses` and dropped.
    pub fn resolve_names(&self, ids: &GameIdSet) -> (r: Resolution)
        ensures
            r.names@.len() == resolved_names(self@, ids.order()).len(),
            forall|j: int|
                0 <= j < r.names@.len() ==> r.names@[j]@ == resolved_names(self@, ids.order())[j],
            r.misses@ == missed_ids(self@, ids.order()),
    {
        let ghost m = self@;
        let ghost order = ids.order();
        let mut names: Vec<String> = Vec::new();
        let mut misses: Vec<GameId> = Vec::new();
        let n = ids.len();
        let mut i: usize = 0;
        while i < n
            invariant
                n == order.len(),
                order == ids.order(),
                m == self@,
                0 <= i <= n,
                names@.len() == resolved_names(m, order.take(i as int)).len(),
                forall|j: int|
                    0 <= j < names@.len() ==> names@[j]@ == resolved_names(
                        m,
                        order.take(i as int),
                    )[j],
                misses@ == missed_ids(m, order.take(i as int)),
            decreases n - i,
        {
            let g = ids.index(i);
            proof {
                assert(order.take(i + 1) =~= order.take(i as int).push(g));
                order.take(i as int).lemma_filter_push(g, known_by(m));
                order.take(i as int).lemma_filter_push(g, unknown_by(m));
                order.take(i as int).filter(known_by(m)).lemma_push_map_commute(title_by(m), g);
                assert(known_by(m)(g) == m.contains_key(g));
                assert(unknown_by(m)(g) == !m.contains_key(g));
            }
            match self.lookup(g) {
                Some(name) => {
                    names.push(name.clone());
                    proof {
                        assert(title_by(m)(g) == m[g]);
                    }
                },
                None => {
                    misses.push(g);
                },
            }
            i += 1;
        }
        proof {
            assert(order.take(n as int) =~= order);
        }
        Resolution { names, misses }
    }
}

} // verus!
