use vstd::prelude::*;

verus! {

use crate::GameId;
use crate::catalog::Catalog;
use crate::catalog::CatalogEntry;
use crate::catalog::Resolution;
use crate::catalog::map_of;
use crate::catalog::missed_ids;
use crate::catalog::resolved_names;
use crate::ids::GameIdSet;
use crate::payload::SchemaError;
use crate::payload::app_rows_good;
use crate::payload::apps_items;
use crate::payload::catalog_rows;
use crate::payload::row_game_id;
use crate::payload::row_title;

/// What the driver must do next to answer a resolution request.
#[derive(Clone, Copy, Debug, PartialEq, Eq, Structural)]
pub enum CacheAction {
    /// The snapshot is already in memory: resolve against it, touch nothing.
    ServeFromMemory,
    /// The cache file is on disk: read its bytes, no network access.
    ReadLocalFile,
    /// Nothing local: fetch the catalog, write the bytes to the cache file.
    FetchAndStore,
}

/// The mapping that the catalog payload rows describe, later rows winning;
/// a row without an identifier or a title contributes nothing.
pub open spec fn rows_map(items: Seq<serde_json::Value>) -> Map<GameId, Seq<char>>
    decreases items.len(),
{
    if items.len() == 0 {
        Map::empty()
    } else {
        let m = rows_map(items.drop_last());
        match (row_game_id(items.last()), row_title(items.last())) {
            (Some(g), Some(t)) => m.insert(g, t),
            _ => m,
        }
    }
}

/// Catalog rows read back from a payload describe exactly the payload's
/// mapping.
pub proof fn lemma_rows_map(es: Seq<CatalogEntry>, items: Seq<serde_json::Value>)
    requires
        es.len() == items.len(),
        forall|j: int|
            0 <= j < es.len() ==> Some((#[trigger] es[j]).appid) == row_game_id(items[j]) && Some(
                es[j].name@,
            ) == row_title(items[j]),
    ensures
        map_of(es) == rows_map(items),
    decreases es.len(),
{
    if es.len() > 0 {
        assert forall|j: int|
            0 <= j < es.drop_last().len() implies Some(
            (#[trigger] es.drop_last()[j]).appid,
        ) == row_game_id(items.drop_last()[j]) && Some(es.drop_last()[j].name@) == row_title(
            items.drop_last()[j],
        ) by {
            assert(es.drop_last()[j] == es[j]);
            assert(items.drop_last()[j] == items[j]);
            assert(Some(es[j].appid) == row_game_id(items[j]));
        }
        lemma_rows_map(es.drop_last(), items.drop_last());
        assert(Some(es[es.len() - 1].appid) == row_game_id(items[es.len() - 1]));
        assert(Some(es[es.len() - 1].name@) == row_title(items[es.len() - 1]));
    }
}

/// The constant file name of the on-disk catalog snapshot, kept under the
/// platform's temporary directory.
pub fn cache_file_name() -> (s: String)
    ensures
        s@ == "appid_to_names.json"@,
{
    proof {
        broadcast use vstd::string::to_string_from_display_ensures_for_str;

    }
    "appid_to_names.json".to_string()
}

/// Round trip through the cache file: a game identifier written into the
/// payload's rows with a given name, and carried by no other row, is read
/// back under exactly that name.
pub proof fn lemma_payload_round_trip(items: Seq<serde_json::Value>, k: int)
    requires
        0 <= k < items.len(),
        row_game_id(items[k]) is Some,
        row_title(items[k]) is Some,
        forall|j: int|
            0 <= j < items.len() && j != k ==> #[trigger] row_game_id(items[j]) !== row_game_id(
                items[k],
            ),
    ensures
        rows_map(items).contains_key(row_game_id(items[k])->0),
        rows_map(items)[row_game_id(items[k])->0] == row_title(items[k])->0,
    decreases items.len(),
{
    if k < items.len() - 1 {
        assert(items.drop_last()[k] == items[k]);
        assert forall|j: int|
            0 <= j < items.drop_last().len() && j
                != k implies #[trigger] row_game_id(items.drop_last()[j]) !== row_game_id(
            items.drop_last()[k],
        ) by {
            assert(items.drop_last()[j] == items[j]);
            assert(row_game_id(items[j]) !== row_game_id(items[k]));
        }
        lemma_payload_round_trip(items.drop_last(), k);
        assert(row_game_id(items.last()) !== row_game_id(items[k]));
    }
}

/// The catalog cache: cold until a snapshot is loaded into memory, warm from
/// then on. The cache file's mere presence on disk decides how the snapshot
/// is obtained; the file is never invalidated.
pub struct CatalogCache {
    snapshot: Option<Catalog>,
}

impl View for CatalogCache {
    type V = Option<Map<GameId, Seq<char>>>;

    closed spec fn view(&self) -> Option<Map<GameId, Seq<char>>> {
        match self.snapshot {
            None => None,
            Some(ref c) => Some(c@),
        }
    }
}

impl CatalogCache {
    /// The action a resolution request requires, given whether the cache
    /// file exists on disk.
    pub open spec fn action_spec(&self, file_exists: bool) -> CacheAction {
        if self@ is Some {
            CacheAction::ServeFromMemory
        } else if file_exists {
            CacheAction::ReadLocalFile
        } else {
            CacheAction::FetchAndStore
        }
    }

    pub fn new() -> (c: Self)
        ensures
            c@ is None,
    {
        CatalogCache { snapshot: None }
    }

    pub fn is_warm(&self) -> (r: bool)
        ensures
            r == (self@ is Some),
    {
        self.snapshot.is_some()
    }

    /// Decides the next step without touching disk or network. A fetch is
    /// required only when the snapshot is absent and the file is too.
    pub fn required_action(&self, file_exists: bool) -> (a: CacheAction)
        ensures
            a == self.action_spec(file_exists),
            a is FetchAndStore ==> !file_exists && self@ is None,
    {
        if self.snapshot.is_some() {
            CacheAction::ServeFromMemory
        } else if file_exists {
            CacheAction::ReadLocalFile
        } else {
            CacheAction::FetchAndStore
        }
    }

    /// Loads the snapshot from catalog payload bytes, whichever path
    /// produced them: a pre-existing cache file or a fresh download. On a
    /// schema error nothing changes and the cache stays cold.
    pub fn install_payload(&mut self, bytes: &Vec<u8>) -> (r: Result<(), SchemaError>)
        ensures
            r is Ok <==> (apps_items(bytes@) is Ok && app_rows_good(apps_items(bytes@)->Ok_0)),
            apps_items(bytes@) matches Err(e) ==> r == Err::<(), SchemaError>(e),
            (apps_items(bytes@) is Ok && !app_rows_good(apps_items(bytes@)->Ok_0)) ==> r == Err::<
                (),
                SchemaError,
            >(SchemaError::BadAppEntry),
            r is Ok ==> final(self)@ == Some(rows_map(apps_items(bytes@)->Ok_0)),
            r is Err ==> final(self)@ == old(self)@,
    {
        match catalog_rows(bytes) {
            Err(e) => Err(e),
            Ok(rows) => {
                let cat = Catalog::from_entries(&rows);
                proof {
                    lemma_rows_map(rows@, apps_items(bytes@)->Ok_0);
                }
                self.snapshot = Some(cat);
                Ok(())
            },
        }
    }

    /// Resolves a set of identifiers against the in-memory snapshot; the
    /// cache must be warm.
    pub fn resolve(&self, ids: &GameIdSet) -> (r: Resolution)
        requires
            self@ is Some,
        ensures
            r.names@.len() == resolved_names(self@->0, ids.order()).len(),
            forall|j: int|
                0 <= j < r.names@.len() ==> r.names@[j]@ == resolved_names(
                    self@->0,
                    ids.order(),
                )[j],
            r.misses@ == missed_ids(self@->0, ids.order()),
    {
        match &self.snapshot {
            Some(cat) => cat.resolve_names(ids),
            None => {
                proof {
                    assert(false);
                }
                Resolution { names: Vec::new(), misses: Vec::new() }
            },
        }
    }
}

/// Idempotence of the warm cache: once the snapshot is in memory, every
/// later resolution is served from memory, whatever the disk now holds; a
/// fetch can happen at most once per process, before the cache is warm.
pub proof fn lemma_warm_cache_serves_from_memory(c: CatalogCache, file_exists: bool)
    requires
        c@ is Some,
    ensures
        c.action_spec(file_exists) == CacheAction::ServeFromMemory,
{
}

/// A cache file already on disk never leads to a network fetch, warm or
/// cold: its mere presence is the only validity check.
pub proof fn lemma_present_file_never_fetches(c: CatalogCache, file_exists: bool)
    requires
        file_exists,
    ensures
        c.action_spec(file_exists) !== CacheAction::FetchAndStore,
{
}

} // verus!
