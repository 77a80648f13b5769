use vstd::prelude::*;

verus! {

use crate::GameId;
use crate::catalog::CatalogEntry;
use crate::ids::GameIdSet;
use crate::json::elements_of;
use crate::json::get_elements;
use crate::json::get_integer;
use crate::json::get_member;
use crate::json::get_string;
use crate::json::integer_of;
use crate::json::member_of;
use crate::json::parse_document;
use crate::json::parsed_document;
use crate::json::string_of;

/// How an endpoint payload can fail to have the shape the platform promises.
/// Any of these is fatal to the run: the remote contract is broken.
#[derive(Clone, Copy, Debug, PartialEq, Eq, Structural)]
pub enum SchemaError {
    /// The bytes are not one well-formed JSON document.
    InvalidJson,
    /// The owned-games payload has no `response` member.
    MissingResponse,
    /// The owned-games payload has no `response.games` member.
    MissingGames,
    /// `response.games` is not an array.
    GamesNotArray,
    /// A `response.games` entry has no integral `appid`.
    BadGameEntry,
    /// The catalog payload has no `applist` member.
    MissingApplist,
    /// The catalog payload has no `applist.apps` member.
    MissingApps,
    /// `applist.apps` is not an array.
    AppsNotArray,
    /// An `applist.apps` entry has no integral `appid` or no string `name`.
    BadAppEntry,
}

/// The rows of the owned-games payload: the `response.games` array.
pub open spec fn games_items(bytes: Seq<u8>) -> Result<Seq<serde_json::Value>, SchemaError> {
    match parsed_document(bytes) {
        None => Err(SchemaError::InvalidJson),
        Some(doc) => match member_of(doc, "response"@) {
            None => Err(SchemaError::MissingResponse),
            Some(resp) => match member_of(resp, "games"@) {
                None => Err(SchemaError::MissingGames),
                Some(games) => match elements_of(games) {
                    None => Err(SchemaError::GamesNotArray),
                    Some(items) => Ok(items),
                },
            },
        },
    }
}

/// The game identifier one payload row carries, if it carries one.
pub open spec fn row_game_id(row: serde_json::Value) -> Option<GameId> {
    match member_of(row, "appid"@) {
        None => None,
        Some(v) => integer_of(v),
    }
}

/// The title one catalog payload row carries, if it carries one.
pub open spec fn row_title(row: serde_json::Value) -> Option<Seq<char>> {
    match member_of(row, "name"@) {
        None => None,
        Some(v) => string_of(v),
    }
}

/// Every owned-games row carries a game identifier.
pub open spec fn game_rows_good(items: Seq<serde_json::Value>) -> bool {
    forall|j: int| 0 <= j < items.len() ==> (#[trigger] row_game_id(items[j])) is Some
}

/// Reads one account's owned-games payload into the set of game identifiers
/// it lists; duplicate rows collapse. A payload without the promised shape
/// is a schema error, never silently skipped.
pub fn owned_game_ids(bytes: &Vec<u8>) -> (r: Result<GameIdSet, SchemaError>)
    ensures
        r is Ok <==> (games_items(bytes@) is Ok && game_rows_good(games_items(bytes@)->Ok_0)),
        games_items(bytes@) matches Err(e) ==> r == Err::<GameIdSet, SchemaError>(e),
        (games_items(bytes@) is Ok && !game_rows_good(games_items(bytes@)->Ok_0)) ==> r
            == Err::<GameIdSet, SchemaError>(SchemaError::BadGameEntry),
        r matches Ok(s) ==> (forall|x: GameId| #[trigger]
            s@.contains(x) <==> exists|j: int|
                0 <= j < games_items(bytes@)->Ok_0.len() && row_game_id(
                    #[trigger] games_items(bytes@)->Ok_0[j],
                ) == Some(x)),
{
    let doc = match parse_document(bytes) {
        None => {
            return Err(SchemaError::InvalidJson);
        },
        Some(doc) => doc,
    };
    let resp = match get_member(&doc, "response") {
        None => {
            return Err(SchemaError::MissingResponse);
        },
        Some(v) => v,
    };
    let games = match get_member(resp, "games") {
        None => {
            return Err(SchemaError::MissingGames);
        },
        Some(v) => v,
    };
    let items = match get_elements(games) {
        None => {
            return Err(SchemaError::GamesNotArray);
        },
        Some(v) => v,
    };
    let ghost rows = items@;
    proof {
        assert(games_items(bytes@) == Ok::<Seq<serde_json::Value>, SchemaError>(rows));
    }
    let mut out = GameIdSet::new();
    let n = items.len();
    let mut i: usize = 0;
    while i < n
        invariant
            n == rows.len(),
            rows == items@,
            games_items(bytes@) == Ok::<Seq<serde_json::Value>, SchemaError>(rows),
            0 <= i <= n,
            forall|j: int| 0 <= j < i ==> (#[trigger] row_game_id(rows[j])) is Some,
            forall|x: GameId| #[trigger]
                out@.contains(x) <==> exists|j: int|
                    0 <= j < i && row_game_id(#[trigger] rows[j]) == Some(x),
        decreases n - i,
    {
        let row = &items[i];
        let id_value = match get_member(row, "appid") {
            None => {
                proof {
                    assert(row_game_id(rows[i as int]) is None);
                    assert(!game_rows_good(rows));
                }
                return Err(SchemaError::BadGameEntry);
            },
            Some(v) => v,
        };
        let g = match get_integer(id_value) {
            None => {
                proof {
                    assert(row_game_id(rows[i as int]) is None);
                    assert(!game_rows_good(rows));
                }
                return Err(SchemaError::BadGameEntry);
            },
            Some(g) => g,
        };
        let ghost out_prev = out@;
        out.insert(g);
        proof {
            assert(row_game_id(rows[i as int]) == Some(g));
            assert forall|x: GameId| #[trigger]
                out@.contains(x) <==> exists|j: int|
                    0 <= j < i + 1 && row_game_id(#[trigger] rows[j]) == Some(x) by {
                if out@.contains(x) {
                    if x == g {
                        assert(row_game_id(rows[i as int]) == Some(x));
                    } else {
                        assert(out_prev.contains(x));
                        let j = choose|j: int| 0 <= j < i && row_game_id(#[trigger] rows[j])
                            == Some(x);
                        assert(0 <= j < i + 1 && row_game_id(rows[j]) == Some(x));
                    }
                }
                if exists|j: int| 0 <= j < i + 1 && row_game_id(#[trigger] rows[j]) == Some(x) {
                    let j = choose|j: int| 0 <= j < i + 1 && row_game_id(#[trigger] rows[j])
                        == Some(x);
                    if j == i {
                        assert(x == g);
                    } else {
                        assert(out_prev.contains(x));
                    }
                }
            }
        }
        i += 1;
    }
    proof {
        assert(game_rows_good(rows));
        assert(games_items(bytes@)->Ok_0 == rows);
    }
    Ok(out)
}

/// The rows of the catalog payload: the `applist.apps` array.
pub open spec fn apps_items(bytes: Seq<u8>) -> Result<Seq<serde_json::Value>, SchemaError> {
    match parsed_document(bytes) {
        None => Err(SchemaError::InvalidJson),
        Some(doc) => match member_of(doc, "applist"@) {
            None => Err(SchemaError::MissingApplist),
            Some(applist) => match member_of(applist, "apps"@) {
                None => Err(SchemaError::MissingApps),
                Some(apps) => match elements_of(apps) {
                    None => Err(SchemaError::AppsNotArray),
                    Some(items) => Ok(items),
                },
            },
        },
    }
}

/// Every catalog row carries a game identifier and a title.
pub open spec fn app_rows_good(items: Seq<serde_json::Value>) -> bool {
    forall|j: int|
        0 <= j < items.len() ==> ((#[trigger] row_game_id(items[j])) is Some && row_title(items[j])
            is Some)
}

/// Reads the catalog payload into its rows, in payload order. A payload
/// without the promised shape is a schema error, never silently skipped.
pub fn catalog_rows(bytes: &Vec<u8>) -> (r: Result<Vec<CatalogEntry>, SchemaError>)
    ensures
        r is Ok <==> (apps_items(bytes@) is Ok && app_rows_good(apps_items(bytes@)->Ok_0)),
        apps_items(bytes@) matches Err(e) ==> r == Err::<Vec<CatalogEntry>, SchemaError>(e),
        (apps_items(bytes@) is Ok && !app_rows_good(apps_items(bytes@)->Ok_0)) ==> r
            == Err::<Vec<CatalogEntry>, SchemaError>(SchemaError::BadAppEntry),
        r matches Ok(rows) ==> {
            &&& rows@.len() == apps_items(bytes@)->Ok_0.len()
            &&& forall|j: int|
                0 <= j < rows@.len() ==> Some((#[trigger] rows@[j]).appid) == row_game_id(
                    apps_items(bytes@)->Ok_0[j],
                ) && Some(rows@[j].name@) == row_title(apps_items(bytes@)->Ok_0[j])
        },
{
    let doc = match parse_document(bytes) {
        None => {
            return Err(SchemaError::InvalidJson);
        },
        Some(doc) => doc,
    };
    let applist = match get_member(&doc, "applist") {
        None => {
            return Err(SchemaError::MissingApplist);
        },
        Some(v) => v,
    };
    let apps = match get_member(applist, "apps") {
        None => {
            return Err(SchemaError::MissingApps);
        },
        Some(v) => v,
    };
    let items = match get_elements(apps) {
        None => {
            return Err(SchemaError::AppsNotArray);
        },
        Some(v) => v,
    };
    let ghost rows_spec = items@;
    proof {
        assert(apps_items(bytes@) == Ok::<Seq<serde_json::Value>, SchemaError>(rows_spec));
    }
    let mut out: Vec<CatalogEntry> = Vec::new();
    let n = items.len();
    let mut i: usize = 0;
    while i < n
        invariant
            n == rows_spec.len(),
            rows_spec == items@,
            apps_items(bytes@) == Ok::<Seq<serde_json::Value>, SchemaError>(rows_spec),
            0 <= i <= n,
            out@.len() == i,
            forall|j: int|
                0 <= j < i ==> ((#[trigger] row_game_id(rows_spec[j])) is Some && row_title(
                    rows_spec[j],
                ) is Some),
            forall|j: int|
                0 <= j < i ==> Some((#[trigger] out@[j]).appid) == row_game_id(rows_spec[j])
                    && Some(out@[j].name@) == row_title(rows_spec[j]),
        decreases n - i,
    {
        let row = &items[i];
        let id_value = match get_member(row, "appid") {
            None => {
                proof {
                    assert(row_game_id(rows_spec[i as int]) is None);
                    assert(!app_rows_good(rows_spec));
                }
                return Err(SchemaError::BadAppEntry);
            },
            Some(v) => v,
        };
        let g = match get_integer(id_value) {
            None => {
                proof {
                    assert(row_game_id(rows_spec[i as int]) is None);
                    assert(!app_rows_good(rows_spec));
                }
                return Err(SchemaError::BadAppEntry);
            },
            Some(g) => g,
        };
        let name_value = match get_member(row, "name") {
            None => {
                proof {
                    assert(row_title(rows_spec[i as int]) is None);
                    assert(!app_rows_good(rows_spec));
                }
                return Err(SchemaError::BadAppEntry);
            },
            Some(v) => v,
        };
        let name = match get_string(name_value) {
            None => {
                proof {
                    assert(row_title(rows_spec[i as int]) is None);
                    assert(!app_rows_good(rows_spec));
                }
                return Err(SchemaError::BadAppEntry);
            },
            Some(s) => s,
        };
        out.push(CatalogEntry { appid: g, name });
        i += 1;
    }
    proof {
        assert(app_rows_good(rows_spec));
        assert(apps_items(bytes@)->Ok_0 == rows_spec);
    }
    Ok(out)
}

} // verus!
