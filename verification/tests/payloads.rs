use common_games::CacheAction;
use common_games::CatalogCache;
use common_games::ConfigError;
use common_games::GameIdSet;
use common_games::SchemaError;
use common_games::payload::catalog_rows;
use common_games::payload::owned_game_ids;
use common_games::validate_inputs;

fn bytes(text: &str) -> Vec<u8> {
    text.as_bytes().to_vec()
}

#[test]
fn owned_games_payload_yields_the_id_set() {
    let body = bytes(
        "{\"response\":{\"games\":[{\"appid\":10,\"playtime_forever\":5},{\"appid\":20},{\"appid\":10}]}}",
    );
    let s = owned_game_ids(&body).unwrap();
    assert_eq!(s.len(), 2);
    assert!(s.contains(10));
    assert!(s.contains(20));
}

#[test]
fn an_account_with_zero_games_is_a_legal_empty_result() {
    let body = bytes("{\"response\":{\"games\":[]}}");
    let s = owned_game_ids(&body).unwrap();
    assert_eq!(s.len(), 0);
}

#[test]
fn unparseable_bytes_are_a_schema_error() {
    assert_eq!(owned_game_ids(&bytes("not json")).unwrap_err(), SchemaError::InvalidJson);
}

#[test]
fn a_payload_without_response_is_fatal() {
    assert_eq!(owned_game_ids(&bytes("{\"a\":1}")).unwrap_err(), SchemaError::MissingResponse);
}

#[test]
fn a_payload_without_games_is_fatal() {
    assert_eq!(owned_game_ids(&bytes("{\"response\":{}}")).unwrap_err(), SchemaError::MissingGames);
}

#[test]
fn a_games_member_that_is_no_array_is_fatal() {
    assert_eq!(
        owned_game_ids(&bytes("{\"response\":{\"games\":3}}")).unwrap_err(),
        SchemaError::GamesNotArray
    );
}

#[test]
fn a_game_row_without_appid_is_fatal_not_skipped() {
    let body = bytes("{\"response\":{\"games\":[{\"appid\":10},{\"name\":\"x\"}]}}");
    assert_eq!(owned_game_ids(&body).unwrap_err(), SchemaError::BadGameEntry);
}

#[test]
fn catalog_payload_rows_are_read_in_order() {
    let body = bytes(
        "{\"applist\":{\"apps\":[{\"appid\":10,\"name\":\"X\"},{\"appid\":20,\"name\":\"Y\"}]}}",
    );
    let rows = catalog_rows(&body).unwrap();
    assert_eq!(rows.len(), 2);
    assert_eq!(rows[0].appid, 10);
    assert_eq!(rows[0].name, "X");
    assert_eq!(rows[1].appid, 20);
    assert_eq!(rows[1].name, "Y");
}

#[test]
fn a_catalog_payload_without_applist_is_fatal() {
    let mut cache = CatalogCache::new();
    let r = cache.install_payload(&bytes("{}"));
    assert_eq!(r.unwrap_err(), SchemaError::MissingApplist);
    assert!(!cache.is_warm());
}

#[test]
fn a_catalog_row_without_name_is_fatal() {
    let body = bytes("{\"applist\":{\"apps\":[{\"appid\":10}]}}");
    assert_eq!(catalog_rows(&body).unwrap_err(), SchemaError::BadAppEntry);
}

#[test]
fn a_cold_cache_with_a_file_reads_it_and_never_fetches() {
    let cache = CatalogCache::new();
    assert!(!cache.is_warm());
    assert_eq!(cache.required_action(true), CacheAction::ReadLocalFile);
    assert_eq!(cache.required_action(false), CacheAction::FetchAndStore);
}

#[test]
fn a_warm_cache_serves_from_memory_whatever_the_disk_holds() {
    let body = bytes(
        "{\"applist\":{\"apps\":[{\"appid\":10,\"name\":\"X\"},{\"appid\":20,\"name\":\"Y\"},{\"appid\":30,\"name\":\"Z\"},{\"appid\":40,\"name\":\"W\"}]}}",
    );
    let mut cache = CatalogCache::new();
    cache.install_payload(&body).unwrap();
    assert!(cache.is_warm());
    assert_eq!(cache.required_action(true), CacheAction::ServeFromMemory);
    assert_eq!(cache.required_action(false), CacheAction::ServeFromMemory);

    let mut ids = GameIdSet::new();
    ids.insert(20);
    ids.insert(30);
    let r = cache.resolve(&ids);
    assert_eq!(r.names, vec!["Y".to_string(), "Z".to_string()]);
    assert!(r.misses.is_empty());
}

#[test]
fn a_duplicated_catalog_row_resolves_to_the_last_name() {
    let body = bytes(
        "{\"applist\":{\"apps\":[{\"appid\":10,\"name\":\"old\"},{\"appid\":10,\"name\":\"new\"}]}}",
    );
    let mut cache = CatalogCache::new();
    cache.install_payload(&body).unwrap();
    let mut ids = GameIdSet::new();
    ids.insert(10);
    let r = cache.resolve(&ids);
    assert_eq!(r.names, vec!["new".to_string()]);
}

#[test]
fn two_accounts_resolve_to_their_common_titles() {
    let account_a = bytes(
        "{\"response\":{\"games\":[{\"appid\":10},{\"appid\":20},{\"appid\":30}]}}",
    );
    let account_b = bytes(
        "{\"response\":{\"games\":[{\"appid\":20},{\"appid\":30},{\"appid\":40}]}}",
    );
    let catalog_payload = bytes(
        "{\"applist\":{\"apps\":[{\"appid\":10,\"name\":\"X\"},{\"appid\":20,\"name\":\"Y\"},{\"appid\":30,\"name\":\"Z\"},{\"appid\":40,\"name\":\"W\"}]}}",
    );
    let sets = vec![
        owned_game_ids(&account_a).unwrap(),
        owned_game_ids(&account_b).unwrap(),
    ];
    let common = common_games::fold::intersect_all(&sets);
    assert_eq!(common.len(), 2);
    assert!(common.contains(20) && common.contains(30));

    let mut cache = CatalogCache::new();
    cache.install_payload(&catalog_payload).unwrap();
    let r = cache.resolve(&common);
    let mut titles = r.names.clone();
    titles.sort();
    assert_eq!(titles, vec!["Y".to_string(), "Z".to_string()]);
    assert!(r.misses.is_empty());
}

#[test]
fn the_cache_file_keeps_its_well_known_name() {
    assert_eq!(common_games::cache::cache_file_name(), "appid_to_names.json");
}

#[test]
fn a_missing_credential_is_rejected_before_any_work() {
    assert_eq!(validate_inputs(false, 3).unwrap_err(), ConfigError::MissingCredential);
    assert_eq!(validate_inputs(false, 0).unwrap_err(), ConfigError::MissingCredential);
}

#[test]
fn zero_accounts_are_rejected() {
    assert_eq!(validate_inputs(true, 0).unwrap_err(), ConfigError::NoAccounts);
}

#[test]
fn a_credential_and_one_account_are_enough() {
    assert!(validate_inputs(true, 1).is_ok());
}
