use common_games::Catalog;
use common_games::CatalogEntry;
use common_games::GameIdSet;

fn sample_catalog() -> Catalog {
    let rows = vec![
        CatalogEntry { appid: 10, name: "X".to_string() },
        CatalogEntry { appid: 20, name: "Y".to_string() },
        CatalogEntry { appid: 30, name: "Z".to_string() },
        CatalogEntry { appid: 40, name: "W".to_string() },
    ];
    Catalog::from_entries(&rows)
}

#[test]
fn lookup_finds_what_was_written() {
    let cat = sample_catalog();
    assert_eq!(cat.lookup(20), Some(&"Y".to_string()));
    assert_eq!(cat.lookup(40), Some(&"W".to_string()));
}

#[test]
fn lookup_of_an_unknown_id_is_none() {
    let cat = sample_catalog();
    assert_eq!(cat.lookup(99), None);
}

#[test]
fn a_repeated_id_keeps_the_last_name() {
    let mut cat = Catalog::new();
    cat.insert(10, "first".to_string());
    cat.insert(10, "second".to_string());
    assert_eq!(cat.lookup(10), Some(&"second".to_string()));
}

#[test]
fn round_trip_through_insert_and_lookup() {
    let mut cat = Catalog::new();
    cat.insert(7, "Portal".to_string());
    cat.insert(8, "Half-Life".to_string());
    assert_eq!(cat.lookup(7), Some(&"Portal".to_string()));
    assert_eq!(cat.lookup(8), Some(&"Half-Life".to_string()));
}

#[test]
fn common_games_resolve_to_their_titles() {
    let cat = sample_catalog();
    let mut ids = GameIdSet::new();
    ids.insert(20);
    ids.insert(30);
    let r = cat.resolve_names(&ids);
    assert_eq!(r.names, vec!["Y".to_string(), "Z".to_string()]);
    assert!(r.misses.is_empty());
}

#[test]
fn resolving_an_empty_set_yields_nothing_and_no_diagnostics() {
    let cat = sample_catalog();
    let ids = GameIdSet::new();
    let r = cat.resolve_names(&ids);
    assert!(r.names.is_empty());
    assert!(r.misses.is_empty());
}

#[test]
fn an_unknown_id_is_reported_and_dropped_without_aborting() {
    let cat = sample_catalog();
    let mut ids = GameIdSet::new();
    ids.insert(20);
    ids.insert(99);
    let r = cat.resolve_names(&ids);
    assert_eq!(r.names, vec!["Y".to_string()]);
    assert_eq!(r.misses, vec![99]);
}
