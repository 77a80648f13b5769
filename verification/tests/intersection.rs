use common_games::Accumulator;
use common_games::GameIdSet;
use common_games::fold::intersect_all;

fn set_of(ids: &[i64]) -> GameIdSet {
    let mut s = GameIdSet::new();
    for &g in ids {
        s.insert(g);
    }
    s
}

#[test]
fn folding_a_single_set_returns_it_unchanged() {
    let mut acc = Accumulator::new();
    assert!(!acc.is_seeded());
    let a = set_of(&[10, 20, 30]);
    acc.absorb(&a);
    assert!(acc.is_seeded());
    let r = acc.finish();
    assert_eq!(r.len(), 3);
    assert!(r.contains(10));
    assert!(r.contains(20));
    assert!(r.contains(30));
}

#[test]
fn folding_two_accounts_keeps_the_common_games() {
    let a = set_of(&[10, 20, 30]);
    let b = set_of(&[20, 30, 40]);
    let r = intersect_all(&vec![a, b]);
    assert_eq!(r.len(), 2);
    assert!(r.contains(20));
    assert!(r.contains(30));
    assert!(!r.contains(10));
    assert!(!r.contains(40));
}

#[test]
fn folding_is_order_independent() {
    let forward = intersect_all(&vec![set_of(&[1, 2, 3]), set_of(&[2, 3, 4]), set_of(&[3, 2])]);
    let backward = intersect_all(&vec![set_of(&[3, 2]), set_of(&[2, 3, 4]), set_of(&[1, 2, 3])]);
    assert_eq!(forward.len(), backward.len());
    assert_eq!(forward.len(), 2);
    assert!(forward.contains(2) && backward.contains(2));
    assert!(forward.contains(3) && backward.contains(3));
}

#[test]
fn a_first_account_with_no_games_seeds_an_empty_intersection() {
    let mut acc = Accumulator::new();
    acc.absorb(&GameIdSet::new());
    acc.absorb(&set_of(&[5, 6]));
    let r = acc.finish();
    assert_eq!(r.len(), 0);
}

#[test]
fn duplicate_insertions_collapse() {
    let mut s = GameIdSet::new();
    s.insert(7);
    s.insert(7);
    s.insert(7);
    assert_eq!(s.len(), 1);
    assert!(s.contains(7));
    assert!(s.is_empty() == false);
}

#[test]
fn intersect_of_disjoint_sets_is_empty() {
    let a = set_of(&[1, 2]);
    let b = set_of(&[3, 4]);
    let r = a.intersect(&b);
    assert!(r.is_empty());
}
