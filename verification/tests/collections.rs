use exhaustive::Enumerate;
use std::collections::{BTreeMap, BTreeSet, HashMap, HashSet, VecDeque};

fn lists() -> Vec<Vec<bool>> {
    vec![
        vec![],
        vec![false],
        vec![true],
        vec![false, false],
        vec![false, true],
        vec![true, false],
        vec![true, true],
    ]
}

fn pairs() -> Vec<Vec<(bool, bool)>> {
    vec![
        vec![],
        vec![(false, false)],
        vec![(false, true)],
        vec![(true, false)],
        vec![(true, true)],
        vec![(false, false), (false, false)],
        vec![(false, false), (false, true)],
        vec![(false, false), (true, false)],
        vec![(false, false), (true, true)],
        vec![(false, true), (false, false)],
        vec![(false, true), (false, true)],
        vec![(false, true), (true, false)],
        vec![(false, true), (true, true)],
        vec![(true, false), (false, false)],
        vec![(true, false), (false, true)],
        vec![(true, false), (true, false)],
        vec![(true, false), (true, true)],
        vec![(true, true), (false, false)],
        vec![(true, true), (false, true)],
        vec![(true, true), (true, false)],
        vec![(true, true), (true, true)],
    ]
}

#[test]
fn vec_of_pairs_with_budget_five() {
    assert_eq!(Vec::<(bool, bool)>::iter_exhaustive(5), pairs());
}

#[test]
fn vec_deque_holds_the_elements_in_order() {
    let expected: Vec<VecDeque<bool>> =
        lists().into_iter().map(|v| v.into_iter().collect()).collect();
    assert_eq!(VecDeque::<bool>::iter_exhaustive(3), expected);
}

#[test]
fn btree_set_holds_the_elements() {
    let expected: Vec<BTreeSet<bool>> =
        lists().into_iter().map(|v| v.into_iter().collect()).collect();
    assert_eq!(BTreeSet::<bool>::iter_exhaustive(3), expected);
    assert_eq!(BTreeSet::<bool>::iter_exhaustive(3)[4].len(), 2);
    assert_eq!(BTreeSet::<bool>::iter_exhaustive(3)[3].len(), 1);
}

#[test]
fn hash_set_holds_the_elements() {
    let expected: Vec<HashSet<bool>> =
        lists().into_iter().map(|v| v.into_iter().collect()).collect();
    assert_eq!(HashSet::<bool>::iter_exhaustive(3), expected);
}

#[test]
fn btree_map_keeps_the_later_pair() {
    let expected: Vec<BTreeMap<bool, bool>> =
        pairs().into_iter().map(|v| v.into_iter().collect()).collect();
    let built = BTreeMap::<bool, bool>::iter_exhaustive(5);
    assert_eq!(built, expected);
    assert_eq!(built[6].len(), 1);
    assert_eq!(built[6][&false], true);
    assert_eq!(built[7].len(), 2);
}

#[test]
fn hash_map_keeps_the_later_pair() {
    let expected: Vec<HashMap<bool, bool>> =
        pairs().into_iter().map(|v| v.into_iter().collect()).collect();
    let built = HashMap::<bool, bool>::iter_exhaustive(5);
    assert_eq!(built, expected);
    assert_eq!(built[9].len(), 1);
    assert_eq!(built[9][&false], false);
}

#[test]
fn collections_with_budget_zero() {
    assert_eq!(VecDeque::<bool>::iter_exhaustive(0), vec![VecDeque::new()]);
    assert_eq!(BTreeSet::<bool>::iter_exhaustive(0), vec![BTreeSet::new()]);
    assert_eq!(HashSet::<bool>::iter_exhaustive(0), vec![HashSet::new()]);
    assert_eq!(BTreeMap::<bool, bool>::iter_exhaustive(0), vec![BTreeMap::new()]);
    assert_eq!(HashMap::<bool, bool>::iter_exhaustive(0), vec![HashMap::new()]);
}
