use exhaustive::Enumerate;
use std::cell::{Cell, RefCell, UnsafeCell};
use std::sync::{Mutex, RwLock};

#[test]
fn cell_holds_what_was_built() {
    let built: Vec<bool> =
        Cell::<bool>::iter_exhaustive(1).into_iter().map(|c| c.into_inner()).collect();
    assert_eq!(built, vec![false, true]);
}

#[test]
fn ref_cell_holds_what_was_built() {
    let built: Vec<Option<bool>> =
        RefCell::<Option<bool>>::iter_exhaustive(2).into_iter().map(|c| c.into_inner()).collect();
    assert_eq!(built, vec![Some(false), Some(true), None]);
}

#[test]
fn unsafe_cell_holds_what_was_built() {
    let built: Vec<bool> =
        UnsafeCell::<bool>::iter_exhaustive(1).into_iter().map(|c| c.into_inner()).collect();
    assert_eq!(built, vec![false, true]);
}

#[test]
fn mutex_holds_what_was_built() {
    let built: Vec<(bool, bool)> = Mutex::<(bool, bool)>::iter_exhaustive(2)
        .into_iter()
        .map(|c| c.into_inner().unwrap())
        .collect();
    assert_eq!(built, vec![(false, false), (false, true), (true, false), (true, true)]);
}

#[test]
fn rw_lock_holds_what_was_built() {
    let built: Vec<Vec<bool>> = RwLock::<Vec<bool>>::iter_exhaustive(2)
        .into_iter()
        .map(|c| c.into_inner().unwrap())
        .collect();
    assert_eq!(built, vec![vec![], vec![false], vec![true]]);
}

#[test]
fn cells_fail_with_what_they_hold() {
    assert!(Cell::<bool>::iter_exhaustive(0).is_empty());
    assert!(Mutex::<(bool, bool)>::iter_exhaustive(1).is_empty());
}
