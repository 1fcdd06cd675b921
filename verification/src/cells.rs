//! Constructions of the cells and locks of the standard library. Verus has
//! no model of what such a value holds, so these constructions state which
//! choices are made and when the budget suffices, and nothing of the value.

use crate::construct::Exhaustive;
use crate::path::{ChoiceError, Run};
use crate::source::DataSourceTaker;
use std::cell::{Cell, RefCell, UnsafeCell};
use std::sync::{Mutex, RwLock};
use vstd::prelude::*;

verus! {

/// `std::cell::Cell`, carried as an opaque value.
#[verifier::external_type_specification]
#[verifier::external_body]
#[verifier::reject_recursive_types(T)]
pub struct ExCell<T: ?Sized>(Cell<T>);

/// `std::cell::RefCell`, carried as an opaque value.
#[verifier::external_type_specification]
#[verifier::external_body]
#[verifier::reject_recursive_types(T)]
pub struct ExRefCell<T: ?Sized>(RefCell<T>);

/// `std::cell::UnsafeCell`, carried as an opaque value.
#[verifier::external_type_specification]
#[verifier::external_body]
#[verifier::reject_recursive_types(T)]
pub struct ExUnsafeCell<T: ?Sized>(UnsafeCell<T>);

/// `std::sync::Mutex`, carried as an opaque value.
#[verifier::external_type_specification]
#[verifier::external_body]
#[verifier::reject_recursive_types(T)]
pub struct ExMutex<T: ?Sized>(Mutex<T>);

/// `std::sync::RwLock`, carried as an opaque value.
#[verifier::external_type_specification]
#[verifier::external_body]
#[verifier::reject_recursive_types(T)]
pub struct ExRwLock<T: ?Sized>(RwLock<T>);

/// `Cell::new` puts a value into a new cell. Nothing is claimed of the cell.
pub assume_specification<T>[ Cell::<T>::new ](value: T) -> (out: Cell<T>)
;

/// `RefCell::new` puts a value into a new cell. Nothing is claimed of the
/// cell.
pub assume_specification<T>[ RefCell::<T>::new ](value: T) -> (out: RefCell<T>)
;

/// `UnsafeCell::new` puts a value into a new cell. Nothing is claimed of the
/// cell.
pub assume_specification<T>[ UnsafeCell::<T>::new ](value: T) -> (out: UnsafeCell<T>)
;

/// `Mutex::new` puts a value behind a new lock. Nothing is claimed of the
/// lock.
pub assume_specification<T>[ Mutex::<T>::new ](value: T) -> (out: Mutex<T>)
;

/// `RwLock::new` puts a value behind a new lock. Nothing is claimed of the
/// lock.
pub assume_specification<T>[ RwLock::<T>::new ](value: T) -> (out: RwLock<T>)
;

impl<T: Exhaustive> Exhaustive for Cell<T> {
    open spec fn run_after(run: Run) -> Run {
        T::run_after(run)
    }

    open spec fn completes(run: Run) -> bool {
        T::completes(run)
    }

    fn arbitrary(u: &mut DataSourceTaker) -> (r: Result<Self, ChoiceError>) {
        Ok(Self::new(T::arbitrary(u)?))
    }
}

impl<T: Exhaustive> Exhaustive for RefCell<T> {
    open spec fn run_after(run: Run) -> Run {
        T::run_after(run)
    }

    open spec fn completes(run: Run) -> bool {
        T::completes(run)
    }

    fn arbitrary(u: &mut DataSourceTaker) -> (r: Result<Self, ChoiceError>) {
        Ok(Self::new(T::arbitrary(u)?))
    }
}

impl<T: Exhaustive> Exhaustive for UnsafeCell<T> {
    open spec fn run_after(run: Run) -> Run {
        T::run_after(run)
    }

    open spec fn completes(run: Run) -> bool {
        T::completes(run)
    }

    fn arbitrary(u: &mut DataSourceTaker) -> (r: Result<Self, ChoiceError>) {
        Ok(Self::new(T::arbitrary(u)?))
    }
}

impl<T: Exhaustive> Exhaustive for Mutex<T> {
    open spec fn run_after(run: Run) -> Run {
        T::run_after(run)
    }

    open spec fn completes(run: Run) -> bool {
        T::completes(run)
    }

    fn arbitrary(u: &mut DataSourceTaker) -> (r: Result<Self, ChoiceError>) {
        Ok(Self::new(T::arbitrary(u)?))
    }
}

impl<T: Exhaustive> Exhaustive for RwLock<T> {
    open spec fn run_after(run: Run) -> Run {
        T::run_after(run)
    }

    open spec fn completes(run: Run) -> bool {
        T::completes(run)
    }

    fn arbitrary(u: &mut DataSourceTaker) -> (r: Result<Self, ChoiceError>) {
        Ok(Self::new(T::arbitrary(u)?))
    }
}

} // verus!
