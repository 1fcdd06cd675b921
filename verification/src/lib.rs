//! Exhaustive enumeration of the values that a bounded number of choices can
//! build.

pub mod cells;
pub mod collections;
pub mod construct;
pub mod impls;
pub mod laws;
pub mod order;
pub mod path;
pub mod repeat;
pub mod source;

pub use crate::construct::{Enumerate, Exhaustive};
pub use crate::path::{ChoiceError, Run, Session, Slot};
pub use crate::source::{DataSource, DataSourceTaker, DataSourceTakerIter};
