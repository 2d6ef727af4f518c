//! Resource counting by category.
//!
//! A [`Registry`] keeps one counter per category. A [`Tracker`] names one
//! category; it mints guards ([`guard::Count`], [`guard::Size`]) whose
//! weight is added to the category's counter while they are live and taken
//! away again when they are released.

pub mod ledger;
pub mod registry;
pub mod guard;
pub mod laws;

pub use guard::{Count, Size};
pub use registry::{new_registry, Category, Registry, Tracker};
