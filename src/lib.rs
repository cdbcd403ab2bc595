//! Compatibility checking between two versions of an API description.
//!
//! The engine compares the named schemas and the path/method operations of a
//! base and a current document, and reports each difference as a violation
//! that carries a severity. Everything here is pure: the inputs are read-only
//! values and the results are fresh lists.
use vstd::prelude::*;

pub mod format;
pub mod laws;
pub mod matcher;
pub mod model;
pub mod rules;
pub mod summary;
pub mod text;

verus! {

/// Compatibility impact of a change, ordered Breaking > Warning > Change.
#[derive(Debug, Clone, Copy, PartialEq, Eq, Structural)]
pub enum ChangeLevel {
    Breaking,
    Warning,
    Change,
}

} // verus!
