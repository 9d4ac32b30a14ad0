//! Runtime value representation for an interpreter of a specification
//! language with set-theoretic semantics.
//!
//! Values may denote potentially huge sets without materializing them: an
//! integer interval, a cartesian product, a powerset and a space of total
//! functions are kept as two-field representations, and their cardinality,
//! and the powerset-indexing bijection used to sample from them, are
//! computed in closed form.  The mathematical content of a value is its
//! canonical normal form, `norm`; the canonical total order on normal
//! forms identifies two of them exactly when they are equal, so any two
//! representations of one set order, compare and (through the normal
//! form) hash consistently.

use vstd::prelude::*;

pub mod canon;
pub mod cells;
pub mod norm;
pub mod ops;
pub mod order;
pub mod value;

verus! {

} // verus!
