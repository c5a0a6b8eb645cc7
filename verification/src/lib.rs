//! Merge-sorted combination of two tables that are already ascending-sorted
//! on a shared key: a two-pointer merge indicator with a left-biased
//! tie-break, a typed interleave over every supported column kind, a
//! reconciler for categorical dictionaries, and an assembler that puts the
//! merged columns back into one table.

use vstd::prelude::*;

pub mod bytes;
pub mod keys;
pub mod indicator;
pub mod dict;
pub mod column;
pub mod merge;
pub mod table;

verus! {

/// The ways a merge-sorted combination can fail. No partial output is ever
/// produced: the first failing column aborts the whole operation.
#[derive(Debug)]
pub enum MergeError {
    /// Schema checking was requested and the two tables differ in column
    /// names, order, or dtypes.
    SchemaMismatch,
    /// The two key columns carry different dtypes; the error names both so
    /// the caller can see the offending pair.
    KeyTypeMismatch(crate::column::DataType, crate::column::DataType),
    /// Two categorical columns do not share a dictionary origin: different
    /// local identity hashes, or different global namespaces.
    IncompatibleCategories,
    /// A struct column carries an outer-level null on one side; merging such
    /// columns is a stated, permanent limitation.
    StructOuterNull,
    /// An internal invariant was violated (for example a local dictionary
    /// paired with a global one after the dtypes already matched); this marks
    /// a fault elsewhere, not a recoverable user error.
    InternalFault,
}

} // verus!
