//! The two ways in which a caller can break the contract of this crate.

use vstd::prelude::*;

verus! {

/// Why a tree could not be built or a proof not be created.
#[derive(Copy, Clone, Debug, PartialEq, Eq, Structural)]
pub enum TreeError {
    /// The sequence of leaves was empty.
    EmptyInput,
    /// The index does not name one of the leaves.
    IndexOutOfRange,
}

} // verus!
