//! Sorts: bit-vectors of a width, and arrays from one bit-vector width to another.

use vstd::prelude::*;

verus! {

/// The sort of a term.
#[derive(Debug, Clone, Copy, PartialEq, Eq, Structural)]
pub enum Sort {
    /// A bit-vector of the given width.
    Bv(usize),
    /// An array with indices of the first width and elements of the second.
    Array(usize, usize),
}

impl Sort {
    pub fn is_array(&self) -> (r: bool)
        ensures
            r == (*self is Array),
    {
        match self {
            Sort::Bv(_) => false,
            Sort::Array(_, _) => true,
        }
    }
}

} // verus!
