//! Why a styling or rendering call was refused.
use vstd::prelude::*;

verus! {

#[derive(Clone, Copy, Debug, PartialEq, Eq, Structural)]
pub enum StyleError {
    /// No column has the given name.
    NotFound,
    /// A setting that may be made once was made again.
    Misconfiguration,
    /// The values to normalise all coincide, so their range is empty.
    DegenerateInput,
    /// A value to normalise is not a number.
    NotNumeric,
    /// The table has no columns, or columns of different lengths.
    Structure,
}

} // verus!
