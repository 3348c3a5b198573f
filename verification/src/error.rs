//! Why a packing request can fail.

use vstd::prelude::*;

verus! {

/// The reasons for which nothing is packed.
#[derive(Debug, Clone, Copy, PartialEq, Eq, Structural)]
pub enum PackError {
    /// The sizes cannot be used: put together they leave the range of the
    /// coordinates.
    InvalidDimension,
    /// No free space can take the item.
    Unplaceable,
}

} // verus!
