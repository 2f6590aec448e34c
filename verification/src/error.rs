//! The ways in which a tag or a payload is refused.

use vstd::prelude::*;

verus! {

/// Why a tag or a payload was refused.
#[derive(Clone, Copy, PartialEq, Eq, Debug, Structural)]
pub enum TypedArrayError {
    /// The tag lies outside the range reserved for typed arrays.
    NotATypedArrayTag,
    /// The tag selects the reserved 128-bit float slot.
    UnsupportedWidth,
    /// The payload does not end on an element boundary.
    TruncatedInput,
}

} // verus!
