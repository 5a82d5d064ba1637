//! Identifiers of shapes and images.
use vstd::prelude::*;

verus! {

/// A 128-bit identifier, as one integer.
pub type Uuid = u128;

} // verus!
