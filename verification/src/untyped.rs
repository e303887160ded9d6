//! Topics whose type is not known.
use vstd::prelude::*;

verus! {

/// Stands for the type of a topic whose type is not known.
#[derive(Debug, Clone, Copy, PartialEq, Eq, Structural)]
pub struct Untyped;

} // verus!
