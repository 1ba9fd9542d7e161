use vstd::prelude::*;

verus! {

/// A marker trait that only this crate implements.
pub trait Sealed {}

} // verus!
