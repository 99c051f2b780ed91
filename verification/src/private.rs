//! A seal on the traits that only this crate implements.

use vstd::prelude::*;

verus! {

/// Marks the types for which this crate implements its sealed traits.
pub trait Sealed {

}

impl Sealed for usize {

}

impl Sealed for str {

}

impl Sealed for String {

}

impl<T> Sealed for &T where T: ?Sized + Sealed {

}

} // verus!
