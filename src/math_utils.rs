//! Capabilities that element types may offer beyond the arithmetic operators.

use vstd::prelude::*;

verus! {

/// The exponential function.
pub trait Exp: Sized {
    fn exp(self) -> Self;
}

/// Raising to a power.
pub trait Pow<E = Self>: Sized {
    fn pow(self, exp: E) -> Self;
}

} // verus!
