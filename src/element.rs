//! The additive identity of the element types the library provides for.

use vstd::prelude::*;

verus! {

/// Element types with a zero value.
pub trait Element: Sized {
    fn zero() -> Self;
}

impl Element for usize {
    fn zero() -> (r: Self)
        ensures
            r == 0,
    {
        0
    }
}

impl Element for u8 {
    fn zero() -> (r: Self)
        ensures
            r == 0,
    {
        0
    }
}

impl Element for u32 {
    fn zero() -> (r: Self)
        ensures
            r == 0,
    {
        0
    }
}

impl Element for i32 {
    fn zero() -> (r: Self)
        ensures
            r == 0,
    {
        0
    }
}

} // verus!
