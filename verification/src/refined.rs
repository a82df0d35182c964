use vstd::prelude::*;

verus! {

/// A `u32` that was checked on construction: either against the closed
/// range `MIN..=MAX` (`bounded_int`) or against the single value `VAL`
/// (`single_valued_int`).
pub struct RefinedUsize<const MIN: u32, const MAX: u32, const VAL: u32>(u32);

impl<const MIN: u32, const MAX: u32, const VAL: u32> View for RefinedUsize<MIN, MAX, VAL> {
    type V = u32;

    closed spec fn view(&self) -> u32 {
        self.0
    }
}

impl<const MIN: u32, const MAX: u32, const VAL: u32> RefinedUsize<MIN, MAX, VAL> {
    /// Wraps `i`, which must lie in `MIN..=MAX` (a stack pointer, say).
    pub fn bounded_int(i: u32) -> (r: Self)
        requires
            MIN <= i <= MAX,
        ensures
            r@ == i,
            MIN <= r@ <= MAX,
    {
        RefinedUsize(i)
    }

    /// Wraps `i`, which must equal `VAL` (a reset vector, say).
    pub fn single_valued_int(i: u32) -> (r: Self)
        requires
            i == VAL,
        ensures
            r@ == i,
            r@ == VAL,
    {
        RefinedUsize(i)
    }

    /// The wrapped value.
    pub fn value(&self) -> (r: u32)
        ensures
            r == self@,
    {
        self.0
    }
}

} // verus!
