use vstd::prelude::*;

verus! {

/// Adds two 32-bit integers; the caller ensures that the sum fits.
pub fn sum(x: i32, y: i32) -> (r: i32)
    requires
        i32::MIN <= x + y <= i32::MAX,
    ensures
        r == x + y,
{
    x + y
}

} // verus!
