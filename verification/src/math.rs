//! Order-based helpers shared by the geometry and rendering code.

use vstd::prelude::*;
use vstd::std_specs::cmp::PartialOrdSpec;

verus! {

/// Restricts `value` to the interval `[low, high]`.
///
/// For types whose `partial_cmp` is known to agree with its specification,
/// the result is pinned exactly: values above `high` are replaced by `high`,
/// values below `low` by `low`, and everything else is returned unchanged.
pub fn clamp<T: PartialOrd>(low: T, high: T, value: T) -> (r: T)
    ensures
        T::obeys_partial_cmp_spec() ==> r == (if value.partial_cmp_spec(&high)
            == Some(core::cmp::Ordering::Greater) {
            high
        } else if value.partial_cmp_spec(&low) == Some(core::cmp::Ordering::Less) {
            low
        } else {
            value
        }),
{
    if value > high {
        high
    } else if value < low {
        low
    } else {
        value
    }
}

/// Orders a pair: the first component of the result is the smaller of the
/// two arguments, the second the other one; `a` is kept first unless
/// `a < b` fails to hold.
pub fn minmax<T: PartialOrd>(a: T, b: T) -> (r: (T, T))
    ensures
        T::obeys_partial_cmp_spec() ==> r == (if a.partial_cmp_spec(&b)
            == Some(core::cmp::Ordering::Less) {
            (a, b)
        } else {
            (b, a)
        }),
{
    if a < b {
        (a, b)
    } else {
        (b, a)
    }
}

} // verus!
