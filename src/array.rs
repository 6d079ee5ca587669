//! Concatenation of fixed-size arrays and of slice prefixes into arrays.

use crate::concat_slice_arrays_or_panic;
use vstd::prelude::*;
use vstd::slice::slice_subrange;

verus! {

/// Concatenates the first `A` elements of `a` and the first `B` elements of
/// `b` into an array of `R == A + B` elements.
pub fn force_auto_const_slice_concat<T: Copy, const A: usize, const B: usize, const R: usize>(
    a: &[T],
    b: &[T],
) -> (r: [T; R])
    requires
        A <= a@.len(),
        B <= b@.len(),
        A + B == R,
    ensures
        r@ == a@.subrange(0, A as int) + b@.subrange(0, B as int),
{
    concat_slice_arrays_or_panic(slice_subrange(a, 0, A), slice_subrange(b, 0, B))
}

/// Concatenates two arrays into one of `R == A + B` elements.
pub fn force_auto_const_concat<T: Copy, const A: usize, const B: usize, const R: usize>(
    a: [T; A],
    b: [T; B],
) -> (r: [T; R])
    requires
        A + B == R,
    ensures
        r@ == a@ + b@,
{
    concat_slice_arrays_or_panic(a.as_slice(), b.as_slice())
}

} // verus!
