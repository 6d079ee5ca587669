//! Fixed-capacity byte and string building with UTF-8 tracking and decimal
//! formatting, plus index-based array concatenation.

use vstd::prelude::*;
use vstd::utf8::{encode_utf8, valid_utf8};

pub mod array;
pub mod buf;

verus! {

/// Relies on `core::str::from_utf8`: on valid UTF-8 input it returns `Ok`
/// with a string slice over exactly those bytes.
#[verifier::external_body]
pub(crate) fn str_from_utf8(bytes: &[u8]) -> (r: &str)
    requires
        valid_utf8(bytes@),
    ensures
        encode_utf8(r@) == bytes@,
{
    core::str::from_utf8(bytes).unwrap()
}

/// Relies on `<[T; N] as TryFrom<Vec<T>>>::try_from`: a vector of exactly
/// `N` elements converts to the array holding those elements in order.
#[verifier::external_body]
fn vec_into_array<T, const N: usize>(v: Vec<T>) -> (r: [T; N])
    requires
        v@.len() == N,
    ensures
        r@ == v@,
{
    <[T; N]>::try_from(v).ok().unwrap()
}

/// Concatenates two slices into an array; `R_LEN` must be the sum of their
/// lengths.
pub fn concat_slice_arrays_or_panic<T: Copy, const R_LEN: usize>(a: &[T], b: &[T]) -> (r: [T; R_LEN])
    requires
        a@.len() + b@.len() == R_LEN,
    ensures
        r@ == a@ + b@,
{
    let mut v: Vec<T> = Vec::with_capacity(R_LEN);
    let mut i: usize = 0;
    while i < a.len()
        invariant
            i <= a@.len(),
            v@ == a@.subrange(0, i as int),
        decreases a@.len() - i,
    {
        v.push(a[i]);
        i = i + 1;
        assert(v@ =~= a@.subrange(0, i as int));
    }
    let mut j: usize = 0;
    while j < b.len()
        invariant
            j <= b@.len(),
            v@ == a@ + b@.subrange(0, j as int),
        decreases b@.len() - j,
    {
        v.push(b[j]);
        j = j + 1;
        assert(v@ =~= a@ + b@.subrange(0, j as int));
    }
    assert(a@ + b@.subrange(0, j as int) =~= a@ + b@);
    vec_into_array(v)
}

/// Views bytes that are valid UTF-8 as a string slice.
pub fn debug_validate_then_cast_str(array: &[u8]) -> (r: &str)
    requires
        valid_utf8(array@),
    ensures
        encode_utf8(r@) == array@,
{
    str_from_utf8(array)
}

} // verus!
