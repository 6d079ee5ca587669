use clu_const_data::array::{force_auto_const_concat, force_auto_const_slice_concat};
use clu_const_data::concat_slice_arrays_or_panic;

#[test]
fn test_slicearray_oneconstconcat() {
    let a: &[u8] = b"test";
    let b: &[u8] = b"1234";

    let u: [u8; 8] = force_auto_const_slice_concat::<u8, 4, 4, 8>(a, b);

    assert_eq!(&u, b"test1234");
}

#[test]
fn test_slicearray_twoconstconcat() {
    let a: &[u8] = b"test";
    let b: &[u8] = b"1234";
    let c: &[u8] = b"567890";

    let ab: [u8; 8] = force_auto_const_slice_concat::<u8, 4, 4, 8>(a, b);
    let abc: [u8; 14] = force_auto_const_slice_concat::<u8, 8, 6, 14>(&ab, c);
    let u: [u8; 20] = force_auto_const_slice_concat::<u8, 14, 6, 20>(&abc, c);

    assert_eq!(&u, b"test1234567890567890");
}

#[test]
fn test_array_oneconstconcat() {
    let a: [u8; 4] = *b"test";
    let b: [u8; 4] = *b"1234";

    let u: [u8; 8] = force_auto_const_concat::<u8, 4, 4, 8>(a, b);

    assert_eq!(&u as &[u8], b"test1234" as &[u8]);
}

fn get_c(c: [u8; 6]) -> [u8; 6] {
    c
}

#[test]
fn test_array_twoconstconcat() {
    let a: [u8; 4] = *b"test";
    let b: [u8; 4] = *b"1234";
    let c: [u8; 6] = *b"567890";

    let ab: [u8; 8] = force_auto_const_concat::<u8, 4, 4, 8>(a, b);
    let abc: [u8; 14] = force_auto_const_concat::<u8, 8, 6, 14>(ab, c);
    let u: [u8; 20] = force_auto_const_concat::<u8, 14, 6, 20>(abc, get_c(c));

    assert_eq!(&u as &[u8], b"test1234567890567890" as &[u8]);
}

#[test]
fn slice_concat_takes_prefixes() {
    let u: [u8; 5] = force_auto_const_slice_concat::<u8, 2, 3, 5>(b"abcd", b"12345");
    assert_eq!(&u, b"ab123");
}

#[test]
fn slice_arrays_concat_in_order() {
    let u: [u32; 5] = concat_slice_arrays_or_panic::<u32, 5>(&[1, 2], &[3, 4, 5]);
    assert_eq!(u, [1, 2, 3, 4, 5]);
    let left_only: [u32; 2] = concat_slice_arrays_or_panic::<u32, 2>(&[7, 8], &[]);
    assert_eq!(left_only, [7, 8]);
    let right_only: [u32; 2] = concat_slice_arrays_or_panic::<u32, 2>(&[], &[7, 8]);
    assert_eq!(right_only, [7, 8]);
    let empty: [u32; 0] = concat_slice_arrays_or_panic::<u32, 0>(&[], &[]);
    assert_eq!(empty.len(), 0);
}
