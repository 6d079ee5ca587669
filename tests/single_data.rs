use clu_const_data::buf::ConstStrBuf;
use clu_const_data::{concat_slice_arrays_or_panic, debug_validate_then_cast_str};

#[test]
fn const_single_data_two_single_data() {
    let bytes: [u8; 2] = concat_slice_arrays_or_panic::<u8, 2>("!".as_bytes(), "!".as_bytes());
    assert_eq!("!!", debug_validate_then_cast_str(&bytes));
}

#[test]
fn const_single_data_full_single_data() {
    let a_prefix: &str = "[";
    let c_prefix: &str = "]";

    let mut data = ConstStrBuf::<4>::new();
    data.push_str(a_prefix);
    data.push_str("->");
    data.push_str(c_prefix);

    let pair: [u8; 2] = concat_slice_arrays_or_panic::<u8, 2>(b"1", b"2");
    assert_eq!(b"12", &pair);

    let mut all = ConstStrBuf::<6>::new();
    all.push_str("!");
    all.push_str(data.as_str());
    all.push_str("!");
    assert_eq!("![->]!", all.as_str());
}

#[test]
fn cast_str_keeps_multibyte_text() {
    let bytes: [u8; 5] = concat_slice_arrays_or_panic::<u8, 5>("é".as_bytes(), "€".as_bytes());
    assert_eq!(debug_validate_then_cast_str(&bytes), "é€");
}

#[test]
fn two_single_data() {
    let mut s = ConstStrBuf::<2>::new();
    s.push_str("!");
    s.push_str("!");
    assert_eq!("!!", s.as_str());
}

#[test]
fn full_single_data() {
    let a_prefix: &str = "[";
    let c_prefix: &str = "]";

    let head: [u8; 3] = concat_slice_arrays_or_panic::<u8, 3>(a_prefix.as_bytes(), "->".as_bytes());
    let data_bytes: [u8; 4] = concat_slice_arrays_or_panic::<u8, 4>(&head, c_prefix.as_bytes());
    let data: &str = debug_validate_then_cast_str(&data_bytes);

    let pair: [u8; 2] = concat_slice_arrays_or_panic::<u8, 2>(b"1", b"2");
    assert_eq!(b"12", &pair);

    let front: [u8; 5] = concat_slice_arrays_or_panic::<u8, 5>("!".as_bytes(), data.as_bytes());
    let all: [u8; 6] = concat_slice_arrays_or_panic::<u8, 6>(&front, "!".as_bytes());
    assert_eq!("![->]!", debug_validate_then_cast_str(&all));
}
