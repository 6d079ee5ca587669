use clu_const_data::buf::ConstStrBuf;
use clu_const_data::{concat_slice_arrays_or_panic, debug_validate_then_cast_str};

#[test]
fn const_data_u8_array_const_data() {
    let a: &[u8] = b"123";
    let b: &[u8] = b".end";

    let ab: [u8; 7] = concat_slice_arrays_or_panic::<u8, 7>(a, b);
    let array: [u8; 11] = concat_slice_arrays_or_panic::<u8, 11>(&ab, b"1234");
    let tail: [u8; 5] = concat_slice_arrays_or_panic::<u8, 5>(b"1234", b".");
    let array2: [u8; 16] = concat_slice_arrays_or_panic::<u8, 16>(&array, &tail);

    assert_eq!(a, b"123");
    assert_eq!(b, b".end");

    assert_eq!(&array, b"123.end1234");
    assert_eq!(&array2, b"123.end12341234.");
}

#[test]
fn const_data_str_array_const_data() {
    let a: &str = "123";
    let b: &str = ".end";

    let mut array = ConstStrBuf::<11>::new();
    array.push_str(a);
    array.push_str(b);
    array.push_str("1234");
    let tail: [u8; 5] = concat_slice_arrays_or_panic::<u8, 5>("1234".as_bytes(), ".".as_bytes());
    let array2: [u8; 16] = concat_slice_arrays_or_panic::<u8, 16>(array.as_str().as_bytes(), &tail);

    assert_eq!(a, "123");
    assert_eq!(b, ".end");

    assert_eq!(array.as_str(), "123.end1234");
    assert_eq!(&array2, b"123.end12341234.");
}

#[test]
fn data_u8_array_const_data() {
    let a: &[u8] = b"123";
    let b: &[u8] = b".end";

    let head: [u8; 7] = concat_slice_arrays_or_panic::<u8, 7>(a, b);
    let array: [u8; 11] = concat_slice_arrays_or_panic::<u8, 11>(&head, b"1234");
    let grown: [u8; 15] = concat_slice_arrays_or_panic::<u8, 15>(&array, b"1234");
    let array2: [u8; 16] = concat_slice_arrays_or_panic::<u8, 16>(&grown, b".");

    assert_eq!(a, b"123");
    assert_eq!(b, b".end");

    assert_eq!(&array, b"123.end1234");
    assert_eq!(&array2, b"123.end12341234.");
}

#[test]
fn data_str_array_const_data() {
    let a: &str = "123";
    let b: &str = ".end";

    let head: [u8; 7] = concat_slice_arrays_or_panic::<u8, 7>(a.as_bytes(), b.as_bytes());
    let bytes: [u8; 11] = concat_slice_arrays_or_panic::<u8, 11>(&head, "1234".as_bytes());
    let array: &str = debug_validate_then_cast_str(&bytes);
    let grown: [u8; 15] = concat_slice_arrays_or_panic::<u8, 15>(array.as_bytes(), "1234".as_bytes());
    let array2: [u8; 16] = concat_slice_arrays_or_panic::<u8, 16>(&grown, ".".as_bytes());

    assert_eq!(a, "123");
    assert_eq!(b, ".end");

    assert_eq!(array, "123.end1234");
    assert_eq!(&array2, b"123.end12341234.");
}

trait AGeneric {
    const STR: &'static str;

    fn as_str() -> ConstStrBuf<16> {
        let mut text = ConstStrBuf::<16>::new();
        text.push_str(Self::STR);
        text
    }
}

struct A;
struct B;

impl AGeneric for A {
    const STR: &'static str = "A";
}

impl AGeneric for B {
    const STR: &'static str = "B";
}

impl AGeneric for (A, B) {
    const STR: &'static str = " + ";

    fn as_str() -> ConstStrBuf<16> {
        let mut text = A::as_str();
        text.push_str(Self::STR);
        text.push_str(B::as_str().as_str());
        text
    }
}

#[test]
fn data_generic_test() {
    assert_eq!(<(A, B)>::as_str().as_str(), "A + B");
}

#[test]
fn generic_generic_test() {
    let joined = <(A, B)>::as_str();
    assert!(joined == "A + B");
    assert_eq!(<A as AGeneric>::as_str().as_str(), "A");
}
