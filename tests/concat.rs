use clu_const_data::buf::ConstStrBuf;
use clu_const_data::{concat_slice_arrays_or_panic, debug_validate_then_cast_str};

#[test]
fn one_concat_macros() {
    let mut s = ConstStrBuf::<1>::new();
    s.push_str(".");
    assert_eq!(s.as_str(), ".");
}

#[test]
fn two_concat_macros() {
    let bytes: [u8; 3] = concat_slice_arrays_or_panic::<u8, 3>(".".as_bytes(), "..".as_bytes());
    assert_eq!(debug_validate_then_cast_str(&bytes), "...");
}

#[test]
fn full_concat_macros() {
    let a: &str = "123";
    let b: &str = "456";
    let c: &str = "789";

    let mut s = ConstStrBuf::<10>::new();
    s.push_str(a);
    s.push_str(b);
    s.push_str(c);
    s.push_str(".");
    assert_eq!(s.as_str(), "123456789.");
}

#[test]
fn concat_str() {
    let h: &str = "H";
    let e: &str = "e";
    let l: &str = "l";
    let o: &str = "o";
    let right: &str = "!";

    let mut hello_world = ConstStrBuf::<12>::new();
    for part in [h, e, l, l, o, " ", "World", right] {
        hello_world.push_str(part);
    }

    assert!(core::str::from_utf8(hello_world.as_bytes()).is_ok());
    assert_eq!(hello_world.as_str(), "Hello World!");
}
