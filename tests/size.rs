use clu_const_data::buf::size::ConstByteBufSize;

#[test]
fn test_sizealltypes() {
    assert!(<usize as ConstByteBufSize>::MAX_DECIMAL_LEN == usize::MAX.to_string().len());
    assert!(<u128 as ConstByteBufSize>::MAX_DECIMAL_LEN == u128::MAX.to_string().len());
    assert!(<u64 as ConstByteBufSize>::MAX_DECIMAL_LEN == u64::MAX.to_string().len());
    assert!(<u32 as ConstByteBufSize>::MAX_DECIMAL_LEN == u32::MAX.to_string().len());
    assert!(<u16 as ConstByteBufSize>::MAX_DECIMAL_LEN == u16::MAX.to_string().len());
    assert!(<u8 as ConstByteBufSize>::MAX_DECIMAL_LEN == u8::MAX.to_string().len());

    assert!(<isize as ConstByteBufSize>::MAX_DECIMAL_LEN == isize::MIN.to_string().len());
    assert!(<i128 as ConstByteBufSize>::MAX_DECIMAL_LEN == i128::MIN.to_string().len());
    assert!(<i64 as ConstByteBufSize>::MAX_DECIMAL_LEN == i64::MIN.to_string().len());
    assert!(<i32 as ConstByteBufSize>::MAX_DECIMAL_LEN == i32::MIN.to_string().len());
    assert!(<i16 as ConstByteBufSize>::MAX_DECIMAL_LEN == i16::MIN.to_string().len());
    assert!(<i8 as ConstByteBufSize>::MAX_DECIMAL_LEN == i8::MIN.to_string().len());
    assert!(
        <char as ConstByteBufSize>::MAX_DECIMAL_LEN == (<char>::MAX as u32).to_string().len()
    );
}

#[test]
fn max_decimal_len_values() {
    assert_eq!(<u8 as ConstByteBufSize>::MAX_DECIMAL_LEN, 3);
    assert_eq!(<i8 as ConstByteBufSize>::MAX_DECIMAL_LEN, 4);
    assert_eq!(<u128 as ConstByteBufSize>::MAX_DECIMAL_LEN, 39);
    assert_eq!(<i128 as ConstByteBufSize>::MAX_DECIMAL_LEN, 40);
    assert_eq!(<char as ConstByteBufSize>::MAX_DECIMAL_LEN, 7);
}
