//! Maximum decimal lengths of the integer types, and the decimal model that
//! the buffer's number formatting is stated over.

use vstd::prelude::*;

verus! {

/// ASCII code of `'0'`.
pub const ASCII_ZERO: u8 = 48;

/// ASCII code of `'-'`.
pub const ASCII_MINUS: u8 = 45;

/// The ASCII decimal digits of `n`, most significant first, with no leading
/// zero (zero itself is the single digit `"0"`).
pub open spec fn decimal_digits(n: nat) -> Seq<u8>
    decreases n,
{
    if n < 10 {
        seq![(n + ASCII_ZERO) as u8]
    } else {
        decimal_digits(n / 10).push((n % 10 + ASCII_ZERO) as u8)
    }
}

/// The decimal text of a signed value: a `'-'` before the digits of the
/// magnitude when the value is negative.
pub open spec fn signed_decimal_digits(v: int) -> Seq<u8> {
    if v < 0 {
        seq![ASCII_MINUS] + decimal_digits((-v) as nat)
    } else {
        decimal_digits(v as nat)
    }
}

/// Whether `b` is an ASCII decimal digit.
pub open spec fn is_digit(b: u8) -> bool {
    ASCII_ZERO <= b <= ASCII_ZERO + 9
}

/// Canonical decimal text: at least one digit, only digits, and no leading
/// zero unless the text is `"0"`.
pub open spec fn is_canonical_decimal(s: Seq<u8>) -> bool {
    &&& s.len() >= 1
    &&& forall|i: int| 0 <= i < s.len() ==> is_digit(#[trigger] s[i])
    &&& (s.len() > 1 ==> s[0] != ASCII_ZERO)
}

/// The value of a sequence of ASCII decimal digits, read most significant
/// digit first.
pub open spec fn parse_decimal(s: Seq<u8>) -> nat
    decreases s.len(),
{
    if s.len() == 0 {
        0
    } else {
        parse_decimal(s.drop_last()) * 10 + (s.last() - ASCII_ZERO) as nat
    }
}

/// `10` to the power `k`.
pub open spec fn pow10(k: nat) -> nat
    decreases k,
{
    if k == 0 {
        1
    } else {
        10 * pow10((k - 1) as nat)
    }
}

/// The number of bytes needed to render any value of the type in decimal,
/// including the minus sign of a signed type's most negative value.
pub trait ConstByteBufSize {
    /// The maximum number of bytes needed to render a value of this type.
    const MAX_DECIMAL_LEN: usize;
}

impl ConstByteBufSize for u8 {
    const MAX_DECIMAL_LEN: usize = 3;
}

impl ConstByteBufSize for u16 {
    const MAX_DECIMAL_LEN: usize = 5;
}

impl ConstByteBufSize for u32 {
    const MAX_DECIMAL_LEN: usize = 10;
}

impl ConstByteBufSize for u64 {
    const MAX_DECIMAL_LEN: usize = 20;
}

impl ConstByteBufSize for u128 {
    const MAX_DECIMAL_LEN: usize = 39;
}

/// Same as `u32` on 32-bit targets and as `u64` on 64-bit targets.
impl ConstByteBufSize for usize {
    const MAX_DECIMAL_LEN: usize = 10 + 10 * (usize::BITS / 64) as usize;
}

impl ConstByteBufSize for i8 {
    const MAX_DECIMAL_LEN: usize = 4;
}

impl ConstByteBufSize for i16 {
    const MAX_DECIMAL_LEN: usize = 6;
}

impl ConstByteBufSize for i32 {
    const MAX_DECIMAL_LEN: usize = 11;
}

impl ConstByteBufSize for i64 {
    const MAX_DECIMAL_LEN: usize = 20;
}

impl ConstByteBufSize for i128 {
    const MAX_DECIMAL_LEN: usize = 40;
}

/// Same as `i32` on 32-bit targets and as `i64` on 64-bit targets.
impl ConstByteBufSize for isize {
    const MAX_DECIMAL_LEN: usize = 11 + 9 * (usize::BITS / 64) as usize;
}

/// The digits of the largest scalar value, `char::MAX` (1114111).
impl ConstByteBufSize for char {
    const MAX_DECIMAL_LEN: usize = 7;
}

/// Each type's `MAX_DECIMAL_LEN` is the length of the decimal text of its
/// extreme value: `MAX` for an unsigned type, `MIN` with its sign for a signed
/// type, and the largest code point for `char`.
pub proof fn lemma_max_decimal_len()
    ensures
        <u8 as ConstByteBufSize>::MAX_DECIMAL_LEN == decimal_digits(u8::MAX as nat).len(),
        <u16 as ConstByteBufSize>::MAX_DECIMAL_LEN == decimal_digits(u16::MAX as nat).len(),
        <u32 as ConstByteBufSize>::MAX_DECIMAL_LEN == decimal_digits(u32::MAX as nat).len(),
        <u64 as ConstByteBufSize>::MAX_DECIMAL_LEN == decimal_digits(u64::MAX as nat).len(),
        <u128 as ConstByteBufSize>::MAX_DECIMAL_LEN == decimal_digits(u128::MAX as nat).len(),
        <usize as ConstByteBufSize>::MAX_DECIMAL_LEN == decimal_digits(usize::MAX as nat).len(),
        <i8 as ConstByteBufSize>::MAX_DECIMAL_LEN == signed_decimal_digits(i8::MIN as int).len(),
        <i16 as ConstByteBufSize>::MAX_DECIMAL_LEN == signed_decimal_digits(i16::MIN as int).len(),
        <i32 as ConstByteBufSize>::MAX_DECIMAL_LEN == signed_decimal_digits(i32::MIN as int).len(),
        <i64 as ConstByteBufSize>::MAX_DECIMAL_LEN == signed_decimal_digits(i64::MIN as int).len(),
        <i128 as ConstByteBufSize>::MAX_DECIMAL_LEN == signed_decimal_digits(i128::MIN as int).len(),
        <isize as ConstByteBufSize>::MAX_DECIMAL_LEN == signed_decimal_digits(isize::MIN as int).len(),
        <char as ConstByteBufSize>::MAX_DECIMAL_LEN == decimal_digits(0x10FFFF).len(),
        forall|c: char|
            #[trigger] decimal_digits(c as u32 as nat).len()
                <= <char as ConstByteBufSize>::MAX_DECIMAL_LEN,
{
    reveal_with_fuel(pow10, 40);
    lemma_decimal_len_exact(u8::MAX as nat, 3);
    lemma_decimal_len_exact(u16::MAX as nat, 5);
    lemma_decimal_len_exact(u32::MAX as nat, 10);
    lemma_decimal_len_exact(u64::MAX as nat, 20);
    lemma_decimal_len_exact(u128::MAX as nat, 39);
    lemma_decimal_len_exact(128, 3);
    lemma_decimal_len_exact(32768, 5);
    lemma_decimal_len_exact(2147483648, 10);
    lemma_decimal_len_exact(9223372036854775808, 19);
    lemma_decimal_len_exact(170141183460469231731687303715884105728, 39);
    lemma_decimal_len_exact(0x10FFFF, 7);
    assert forall|c: char|
        #[trigger] decimal_digits(c as u32 as nat).len()
            <= <char as ConstByteBufSize>::MAX_DECIMAL_LEN by {
        lemma_decimal_len_bounds(c as u32 as nat, 7);
    }
    if usize::BITS == 64 {
        lemma_decimal_len_exact(usize::MAX as nat, 20);
        lemma_decimal_len_exact(9223372036854775808, 19);
    } else {
        lemma_decimal_len_exact(usize::MAX as nat, 10);
        lemma_decimal_len_exact(2147483648, 10);
    }
}

/// Bounds on the number of decimal digits: a value below `10^k` has at most
/// `k` digits, and a value of at least `10^(k-1)` has at least `k`.
pub proof fn lemma_decimal_len_bounds(n: nat, k: nat)
    requires
        k >= 1,
    ensures
        n < pow10(k) ==> decimal_digits(n).len() <= k,
        pow10((k - 1) as nat) <= n ==> decimal_digits(n).len() >= k,
    decreases k,
{
    reveal_with_fuel(pow10, 2);
    if k > 1 {
        let p = pow10((k - 2) as nat);
        assert(pow10((k - 1) as nat) == 10 * p);
        assert(pow10(k) == 10 * (10 * p));
        lemma_decimal_len_bounds(n / 10, (k - 1) as nat);
        assert(n < 10 * (10 * p) ==> n / 10 < 10 * p) by (nonlinear_arith);
        assert(10 * p <= n ==> p <= n / 10) by (nonlinear_arith);
        assert(p >= 1) by {
            lemma_pow10_positive((k - 2) as nat);
        }
    }
}

/// Every power of ten is at least one.
pub proof fn lemma_pow10_positive(k: nat)
    ensures
        pow10(k) >= 1,
    decreases k,
{
    if k > 0 {
        lemma_pow10_positive((k - 1) as nat);
    }
}

/// The exact digit count of a value between `10^(k-1)` and `10^k`.
pub proof fn lemma_decimal_len_exact(n: nat, k: nat)
    requires
        k >= 1,
        pow10((k - 1) as nat) <= n < pow10(k),
    ensures
        decimal_digits(n).len() == k,
{
    lemma_decimal_len_bounds(n, k);
}

/// The decimal text of every value is canonical: digits only, no leading zero.
pub proof fn lemma_decimal_digits_canonical(n: nat)
    ensures
        is_canonical_decimal(decimal_digits(n)),
        n >= 10 ==> decimal_digits(n).len() > 1,
    decreases n,
{
    if n < 10 {
        assert(decimal_digits(n)[0] == (n + ASCII_ZERO) as u8);
    } else {
        lemma_decimal_digits_canonical(n / 10);
        let s = decimal_digits(n);
        assert(s.drop_last() == decimal_digits(n / 10));
        let t = decimal_digits(n / 10);
        assert forall|i: int| 0 <= i < s.len() implies is_digit(#[trigger] s[i]) by {
            if i < s.len() - 1 {
                assert(s[i] == t[i]);
            }
        }
        assert(s[0] == t[0]);
        if n / 10 < 10 {
            assert(t[0] == (n / 10 + ASCII_ZERO) as u8);
        }
    }
}

/// Reading back the decimal text of a value gives the value.
pub proof fn lemma_decimal_round_trip(n: nat)
    ensures
        parse_decimal(decimal_digits(n)) == n,
    decreases n,
{
    let s = decimal_digits(n);
    let d = (n % 10 + ASCII_ZERO) as u8;
    assert(d - ASCII_ZERO == n % 10);
    if n < 10 {
        assert(s.drop_last() =~= Seq::<u8>::empty());
        assert(parse_decimal(Seq::<u8>::empty()) == 0);
    } else {
        lemma_decimal_round_trip(n / 10);
        assert(s.drop_last() =~= decimal_digits(n / 10));
    }
    assert(s.last() == d);
    assert(n == (n / 10) * 10 + n % 10);
}

} // verus!
