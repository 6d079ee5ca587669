//! Fixed-capacity buffer builder with UTF-8 safety and decimal formatting.

pub mod size;

use crate::buf::size::{decimal_digits, signed_decimal_digits, ASCII_MINUS, ASCII_ZERO};
use crate::str_from_utf8;
use core::marker::PhantomData;
use vstd::prelude::*;
use vstd::slice::slice_subrange;
use vstd::utf8::{encode_utf8, valid_utf8};

verus! {

broadcast use vstd::utf8::group_utf8_lib;

/// Marker trait for the buffer's write discipline.
pub trait ConstByteBufData {
    /// Whether buffers of this mode keep their written bytes valid UTF-8.
    spec fn utf8_only() -> bool;
}

/// Marker type: the written region is always valid UTF-8.
#[derive(Clone, Copy)]
pub struct Utf8SafeBuf;

impl ConstByteBufData for Utf8SafeBuf {
    open spec fn utf8_only() -> bool {
        true
    }
}

/// Marker type: raw byte writes are allowed and no UTF-8 guarantee is kept.
#[derive(Clone, Copy)]
pub struct DefBuf;

impl ConstByteBufData for DefBuf {
    open spec fn utf8_only() -> bool {
        false
    }
}

/// Error of a write that does not fit in the remaining capacity.
#[derive(Clone, Copy, Debug, PartialEq, Eq, Structural)]
pub struct StackOverflow;

/// Fixed-capacity, append-only byte buffer.
///
/// `buf[0..wpos]` is the written region; the rest of the storage holds no
/// meaning. The mode `TData` decides whether the written region is kept valid
/// UTF-8.
pub struct ConstByteBuf<const CAP: usize, TData = DefBuf> where TData: ConstByteBufData {
    tdata: PhantomData<TData>,
    buf: [u8; CAP],
    wpos: usize,
}

/// A buffer whose written bytes are always valid UTF-8.
pub type ConstStrBuf<const CAP: usize> = ConstByteBuf<CAP, Utf8SafeBuf>;

/// Bytes below `0x80` form valid UTF-8.
proof fn lemma_ascii_valid_utf8(s: Seq<u8>)
    requires
        forall|i: int| 0 <= i < s.len() ==> #[trigger] s[i] < 0x80,
    ensures
        valid_utf8(s),
{
    let chars = Seq::new(s.len(), |i: int| s[i] as char);
    assert(vstd::utf8::is_ascii_chars(chars));
    vstd::utf8::is_ascii_chars_encode_utf8(chars);
    assert(encode_utf8(chars) =~= s);
}

/// Size of the scratch area for decimal text: a sign and the digits of the
/// largest `usize`.
const DECIMAL_SCRATCH: usize = 21;

/// The digits still to be emitted while rendering: all of `v` before the
/// first digit is out, and nothing once `v` has reached zero after that.
spec fn pending_digits(v: nat, started: bool) -> Seq<u8> {
    if started && v == 0 {
        Seq::empty()
    } else {
        decimal_digits(v)
    }
}

/// Renders `value` in decimal at the end of a scratch array, least
/// significant digit first from the back; returns the array and the index
/// where the text starts.
fn render_decimal(value: usize) -> (r: ([u8; DECIMAL_SCRATCH], usize))
    ensures
        1 <= r.1 < DECIMAL_SCRATCH,
        r.0@.subrange(r.1 as int, DECIMAL_SCRATCH as int) == decimal_digits(value as nat),
{
    proof {
        reveal_with_fuel(crate::buf::size::pow10, 21);
        crate::buf::size::lemma_decimal_len_bounds(value as nat, 20);
    }
    let mut arr = [0u8; DECIMAL_SCRATCH];
    let mut i: usize = DECIMAL_SCRATCH;
    let mut v: usize = value;
    assert(arr@.subrange(i as int, DECIMAL_SCRATCH as int) =~= Seq::<u8>::empty());
    while i == DECIMAL_SCRATCH || v != 0
        invariant
            1 <= i <= DECIMAL_SCRATCH,
            arr@.len() == DECIMAL_SCRATCH,
            decimal_digits(value as nat).len() <= 20,
            decimal_digits(value as nat) == pending_digits(v as nat, i < DECIMAL_SCRATCH)
                + arr@.subrange(i as int, DECIMAL_SCRATCH as int),
        decreases i,
    {
        let ghost old_arr = arr@;
        let ghost old_i = i;
        let d: u8 = ASCII_ZERO + (v % 10) as u8;
        assert(decimal_digits(v as nat) == pending_digits((v / 10) as nat, true).push(d));
        i = i - 1;
        arr[i] = d;
        v = v / 10;
        assert(arr@.subrange(i as int, DECIMAL_SCRATCH as int) =~= seq![d] + old_arr.subrange(
            old_i as int,
            DECIMAL_SCRATCH as int,
        ));
        assert(decimal_digits(value as nat) =~= pending_digits(v as nat, true) + arr@.subrange(
            i as int,
            DECIMAL_SCRATCH as int,
        ));
    }
    (arr, i)
}

/// Renders `value` in decimal, with a leading `'-'` when it is negative;
/// returns the array and the index where the text starts.
fn render_signed_decimal(value: isize) -> (r: ([u8; DECIMAL_SCRATCH], usize))
    ensures
        r.1 < DECIMAL_SCRATCH,
        r.0@.subrange(r.1 as int, DECIMAL_SCRATCH as int) == signed_decimal_digits(value as int),
{
    if value < 0 {
        let magnitude: usize = (-1 - value) as usize + 1;
        let (mut arr, start) = render_decimal(magnitude);
        let ghost digits = arr@.subrange(start as int, DECIMAL_SCRATCH as int);
        arr[start - 1] = ASCII_MINUS;
        assert(arr@.subrange(start - 1, DECIMAL_SCRATCH as int) =~= seq![ASCII_MINUS] + digits);
        (arr, start - 1)
    } else {
        render_decimal(value as usize)
    }
}

/// Every byte of a decimal text is ASCII.
proof fn lemma_decimal_ascii(v: int)
    ensures
        forall|i: int|
            0 <= i < signed_decimal_digits(v).len() ==> #[trigger] signed_decimal_digits(v)[i]
                < 0x80,
{
    let m: nat = if v < 0 { (-v) as nat } else { v as nat };
    crate::buf::size::lemma_decimal_digits_canonical(m);
    let s = signed_decimal_digits(v);
    assert forall|i: int| 0 <= i < s.len() implies #[trigger] s[i] < 0x80 by {
        if v < 0 {
            if i > 0 {
                assert(s[i] == decimal_digits(m)[i - 1]);
            }
        } else {
            assert(s[i] == decimal_digits(m)[i]);
        }
    }
}

/// Whether two byte slices are equal.
fn bytes_eq(a: &[u8], b: &[u8]) -> (r: bool)
    ensures
        r == (a@ == b@),
{
    if a.len() != b.len() {
        return false;
    }
    let mut i: usize = 0;
    while i < a.len()
        invariant
            a@.len() == b@.len(),
            i <= a@.len(),
            a@.subrange(0, i as int) == b@.subrange(0, i as int),
        decreases a@.len() - i,
    {
        if a[i] != b[i] {
            return false;
        }
        i = i + 1;
        assert(a@.subrange(0, i as int) =~= a@.subrange(0, i - 1).push(a@[i - 1]));
        assert(b@.subrange(0, i as int) =~= b@.subrange(0, i - 1).push(b@[i - 1]));
    }
    assert(a@ =~= a@.subrange(0, i as int));
    assert(b@ =~= b@.subrange(0, i as int));
    true
}

/// The UTF-8 encoding of one character takes one to four bytes.
pub proof fn lemma_char_encoding_len(c: char)
    ensures
        1 <= encode_utf8(seq![c]).len() <= 4,
{
    assert(seq![c].drop_first() =~= Seq::<char>::empty());
    assert(encode_utf8(Seq::<char>::empty()) =~= Seq::<u8>::empty());
    assert(encode_utf8(seq![c]) =~= vstd::utf8::encode_scalar(c as u32));
}

/// The UTF-8 encoding of `c` in the first `r.1` bytes of `r.0`.
fn encode_char(c: char) -> (r: ([u8; 4], usize))
    ensures
        1 <= r.1 <= 4,
        r.0@.subrange(0, r.1 as int) == encode_utf8(seq![c]),
{
    let v = c as u32;
    assert(seq![c].drop_first() =~= Seq::<char>::empty());
    assert(encode_utf8(Seq::<char>::empty()) =~= Seq::<u8>::empty());
    assert(encode_utf8(seq![c]) =~= vstd::utf8::encode_scalar(v));
    if v <= 0x7F {
        let r = ([(v & 0x7F) as u8, 0, 0, 0], 1);
        assert(r.0@.subrange(0, 1) =~= vstd::utf8::encode_scalar(v));
        r
    } else if v <= 0x7FF {
        let r = ([0xC0 | ((v >> 6) & 0x1F) as u8, 0x80 | (v & 0x3F) as u8, 0, 0], 2);
        assert(r.0@.subrange(0, 2) =~= vstd::utf8::encode_scalar(v));
        r
    } else if v <= 0xFFFF {
        let r = (
            [
                0xE0 | ((v >> 12) & 0x0F) as u8,
                0x80 | ((v >> 6) & 0x3F) as u8,
                0x80 | (v & 0x3F) as u8,
                0,
            ],
            3,
        );
        assert(r.0@.subrange(0, 3) =~= vstd::utf8::encode_scalar(v));
        r
    } else {
        let r = (
            [
                0xF0 | ((v >> 18) & 0x7) as u8,
                0x80 | ((v >> 12) & 0x3F) as u8,
                0x80 | ((v >> 6) & 0x3F) as u8,
                0x80 | (v & 0x3F) as u8,
            ],
            4,
        );
        assert(r.0@.subrange(0, 4) =~= vstd::utf8::encode_scalar(v));
        r
    }
}

impl<const CAP: usize, TData: ConstByteBufData> View for ConstByteBuf<CAP, TData> {
    type V = Seq<u8>;

    /// The written bytes.
    closed spec fn view(&self) -> Seq<u8> {
        self.buf@.subrange(0, self.wpos as int)
    }
}

impl<const CAP: usize, TData: ConstByteBufData> ConstByteBuf<CAP, TData> {
    /// The write cursor lies within the storage.
    pub closed spec fn cursor_ok(&self) -> bool {
        self.wpos <= CAP
    }

    /// The buffer's invariant: the cursor is in range, at most `CAP` bytes
    /// are written, and in UTF-8 mode the written bytes are valid UTF-8.
    #[verifier::type_invariant]
    pub open spec fn wf(&self) -> bool {
        &&& self.cursor_ok()
        &&& self@.len() <= CAP
        &&& TData::utf8_only() ==> valid_utf8(self@)
    }

    /// Whether appending `data` keeps the mode's guarantee.
    spec fn keeps_mode(&self, data: Seq<u8>) -> bool {
        TData::utf8_only() ==> valid_utf8(self@ + data)
    }

    /// Whether removing the last written byte keeps the mode's guarantee.
    spec fn keeps_mode_after_pop(&self) -> bool {
        TData::utf8_only() ==> valid_utf8(self@.drop_last())
    }

    /// Creates an empty buffer.
    pub fn new() -> (r: Self)
        ensures
            r@ == Seq::<u8>::empty(),
    {
        let r = Self { tdata: PhantomData, buf: [0u8; CAP], wpos: 0 };
        assert(r@ =~= Seq::<u8>::empty());
        r
    }

    /// An exact copy of the buffer.
    pub fn clone(&self) -> (r: Self)
        ensures
            r@ == self@,
    {
        proof {
            use_type_invariant(self);
        }
        Self { tdata: PhantomData, buf: self.buf, wpos: self.wpos }
    }

    /// Resets the buffer to empty. The storage is not cleared; later writes
    /// overwrite it from the start.
    pub fn clear(&mut self)
        ensures
            final(self)@ == Seq::<u8>::empty(),
    {
        self.wpos = 0;
        assert(self@ =~= Seq::<u8>::empty());
    }

    /// Total capacity in bytes.
    pub fn capacity(&self) -> (r: usize)
        ensures
            r == CAP,
    {
        CAP
    }

    /// Number of bytes written.
    pub fn len(&self) -> (r: usize)
        ensures
            r == self@.len(),
    {
        proof {
            use_type_invariant(self);
        }
        self.wpos
    }

    /// Whether nothing is written.
    pub fn is_empty(&self) -> (r: bool)
        ensures
            r == (self@.len() == 0),
    {
        proof {
            use_type_invariant(self);
        }
        self.wpos == 0
    }

    /// Remaining capacity in bytes.
    pub fn available(&self) -> (r: usize)
        ensures
            r == CAP - self@.len(),
    {
        proof {
            use_type_invariant(self);
        }
        CAP - self.wpos
    }

    /// The written bytes; in UTF-8 mode they are valid UTF-8.
    pub fn as_bytes(&self) -> (r: &[u8])
        ensures
            r@ == self@,
            TData::utf8_only() ==> valid_utf8(r@),
    {
        proof {
            use_type_invariant(self);
        }
        slice_subrange(self.buf.as_slice(), 0, self.wpos)
    }

    /// The written byte at `pos`, or `None` when `pos` is not below the
    /// length.
    pub fn get(&self, pos: usize) -> (r: Option<&u8>)
        ensures
            r is Some <==> pos < self@.len(),
            r matches Some(b) ==> *b == self@[pos as int],
    {
        proof {
            use_type_invariant(self);
        }
        if pos < self.wpos {
            Some(&self.buf[pos])
        } else {
            None
        }
    }

    /// Appends one byte, which the caller has checked to fit.
    fn write_byte_in_room(&mut self, data: u8)
        requires
            old(self)@.len() < CAP,
            old(self).keeps_mode(seq![data]),
        ensures
            final(self)@ == old(self)@.push(data),
    {
        let arr = [data];
        assert(arr@ =~= seq![data]);
        self.write_in_room(arr.as_slice());
        assert(old(self)@ + seq![data] =~= old(self)@.push(data));
    }

    /// Appends one byte if it fits, and otherwise changes nothing.
    fn try_write_byte_raw(&mut self, data: u8) -> (r: Result<usize, StackOverflow>)
        requires
            old(self).keeps_mode(seq![data]),
        ensures
            r is Ok <==> old(self)@.len() < CAP,
            r is Ok ==> r == Ok::<usize, StackOverflow>(1) && final(self)@ == old(self)@.push(
                data,
            ),
            r is Err ==> r == Err::<usize, StackOverflow>(StackOverflow) && *final(self)
                == *old(self),
    {
        proof {
            use_type_invariant(&*self);
        }
        if self.wpos >= CAP {
            return Err(StackOverflow);
        }
        self.write_byte_in_room(data);
        Ok(1)
    }

    /// Removes the last written byte and returns it, or `None` when nothing
    /// is written.
    fn pop_raw(&mut self) -> (r: Option<u8>)
        requires
            old(self)@.len() > 0 ==> old(self).keeps_mode_after_pop(),
        ensures
            old(self)@.len() == 0 ==> r is None && *final(self) == *old(self),
            old(self)@.len() > 0 ==> r == Some(old(self)@.last()) && final(self)@ == old(
                self,
            )@.drop_last(),
    {
        proof {
            use_type_invariant(&*self);
        }
        if self.wpos == 0 {
            return None;
        }
        let b = self.buf[self.wpos - 1];
        assert(self.buf@.subrange(0, self.wpos - 1) =~= old(self)@.drop_last());
        self.wpos = self.wpos - 1;
        Some(b)
    }

    /// The storage with every byte past the written region set to `space`,
    /// together with the written length.
    fn into_array_raw(self, space: u8) -> (r: (usize, [u8; CAP]))
        ensures
            r.0 == self@.len(),
            r.1@ == self@ + Seq::new((CAP - self@.len()) as nat, |_i: int| space),
    {
        proof {
            use_type_invariant(&self);
        }
        let len = self.wpos;
        let mut arr = self.buf;
        let mut i: usize = len;
        while i < CAP
            invariant
                len <= i <= CAP,
                arr@.len() == CAP,
                arr@.subrange(0, len as int) == self@,
                forall|k: int| len <= k < i ==> #[trigger] arr@[k] == space,
            decreases CAP - i,
        {
            arr[i] = space;
            i = i + 1;
            assert(arr@.subrange(0, len as int) =~= self@);
        }
        assert(arr@ =~= self@ + Seq::new((CAP - len) as nat, |_i: int| space));
        (len, arr)
    }

    /// Appends `data`, which the caller has checked to fit.
    fn write_in_room(&mut self, data: &[u8])
        requires
            old(self)@.len() + data@.len() <= CAP,
            old(self).keeps_mode(data@),
        ensures
            final(self)@ == old(self)@ + data@,
    {
        proof {
            use_type_invariant(&*self);
        }
        let n = data.len();
        let start = self.wpos;
        let mut i: usize = 0;
        while i < n
            invariant
                self.wpos == start,
                start == old(self).wpos,
                start + n <= CAP,
                n == data@.len(),
                i <= n,
                self.buf@.len() == CAP,
                self.buf@.subrange(0, start as int) == old(self)@,
                old(self)@.len() == start,
                TData::utf8_only() ==> valid_utf8(old(self)@),
                self.buf@.subrange(start as int, start + i) == data@.subrange(0, i as int),
            decreases n - i,
        {
            proof {
                assert(self.buf@.subrange(0, start as int) =~= old(self)@);
                assert forall|b: u8|
                    #[trigger] self.buf@.update(start + i, b).subrange(0, start as int)
                        =~= old(self)@ by {}
            }
            self.buf[start + i] = data[i];
            i = i + 1;
            assert(self.buf@.subrange(start as int, start + i) =~= data@.subrange(0, i as int));
        }
        assert(self.buf@.subrange(0, (start + n) as int) =~= self.buf@.subrange(0, start as int)
            + self.buf@.subrange(start as int, start + n));
        assert(data@.subrange(0, n as int) =~= data@);
        self.wpos = start + n;
    }

    /// Appends `data` if it fits, and otherwise changes nothing.
    fn try_write_raw(&mut self, data: &[u8]) -> (r: Result<usize, StackOverflow>)
        requires
            old(self).keeps_mode(data@),
        ensures
            r is Ok <==> old(self)@.len() + data@.len() <= CAP,
            r is Ok ==> r == Ok::<usize, StackOverflow>(data@.len() as usize) && final(self)@
                == old(self)@ + data@,
            r is Err ==> r == Err::<usize, StackOverflow>(StackOverflow) && *final(self)
                == *old(self),
    {
        proof {
            use_type_invariant(&*self);
        }
        if data.len() > CAP - self.wpos {
            return Err(StackOverflow);
        }
        self.write_in_room(data);
        Ok(data.len())
    }

    /// Appends the UTF-8 bytes of `s`, which must fit.
    pub fn push_str(&mut self, s: &str) -> (r: usize)
        requires
            old(self)@.len() + encode_utf8(s@).len() <= CAP,
        ensures
            r == encode_utf8(s@).len(),
            final(self)@ == old(self)@ + encode_utf8(s@),
    {
        proof {
            use_type_invariant(&*self);
        }
        let data = s.as_bytes();
        self.write_in_room(data);
        data.len()
    }

    /// Appends the UTF-8 bytes of `s` if they fit, and otherwise changes
    /// nothing.
    pub fn try_push_str(&mut self, s: &str) -> (r: Result<usize, StackOverflow>)
        ensures
            r is Ok <==> old(self)@.len() + encode_utf8(s@).len() <= CAP,
            r is Ok ==> r == Ok::<usize, StackOverflow>(encode_utf8(s@).len() as usize)
                && final(self)@ == old(self)@ + encode_utf8(s@),
            r is Err ==> r == Err::<usize, StackOverflow>(StackOverflow) && *final(self)
                == *old(self),
    {
        proof {
            use_type_invariant(&*self);
        }
        self.try_write_raw(s.as_bytes())
    }

    /// Appends the UTF-8 encoding of `value`, which must fit.
    pub fn push_char(&mut self, value: char) -> (r: usize)
        requires
            old(self)@.len() + encode_utf8(seq![value]).len() <= CAP,
        ensures
            r == encode_utf8(seq![value]).len(),
            final(self)@ == old(self)@ + encode_utf8(seq![value]),
    {
        proof {
            use_type_invariant(&*self);
        }
        let (arr, n) = encode_char(value);
        let data = slice_subrange(arr.as_slice(), 0, n);
        self.write_in_room(data);
        n
    }

    /// Appends the UTF-8 encoding of `value` if it fits, and otherwise
    /// changes nothing.
    pub fn try_push_char(&mut self, value: char) -> (r: Result<usize, StackOverflow>)
        ensures
            r is Ok <==> old(self)@.len() + encode_utf8(seq![value]).len() <= CAP,
            r is Ok ==> r == Ok::<usize, StackOverflow>(encode_utf8(seq![value]).len() as usize)
                && final(self)@ == old(self)@ + encode_utf8(seq![value]),
            r is Err ==> r == Err::<usize, StackOverflow>(StackOverflow) && *final(self)
                == *old(self),
    {
        proof {
            use_type_invariant(&*self);
        }
        let (arr, n) = encode_char(value);
        self.try_write_raw(slice_subrange(arr.as_slice(), 0, n))
    }

    /// Appends the decimal text of `value`, which must fit.
    pub fn push_usize(&mut self, value: usize) -> (r: usize)
        requires
            old(self)@.len() + decimal_digits(value as nat).len() <= CAP,
        ensures
            r == decimal_digits(value as nat).len(),
            final(self)@ == old(self)@ + decimal_digits(value as nat),
    {
        proof {
            use_type_invariant(&*self);
            lemma_decimal_ascii(value as int);
            assert(signed_decimal_digits(value as int) == decimal_digits(value as nat));
            lemma_ascii_valid_utf8(decimal_digits(value as nat));
        }
        let (arr, start) = render_decimal(value);
        self.write_in_room(slice_subrange(arr.as_slice(), start, DECIMAL_SCRATCH));
        DECIMAL_SCRATCH - start
    }

    /// Appends the decimal text of `value` if it fits, and otherwise changes
    /// nothing.
    pub fn try_push_usize(&mut self, value: usize) -> (r: Result<usize, StackOverflow>)
        ensures
            r is Ok <==> old(self)@.len() + decimal_digits(value as nat).len() <= CAP,
            r is Ok ==> r == Ok::<usize, StackOverflow>(
                decimal_digits(value as nat).len() as usize,
            ) && final(self)@ == old(self)@ + decimal_digits(value as nat),
            r is Err ==> r == Err::<usize, StackOverflow>(StackOverflow) && *final(self)
                == *old(self),
    {
        proof {
            use_type_invariant(&*self);
            lemma_decimal_ascii(value as int);
            assert(signed_decimal_digits(value as int) == decimal_digits(value as nat));
            lemma_ascii_valid_utf8(decimal_digits(value as nat));
        }
        let (arr, start) = render_decimal(value);
        self.try_write_raw(slice_subrange(arr.as_slice(), start, DECIMAL_SCRATCH))
    }

    /// Appends the decimal text of `value`, with a leading `'-'` when it is
    /// negative; the text must fit.
    pub fn push_isize(&mut self, value: isize) -> (r: usize)
        requires
            old(self)@.len() + signed_decimal_digits(value as int).len() <= CAP,
        ensures
            r == signed_decimal_digits(value as int).len(),
            final(self)@ == old(self)@ + signed_decimal_digits(value as int),
    {
        proof {
            use_type_invariant(&*self);
            lemma_decimal_ascii(value as int);
            lemma_ascii_valid_utf8(signed_decimal_digits(value as int));
        }
        let (arr, start) = render_signed_decimal(value);
        self.write_in_room(slice_subrange(arr.as_slice(), start, DECIMAL_SCRATCH));
        DECIMAL_SCRATCH - start
    }

    /// Appends the decimal text of `value`, with a leading `'-'` when it is
    /// negative, if the whole text fits; otherwise changes nothing.
    pub fn try_push_isize(&mut self, value: isize) -> (r: Result<usize, StackOverflow>)
        ensures
            r is Ok <==> old(self)@.len() + signed_decimal_digits(value as int).len() <= CAP,
            r is Ok ==> r == Ok::<usize, StackOverflow>(
                signed_decimal_digits(value as int).len() as usize,
            ) && final(self)@ == old(self)@ + signed_decimal_digits(value as int),
            r is Err ==> r == Err::<usize, StackOverflow>(StackOverflow) && *final(self)
                == *old(self),
    {
        proof {
            use_type_invariant(&*self);
            lemma_decimal_ascii(value as int);
            lemma_ascii_valid_utf8(signed_decimal_digits(value as int));
        }
        let (arr, start) = render_signed_decimal(value);
        self.try_write_raw(slice_subrange(arr.as_slice(), start, DECIMAL_SCRATCH))
    }
}

impl<const CAP: usize, TData: ConstByteBufData> Clone for ConstByteBuf<CAP, TData> {
    fn clone(&self) -> Self {
        ConstByteBuf::clone(self)
    }
}

impl<const CAP: usize, TData: ConstByteBufData> Default for ConstByteBuf<CAP, TData> {
    fn default() -> (r: Self)
        ensures
            r@ == Seq::<u8>::empty(),
    {
        ConstByteBuf::new()
    }
}

/// Buffers compare by their written bytes alone, whatever their capacities.
impl<const CAP: usize, const OTHER_CAP: usize, TData: ConstByteBufData> PartialEq<ConstByteBuf<OTHER_CAP, TData>> for ConstByteBuf<CAP, TData> {
    fn eq(&self, other: &ConstByteBuf<OTHER_CAP, TData>) -> (r: bool) {
        bytes_eq(self.as_bytes(), other.as_bytes())
    }
}

impl<const CAP: usize, const OTHER_CAP: usize, TData: ConstByteBufData> vstd::std_specs::cmp::PartialEqSpecImpl<ConstByteBuf<OTHER_CAP, TData>> for ConstByteBuf<CAP, TData> {
    open spec fn obeys_eq_spec() -> bool {
        true
    }

    open spec fn eq_spec(&self, other: &ConstByteBuf<OTHER_CAP, TData>) -> bool {
        self@ == other@
    }
}

impl<const CAP: usize, TData: ConstByteBufData> Eq for ConstByteBuf<CAP, TData> {

}

/// A text buffer equals a string slice with the same UTF-8 bytes.
impl<const CAP: usize> PartialEq<&str> for ConstByteBuf<CAP, Utf8SafeBuf> {
    fn eq(&self, other: &&str) -> (r: bool) {
        bytes_eq(self.as_bytes(), other.as_bytes())
    }
}

impl<const CAP: usize> vstd::std_specs::cmp::PartialEqSpecImpl<&str> for ConstByteBuf<CAP, Utf8SafeBuf> {
    open spec fn obeys_eq_spec() -> bool {
        true
    }

    open spec fn eq_spec(&self, other: &&str) -> bool {
        self@ == encode_utf8(other@)
    }
}

/// A text buffer equals a string with the same UTF-8 bytes.
impl<const CAP: usize> PartialEq<str> for ConstByteBuf<CAP, Utf8SafeBuf> {
    fn eq(&self, other: &str) -> (r: bool) {
        bytes_eq(self.as_bytes(), other.as_bytes())
    }
}

impl<const CAP: usize> vstd::std_specs::cmp::PartialEqSpecImpl<str> for ConstByteBuf<CAP, Utf8SafeBuf> {
    open spec fn obeys_eq_spec() -> bool {
        true
    }

    open spec fn eq_spec(&self, other: &str) -> bool {
        self@ == encode_utf8(other@)
    }
}

/// A buffer equals a byte sequence with the same bytes.
impl<const CAP: usize, TData: ConstByteBufData> PartialEq<[u8]> for ConstByteBuf<CAP, TData> {
    fn eq(&self, other: &[u8]) -> (r: bool) {
        bytes_eq(self.as_bytes(), other)
    }
}

impl<const CAP: usize, TData: ConstByteBufData> vstd::std_specs::cmp::PartialEqSpecImpl<[u8]> for ConstByteBuf<CAP, TData> {
    open spec fn obeys_eq_spec() -> bool {
        true
    }

    open spec fn eq_spec(&self, other: &[u8]) -> bool {
        self@ == other@
    }
}

/// A buffer equals a byte slice with the same bytes.
impl<const CAP: usize, TData: ConstByteBufData> PartialEq<&[u8]> for ConstByteBuf<CAP, TData> {
    fn eq(&self, other: &&[u8]) -> (r: bool) {
        bytes_eq(self.as_bytes(), *other)
    }
}

impl<const CAP: usize, TData: ConstByteBufData> vstd::std_specs::cmp::PartialEqSpecImpl<&[u8]> for ConstByteBuf<CAP, TData> {
    open spec fn obeys_eq_spec() -> bool {
        true
    }

    open spec fn eq_spec(&self, other: &&[u8]) -> bool {
        self@ == other@
    }
}

impl<const CAP: usize> ConstByteBuf<CAP, Utf8SafeBuf> {
    /// The written bytes as a string slice.
    pub fn as_str(&self) -> (r: &str)
        ensures
            encode_utf8(r@) == self@,
    {
        proof {
            use_type_invariant(self);
        }
        str_from_utf8(self.as_bytes())
    }

    /// Appends raw bytes, which must fit and must leave the written region
    /// valid UTF-8.
    pub fn write_bytes_unchecked(&mut self, data: &[u8]) -> (r: usize)
        requires
            old(self)@.len() + data@.len() <= CAP,
            valid_utf8(old(self)@ + data@),
        ensures
            r == data@.len(),
            final(self)@ == old(self)@ + data@,
    {
        self.write_in_room(data);
        data.len()
    }

    /// Appends raw bytes that must leave the written region valid UTF-8, if
    /// they fit; otherwise changes nothing.
    pub fn try_write_bytes_unchecked(&mut self, data: &[u8]) -> (r: Result<usize, StackOverflow>)
        requires
            valid_utf8(old(self)@ + data@),
        ensures
            r is Ok <==> old(self)@.len() + data@.len() <= CAP,
            r is Ok ==> r == Ok::<usize, StackOverflow>(data@.len() as usize) && final(self)@
                == old(self)@ + data@,
            r is Err ==> r == Err::<usize, StackOverflow>(StackOverflow) && *final(self)
                == *old(self),
    {
        self.try_write_raw(data)
    }

    /// Appends one byte, which must fit and must leave the written region
    /// valid UTF-8.
    pub fn write_byte(&mut self, data: u8) -> (r: usize)
        requires
            old(self)@.len() < CAP,
            valid_utf8(old(self)@.push(data)),
        ensures
            r == 1,
            final(self)@ == old(self)@.push(data),
    {
        assert(old(self)@ + seq![data] =~= old(self)@.push(data));
        self.write_byte_in_room(data);
        1
    }

    /// Appends one byte that must leave the written region valid UTF-8, if it
    /// fits; otherwise changes nothing.
    pub fn try_write_byte(&mut self, data: u8) -> (r: Result<usize, StackOverflow>)
        requires
            valid_utf8(old(self)@.push(data)),
        ensures
            r is Ok <==> old(self)@.len() < CAP,
            r is Ok ==> r == Ok::<usize, StackOverflow>(1) && final(self)@ == old(self)@.push(
                data,
            ),
            r is Err ==> r == Err::<usize, StackOverflow>(StackOverflow) && *final(self)
                == *old(self),
    {
        assert(old(self)@ + seq![data] =~= old(self)@.push(data));
        self.try_write_byte_raw(data)
    }

    /// Removes the last written byte and returns it, or `None` when nothing
    /// is written. What remains must be valid UTF-8.
    pub fn pop(&mut self) -> (r: Option<u8>)
        requires
            old(self)@.len() > 0 ==> valid_utf8(old(self)@.drop_last()),
        ensures
            old(self)@.len() == 0 ==> r is None && *final(self) == *old(self),
            old(self)@.len() > 0 ==> r == Some(old(self)@.last()) && final(self)@ == old(
                self,
            )@.drop_last(),
    {
        self.pop_raw()
    }

    /// The storage with every byte past the written text set to zero,
    /// together with the written length.
    pub fn into_array_filled_with_zero(self) -> (r: (usize, [u8; CAP]))
        ensures
            r.0 == self@.len(),
            r.1@ == self@ + Seq::new((CAP - self@.len()) as nat, |_i: int| 0u8),
            valid_utf8(r.1@),
    {
        self.into_array(0)
    }

    /// The storage with every byte past the written text set to `b' '`,
    /// together with the written length.
    pub fn into_array_filled_with_space(self) -> (r: (usize, [u8; CAP]))
        ensures
            r.0 == self@.len(),
            r.1@ == self@ + Seq::new((CAP - self@.len()) as nat, |_i: int| 0x20u8),
            valid_utf8(r.1@),
    {
        self.into_array(0x20)
    }

    /// The storage with every byte past the written text set to `space`,
    /// an ASCII byte, together with the written length. The whole array is
    /// then valid UTF-8.
    pub fn into_array(self, space: u8) -> (r: (usize, [u8; CAP]))
        requires
            space < 0x80,
        ensures
            r.0 == self@.len(),
            r.1@ == self@ + Seq::new((CAP - self@.len()) as nat, |_i: int| space),
            valid_utf8(r.1@),
    {
        proof {
            use_type_invariant(&self);
            let fill = Seq::new((CAP - self@.len()) as nat, |_i: int| space);
            lemma_ascii_valid_utf8(fill);
            vstd::utf8::valid_utf8_concat(self@, fill);
        }
        self.into_array_raw(space)
    }
}

impl<const CAP: usize> ConstByteBuf<CAP, DefBuf> {
    /// Appends raw bytes, which must fit.
    pub fn write_bytes(&mut self, data: &[u8]) -> (r: usize)
        requires
            old(self)@.len() + data@.len() <= CAP,
        ensures
            r == data@.len(),
            final(self)@ == old(self)@ + data@,
    {
        self.write_in_room(data);
        data.len()
    }

    /// Appends raw bytes if they fit, and otherwise changes nothing.
    pub fn try_write_bytes(&mut self, data: &[u8]) -> (r: Result<usize, StackOverflow>)
        ensures
            r is Ok <==> old(self)@.len() + data@.len() <= CAP,
            r is Ok ==> r == Ok::<usize, StackOverflow>(data@.len() as usize) && final(self)@
                == old(self)@ + data@,
            r is Err ==> r == Err::<usize, StackOverflow>(StackOverflow) && *final(self)
                == *old(self),
    {
        self.try_write_raw(data)
    }

    /// Appends one byte, which must fit.
    pub fn write_byte(&mut self, data: u8) -> (r: usize)
        requires
            old(self)@.len() < CAP,
        ensures
            r == 1,
            final(self)@ == old(self)@.push(data),
    {
        self.write_byte_in_room(data);
        1
    }

    /// Appends one byte if it fits, and otherwise changes nothing.
    pub fn try_write_byte(&mut self, data: u8) -> (r: Result<usize, StackOverflow>)
        ensures
            r is Ok <==> old(self)@.len() < CAP,
            r is Ok ==> r == Ok::<usize, StackOverflow>(1) && final(self)@ == old(self)@.push(
                data,
            ),
            r is Err ==> r == Err::<usize, StackOverflow>(StackOverflow) && *final(self)
                == *old(self),
    {
        self.try_write_byte_raw(data)
    }

    /// Removes the last written byte and returns it, or `None` when nothing
    /// is written.
    pub fn pop(&mut self) -> (r: Option<u8>)
        ensures
            old(self)@.len() == 0 ==> r is None && *final(self) == *old(self),
            old(self)@.len() > 0 ==> r == Some(old(self)@.last()) && final(self)@ == old(
                self,
            )@.drop_last(),
    {
        self.pop_raw()
    }

    /// The storage with every byte past the written region set to `space`,
    /// together with the written length.
    pub fn into_array(self, space: u8) -> (r: (usize, [u8; CAP]))
        ensures
            r.0 == self@.len(),
            r.1@ == self@ + Seq::new((CAP - self@.len()) as nat, |_i: int| space),
    {
        self.into_array_raw(space)
    }
}

/// The concatenation of a sequence of byte strings, in order.
pub open spec fn concat_all(data: Seq<Seq<u8>>) -> Seq<u8>
    decreases data.len(),
{
    if data.len() == 0 {
        Seq::empty()
    } else {
        concat_all(data.drop_last()) + data.last()
    }
}

/// The sum of the lengths of a sequence of byte strings.
pub open spec fn total_len(data: Seq<Seq<u8>>) -> nat
    decreases data.len(),
{
    if data.len() == 0 {
        0
    } else {
        total_len(data.drop_last()) + data.last().len()
    }
}

/// The written bytes after a fallible append of `data` to a buffer of
/// capacity `cap` holding `before`, as `try_write_bytes` and the other
/// `try_` appends state it: the bytes are added when they fit, and nothing
/// changes otherwise.
pub open spec fn after_try_append(before: Seq<u8>, data: Seq<u8>, cap: nat) -> Seq<u8> {
    if before.len() + data.len() <= cap {
        before + data
    } else {
        before
    }
}

/// Appending byte strings one after another to an empty buffer whose
/// capacity is at least their total length: every append succeeds, and the
/// buffer then holds their concatenation, whose length is the sum of theirs.
///
/// `views[i]` is the buffer's content before the `i`-th append of `data`.
pub proof fn lemma_append_then_length(views: Seq<Seq<u8>>, data: Seq<Seq<u8>>, cap: nat)
    requires
        views.len() == data.len() + 1,
        views[0] == Seq::<u8>::empty(),
        total_len(data) <= cap,
        forall|i: int|
            0 <= i < data.len() ==> #[trigger] views[i + 1] == after_try_append(
                views[i],
                data[i],
                cap,
            ),
    ensures
        forall|i: int| 0 <= i < data.len() ==> #[trigger] views[i].len() + data[i].len() <= cap,
        views.last() == concat_all(data),
        views.last().len() == total_len(data),
    decreases data.len(),
{
    if data.len() == 0 {
        assert(views.last() =~= concat_all(data));
    } else {
        let n = data.len() - 1;
        let vs = views.drop_last();
        let ds = data.drop_last();
        assert forall|i: int| 0 <= i < ds.len() implies #[trigger] vs[i + 1] == after_try_append(
            vs[i],
            ds[i],
            cap,
        ) by {
            assert(views[i + 1] == after_try_append(views[i], data[i], cap));
        }
        lemma_append_then_length(vs, ds, cap);
        assert(vs.last() == views[n]);
        assert(views[n + 1] == after_try_append(views[n], data[n], cap));
        assert forall|i: int| 0 <= i < data.len() implies #[trigger] views[i].len()
            + data[i].len() <= cap by {
            if i < n {
                assert(vs[i] == views[i] && ds[i] == data[i]);
            }
        }
    }
}

} // verus!
