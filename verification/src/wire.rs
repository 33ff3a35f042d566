//! Bytes on the wire: what the `bytes` crate and the UTF-8 decoder of the
//! standard library are relied on for.

use bytes::BufMut;
use vstd::prelude::*;
use vstd::utf8::*;

verus! {

/// `bytes::Bytes`, an immutable run of bytes.
#[verifier::external_type_specification]
#[verifier::external_body]
pub struct ExBytes(bytes::Bytes);

/// `bytes::BytesMut`, a growing run of bytes.
#[verifier::external_type_specification]
#[verifier::external_body]
pub struct ExBytesMut(bytes::BytesMut);

/// The bytes that a `bytes::Bytes` holds.
pub uninterp spec fn bytes_content(b: bytes::Bytes) -> Seq<u8>;

/// The bytes that a `bytes::BytesMut` holds.
pub uninterp spec fn buffer_content(b: bytes::BytesMut) -> Seq<u8>;

/// Whether a buffer may grow to `len` bytes. A buffer that grows may double
/// its capacity, and no allocation exceeds `isize::MAX` bytes. (A buffer from
/// whose front bytes were taken away also keeps the room that they took.)
pub open spec fn growable_to(len: nat) -> bool {
    len <= isize::MAX / 2
}

/// The two bytes of a number, the high one first.
pub open spec fn be_bytes(v: u16) -> Seq<u8> {
    seq![(v / 256) as u8, (v % 256) as u8]
}

/// The number that two bytes write, the high one first.
pub open spec fn be_number(hi: u8, lo: u8) -> u16 {
    (hi * 256 + lo) as u16
}

/// `bytes::BytesMut::new`: a buffer without content.
#[verifier::external_body]
pub(crate) fn new_buffer() -> (b: bytes::BytesMut)
    ensures
        buffer_content(b) == Seq::<u8>::empty(),
{
    bytes::BytesMut::new()
}

/// `bytes::BufMut::put_u8` on a `bytes::BytesMut`: appends one byte.
#[verifier::external_body]
pub(crate) fn put_u8(b: &mut bytes::BytesMut, v: u8)
    requires
        growable_to(buffer_content(*old(b)).len() + 1),
    ensures
        buffer_content(*final(b)) == buffer_content(*old(b)).push(v),
{
    b.put_u8(v)
}

/// `bytes::BufMut::put_u16` on a `bytes::BytesMut`: appends a number in
/// big-endian order.
#[verifier::external_body]
pub(crate) fn put_u16(b: &mut bytes::BytesMut, v: u16)
    requires
        growable_to(buffer_content(*old(b)).len() + 2),
    ensures
        buffer_content(*final(b)) == buffer_content(*old(b)) + be_bytes(v),
{
    b.put_u16(v)
}

/// `bytes::BufMut::put_slice` on a `bytes::BytesMut`: appends the bytes of a
/// slice.
#[verifier::external_body]
pub(crate) fn put_slice(b: &mut bytes::BytesMut, s: &[u8])
    requires
        growable_to(buffer_content(*old(b)).len() + s@.len()),
    ensures
        buffer_content(*final(b)) == buffer_content(*old(b)) + s@,
{
    b.put_slice(s)
}

/// `bytes::Bytes::copy_from_slice`: a run that holds the bytes of a slice.
#[verifier::external_body]
pub(crate) fn copy_from_slice(s: &[u8]) -> (b: bytes::Bytes)
    ensures
        bytes_content(b) == s@,
{
    bytes::Bytes::copy_from_slice(s)
}

/// `bytes::Bytes::new`: a run without content.
#[verifier::external_body]
pub(crate) fn no_bytes() -> (b: bytes::Bytes)
    ensures
        bytes_content(b) == Seq::<u8>::empty(),
{
    bytes::Bytes::new()
}

/// `<bytes::Bytes as AsRef<[u8]>>::as_ref`: the bytes of a run.
#[verifier::external_body]
pub(crate) fn as_slice(b: &bytes::Bytes) -> (s: &[u8])
    ensures
        s@ == bytes_content(*b),
{
    b.as_ref()
}

/// `<bytes::Bytes as Clone>::clone`: a run that holds the same bytes.
pub assume_specification[ <bytes::Bytes as Clone>::clone ](b: &bytes::Bytes) -> (r: bytes::Bytes)
    ensures
        bytes_content(r) == bytes_content(*b),
;

/// `std::str::from_utf8`: the text that the bytes encode, if they are valid
/// UTF-8.
#[verifier::external_body]
pub(crate) fn utf8_text(s: &[u8]) -> (r: Option<String>)
    ensures
        match r {
            Some(t) => valid_utf8(s@) && t@ == decode_utf8(s@),
            None => !valid_utf8(s@),
        },
{
    match std::str::from_utf8(s) {
        Ok(t) => Some(t.to_string()),
        Err(_) => None,
    }
}

/// The text that `<str as std::fmt::Debug>` writes for a string: the string in
/// quotation marks, with escapes.
pub uninterp spec fn quoted_text(s: Seq<char>) -> Seq<char>;

/// `<str as std::fmt::Debug>::fmt`, written into a string of its own. What it
/// writes depends on the characters of the string alone; which of them it
/// escapes is not stated.
#[verifier::external_body]
pub(crate) fn quoted(s: &str) -> (r: String)
    ensures
        r@ == quoted_text(s@),
{
    format!("{:?}", s)
}

/// The small hexadecimal digit `d`.
pub open spec fn hex_char(d: nat) -> char {
    if d < 10 {
        (48 + d) as char
    } else {
        (87 + d) as char
    }
}

/// One byte as it stands in the text of a run of bytes.
pub open spec fn byte_text(b: u8) -> Seq<char> {
    match b {
        10 => seq!['\\', 'n'],
        13 => seq!['\\', 'r'],
        9 => seq!['\\', 't'],
        0 => seq!['\\', '0'],
        34 => seq!['\\', '"'],
        92 => seq!['\\', '\\'],
        _ => if 0x20 <= b < 0x7f {
            seq![b as char]
        } else {
            seq!['\\', 'x', hex_char((b / 16) as nat), hex_char((b % 16) as nat)]
        },
    }
}

/// The texts of the bytes, one after the other.
pub open spec fn byte_texts(s: Seq<u8>) -> Seq<char>
    decreases s.len(),
{
    if s.len() == 0 {
        Seq::empty()
    } else {
        byte_texts(s.drop_last()) + byte_text(s.last())
    }
}

/// `<bytes::Bytes as std::fmt::Debug>::fmt`, written into a string of its own:
/// a byte string literal. Printable ASCII stands for itself, except that a
/// quotation mark and a backslash have a backslash before them; newline,
/// return, tab and NUL are `\n`, `\r`, `\t` and `\0`; every other byte is
/// `\x` and two hexadecimal digits.
#[verifier::external_body]
pub(crate) fn bytes_literal(b: &bytes::Bytes) -> (r: String)
    ensures
        r@ == seq!['b', '"'] + byte_texts(bytes_content(*b)) + seq!['"'],
{
    format!("{:?}", b)
}

/// The number that two bytes write, the high one first.
pub fn number_of(hi: u8, lo: u8) -> (v: u16)
    ensures
        v == be_number(hi, lo),
{
    (hi as u16) * 256 + (lo as u16)
}

/// A number written as two bytes reads back as itself.
pub proof fn be_bytes_read_back(v: u16)
    ensures
        be_bytes(v).len() == 2,
        be_number(be_bytes(v)[0], be_bytes(v)[1]) == v,
{
}

} // verus!
