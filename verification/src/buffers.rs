//! The buffers that digits and characters are collected in: the
//! fixed-capacity vector and string of the `arrayvec` crate, and `String`.
//!
//! Nothing in this file is proved. Each function makes one call into
//! `arrayvec` or `std`, and its contract restates what that function is
//! documented to do.

use arrayvec::{ArrayString, ArrayVec, CapacityError};
use vstd::prelude::*;

verus! {

#[verifier::external_type_specification]
#[verifier::external_body]
#[verifier::reject_recursive_types(T)]
pub struct ExArrayVec<T, const CAP: usize>(ArrayVec<T, CAP>);

#[verifier::external_type_specification]
#[verifier::external_body]
pub struct ExArrayString<const CAP: usize>(ArrayString<CAP>);

#[verifier::external_type_specification]
#[verifier::external_body]
#[verifier::reject_recursive_types(T)]
pub struct ExCapacityError<T>(CapacityError<T>);

/// The digits that a digit buffer holds, the first pushed first.
pub uninterp spec fn buffered(buffer: ArrayVec<u8, 13>) -> Seq<u8>;

/// The characters that a text buffer holds, the first pushed first.
pub uninterp spec fn written(text: ArrayString<17>) -> Seq<char>;

/// Every character of `s` takes one byte in UTF-8.
pub open spec fn single_bytes(s: Seq<char>) -> bool {
    forall|i: int| 0 <= i < s.len() ==> (#[trigger] s[i] as u32) < 0x80
}

/// `ArrayVec::new`: a buffer that holds nothing.
#[verifier::external_body]
pub(crate) fn digit_buffer() -> (buffer: ArrayVec<u8, 13>)
    ensures
        buffered(buffer) == Seq::<u8>::empty(),
{
    ArrayVec::new()
}

/// `ArrayVec::len`: the number of digits held.
#[verifier::external_body]
pub(crate) fn buffer_len(buffer: &ArrayVec<u8, 13>) -> (len: usize)
    ensures
        len == buffered(*buffer).len(),
{
    buffer.len()
}

/// `ArrayVec::push`: appends the digit. The call panics on a full buffer,
/// which the precondition rules out.
#[verifier::external_body]
pub(crate) fn buffer_push(buffer: &mut ArrayVec<u8, 13>, digit: u8)
    requires
        buffered(*old(buffer)).len() < 13,
    ensures
        buffered(*final(buffer)) == buffered(*old(buffer)).push(digit),
{
    buffer.push(digit)
}

/// `ArrayVec::try_push`: appends the digit where fewer than thirteen are held,
/// and otherwise fails and leaves the buffer as it was.
#[verifier::external_body]
pub(crate) fn buffer_try_push(buffer: &mut ArrayVec<u8, 13>, digit: u8) -> (result: Result<
    (),
    CapacityError<u8>,
>)
    ensures
        result is Ok <==> buffered(*old(buffer)).len() < 13,
        result is Ok ==> buffered(*final(buffer)) == buffered(*old(buffer)).push(digit),
        result is Err ==> buffered(*final(buffer)) == buffered(*old(buffer)),
{
    buffer.try_push(digit)
}

/// `ArrayVec::as_slice`: the digits held, as a slice.
#[verifier::external_body]
pub(crate) fn buffer_as_slice(buffer: &ArrayVec<u8, 13>) -> (digits: &[u8])
    ensures
        digits@ == buffered(*buffer),
{
    buffer.as_slice()
}

/// `ArrayString::new`: a text buffer that holds nothing.
#[verifier::external_body]
pub(crate) fn text_buffer() -> (text: ArrayString<17>)
    ensures
        written(text) == Seq::<char>::empty(),
{
    ArrayString::new()
}

/// `ArrayString::push`: appends the character. The capacity is seventeen
/// bytes and the call panics where the character does not fit; with
/// single-byte characters throughout and fewer than seventeen of them held,
/// it fits.
#[verifier::external_body]
pub(crate) fn text_push(text: &mut ArrayString<17>, c: char)
    requires
        written(*old(text)).len() < 17,
        single_bytes(written(*old(text))),
        (c as u32) < 0x80,
    ensures
        written(*final(text)) == written(*old(text)).push(c),
{
    text.push(c)
}

/// `String::push`: appends the character.
#[verifier::external_body]
pub(crate) fn string_push(text: &mut String, c: char)
    ensures
        final(text)@ == old(text)@.push(c),
{
    text.push(c)
}

} // verus!
