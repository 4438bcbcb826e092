//! The fixed byte buffer of a log message, and the decoding of its text.

use arrayvec::ArrayVec;
use vstd::prelude::*;
use vstd::utf8::{decode_utf8, valid_utf8};

verus! {

/// The fixed-capacity vector of the `arrayvec` crate.
#[verifier::external_type_specification]
#[verifier::external_body]
#[verifier::reject_recursive_types(T)]
pub struct ExArrayVec<T, const CAP: usize>(ArrayVec<T, CAP>);

/// The error of `std::io`.
#[verifier::external_type_specification]
#[verifier::external_body]
pub struct ExIoError(std::io::Error);

/// The bytes that a buffer holds, in order.
pub uninterp spec fn buffer_bytes(buffer: ArrayVec<u8, 256>) -> Seq<u8>;

/// The text that `String::from_utf8_lossy` makes of some bytes.
pub uninterp spec fn lossy_text(bytes: Seq<u8>) -> Seq<char>;

/// The most bytes that a buffer holds.
pub const BUFFER_SIZE: usize = 256;

/// How many of `wanted` more bytes fit behind `held` bytes.
pub open spec fn fitting(held: nat, wanted: nat) -> nat {
    if held >= BUFFER_SIZE {
        0
    } else if wanted <= BUFFER_SIZE - held {
        wanted
    } else {
        (BUFFER_SIZE - held) as nat
    }
}

/// `ArrayVec::new`: the buffer holds nothing.
#[verifier::external_body]
pub(crate) fn buffer_new() -> (r: ArrayVec<u8, 256>)
    ensures
        buffer_bytes(r) == Seq::<u8>::empty(),
{
    ArrayVec::new()
}

/// The `write` of `ArrayVec`'s `std::io::Write`: it takes as many of the first
/// bytes as there is room for, appends them, and returns their number. It never
/// fails, and a buffer never holds more than its capacity.
#[verifier::external_body]
pub(crate) fn buffer_write(buffer: &mut ArrayVec<u8, 256>, s: &[u8]) -> (r: Result<
    usize,
    std::io::Error,
>)
    ensures
        buffer_bytes(*final(buffer)) == buffer_bytes(*old(buffer)) + s@.take(
            fitting(buffer_bytes(*old(buffer)).len(), s@.len()) as int,
        ),
        buffer_bytes(*final(buffer)).len() <= BUFFER_SIZE,
        r is Ok,
        r->Ok_0 == fitting(buffer_bytes(*old(buffer)).len(), s@.len()),
{
    std::io::Write::write(buffer, s)
}

/// `ArrayVec::clear`: the buffer holds nothing any more.
#[verifier::external_body]
pub(crate) fn buffer_clear(buffer: &mut ArrayVec<u8, 256>)
    ensures
        buffer_bytes(*final(buffer)) == Seq::<u8>::empty(),
{
    buffer.clear()
}

/// `ArrayVec::as_slice`: the bytes that the buffer holds, of which there are
/// never more than its capacity.
#[verifier::external_body]
pub(crate) fn buffer_slice(buffer: &ArrayVec<u8, 256>) -> (r: &[u8])
    ensures
        r@ == buffer_bytes(*buffer),
        r@.len() <= BUFFER_SIZE,
{
    buffer.as_slice()
}

/// The `clone` of `ArrayVec`: a buffer that holds the same bytes.
#[verifier::external_body]
pub(crate) fn buffer_clone(buffer: &ArrayVec<u8, 256>) -> (r: ArrayVec<u8, 256>)
    ensures
        buffer_bytes(r) == buffer_bytes(*buffer),
{
    buffer.clone()
}

/// `String::from_utf8_lossy`: bytes that are valid UTF-8 give the text that they
/// encode; of other bytes only the name of the result is stated.
#[verifier::external_body]
pub(crate) fn decode_lossy(bytes: &[u8]) -> (r: String)
    ensures
        r@ == lossy_text(bytes@),
        valid_utf8(bytes@) ==> r@ == decode_utf8(bytes@),
{
    String::from_utf8_lossy(bytes).into_owned()
}

} // verus!
