//! The calls into `byteorder` and the lossy UTF-8 decoder of `std`.
//!
//! Nothing in this file is proved: each function states what the call it
//! makes is documented to do, and the rest of the crate is verified against
//! these statements.

use crate::packet_ext::{be_u16, hi_byte, lo_byte};
use byteorder::{BigEndian, ReadBytesExt, WriteBytesExt};
use vstd::prelude::*;
use vstd::utf8::{decode_utf8, valid_utf8};

verus! {

/// The error type of `std::io`, carried from a failed read to the place that
/// maps it to an error of this crate.
#[verifier::external_type_specification]
#[verifier::external_body]
pub struct ExIoError(std::io::Error);

/// What `String::from_utf8_lossy` makes of a byte sequence: the text it
/// encodes, with each invalid sequence replaced by U+FFFD.
pub uninterp spec fn utf8_lossy(bytes: Seq<u8>) -> Seq<char>;

/// `byteorder::ReadBytesExt::read_u8` with a byte slice as the reader: the
/// first byte of the slice, or an error when the slice is empty.
#[verifier::external_body]
pub(crate) fn read_u8_from(src: &[u8]) -> (read: Result<u8, std::io::Error>)
    ensures
        src@.len() >= 1 ==> read is Ok && read->Ok_0 == src@[0],
        src@.len() < 1 ==> read is Err,
{
    let mut reader: &[u8] = src;
    reader.read_u8()
}

/// `byteorder::ReadBytesExt::read_u16::<BigEndian>` with a byte slice as the
/// reader: the first two bytes of the slice as a big-endian value, or an
/// error when the slice holds fewer than two bytes.
#[verifier::external_body]
pub(crate) fn read_u16_be_from(src: &[u8]) -> (read: Result<u16, std::io::Error>)
    ensures
        src@.len() >= 2 ==> read is Ok && read->Ok_0 == be_u16(src@[0], src@[1]),
        src@.len() < 2 ==> read is Err,
{
    let mut reader: &[u8] = src;
    reader.read_u16::<BigEndian>()
}

/// `byteorder::WriteBytesExt::write_u8` with a `Vec<u8>` as the writer: the
/// byte is appended. Writing to a `Vec<u8>` grows it and reports no error.
#[verifier::external_body]
pub(crate) fn write_u8_to(out: &mut Vec<u8>, value: u8)
    ensures
        final(out)@ == old(out)@.push(value),
{
    out.write_u8(value).unwrap()
}

/// `byteorder::WriteBytesExt::write_u16::<BigEndian>` with a `Vec<u8>` as
/// the writer: the more significant byte is appended, then the less
/// significant one.
#[verifier::external_body]
pub(crate) fn write_u16_be_to(out: &mut Vec<u8>, value: u16)
    ensures
        final(out)@ == old(out)@.push(hi_byte(value)).push(lo_byte(value)),
{
    out.write_u16::<BigEndian>(value).unwrap()
}

/// `String::from_utf8_lossy`, made into an owned string. Bytes that are
/// valid UTF-8 decode to the text they encode.
#[verifier::external_body]
pub(crate) fn decode_utf8_lossy(bytes: &Vec<u8>) -> (text: String)
    ensures
        text@ == utf8_lossy(bytes@),
        valid_utf8(bytes@) ==> text@ == decode_utf8(bytes@),
{
    String::from_utf8_lossy(bytes).into_owned()
}

} // verus!
