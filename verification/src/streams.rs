//! Positional reads on a byte buffer, carried out by `bitstream_io` readers.

use bitstream_io::{BigEndian, BitRead, BitReader, ByteRead, ByteReader};
use std::io::Cursor;
use vstd::prelude::*;

verus! {

/// Bit `k` of `byte`, counted from the most significant bit.
pub open spec fn flag_of(byte: u8, k: u32) -> bool {
    (byte >> ((7 - k) as u8)) & 1u8 == 1u8
}

/// The byte at `at`, where the buffer has one.
pub open spec fn byte_at(s: Seq<u8>, at: int) -> Option<u8> {
    if 0 <= at < s.len() {
        Some(s[at])
    } else {
        None
    }
}

/// The big-endian 16-bit word that starts at `at`, where the buffer holds
/// both of its bytes.
pub open spec fn word_at(s: Seq<u8>, at: int) -> Option<u16> {
    if 0 <= at && at + 2 <= s.len() {
        Some((s[at] as int * 256 + s[at + 1] as int) as u16)
    } else {
        None
    }
}

/// The control flag `k` bits into the byte at `at`, where the buffer has
/// that byte.
pub open spec fn flag_at(s: Seq<u8>, at: int, k: u32) -> Option<bool> {
    if 0 <= at < s.len() {
        Some(flag_of(s[at], k))
    } else {
        None
    }
}

/// Trusted: `bitstream_io::BitReader` over the buffer from `at` on, in
/// big-endian order; `BitRead::skip` passes over `k` bits and
/// `BitRead::read_bit` takes the next one. Both fail only when the
/// underlying cursor has no byte left, so the result is the flag at that
/// place or `None` past the end.
#[verifier::external_body]
pub(crate) fn read_flag(buf: &[u8], at: usize, k: u32) -> (r: Option<bool>)
    requires
        at <= buf@.len(),
        k < 8,
    ensures
        r == flag_at(buf@, at as int, k),
{
    let mut bits = BitReader::endian(Cursor::new(&buf[at..]), BigEndian);
    if bits.skip(k).is_err() {
        return None;
    }
    bits.read_bit().ok()
}

/// Trusted: `bitstream_io::ByteRead::read::<u8>` on a big-endian
/// `ByteReader` over the buffer from `at` on. It fills one byte with
/// `read_exact`, which fails when none is left.
#[verifier::external_body]
pub(crate) fn read_byte(buf: &[u8], at: usize) -> (r: Option<u8>)
    requires
        at <= buf@.len(),
    ensures
        r == byte_at(buf@, at as int),
{
    ByteReader::endian(Cursor::new(&buf[at..]), BigEndian).read::<u8>().ok()
}

/// Trusted: `bitstream_io::ByteRead::read::<u16>` on a big-endian
/// `ByteReader` over the buffer from `at` on. It fills two bytes with
/// `read_exact`, which fails when fewer are left, and joins them most
/// significant first.
#[verifier::external_body]
pub(crate) fn read_word(buf: &[u8], at: usize) -> (r: Option<u16>)
    requires
        at <= buf@.len(),
    ensures
        r == word_at(buf@, at as int),
{
    ByteReader::endian(Cursor::new(&buf[at..]), BigEndian).read::<u16>().ok()
}

} // verus!
