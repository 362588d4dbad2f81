//! Big-endian numbers and tags in byte sequences.

use vstd::prelude::*;

verus! {

/// Why a header could not be read.
#[derive(Clone, Copy, Debug, PartialEq, Eq, Structural)]
pub enum HeaderError {
    /// The buffer ends before the header does.
    TooShort,
    /// The header does not start with its tag.
    BadMagic,
}

/// The unsigned big-endian number in the four bytes from `at` on.
pub open spec fn be32(s: Seq<u8>, at: int) -> nat {
    (s[at] as nat) * 0x100_0000 + (s[at + 1] as nat) * 0x1_0000 + (s[at + 2] as nat) * 0x100
        + (s[at + 3] as nat)
}

/// The number whose big-endian bytes are `b0` to `b3`.
pub fn be_u32(b0: u8, b1: u8, b2: u8, b3: u8) -> (r: u32)
    ensures
        r == be32(seq![b0, b1, b2, b3], 0),
{
    (b0 as u32) * 0x100_0000 + (b1 as u32) * 0x1_0000 + (b2 as u32) * 0x100 + (b3 as u32)
}

/// The big-endian number in the four bytes of `buf` from `at` on.
pub fn be_u32_at(buf: &[u8], at: usize) -> (r: u32)
    requires
        at + 4 <= buf@.len(),
    ensures
        r == be32(buf@, at as int),
{
    be_u32(buf[at], buf[at + 1], buf[at + 2], buf[at + 3])
}

/// Whether `buf` holds the bytes of `tag` from `at` on.
pub open spec fn holds_at(buf: Seq<u8>, at: int, tag: Seq<u8>) -> bool {
    0 <= at && at + tag.len() <= buf.len() && buf.subrange(at, at + tag.len()) == tag
}

/// Tests whether `buf` holds the bytes of `tag` from `at` on.
pub fn tag_at(buf: &[u8], at: usize, tag: &[u8]) -> (r: bool)
    ensures
        r == holds_at(buf@, at as int, tag@),
{
    if at > buf.len() || tag.len() > buf.len() - at {
        return false;
    }
    let mut i: usize = 0;
    while i < tag.len()
        invariant
            i <= tag@.len(),
            at + tag@.len() <= buf@.len() <= usize::MAX,
            forall|j: int| 0 <= j < i ==> buf@[at + j] == tag@[j],
        decreases tag@.len() - i,
    {
        if buf[at + i] != tag[i] {
            assert(buf@.subrange(at as int, at + tag@.len())[i as int] != tag@[i as int]);
            return false;
        }
        i += 1;
    }
    assert(buf@.subrange(at as int, at + tag@.len()) =~= tag@);
    true
}

} // verus!
