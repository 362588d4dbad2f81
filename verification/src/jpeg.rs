//! Headers of embedded JPEG containers.

use crate::bytes::{be32, be_u32_at, holds_at, tag_at, HeaderError};
use crate::search::{find_starts, gather, gather_matches, lemma_gather_holds};
use vstd::prelude::*;

verus! {

/// The bytes `PRESJPEG`.
pub open spec fn presjpeg_tag() -> Seq<u8> {
    seq![0x50u8, 0x52u8, 0x45u8, 0x53u8, 0x4au8, 0x50u8, 0x45u8, 0x47u8]
}

/// Tests whether `buf` holds `PRESJPEG` from `at` on.
pub fn is_presjpeg_tag(buf: &[u8], at: usize) -> (r: bool)
    ensures
        r == holds_at(buf@, at as int, presjpeg_tag()),
{
    let t: [u8; 8] = [0x50, 0x52, 0x45, 0x53, 0x4a, 0x50, 0x45, 0x47];
    assert(t@ =~= presjpeg_tag());
    tag_at(buf, at, &t)
}

/// The header in front of an embedded JPEG.
#[derive(Debug, Copy, Clone)]
pub struct PresJpeg {
    pub magic: [u8; 8],
    pub offset: u32,
    pub unk: u32,
}

impl PresJpeg {
    /// Whether the fields are those that the header bytes `v` spell.
    pub open spec fn parsed_from(self, v: Seq<u8>) -> bool {
        &&& self.magic@ == v.subrange(0, 8)
        &&& self.offset == be32(v, 8)
        &&& self.unk == be32(v, 12)
    }

    /// Reads the header from the first sixteen bytes of `value`.
    pub fn try_from(value: &[u8]) -> (r: Result<Self, HeaderError>)
        ensures
            r is Ok <==> value@.len() >= 16,
            r is Ok ==> r->Ok_0.parsed_from(value@),
            r is Err ==> r->Err_0 == HeaderError::TooShort,
    {
        if value.len() < 16 {
            return Err(HeaderError::TooShort);
        }
        let h = PresJpeg {
            magic: [
                value[0], value[1], value[2], value[3], value[4], value[5], value[6], value[7],
            ],
            offset: be_u32_at(value, 8),
            unk: be_u32_at(value, 12),
        };
        assert(h.magic@ =~= value@.subrange(0, 8));
        Ok(h)
    }
}

/// Whether the two bytes from `i` on are the marker that ends a JPEG.
pub open spec fn is_end_marker(s: Seq<u8>, i: int) -> bool {
    s[i] == 0xFF && s[i + 1] == 0xD9
}

/// How many two-byte windows of `s`, from `from` on, come before the first
/// end marker; all of them where there is none.
pub open spec fn marker_distance(s: Seq<u8>, from: int) -> nat
    decreases s.len() - from,
{
    if from < 0 || from + 1 >= s.len() || is_end_marker(s, from) {
        0
    } else {
        1 + marker_distance(s, from + 1)
    }
}

/// Counts the two-byte windows from `from` on that come before the first
/// end marker.
pub fn distance_to_marker(rom: &[u8], from: usize) -> (n: usize)
    requires
        from <= rom@.len(),
    ensures
        n == marker_distance(rom@, from as int),
        from + n <= rom@.len(),
{
    let len = rom.len();
    let mut i: usize = from;
    while len - i >= 2 && !(rom[i] == 0xFF && rom[i + 1] == 0xD9)
        invariant
            len == rom@.len(),
            from <= i <= len,
            marker_distance(rom@, from as int) == (i - from) + marker_distance(rom@, i as int),
        decreases rom@.len() - i,
    {
        i += 1;
    }
    i - from
}

/// One embedded JPEG found in an image.
#[derive(Debug, Copy, Clone)]
pub struct JpegEntry {
    pub start: usize,
    pub size: usize,
}

/// The JPEG whose header stands at `start`, where the tag stands there and
/// the header and the place it points to lie within the image: its size
/// reaches from the header to the end marker.
pub open spec fn jpeg_entry(rom: Seq<u8>, start: usize) -> Option<JpegEntry> {
    let offset = be32(rom, start + 8);
    if start + 0x10 <= rom.len() && start + offset <= rom.len() && holds_at(
        rom,
        start as int,
        presjpeg_tag(),
    ) {
        Some(
            JpegEntry {
                start,
                size: (marker_distance(rom, start + offset) + offset) as usize,
            },
        )
    } else {
        None
    }
}

/// Reads the header at `start` and measures the JPEG behind it.
pub fn jpeg_at(rom: &[u8], start: usize) -> (r: Option<JpegEntry>)
    ensures
        r == jpeg_entry(rom@, start),
{
    if rom.len() < 0x10 || start > rom.len() - 0x10 || !is_presjpeg_tag(rom, start) {
        return None;
    }
    let offset = be_u32_at(rom, start + 8) as usize;
    if offset > rom.len() - start {
        return None;
    }
    let n = distance_to_marker(rom, start + offset);
    Some(JpegEntry { start, size: n + offset })
}

/// The JPEGs whose headers stand at `starts`, in that order.
pub fn jpegs_at(rom: &[u8], starts: &Vec<usize>) -> (r: Vec<JpegEntry>)
    ensures
        r@ == gather(starts@, |s: usize| jpeg_entry(rom@, s)),
        forall|i: int|
            0 <= i < r@.len() ==> jpeg_entry(rom@, (#[trigger] r@[i]).start) == Some(r@[i]),
{
    let mut found: Vec<JpegEntry> = Vec::new();
    let mut i: usize = 0;
    while i < starts.len()
        invariant
            i <= starts@.len(),
            found@ == gather(starts@.take(i as int), |s: usize| jpeg_entry(rom@, s)),
        decreases starts@.len() - i,
    {
        assert(starts@.take(i + 1).drop_last() =~= starts@.take(i as int));
        if let Some(e) = jpeg_at(rom, starts[i]) {
            found.push(e);
        }
        i += 1;
    }
    assert(starts@.take(i as int) =~= starts@);
    proof {
        lemma_gather_holds(
            starts@,
            |s: usize| jpeg_entry(rom@, s),
            |e: JpegEntry| jpeg_entry(rom@, e.start) == Some(e),
        );
    }
    found
}

/// The JPEGs of an image: one for each place where `PRESJPEG` is found and
/// a header can be read. Each entry is the JPEG whose header stands at its
/// start.
pub fn find_presjpeg(rom: &[u8]) -> (r: Vec<JpegEntry>)
    ensures
        r@ == gather_matches("PRESJPEG"@, rom@, |s: usize| jpeg_entry(rom@, s)),
        forall|i: int|
            0 <= i < r@.len() ==> jpeg_entry(rom@, (#[trigger] r@[i]).start) == Some(r@[i]),
{
    match find_starts("PRESJPEG", rom) {
        Some(starts) => jpegs_at(rom, &starts),
        None => Vec::new(),
    }
}

} // verus!
