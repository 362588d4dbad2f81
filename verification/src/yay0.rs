//! The Yay0 block format: header, decoding model and decoder.

use crate::bytes::{be32, be_u32_at, holds_at};
use crate::frags::{extract_number_from_j, fragment_tag, is_fragment_tag, jump_field};
use crate::search::{find_starts, gather, gather_matches, lemma_gather_holds};
use crate::szp::{is_szp_tag, szp_tag};
use crate::streams::{byte_at, flag_at, read_byte, read_flag, read_word, word_at};
use vstd::prelude::*;

verus! {

/// Why a block could not be decoded.
#[derive(Clone, Copy, Debug, PartialEq, Eq, Structural)]
pub enum Yay0Error {
    /// The tag is wrong, or the link and literal regions start at the same
    /// place.
    MalformedHeader,
    /// A read went past the end of the buffer.
    TruncatedInput,
    /// The start offset lies outside the buffer.
    InvalidBuffer,
    /// A back-reference reaches before the first output byte, or a run
    /// would carry the output past its declared length.
    CorruptStream,
}

/// The three numbers of a header that steer decoding.
pub struct Layout {
    pub total: nat,
    pub link: nat,
    pub data: nat,
}

/// What a decoder has produced and read so far.
pub struct Progress {
    pub out: Seq<u8>,
    pub flags: nat,
    pub link_bytes: nat,
    pub literal_bytes: nat,
}

/// A decoded block: its bytes, and how much of the input encodes it.
pub struct Decoded {
    pub out: Seq<u8>,
    pub consumed: nat,
}

/// Whether the first four bytes spell `Yay0`.
pub open spec fn has_tag(s: Seq<u8>) -> bool {
    s.len() >= 4 && s[0] == 0x59 && s[1] == 0x61 && s[2] == 0x79 && s[3] == 0x30
}

/// The layout that the header at the front of `p` declares.
pub open spec fn layout_of(p: Seq<u8>) -> Layout {
    Layout { total: be32(p, 4), link: be32(p, 8), data: be32(p, 12) }
}

/// Low twelve bits of a link code: how far back the run starts, less one.
pub open spec fn back_distance(code: u16) -> nat {
    (code & 0xfff) as nat
}

/// High four bits of a link code: the run length less two, or zero when
/// the length is carried by a literal byte.
pub open spec fn run_hint(code: u16) -> nat {
    (code >> 12) as nat
}

/// Length of the run that a link code asks for, given the extension byte
/// that follows in the literal region.
pub open spec fn copy_count(code: u16, extension: u8) -> nat {
    if run_hint(code) != 0 {
        run_hint(code) + 2
    } else {
        extension as nat + 18
    }
}

/// `out` followed by `count` bytes, each taken `back + 1` places before the
/// end of what stands at the time it is appended.
pub open spec fn copy_run(out: Seq<u8>, back: nat, count: nat) -> Seq<u8>
    decreases count,
{
    if count == 0 || back >= out.len() {
        out
    } else {
        copy_run(out.push(out[out.len() - back - 1]), back, (count - 1) as nat)
    }
}

/// Nothing produced and nothing read.
pub open spec fn start() -> Progress {
    Progress { out: Seq::empty(), flags: 0, link_bytes: 0, literal_bytes: 0 }
}

/// The control flag that the next operation takes.
pub open spec fn next_flag(p: Seq<u8>, s: Progress) -> Option<bool> {
    flag_at(p, 16 + (s.flags / 8) as int, (s.flags % 8) as u32)
}

/// The byte that stands next in the literal region.
pub open spec fn next_literal(p: Seq<u8>, lay: Layout, s: Progress) -> Option<u8> {
    byte_at(p, (lay.data + s.literal_bytes) as int)
}

/// The code that stands next in the link region.
pub open spec fn next_link(p: Seq<u8>, lay: Layout, s: Progress) -> Option<u16> {
    word_at(p, (lay.link + s.link_bytes) as int)
}

/// State after a literal operation that appends `b`.
pub open spec fn after_literal(s: Progress, b: u8) -> Progress {
    Progress {
        out: s.out.push(b),
        flags: s.flags + 1,
        link_bytes: s.link_bytes,
        literal_bytes: s.literal_bytes + 1,
    }
}

/// State after a back-reference of `count` bytes that read `extra` bytes
/// of the literal region, or the error where the run does not fit.
pub open spec fn after_copy(lay: Layout, s: Progress, back: nat, count: nat, extra: nat) -> Result<
    Progress,
    Yay0Error,
> {
    if back >= s.out.len() || s.out.len() + count > lay.total {
        Err(Yay0Error::CorruptStream)
    } else {
        Ok(
            Progress {
                out: copy_run(s.out, back, count),
                flags: s.flags + 1,
                link_bytes: s.link_bytes + 2,
                literal_bytes: s.literal_bytes + extra,
            },
        )
    }
}

/// One operation of the decoder: a control flag, then a literal or a
/// back-reference.
pub open spec fn step(p: Seq<u8>, lay: Layout, s: Progress) -> Result<Progress, Yay0Error> {
    match next_flag(p, s) {
        None => Err(Yay0Error::TruncatedInput),
        Some(true) => match next_literal(p, lay, s) {
            None => Err(Yay0Error::TruncatedInput),
            Some(b) => Ok(after_literal(s, b)),
        },
        Some(false) => match next_link(p, lay, s) {
            None => Err(Yay0Error::TruncatedInput),
            Some(code) => if run_hint(code) != 0 {
                after_copy(lay, s, back_distance(code), copy_count(code, 0), 0)
            } else {
                match next_literal(p, lay, s) {
                    None => Err(Yay0Error::TruncatedInput),
                    Some(e) => after_copy(lay, s, back_distance(code), copy_count(code, e), 1),
                }
            },
        },
    }
}

/// A run keeps what was there and adds exactly `count` bytes.
pub proof fn lemma_copy_run_len(out: Seq<u8>, back: nat, count: nat)
    requires
        back < out.len(),
    ensures
        copy_run(out, back, count).len() == out.len() + count,
        copy_run(out, back, count).subrange(0, out.len() as int) == out,
    decreases count,
{
    if count != 0 {
        let next = out.push(out[out.len() - back - 1]);
        lemma_copy_run_len(next, back, (count - 1) as nat);
        assert(copy_run(out, back, count).subrange(0, out.len() as int) =~= next.subrange(
            0,
            out.len() as int,
        ));
        assert(next.subrange(0, out.len() as int) =~= out);
    } else {
        assert(out.subrange(0, out.len() as int) =~= out);
    }
}

/// Every operation that succeeds adds at least one byte and stays within
/// the declared length.
pub proof fn lemma_step_grows(p: Seq<u8>, lay: Layout, s: Progress)
    requires
        s.out.len() < lay.total,
        step(p, lay, s) is Ok,
    ensures
        s.out.len() < step(p, lay, s)->Ok_0.out.len() <= lay.total,
        s.flags + 1 == step(p, lay, s)->Ok_0.flags,
        s.link_bytes <= step(p, lay, s)->Ok_0.link_bytes <= s.link_bytes + 2,
        s.literal_bytes <= step(p, lay, s)->Ok_0.literal_bytes <= s.literal_bytes + 1,
{
    if next_flag(p, s) == Some(false) {
        let code = next_link(p, lay, s).unwrap();
        let ext = if run_hint(code) != 0 {
            0u8
        } else {
            next_literal(p, lay, s).unwrap()
        };
        lemma_copy_run_len(s.out, back_distance(code), copy_count(code, ext));
    }
}

/// The state in which decoding from `s` ends, or the error that stops it.
pub open spec fn run(p: Seq<u8>, lay: Layout, s: Progress) -> Result<Progress, Yay0Error>
    decreases lay.total - s.out.len(),
    via run_decreases
{
    if s.out.len() >= lay.total {
        Ok(s)
    } else {
        match step(p, lay, s) {
            Err(e) => Err(e),
            Ok(n) => run(p, lay, n),
        }
    }
}

#[via_fn]
proof fn run_decreases(p: Seq<u8>, lay: Layout, s: Progress) {
    if s.out.len() < lay.total && step(p, lay, s) is Ok {
        lemma_step_grows(p, lay, s);
    }
}

/// Bytes of input that encode the block, counted from its start: up to the
/// end of what was read of whichever of the two regions lies later.
pub open spec fn consumed_size(lay: Layout, s: Progress) -> nat {
    if lay.link < lay.data {
        lay.data + s.literal_bytes
    } else {
        lay.link + s.link_bytes
    }
}

/// What decoding the block at the front of `p` gives.
pub open spec fn block_spec(p: Seq<u8>) -> Result<Decoded, Yay0Error> {
    if p.len() < 16 {
        Err(Yay0Error::TruncatedInput)
    } else if !has_tag(p) || layout_of(p).link == layout_of(p).data {
        Err(Yay0Error::MalformedHeader)
    } else {
        match run(p, layout_of(p), start()) {
            Err(e) => Err(e),
            Ok(s) => Ok(Decoded { out: s.out, consumed: consumed_size(layout_of(p), s) }),
        }
    }
}

/// What decoding the block that starts `at` bytes into `buf` gives.
pub open spec fn decode_spec(buf: Seq<u8>, at: int) -> Result<Decoded, Yay0Error> {
    if 0 <= at <= buf.len() {
        block_spec(buf.subrange(at, buf.len() as int))
    } else {
        Err(Yay0Error::InvalidBuffer)
    }
}

/// Whether an executable result is the one the model gives.
pub open spec fn matches_model(
    r: Result<(Vec<u8>, usize), Yay0Error>,
    m: Result<Decoded, Yay0Error>,
) -> bool {
    match r {
        Ok(d) => m == Ok::<Decoded, Yay0Error>(Decoded { out: d.0@, consumed: d.1 as nat }),
        Err(e) => m == Err::<Decoded, Yay0Error>(e),
    }
}

/// The fixed header at the front of a block.
#[derive(Clone, Copy, Debug)]
pub struct Yay0Hdr {
    pub magic: [u8; 4],
    pub len: usize,
    pub link_offset: usize,
    pub data_offset: usize,
}

impl Yay0Hdr {
    /// The numbers that steer decoding.
    pub open spec fn layout(&self) -> Layout {
        Layout {
            total: self.len as nat,
            link: self.link_offset as nat,
            data: self.data_offset as nat,
        }
    }

    /// Reads the header from its sixteen bytes.
    pub fn from_arr(arr: [u8; 16]) -> (h: Self)
        ensures
            h.magic@ == arr@.subrange(0, 4),
            h.layout() == layout_of(arr@),
    {
        let h = Yay0Hdr {
            magic: [arr[0], arr[1], arr[2], arr[3]],
            len: be_u32_at(&arr, 4) as usize,
            link_offset: be_u32_at(&arr, 8) as usize,
            data_offset: be_u32_at(&arr, 12) as usize,
        };
        assert(h.magic@ =~= arr@.subrange(0, 4));
        h
    }

    /// Whether the tag is `Yay0`.
    pub fn tagged(&self) -> (r: bool)
        ensures
            r == has_tag(self.magic@),
    {
        self.magic[0] == 0x59 && self.magic[1] == 0x61 && self.magic[2] == 0x79 && self.magic[3]
            == 0x30
    }
}

/// The place of the next flag in the control stream, which starts right
/// behind the header: the number of flags taken so far.
#[derive(Clone, Copy, Debug)]
pub struct FlagCursor {
    pub read: usize,
}

impl FlagCursor {
    /// A cursor on the first flag.
    pub fn new() -> (c: Self)
        ensures
            c.read == 0,
    {
        FlagCursor { read: 0 }
    }

    /// Takes the next flag, most significant bit of each byte first; past
    /// the end of `ptr` it takes nothing and stays.
    pub fn take(&mut self, ptr: &[u8]) -> (r: Option<bool>)
        requires
            old(self).read < usize::MAX,
        ensures
            r == flag_at(
                ptr@,
                16 + (old(self).read as nat / 8) as int,
                (old(self).read as nat % 8) as u32,
            ),
            r is Some ==> final(self).read == old(self).read + 1,
            r is None ==> final(self).read == old(self).read,
    {
        let at = 16 + self.read / 8;
        if at > ptr.len() {
            return None;
        }
        let r = read_flag(ptr, at, (self.read % 8) as u32);
        if r.is_some() {
            self.read += 1;
        }
        r
    }
}

/// A place in one of the two byte-wise regions: where the region starts,
/// and how many of its bytes were taken so far.
#[derive(Clone, Copy, Debug)]
pub struct RegionCursor {
    pub base: usize,
    pub read: usize,
}

impl RegionCursor {
    /// Whether all that was taken lies within `buf`.
    pub open spec fn within(self, buf: Seq<u8>) -> bool {
        self.read == 0 || self.base + self.read <= buf.len()
    }

    /// A cursor at the start of the region at `base`.
    pub fn new(base: usize) -> (c: Self)
        ensures
            c.base == base,
            c.read == 0,
    {
        RegionCursor { base, read: 0 }
    }

    /// Takes the next byte; past the end of `buf` it takes nothing and
    /// stays.
    pub fn take_byte(&mut self, buf: &[u8]) -> (r: Option<u8>)
        requires
            old(self).within(buf@),
        ensures
            r == byte_at(buf@, old(self).base + old(self).read),
            final(self).base == old(self).base,
            r is Some ==> final(self).read == old(self).read + 1,
            r is None ==> final(self).read == old(self).read,
            final(self).within(buf@),
    {
        if self.base > buf.len() || self.read > buf.len() - self.base {
            return None;
        }
        let r = read_byte(buf, self.base + self.read);
        if r.is_some() {
            self.read += 1;
        }
        r
    }

    /// Takes the next big-endian 16-bit code; where fewer than two bytes
    /// are left in `buf` it takes nothing and stays.
    pub fn take_word(&mut self, buf: &[u8]) -> (r: Option<u16>)
        requires
            old(self).within(buf@),
        ensures
            r == word_at(buf@, old(self).base + old(self).read),
            final(self).base == old(self).base,
            r is Some ==> final(self).read == old(self).read + 2,
            r is None ==> final(self).read == old(self).read,
            final(self).within(buf@),
    {
        if self.base > buf.len() || self.read > buf.len() - self.base {
            return None;
        }
        let r = read_word(buf, self.base + self.read);
        if r.is_some() {
            self.read += 2;
        }
        r
    }

    /// Where the part of the region that was taken ends.
    pub fn end(&self) -> (r: usize)
        requires
            self.base + self.read <= usize::MAX,
        ensures
            r == self.base + self.read,
    {
        self.base + self.read
    }
}

/// Splits a link code into the distance to go back and the hint for the
/// run's length.
pub fn split_link(code: u16) -> (r: (usize, u16))
    ensures
        r.0 == back_distance(code),
        r.1 == run_hint(code),
        r.0 < 4096,
        r.1 < 16,
{
    assert(code & 0xfff < 4096) by (bit_vector);
    assert(code >> 12 < 16) by (bit_vector);
    ((code & 0xfff) as usize, code >> 12)
}

/// Appends a run of `count` bytes to `out`, each copied from `back + 1`
/// places before the end as it then stands.
pub fn append_run(out: &mut Vec<u8>, back: usize, count: usize)
    requires
        back < old(out)@.len(),
        old(out)@.len() + count <= usize::MAX,
    ensures
        final(out)@ == copy_run(old(out)@, back as nat, count as nat),
        final(out)@.len() == old(out)@.len() + count,
{
    let ghost before = out@;
    let mut left: usize = count;
    while left != 0
        invariant
            back < out@.len(),
            out@.len() + left == before.len() + count,
            copy_run(out@, back as nat, left as nat) == copy_run(before, back as nat, count as nat),
        decreases left,
    {
        let b = out[out.len() - back - 1];
        out.push(b);
        left -= 1;
    }
}

/// Decodes the block at the front of `ptr`: the bytes it holds, and how
/// many bytes of `ptr` encode it.
pub fn decompress_count(ptr: &[u8]) -> (r: Result<(Vec<u8>, usize), Yay0Error>)
    ensures
        matches_model(r, block_spec(ptr@)),
{
    if ptr.len() < 16 {
        return Err(Yay0Error::TruncatedInput);
    }
    let arr: [u8; 16] = [
        ptr[0], ptr[1], ptr[2], ptr[3], ptr[4], ptr[5], ptr[6], ptr[7],
        ptr[8], ptr[9], ptr[10], ptr[11], ptr[12], ptr[13], ptr[14], ptr[15],
    ];
    let hdr = Yay0Hdr::from_arr(arr);
    assert(layout_of(arr@) == layout_of(ptr@));
    assert(has_tag(hdr.magic@) == has_tag(ptr@));
    if !hdr.tagged() || hdr.link_offset == hdr.data_offset {
        return Err(Yay0Error::MalformedHeader);
    }
    let ghost lay = hdr.layout();
    let ghost mut s = start();
    let mut out: Vec<u8> = Vec::new();
    let mut ctrl = FlagCursor::new();
    let mut links = RegionCursor::new(hdr.link_offset);
    let mut data = RegionCursor::new(hdr.data_offset);

    while out.len() < hdr.len
        invariant
            16 <= ptr@.len() <= usize::MAX,
            has_tag(ptr@),
            lay == hdr.layout(),
            lay == layout_of(ptr@),
            lay.link != lay.data,
            s.out == out@,
            s.flags == ctrl.read,
            s.link_bytes == links.read,
            s.literal_bytes == data.read,
            links.base == hdr.link_offset,
            data.base == hdr.data_offset,
            out@.len() <= hdr.len,
            ctrl.read <= out@.len(),
            links.within(ptr@),
            data.within(ptr@),
            run(ptr@, lay, s) == run(ptr@, lay, start()),
        decreases hdr.len - out@.len(),
    {
        let flag = match ctrl.take(ptr) {
            Some(f) => f,
            None => {
                return Err(Yay0Error::TruncatedInput);
            },
        };
        if flag {
            let b = match data.take_byte(ptr) {
                Some(b) => b,
                None => {
                    return Err(Yay0Error::TruncatedInput);
                },
            };
            proof {
                s = after_literal(s, b);
            }
            out.push(b);
        } else {
            let code = match links.take_word(ptr) {
                Some(c) => c,
                None => {
                    return Err(Yay0Error::TruncatedInput);
                },
            };
            let (back, hint) = split_link(code);
            let ghost literals = data.read;
            let count: usize = if hint != 0 {
                hint as usize + 2
            } else {
                match data.take_byte(ptr) {
                    Some(e) => e as usize + 18,
                    None => {
                        return Err(Yay0Error::TruncatedInput);
                    },
                }
            };
            if back >= out.len() || count > hdr.len - out.len() {
                return Err(Yay0Error::CorruptStream);
            }
            proof {
                let extra: nat = (data.read - literals) as nat;
                s = after_copy(lay, s, back as nat, count as nat, extra)->Ok_0;
            }
            append_run(&mut out, back, count);
        }
    }

    let compressed_size = if hdr.link_offset < hdr.data_offset {
        data.end()
    } else {
        links.end()
    };
    Ok((out, compressed_size))
}

/// Decodes the block that starts `start` bytes into `buf`.
pub fn decode(buf: &[u8], start: usize) -> (r: Result<(Vec<u8>, usize), Yay0Error>)
    ensures
        matches_model(r, decode_spec(buf@, start as int)),
{
    if start > buf.len() {
        return Err(Yay0Error::InvalidBuffer);
    }
    decompress_count(vstd::slice::slice_subrange(buf, start, buf.len()))
}

/// `x` rounded up to a multiple of `by`, for `by` a power of two.
pub open spec fn align_spec(by: usize, x: usize) -> usize {
    ((x + (by - 1)) as usize) & !((by - 1) as usize)
}

/// Whether `by` is a power of two.
pub open spec fn is_power_of_two(by: usize) -> bool {
    by != 0 && by & ((by - 1) as usize) == 0
}

/// Rounds `x` up with the mask of `by - 1`; for `by` a power of two the
/// result has none of the bits below `by` set and lies less than `by`
/// above `x`.
pub fn align(by: usize, x: usize) -> (r: usize)
    requires
        by >= 1,
        x + (by - 1) <= usize::MAX,
    ensures
        r == align_spec(by, x),
        is_power_of_two(by) ==> r & ((by - 1) as usize) == 0 && x <= r < x + by,
{
    let m: usize = by - 1;
    let y: usize = x + m;
    assert(by & m == 0 && by == (m + 1) as usize && by != 0 && y >= m ==> (y & !m) & m == 0 && (y
        & !m) <= y && y - (y & !m) <= m) by (bit_vector);
    y & !m
}

/// The least multiple of sixteen that is not below `x`.
pub fn align16(x: usize) -> (r: usize)
    requires
        x + 15 <= usize::MAX,
    ensures
        r == align_spec(16, x),
        r % 16 == 0,
        x <= r < x + 16,
{
    let y: usize = x + 15;
    assert((y & !15usize) % 16 == 0 && (y & !15usize) <= y && y - (y & !15usize) < 16)
        by (bit_vector);
    align(16, x)
}

/// The least multiple of four that is not below `x`.
pub fn align4(x: usize) -> (r: usize)
    requires
        x + 3 <= usize::MAX,
    ensures
        r == align_spec(4, x),
        r % 4 == 0,
        x <= r < x + 4,
{
    let y: usize = x + 3;
    assert((y & !3usize) % 4 == 0 && (y & !3usize) <= y && y - (y & !3usize) < 4)
        by (bit_vector);
    align(4, x)
}

/// One block found in an image.
#[derive(Debug, Copy, Clone)]
pub struct Yay0File {
    /// Where the block's tag stands.
    pub start: usize,
    /// Whether a packed-section tag stands twenty-four bytes before it.
    pub is_szp: bool,
    /// The fragment number, where the decoded bytes are a fragment.
    pub frag: Option<u8>,
    /// How many bytes of the image encode the block.
    pub compsize: usize,
    /// How many bytes the block decodes to.
    pub unpacked: usize,
}

/// The fragment number in decoded bytes that begin with a fragment header
/// whose first instruction carries one.
pub open spec fn frag_number(out: Seq<u8>) -> Option<u8> {
    if out.len() >= 0x20 && holds_at(out, 8, fragment_tag()) && jump_field(be32(out, 0) as u32)
        >= 0x10 {
        Some((jump_field(be32(out, 0) as u32) - 0x10) as u8)
    } else {
        None
    }
}

/// Reads the fragment number from decoded bytes.
pub fn fragment_number(out: &[u8]) -> (r: Option<u8>)
    ensures
        r == frag_number(out@),
{
    if out.len() < 0x20 || !is_fragment_tag(out, 8) {
        return None;
    }
    let op = be_u32_at(out, 0);
    assert((op & 0x03FC_0000u32) >> 18u32 == jump_field(op));
    if (op & 0x03FC_0000) >> 18 >= 0x10 {
        Some(extract_number_from_j(op))
    } else {
        None
    }
}

/// The block whose tag stands at `start`, where one decodes there.
pub open spec fn yay0_entry(rom: Seq<u8>, start: usize) -> Option<Yay0File> {
    match decode_spec(rom, start as int) {
        Err(_) => None,
        Ok(d) => Some(
            Yay0File {
                start,
                is_szp: start >= 0x18 && holds_at(rom, start - 0x18, szp_tag()),
                frag: frag_number(d.out),
                compsize: d.consumed as usize,
                unpacked: d.out.len() as usize,
            },
        ),
    }
}

/// Decodes the block at `start` and reports it; a place where none
/// decodes gives nothing.
pub fn yay0_at(rom: &[u8], start: usize) -> (r: Option<Yay0File>)
    ensures
        r == yay0_entry(rom@, start),
{
    match decode(rom, start) {
        Err(_) => None,
        Ok((out, compsize)) => {
            let is_szp = start >= 0x18 && is_szp_tag(rom, start - 0x18);
            let frag = fragment_number(out.as_slice());
            Some(Yay0File { start, is_szp, frag, compsize, unpacked: out.len() })
        },
    }
}

/// The blocks whose tags stand at `starts`, in that order.
pub fn yay0_files_at(rom: &[u8], starts: &Vec<usize>) -> (r: Vec<Yay0File>)
    ensures
        r@ == gather(starts@, |s: usize| yay0_entry(rom@, s)),
        forall|i: int|
            0 <= i < r@.len() ==> yay0_entry(rom@, (#[trigger] r@[i]).start) == Some(r@[i]),
{
    let mut found: Vec<Yay0File> = Vec::new();
    let mut i: usize = 0;
    while i < starts.len()
        invariant
            i <= starts@.len(),
            found@ == gather(starts@.take(i as int), |s: usize| yay0_entry(rom@, s)),
        decreases starts@.len() - i,
    {
        assert(starts@.take(i + 1).drop_last() =~= starts@.take(i as int));
        if let Some(e) = yay0_at(rom, starts[i]) {
            found.push(e);
        }
        i += 1;
    }
    assert(starts@.take(i as int) =~= starts@);
    proof {
        lemma_gather_holds(
            starts@,
            |s: usize| yay0_entry(rom@, s),
            |e: Yay0File| yay0_entry(rom@, e.start) == Some(e),
        );
    }
    found
}

/// The blocks of an image: one for each place where `Yay0` is found and a
/// block decodes. Each entry is the block that decodes at its start.
pub fn find_yay0_files(rom: &[u8]) -> (r: Vec<Yay0File>)
    ensures
        r@ == gather_matches("Yay0"@, rom@, |s: usize| yay0_entry(rom@, s)),
        forall|i: int|
            0 <= i < r@.len() ==> yay0_entry(rom@, (#[trigger] r@[i]).start) == Some(r@[i]),
{
    match find_starts("Yay0", rom) {
        Some(starts) => yay0_files_at(rom, &starts),
        None => Vec::new(),
    }
}

/// Where the next object is likely to start after a block at `start` of
/// `compsize` bytes: the block's end rounded up as is usual in that part
/// of the image. Nothing where the sum leaves the range of offsets.
pub open spec fn next_guess(start: usize, compsize: usize) -> Option<usize> {
    let end = (start + compsize) as usize;
    if start + compsize + 19 > usize::MAX {
        None
    } else if 0x7C0000 <= start < 0x8CC400 {
        Some(align_spec(4, end))
    } else if 0x16F2814 <= start < 0x17DC340 {
        if end & 4 == 0 {
            Some(end)
        } else {
            Some((align_spec(16, end) + 4) as usize)
        }
    } else {
        Some(align_spec(16, end))
    }
}

/// Guesses where the next object starts after a block.
pub fn possible_next(start: usize, compsize: usize) -> (r: Option<usize>)
    ensures
        r == next_guess(start, compsize),
{
    if compsize > usize::MAX - 19 || start > usize::MAX - 19 - compsize {
        return None;
    }
    let end: usize = start + compsize;
    if start >= 0x7C0000 && start < 0x8CC400 {
        Some(align4(end))
    } else if start >= 0x16F2814 && start < 0x17DC340 {
        if end & 4 == 0 {
            Some(end)
        } else {
            Some(align16(end) + 4)
        }
    } else {
        Some(align16(end))
    }
}

} // verus!
