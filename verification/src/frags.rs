//! Headers of relocatable code fragments.

use crate::bytes::{be32, be_u32_at, holds_at, tag_at};
use crate::search::{find_starts, gather, gather_matches, lemma_gather_holds};
use vstd::prelude::*;

verus! {

/// The bytes `FRAGMENT`.
pub open spec fn fragment_tag() -> Seq<u8> {
    seq![0x46u8, 0x52u8, 0x41u8, 0x47u8, 0x4du8, 0x45u8, 0x4eu8, 0x54u8]
}

/// Tests whether `buf` holds `FRAGMENT` from `at` on.
pub fn is_fragment_tag(buf: &[u8], at: usize) -> (r: bool)
    ensures
        r == holds_at(buf@, at as int, fragment_tag()),
{
    let t: [u8; 8] = [0x46, 0x52, 0x41, 0x47, 0x4d, 0x45, 0x4e, 0x54];
    assert(t@ =~= fragment_tag());
    tag_at(buf, at, &t)
}

/// The header at the front of a fragment.
#[derive(Debug, Copy, Clone)]
pub struct Fragment {
    pub instrs: [u32; 2],
    pub magic: [u8; 8],
    pub entry: u32,
    pub reloc: u32,
    pub rom_size: u32,
    pub ram_size: u32,
}

impl Fragment {
    /// Whether the fields are those that the header bytes `a` spell.
    pub open spec fn parsed_from(self, a: Seq<u8>) -> bool {
        &&& self.instrs@ == seq![be32(a, 0) as u32, be32(a, 4) as u32]
        &&& self.magic@ == a.subrange(8, 16)
        &&& self.entry == be32(a, 16)
        &&& self.reloc == be32(a, 20)
        &&& self.rom_size == be32(a, 24)
        &&& self.ram_size == be32(a, 28)
    }

    /// Reads the header from its thirty-two bytes.
    pub fn from(a: [u8; 0x20]) -> (f: Self)
        ensures
            f.parsed_from(a@),
    {
        let f = Fragment {
            instrs: [be_u32_at(&a, 0), be_u32_at(&a, 4)],
            magic: [a[8], a[9], a[10], a[11], a[12], a[13], a[14], a[15]],
            entry: be_u32_at(&a, 16),
            reloc: be_u32_at(&a, 20),
            rom_size: be_u32_at(&a, 24),
            ram_size: be_u32_at(&a, 28),
        };
        assert(f.instrs@ =~= seq![be32(a@, 0) as u32, be32(a@, 4) as u32]);
        assert(f.magic@ =~= a@.subrange(8, 16));
        f
    }

    /// Whether the sizes nest and the first instruction carries a number.
    pub open spec fn describable(self) -> bool {
        &&& self.reloc <= self.rom_size
        &&& self.rom_size - self.reloc <= self.ram_size
        &&& jump_field(self.instrs@[0]) >= 0x10
    }
}

/// The byte of a jump instruction's target address that holds the fragment
/// number, offset by sixteen.
pub open spec fn jump_field(op: u32) -> u32 {
    (op & 0x03FC_0000u32) >> 18u32
}

/// The fragment number carried by the jump instruction `op`.
pub fn extract_number_from_j(op: u32) -> (n: u8)
    requires
        jump_field(op) >= 0x10,
    ensures
        n == jump_field(op) - 0x10,
{
    assert((op & 0x03FC_0000u32) >> 18u32 <= 0xffu32) by (bit_vector);
    let frag: u32 = ((op & 0x03FC_0000) >> 18) - 0x10;
    frag as u8
}

/// Where a fragment lies and what its header says of its parts.
#[derive(Debug, Copy, Clone)]
pub struct FragInfo {
    pub rom_offset: usize,
    pub number: u8,
    pub rom_code: u32,
    pub bss_size: u32,
}

impl FragInfo {
    /// Whether the fields describe `frag` found at `rom_offset`.
    pub open spec fn describes(self, rom_offset: usize, frag: Fragment) -> bool {
        &&& self.rom_offset == rom_offset
        &&& self.number == jump_field(frag.instrs@[0]) - 0x10
        &&& self.rom_code == frag.rom_size - frag.reloc
        &&& self.bss_size == frag.ram_size - (frag.rom_size - frag.reloc)
    }

    /// Describes a fragment whose sizes nest.
    pub fn new(rom_offset: usize, frag: Fragment) -> (info: Self)
        requires
            frag.describable(),
        ensures
            info.describes(rom_offset, frag),
    {
        let rom_code = frag.rom_size - frag.reloc;
        let bss_size = frag.ram_size - rom_code;
        let number = extract_number_from_j(frag.instrs[0]);
        FragInfo { number, rom_offset, rom_code, bss_size }
    }

    /// Describes a fragment, or gives nothing where its sizes do not nest
    /// or its first instruction carries no number.
    pub fn describe(rom_offset: usize, frag: Fragment) -> (r: Option<Self>)
        ensures
            r is Some <==> frag.describable(),
            r is Some ==> r->Some_0.describes(rom_offset, frag),
    {
        assert((frag.instrs@[0] & 0x03FC_0000u32) >> 18u32 == jump_field(frag.instrs@[0]));
        if frag.reloc <= frag.rom_size && frag.rom_size - frag.reloc <= frag.ram_size && (
        frag.instrs[0] & 0x03FC_0000) >> 18 >= 0x10 {
            Some(FragInfo::new(rom_offset, frag))
        } else {
            None
        }
    }
}

/// One fragment found in an image.
#[derive(Debug, Copy, Clone)]
pub struct FragEntry {
    pub info: FragInfo,
    pub rom_size: u32,
}

/// Whether a fragment header can be read around `tag_start`: the tag
/// stands there, and the header starts eight bytes earlier, on a multiple
/// of four, and lies within the image.
pub open spec fn fragment_in_place(rom: Seq<u8>, tag_start: usize) -> bool {
    tag_start >= 8 && (tag_start - 8) % 4 == 0 && tag_start + 0x18 <= rom.len() && holds_at(
        rom,
        tag_start as int,
        fragment_tag(),
    )
}

/// The fragment whose tag stands at `tag_start` in `rom`, where a header
/// can be read there, its sizes nest and its first instruction carries a
/// number.
pub open spec fn fragment_entry(rom: Seq<u8>, tag_start: usize) -> Option<FragEntry> {
    let s = tag_start - 8;
    let op = be32(rom, s) as u32;
    let reloc = be32(rom, s + 20);
    let rom_size = be32(rom, s + 24);
    let ram_size = be32(rom, s + 28);
    if fragment_in_place(rom, tag_start) && reloc <= rom_size && rom_size - reloc <= ram_size
        && jump_field(op) >= 0x10 {
        Some(
            FragEntry {
                info: FragInfo {
                    rom_offset: s as usize,
                    number: (jump_field(op) - 0x10) as u8,
                    rom_code: (rom_size - reloc) as u32,
                    bss_size: (ram_size - (rom_size - reloc)) as u32,
                },
                rom_size: rom_size as u32,
            },
        )
    } else {
        None
    }
}

/// Whether `e` is the fragment whose header stands at the offset it names.
pub open spec fn found_in_place(rom: Seq<u8>, e: FragEntry) -> bool {
    e.info.rom_offset + 8 <= usize::MAX && fragment_entry(rom, (e.info.rom_offset + 8) as usize)
        == Some(e)
}

/// Reads and describes the fragment whose tag stands at `tag_start`.
pub fn fragment_at(rom: &[u8], tag_start: usize) -> (r: Option<FragEntry>)
    ensures
        r == fragment_entry(rom@, tag_start),
{
    if tag_start < 8 || (tag_start - 8) % 4 != 0 || rom.len() < 0x18 || tag_start > rom.len()
        - 0x18 || !is_fragment_tag(rom, tag_start) {
        return None;
    }
    let s: usize = tag_start - 8;
    let header: [u8; 0x20] = [
        rom[s], rom[s + 1], rom[s + 2], rom[s + 3], rom[s + 4], rom[s + 5], rom[s + 6],
        rom[s + 7], rom[s + 8], rom[s + 9], rom[s + 10], rom[s + 11], rom[s + 12], rom[s + 13],
        rom[s + 14], rom[s + 15], rom[s + 16], rom[s + 17], rom[s + 18], rom[s + 19],
        rom[s + 20], rom[s + 21], rom[s + 22], rom[s + 23], rom[s + 24], rom[s + 25],
        rom[s + 26], rom[s + 27], rom[s + 28], rom[s + 29], rom[s + 30], rom[s + 31],
    ];
    assert(header@ =~= rom@.subrange(s as int, s + 0x20));
    let frag = Fragment::from(header);
    match FragInfo::describe(s, frag) {
        Some(info) => Some(FragEntry { info, rom_size: frag.rom_size }),
        None => None,
    }
}

/// The fragments whose tags stand at `starts`, in that order.
pub fn fragments_at(rom: &[u8], starts: &Vec<usize>) -> (r: Vec<FragEntry>)
    ensures
        r@ == gather(starts@, |s: usize| fragment_entry(rom@, s)),
        forall|i: int| 0 <= i < r@.len() ==> found_in_place(rom@, #[trigger] r@[i]),
{
    let mut found: Vec<FragEntry> = Vec::new();
    let mut i: usize = 0;
    while i < starts.len()
        invariant
            i <= starts@.len(),
            found@ == gather(starts@.take(i as int), |s: usize| fragment_entry(rom@, s)),
        decreases starts@.len() - i,
    {
        assert(starts@.take(i + 1).drop_last() =~= starts@.take(i as int));
        if let Some(e) = fragment_at(rom, starts[i]) {
            found.push(e);
        }
        i += 1;
    }
    assert(starts@.take(i as int) =~= starts@);
    proof {
        lemma_gather_holds(
            starts@,
            |s: usize| fragment_entry(rom@, s),
            |e: FragEntry| found_in_place(rom@, e),
        );
    }
    found
}

/// The fragments of an image: one for each place where `FRAGMENT` is found
/// and a header can be read and described. Each entry is the fragment
/// whose header stands at the offset it names.
pub fn find_fragments(rom: &[u8]) -> (r: Vec<FragEntry>)
    ensures
        r@ == gather_matches("FRAGMENT"@, rom@, |s: usize| fragment_entry(rom@, s)),
        forall|i: int| 0 <= i < r@.len() ==> found_in_place(rom@, #[trigger] r@[i]),
{
    match find_starts("FRAGMENT", rom) {
        Some(starts) => fragments_at(rom, &starts),
        None => Vec::new(),
    }
}

} // verus!
