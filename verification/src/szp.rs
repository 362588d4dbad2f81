//! Headers of packed sections with an update table.

use crate::bytes::{be32, be_u32_at, holds_at, tag_at, HeaderError};
use crate::search::{find_starts, gather, gather_matches, lemma_gather_holds};
use vstd::prelude::*;

verus! {

/// The bytes `PERS-SZP`.
pub open spec fn szp_tag() -> Seq<u8> {
    seq![0x50u8, 0x45u8, 0x52u8, 0x53u8, 0x2du8, 0x53u8, 0x5au8, 0x50u8]
}

/// Tests whether `buf` holds `PERS-SZP` from `at` on.
pub fn is_szp_tag(buf: &[u8], at: usize) -> (r: bool)
    ensures
        r == holds_at(buf@, at as int, szp_tag()),
{
    let t: [u8; 8] = [0x50, 0x45, 0x52, 0x53, 0x2d, 0x53, 0x5a, 0x50];
    assert(t@ =~= szp_tag());
    tag_at(buf, at, &t)
}

/// The header of a packed section: where its data starts, its size (given
/// twice), and a table of updates.
#[derive(Debug, Clone)]
pub struct PersSzp {
    pub magic: [u8; 8],
    pub offset: u32,
    pub size: u32,
    pub size_again: u32,
    pub num_updates: u32,
    pub updates: Vec<(u32, usize)>,
}

/// The numbers of a header, with its table as a sequence.
pub struct SzpView {
    pub offset: u32,
    pub size: u32,
    pub size_again: u32,
    pub num_updates: u32,
    pub updates: Seq<(u32, usize)>,
}

/// Entry `i` of the update table in the header bytes `v`: a value and an
/// offset.
pub open spec fn update_at(v: Seq<u8>, i: int) -> (u32, usize) {
    (be32(v, 0x18 + 8 * i) as u32, be32(v, 0x1c + 8 * i) as usize)
}

/// What the header bytes `v` spell, or why they spell nothing.
pub open spec fn szp_header(v: Seq<u8>) -> Result<SzpView, HeaderError> {
    if v.len() < 8 {
        Err(HeaderError::TooShort)
    } else if !holds_at(v, 0, szp_tag()) {
        Err(HeaderError::BadMagic)
    } else if v.len() < 0x18 || v.len() < 0x18 + 8 * be32(v, 0x14) {
        Err(HeaderError::TooShort)
    } else {
        Ok(
            SzpView {
                offset: be32(v, 8) as u32,
                size: be32(v, 0xC) as u32,
                size_again: be32(v, 0x10) as u32,
                num_updates: be32(v, 0x14) as u32,
                updates: Seq::new(be32(v, 0x14), |i: int| update_at(v, i)),
            },
        )
    }
}

impl PersSzp {
    /// The header's numbers and table.
    pub open spec fn view(&self) -> SzpView {
        SzpView {
            offset: self.offset,
            size: self.size,
            size_again: self.size_again,
            num_updates: self.num_updates,
            updates: self.updates@,
        }
    }

    /// Reads the header and its update table from the front of `v`.
    pub fn try_from(v: &[u8]) -> (r: Result<Self, HeaderError>)
        ensures
            match r {
                Ok(h) => szp_header(v@) == Ok::<SzpView, HeaderError>(h.view()) && h.magic@
                    == szp_tag(),
                Err(e) => szp_header(v@) == Err::<SzpView, HeaderError>(e),
            },
    {
        if v.len() < 8 {
            return Err(HeaderError::TooShort);
        }
        if !is_szp_tag(v, 0) {
            return Err(HeaderError::BadMagic);
        }
        if v.len() < 0x18 {
            return Err(HeaderError::TooShort);
        }
        let num_updates = be_u32_at(v, 0x14);
        let n = num_updates as usize;
        if n > (v.len() - 0x18) / 8 {
            return Err(HeaderError::TooShort);
        }
        let magic: [u8; 8] = [v[0], v[1], v[2], v[3], v[4], v[5], v[6], v[7]];
        assert(magic@ =~= v@.subrange(0, 8));
        let mut updates: Vec<(u32, usize)> = Vec::new();
        let mut i: usize = 0;
        while i < n
            invariant
                i <= n,
                0x18 + 8 * n <= v@.len() <= usize::MAX,
                updates@.len() == i,
                forall|j: int| 0 <= j < i ==> updates@[j] == update_at(v@, j),
            decreases n - i,
        {
            let at = 0x18 + 8 * i;
            updates.push((be_u32_at(v, at), be_u32_at(v, at + 4) as usize));
            i += 1;
        }
        assert(updates@ =~= Seq::new(be32(v@, 0x14), |i: int| update_at(v@, i)));
        Ok(
            PersSzp {
                magic,
                offset: be_u32_at(v, 8),
                size: be_u32_at(v, 0xC),
                size_again: be_u32_at(v, 0x10),
                num_updates,
                updates,
            },
        )
    }
}

/// One packed section found in an image: its header and the first four
/// bytes of its data.
#[derive(Debug, Clone)]
pub struct SzpEntry {
    pub start: usize,
    pub header: PersSzp,
    pub probe: [u8; 4],
}

/// A found section as plain values.
pub struct SzpEntryView {
    pub start: usize,
    pub header: SzpView,
    pub probe: Seq<u8>,
}

impl SzpEntry {
    /// The entry as plain values.
    pub open spec fn view(&self) -> SzpEntryView {
        SzpEntryView { start: self.start, header: self.header.view(), probe: self.probe@ }
    }
}

/// The views of a list of entries.
pub open spec fn views(entries: Seq<SzpEntry>) -> Seq<SzpEntryView> {
    entries.map_values(|e: SzpEntry| e.view())
}

/// The section whose header stands at `start`, where the header can be
/// read and four bytes of data lie where it points.
pub open spec fn szp_entry(rom: Seq<u8>, start: usize) -> Option<SzpEntryView> {
    if start <= rom.len() {
        match szp_header(rom.subrange(start as int, rom.len() as int)) {
            Ok(h) => if start + h.offset + 4 <= rom.len() {
                Some(
                    SzpEntryView {
                        start,
                        header: h,
                        probe: rom.subrange(start + h.offset, start + h.offset + 4),
                    },
                )
            } else {
                None
            },
            Err(_) => None,
        }
    } else {
        None
    }
}

/// Reads the section header at `start` and the first bytes of its data.
pub fn szp_at(rom: &[u8], start: usize) -> (r: Option<SzpEntry>)
    ensures
        match r {
            Some(e) => szp_entry(rom@, start) == Some(e.view()),
            None => szp_entry(rom@, start) is None,
        },
{
    if start > rom.len() {
        return None;
    }
    let header = match PersSzp::try_from(vstd::slice::slice_subrange(rom, start, rom.len())) {
        Ok(h) => h,
        Err(_) => {
            return None;
        },
    };
    let offset = header.offset as usize;
    if rom.len() - start < 4 || offset > rom.len() - start - 4 {
        return None;
    }
    let d: usize = start + offset;
    let probe: [u8; 4] = [rom[d], rom[d + 1], rom[d + 2], rom[d + 3]];
    assert(probe@ =~= rom@.subrange(d as int, d + 4));
    Some(SzpEntry { start, header, probe })
}

/// The sections whose headers stand at `starts`, in that order.
pub fn szps_at(rom: &[u8], starts: &Vec<usize>) -> (r: Vec<SzpEntry>)
    ensures
        views(r@) == gather(starts@, |s: usize| szp_entry(rom@, s)),
        forall|i: int|
            0 <= i < r@.len() ==> szp_entry(rom@, (#[trigger] r@[i]).start) == Some(r@[i].view()),
{
    let mut found: Vec<SzpEntry> = Vec::new();
    let mut i: usize = 0;
    assert(views(found@) =~= Seq::<SzpEntryView>::empty());
    while i < starts.len()
        invariant
            i <= starts@.len(),
            views(found@) == gather(starts@.take(i as int), |s: usize| szp_entry(rom@, s)),
        decreases starts@.len() - i,
    {
        assert(starts@.take(i + 1).drop_last() =~= starts@.take(i as int));
        if let Some(e) = szp_at(rom, starts[i]) {
            let ghost before = found@;
            found.push(e);
            assert(views(found@) =~= views(before).push(e.view()));
        }
        i += 1;
    }
    assert(starts@.take(i as int) =~= starts@);
    proof {
        lemma_gather_holds(
            starts@,
            |s: usize| szp_entry(rom@, s),
            |e: SzpEntryView| szp_entry(rom@, e.start) == Some(e),
        );
        assert forall|i: int| 0 <= i < found@.len() implies szp_entry(
            rom@,
            (#[trigger] found@[i]).start,
        ) == Some(found@[i].view()) by {
            assert(views(found@)[i] == found@[i].view());
        }
    }
    found
}

/// The packed sections of an image: one for each place where `PERS-SZP` is
/// found and a header and its data can be read. Each entry is the section
/// whose header stands at its start.
pub fn find_pers_szp(rom: &[u8]) -> (r: Vec<SzpEntry>)
    ensures
        views(r@) == gather_matches("PERS-SZP"@, rom@, |s: usize| szp_entry(rom@, s)),
        forall|i: int|
            0 <= i < r@.len() ==> szp_entry(rom@, (#[trigger] r@[i]).start) == Some(r@[i].view()),
{
    match find_starts("PERS-SZP", rom) {
        Some(starts) => szps_at(rom, &starts),
        None => {
            let none: Vec<SzpEntry> = Vec::new();
            assert(views(none@) =~= Seq::<SzpEntryView>::empty());
            none
        },
    }
}

} // verus!
