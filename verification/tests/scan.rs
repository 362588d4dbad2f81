use romscan::frags::{find_fragments, fragment_at, fragments_at};
use romscan::jpeg::{find_presjpeg, jpeg_at, jpegs_at};
use romscan::szp::{find_pers_szp, szp_at, szps_at};
use romscan::yay0::{find_yay0_files, fragment_number, yay0_at, yay0_files_at};

fn fragment_header(op: u32) -> Vec<u8> {
    let mut a = Vec::new();
    a.extend_from_slice(&op.to_be_bytes());
    a.extend_from_slice(&0u32.to_be_bytes());
    a.extend_from_slice(b"FRAGMENT");
    a.extend_from_slice(&0x20u32.to_be_bytes());
    a.extend_from_slice(&0x100u32.to_be_bytes());
    a.extend_from_slice(&0x180u32.to_be_bytes());
    a.extend_from_slice(&0x200u32.to_be_bytes());
    a
}

/// A block of literals only: links at 20, literals at 22.
fn literal_block(bytes: &[u8]) -> Vec<u8> {
    assert!(bytes.len() <= 32);
    let mut v = b"Yay0".to_vec();
    v.extend_from_slice(&(bytes.len() as u32).to_be_bytes());
    v.extend_from_slice(&20u32.to_be_bytes());
    v.extend_from_slice(&22u32.to_be_bytes());
    v.extend_from_slice(&[0xFF, 0xFF, 0xFF, 0xFF, 0, 0]);
    v.extend_from_slice(bytes);
    v
}

#[test]
fn fragments_are_found_where_aligned_and_whole() {
    let mut rom = vec![0u8; 4];
    rom.extend_from_slice(&fragment_header(0x0894_0000));
    rom.extend_from_slice(&[0u8; 1]);
    rom.extend_from_slice(&fragment_header(0x0898_0000));
    rom.extend_from_slice(&[0u8; 3]);
    rom.extend_from_slice(&fragment_header(0x089C_0000)[..0x1F]);
    let found = find_fragments(&rom);
    assert_eq!(found.len(), 1);
    assert_eq!(found[0].info.rom_offset, 4);
    assert_eq!(found[0].info.number, 0x15);
    assert_eq!(found[0].info.rom_code, 0x80);
    assert_eq!(found[0].info.bss_size, 0x180);
    assert_eq!(found[0].rom_size, 0x180);
    assert!(fragment_at(&rom, 12).is_some());
    assert!(fragment_at(&rom, 45).is_none());
    assert!(fragment_at(&rom, 80).is_none());
    assert!(fragment_at(&rom, 3).is_none());
    assert_eq!(fragments_at(&rom, &vec![80, 12, 45, 12]).len(), 2);
}

#[test]
fn no_fragment_in_a_bare_tag() {
    assert!(find_fragments(b"FRAGMENT").is_empty());
    assert!(find_fragments(b"").is_empty());
}

#[test]
fn jpeg_size_reaches_to_the_end_marker() {
    let mut rom = vec![7u8; 5];
    rom.extend_from_slice(b"PRESJPEG");
    rom.extend_from_slice(&[0, 0, 0, 0x10, 0, 0, 0, 0]);
    rom.extend_from_slice(&[1, 2, 3, 0xFF, 0xD9, 5]);
    let found = find_presjpeg(&rom);
    assert_eq!(found.len(), 1);
    assert_eq!(found[0].start, 5);
    assert_eq!(found[0].size, 0x13);
    assert_eq!(jpeg_at(&rom, 5).unwrap().size, 0x13);
    assert!(jpeg_at(&rom, rom.len() - 15).is_none());
    assert_eq!(jpegs_at(&rom, &vec![5, 5]).len(), 2);
}

#[test]
fn jpeg_pointing_outside_is_left_out() {
    let mut rom = b"PRESJPEG".to_vec();
    rom.extend_from_slice(&[0, 0, 0, 0x11, 0, 0, 0, 0]);
    assert!(find_presjpeg(&rom).is_empty());
    rom[11] = 0x10;
    let found = find_presjpeg(&rom);
    assert_eq!(found.len(), 1);
    assert_eq!(found[0].size, 0x10);
}

#[test]
fn packed_sections_are_found_with_their_data() {
    let mut rom = vec![0u8; 3];
    rom.extend_from_slice(b"PERS-SZP");
    rom.extend_from_slice(&0x20u32.to_be_bytes());
    rom.extend_from_slice(&0x100u32.to_be_bytes());
    rom.extend_from_slice(&0x100u32.to_be_bytes());
    rom.extend_from_slice(&1u32.to_be_bytes());
    rom.extend_from_slice(&0xAu32.to_be_bytes());
    rom.extend_from_slice(&0xBu32.to_be_bytes());
    rom.extend_from_slice(b"Yay0");
    let found = find_pers_szp(&rom);
    assert_eq!(found.len(), 1);
    assert_eq!(found[0].start, 3);
    assert_eq!(found[0].header.offset, 0x20);
    assert_eq!(found[0].header.updates, vec![(0xA, 0xB)]);
    assert_eq!(&found[0].probe, b"Yay0");
    assert!(szp_at(&rom, 3).is_some());
    assert!(szp_at(&rom, 4).is_none());
    assert!(szp_at(&rom[..rom.len() - 1], 3).is_none());
    assert_eq!(szps_at(&rom, &vec![0, 3]).len(), 1);
}

#[test]
fn blocks_are_found_and_failures_skipped() {
    let mut rom = b"PERS-SZP".to_vec();
    rom.extend_from_slice(&[0u8; 16]);
    rom.extend_from_slice(&literal_block(&[1, 2, 3]));
    rom.extend_from_slice(b"Yay0 is no block");
    let second = rom.len();
    rom.extend_from_slice(&literal_block(&fragment_header(0x0894_0000)));
    let found = find_yay0_files(&rom);
    assert_eq!(found.len(), 2);
    assert_eq!(found[0].start, 0x18);
    assert!(found[0].is_szp);
    assert_eq!(found[0].frag, None);
    assert_eq!(found[0].compsize, 25);
    assert_eq!(found[0].unpacked, 3);
    assert_eq!(found[1].start, second);
    assert!(!found[1].is_szp);
    assert_eq!(found[1].frag, Some(0x15));
    assert_eq!(found[1].compsize, 54);
    assert_eq!(found[1].unpacked, 32);
    assert!(yay0_at(&rom, 0x18 + 25).is_none());
    assert!(yay0_at(&rom, rom.len() + 1).is_none());
    assert_eq!(yay0_files_at(&rom, &vec![second, 0, 0x18]).len(), 2);
}

#[test]
fn fragment_number_of_decoded_bytes() {
    assert_eq!(fragment_number(&fragment_header(0x0894_0000)), Some(0x15));
    assert_eq!(fragment_number(&fragment_header(0x083C_0000)), None);
    assert_eq!(fragment_number(&fragment_header(0x0894_0000)[..31]), None);
    assert_eq!(fragment_number(&[0u8; 32]), None);
}
