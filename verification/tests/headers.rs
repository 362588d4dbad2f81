use romscan::bytes::{be_u32, be_u32_at, tag_at, HeaderError};
use romscan::frags::{extract_number_from_j, is_fragment_tag, FragInfo, Fragment};
use romscan::jpeg::{distance_to_marker, PresJpeg};
use romscan::szp::{is_szp_tag, PersSzp};

fn fragment_header() -> [u8; 0x20] {
    let mut a = [0u8; 0x20];
    a[0..4].copy_from_slice(&0x0894_0000u32.to_be_bytes());
    a[4..8].copy_from_slice(&0x2402_0001u32.to_be_bytes());
    a[8..16].copy_from_slice(b"FRAGMENT");
    a[16..20].copy_from_slice(&0x20u32.to_be_bytes());
    a[20..24].copy_from_slice(&0x100u32.to_be_bytes());
    a[24..28].copy_from_slice(&0x180u32.to_be_bytes());
    a[28..32].copy_from_slice(&0x200u32.to_be_bytes());
    a
}

#[test]
fn big_endian_numbers() {
    assert_eq!(be_u32(0x12, 0x34, 0x56, 0x78), 0x1234_5678);
    assert_eq!(be_u32(0xFF, 0xFF, 0xFF, 0xFF), u32::MAX);
    assert_eq!(be_u32_at(&[9, 0, 0, 1, 2], 1), 0x0000_0102);
}

#[test]
fn tags_are_compared_in_place() {
    assert!(tag_at(b"xxFRAGMENT", 2, b"FRAGMENT"));
    assert!(!tag_at(b"xxFRAGMENT", 3, b"FRAGMENT"));
    assert!(!tag_at(b"xxFRAGMEN", 2, b"FRAGMENT"));
    assert!(tag_at(b"abc", 3, b""));
    assert!(!tag_at(b"abc", 4, b""));
    assert!(is_fragment_tag(b"FRAGMENT", 0));
    assert!(!is_fragment_tag(b"FRAGMENt", 0));
    assert!(is_szp_tag(b"..PERS-SZP", 2));
    assert!(!is_szp_tag(b"..PERS_SZP", 2));
}

#[test]
fn fragment_header_fields() {
    let f = Fragment::from(fragment_header());
    assert_eq!(f.instrs, [0x0894_0000, 0x2402_0001]);
    assert_eq!(&f.magic, b"FRAGMENT");
    assert_eq!(f.entry, 0x20);
    assert_eq!(f.reloc, 0x100);
    assert_eq!(f.rom_size, 0x180);
    assert_eq!(f.ram_size, 0x200);
}

#[test]
fn fragment_number_comes_from_the_jump() {
    assert_eq!(extract_number_from_j(0x0894_0000), 0x15);
    assert_eq!(extract_number_from_j(0x0840_0000), 0);
    assert_eq!(extract_number_from_j(0xFFFF_FFFF), 0xEF);
    assert_eq!(extract_number_from_j(0x0BFC_0000 | 0x3_FFFF), 0xEF);
}

#[test]
fn fragment_info_splits_code_and_bss() {
    let info = FragInfo::new(0x1000, Fragment::from(fragment_header()));
    assert_eq!(info.rom_offset, 0x1000);
    assert_eq!(info.number, 0x15);
    assert_eq!(info.rom_code, 0x80);
    assert_eq!(info.bss_size, 0x180);
}

#[test]
fn fragment_info_needs_nested_sizes() {
    let good = Fragment::from(fragment_header());
    assert!(FragInfo::describe(4, good).is_some());
    let mut f = good;
    f.reloc = 0x181;
    assert!(FragInfo::describe(4, f).is_none());
    let mut g = good;
    g.ram_size = 0x7F;
    assert!(FragInfo::describe(4, g).is_none());
    let mut h = good;
    h.instrs[0] = 0x083C_0000;
    assert!(FragInfo::describe(4, h).is_none());
}

#[test]
fn jpeg_header_fields() {
    let mut v = b"PRESJPEG".to_vec();
    v.extend_from_slice(&[0, 0, 0, 0x10, 0xDE, 0xAD, 0xBE, 0xEF, 1]);
    let h = PresJpeg::try_from(&v).unwrap();
    assert_eq!(&h.magic, b"PRESJPEG");
    assert_eq!(h.offset, 0x10);
    assert_eq!(h.unk, 0xDEAD_BEEF);
    assert_eq!(PresJpeg::try_from(&v[..15]).unwrap_err(), HeaderError::TooShort);
}

#[test]
fn distance_counts_windows_before_the_marker() {
    assert_eq!(distance_to_marker(&[1, 2, 3, 0xFF, 0xD9, 5], 0), 3);
    assert_eq!(distance_to_marker(&[1, 2, 3, 0xFF, 0xD9, 5], 3), 0);
    assert_eq!(distance_to_marker(&[1, 2, 3, 0xFF, 0xD9, 5], 4), 1);
    assert_eq!(distance_to_marker(&[1, 2, 3, 0xFF], 0), 3);
    assert_eq!(distance_to_marker(&[1], 0), 0);
    assert_eq!(distance_to_marker(&[1], 1), 0);
}

fn szp_header(updates: u32) -> Vec<u8> {
    let mut v = b"PERS-SZP".to_vec();
    v.extend_from_slice(&0x28u32.to_be_bytes());
    v.extend_from_slice(&0x100u32.to_be_bytes());
    v.extend_from_slice(&0x101u32.to_be_bytes());
    v.extend_from_slice(&updates.to_be_bytes());
    v.extend_from_slice(&1u32.to_be_bytes());
    v.extend_from_slice(&0x10u32.to_be_bytes());
    v.extend_from_slice(&2u32.to_be_bytes());
    v.extend_from_slice(&0x20u32.to_be_bytes());
    v
}

#[test]
fn szp_header_fields_and_updates() {
    let h = PersSzp::try_from(&szp_header(2)).unwrap();
    assert_eq!(&h.magic, b"PERS-SZP");
    assert_eq!(h.offset, 0x28);
    assert_eq!(h.size, 0x100);
    assert_eq!(h.size_again, 0x101);
    assert_eq!(h.num_updates, 2);
    assert_eq!(h.updates, vec![(1, 0x10), (2, 0x20)]);
    let one = PersSzp::try_from(&szp_header(1)).unwrap();
    assert_eq!(one.updates, vec![(1, 0x10)]);
    let none = PersSzp::try_from(&szp_header(0)[..0x18]).unwrap();
    assert!(none.updates.is_empty());
}

#[test]
fn szp_header_errors() {
    assert_eq!(PersSzp::try_from(b"PERS-SZ").unwrap_err(), HeaderError::TooShort);
    assert_eq!(PersSzp::try_from(b"PERS_SZP").unwrap_err(), HeaderError::BadMagic);
    let mut bad = szp_header(2);
    bad[0] = b'p';
    assert_eq!(PersSzp::try_from(&bad).unwrap_err(), HeaderError::BadMagic);
    assert_eq!(PersSzp::try_from(&szp_header(2)[..0x17]).unwrap_err(), HeaderError::TooShort);
    assert_eq!(PersSzp::try_from(&szp_header(3)).unwrap_err(), HeaderError::TooShort);
    assert_eq!(PersSzp::try_from(&szp_header(2)[..0x27]).unwrap_err(), HeaderError::TooShort);
    assert_eq!(PersSzp::try_from(&szp_header(0xFFFF_FFFF)).unwrap_err(), HeaderError::TooShort);
}
