use grapple_bundle::bundle::{build_artifacts, convert_to_bin, gen_firmware_update_elf, make_index, update_elf_name, BuildError};
use grapple_bundle::image::{clear_firmware_flag, parse_image, read_version, Image, ImageError, Section, Segment};
use grapple_bundle::linear::linearize;

fn section(name: &str, address: u64, data: Vec<u8>, file_range: Option<(u64, u64)>) -> Section {
    Section { name: name.to_string(), address, data, file_range }
}

fn seg(address: u64, data: Vec<u8>) -> Segment {
    Segment { address, data }
}

fn metadata(addr: u32, len: u32, big_endian: bool) -> Vec<u8> {
    let mut d = vec![0u8; 4];
    if big_endian {
        d.extend_from_slice(&addr.to_be_bytes());
        d.extend_from_slice(&len.to_be_bytes());
    } else {
        d.extend_from_slice(&addr.to_le_bytes());
        d.extend_from_slice(&len.to_le_bytes());
    }
    d
}

fn versioned_image(big_endian: bool) -> Image {
    Image {
        big_endian,
        sections: vec![
            section(".metadata", 0x0800_0000, metadata(0x0800_0104, 5, big_endian), None),
            section(".rodata", 0x0800_0100, b"xxxx1.2.3yyyy".to_vec(), Some((0x200, 13))),
        ],
        segments: vec![],
    }
}

#[test]
fn version_inside_one_section_little_endian() {
    assert_eq!(read_version(&versioned_image(false)).unwrap(), "1.2.3");
}

#[test]
fn version_inside_one_section_big_endian() {
    assert_eq!(read_version(&versioned_image(true)).unwrap(), "1.2.3");
}

#[test]
fn version_ending_at_section_end() {
    let img = Image {
        big_endian: false,
        sections: vec![
            section(".metadata", 0, metadata(0x100, 3, false), None),
            section(".text", 0x100, b"abc".to_vec(), None),
        ],
        segments: vec![],
    };
    assert_eq!(read_version(&img).unwrap(), "abc");
}

#[test]
fn version_spanning_two_sections_fails() {
    let img = Image {
        big_endian: false,
        sections: vec![
            section(".metadata", 0, metadata(0x102, 4, false), None),
            section(".a", 0x100, b"xx1.".to_vec(), None),
            section(".b", 0x104, b"2.3".to_vec(), None),
        ],
        segments: vec![],
    };
    assert_eq!(read_version(&img), Err(ImageError::NoVersionFound));
}

#[test]
fn version_invalid_utf8_is_replaced() {
    let img = Image {
        big_endian: false,
        sections: vec![
            section(".metadata", 0, metadata(0x100, 3, false), None),
            section(".a", 0x100, vec![b'1', 0xff, b'2'], None),
        ],
        segments: vec![],
    };
    assert_eq!(read_version(&img).unwrap(), "1\u{fffd}2");
}

#[test]
fn missing_metadata_section() {
    let img = Image { big_endian: false, sections: vec![section(".text", 0, vec![1, 2], None)], segments: vec![] };
    assert_eq!(read_version(&img), Err(ImageError::MissingMetadata));
}

#[test]
fn short_metadata_section() {
    let img = Image { big_endian: false, sections: vec![section(".metadata", 0, vec![0; 11], None)], segments: vec![] };
    assert_eq!(read_version(&img), Err(ImageError::MalformedMetadata));
}

#[test]
fn linearize_pads_gap_with_zeros() {
    let out = linearize(&vec![seg(0x1000, vec![1, 2, 3, 4]), seg(0x1010, vec![5, 6, 7, 8])]).unwrap();
    assert_eq!(out.len(), 0x10 + 4);
    assert_eq!(&out[0..4], &[1, 2, 3, 4]);
    assert!(out[4..16].iter().all(|b| *b == 0));
    assert_eq!(&out[16..20], &[5, 6, 7, 8]);
}

#[test]
fn linearize_length_spans_first_to_last() {
    let segs = vec![seg(0x2000, vec![9; 3]), seg(0x2003, vec![8; 2]), seg(0x2100, vec![7; 16])];
    let out = linearize(&segs).unwrap();
    assert_eq!(out.len(), 0x2100 + 16 - 0x2000);
}

#[test]
fn linearize_skips_empty_segments() {
    let segs = vec![seg(0x10, vec![]), seg(0x1000, vec![1]), seg(0x5, vec![]), seg(0x1002, vec![2])];
    assert_eq!(linearize(&segs).unwrap(), vec![1, 0, 2]);
}

#[test]
fn linearize_rejects_overlap() {
    let segs = vec![seg(0x1000, vec![1, 2, 3, 4]), seg(0x1002, vec![5])];
    assert_eq!(linearize(&segs), Err(ImageError::AddressOverlap));
}

#[test]
fn linearize_empty_list() {
    assert_eq!(linearize(&vec![]).unwrap(), Vec::<u8>::new());
}

fn flagged_image() -> Image {
    let mut img = versioned_image(false);
    img.sections.push(section(".firmware_flag", 0x2000_0000, vec![0, 0, 0, 0], Some((4, 4))));
    img
}

#[test]
fn flag_bytes_are_cleared() {
    let raw: Vec<u8> = (0u8..12).collect();
    let out = clear_firmware_flag(&raw, &flagged_image()).unwrap();
    assert_eq!(out, vec![0, 1, 2, 3, 0xff, 0xff, 0xff, 0xff, 8, 9, 10, 11]);
}

#[test]
fn image_without_flag_is_unchanged() {
    let raw: Vec<u8> = (0u8..12).collect();
    assert_eq!(clear_firmware_flag(&raw, &versioned_image(false)).unwrap(), raw);
}

#[test]
fn flag_of_wrong_size_is_refused() {
    let mut img = versioned_image(false);
    img.sections.push(section(".firmware_flag", 0, vec![0; 2], Some((4, 2))));
    assert_eq!(clear_firmware_flag(&vec![0u8; 12], &img), Err(ImageError::BadFlagSection));
}

#[test]
fn flag_outside_file_is_refused() {
    let mut img = versioned_image(false);
    img.sections.push(section(".firmware_flag", 0, vec![0; 4], Some((10, 4))));
    assert_eq!(clear_firmware_flag(&vec![0u8; 12], &img), Err(ImageError::BadFlagSection));
}

#[test]
fn update_image_has_version_and_cleared_flag() {
    let raw = vec![0u8; 16];
    let (version, bytes) = gen_firmware_update_elf(&raw, &flagged_image()).unwrap();
    assert_eq!(version, "1.2.3");
    assert_eq!(&bytes[4..8], &[0xff; 4]);
    assert_eq!(&bytes[0..4], &[0; 4]);
    let index = make_index("fw.elf", "bl.elf", "config.json", &version, "0.9");
    assert_eq!(index.firmware_version, "1.2.3");
    assert_eq!(index.firmware_update, "fw.elf-1.2.3-update.elf");
}

#[test]
fn convert_to_bin_reads_version_and_flattens() {
    let mut img = versioned_image(false);
    img.segments = vec![seg(0x100, vec![1]), seg(0x103, vec![2])];
    let (version, bin) = convert_to_bin(&img).unwrap();
    assert_eq!(version, "1.2.3");
    assert_eq!(bin, vec![1, 0, 0, 2]);
}

#[test]
fn artifact_names() {
    let index = make_index("fw.elf", "bl.elf", "cfg.json", "1.2.3", "0.4.0");
    assert_eq!(index.firmware, "fw.elf");
    assert_eq!(index.firmware_update, "fw.elf-1.2.3-update.elf");
    assert_eq!(index.firmware_update_bin, "fw.elf-1.2.3-update.grplfw");
    assert_eq!(index.bootloader, "bl.elf");
    assert_eq!(index.bootloader_update_bin, "bl.elf-0.4.0.grplbt");
    assert_eq!(index.config, "cfg.json");
    assert_eq!(index.bootloader_version, "0.4.0");
    assert_eq!(update_elf_name("a", "b"), "a-b-update.elf");
}

fn empty_elf32_le() -> Vec<u8> {
    let mut d = vec![0x7f, b'E', b'L', b'F', 1, 1, 1, 0];
    d.extend_from_slice(&[0u8; 8]);
    d.extend_from_slice(&2u16.to_le_bytes());
    d.extend_from_slice(&40u16.to_le_bytes());
    d.extend_from_slice(&1u32.to_le_bytes());
    d.extend_from_slice(&[0u8; 16]);
    d.extend_from_slice(&52u16.to_le_bytes());
    d.extend_from_slice(&32u16.to_le_bytes());
    d.extend_from_slice(&0u16.to_le_bytes());
    d.extend_from_slice(&40u16.to_le_bytes());
    d.extend_from_slice(&0u16.to_le_bytes());
    d.extend_from_slice(&0u16.to_le_bytes());
    d
}

#[test]
fn parse_rejects_non_image() {
    assert!(matches!(parse_image(b"not an executable"), Err(ImageError::MalformedImage)));
}

#[test]
fn parse_empty_image() {
    let img = parse_image(&empty_elf32_le()).unwrap();
    assert!(!img.big_endian);
    assert!(img.segments.is_empty());
    assert!(img.sections.iter().all(|s| s.data.is_empty()));
    assert_eq!(read_version(&img), Err(ImageError::MissingMetadata));
}

#[test]
fn build_refuses_unreadable_firmware() {
    let r = build_artifacts("fw.elf", "bl.elf", "cfg.json", &b"garbage".to_vec(), &empty_elf32_le());
    assert!(matches!(r, Err(BuildError::Firmware(ImageError::MalformedImage))));
}

#[test]
fn build_refuses_firmware_without_metadata() {
    let r = build_artifacts("fw.elf", "bl.elf", "cfg.json", &empty_elf32_le(), &empty_elf32_le());
    assert!(matches!(r, Err(BuildError::Firmware(ImageError::MissingMetadata))));
}

fn put_u16(d: &mut Vec<u8>, v: u16) {
    d.extend_from_slice(&v.to_le_bytes());
}

fn put_u32(d: &mut Vec<u8>, v: u32) {
    d.extend_from_slice(&v.to_le_bytes());
}

/// A little-endian ELF32 file with one loadable segment holding `.text` and
/// `.firmware_flag`, and a `.metadata` record that points at "1.2.3" in `.text`.
fn firmware_elf() -> Vec<u8> {
    let mut d = vec![0x7f, b'E', b'L', b'F', 1, 1, 1, 0, 0, 0, 0, 0, 0, 0, 0, 0];
    put_u16(&mut d, 2);
    put_u16(&mut d, 40);
    put_u32(&mut d, 1);
    put_u32(&mut d, 0x0800_0000);
    put_u32(&mut d, 52);
    put_u32(&mut d, 0x180);
    put_u32(&mut d, 0x0500_0000);
    put_u16(&mut d, 52);
    put_u16(&mut d, 32);
    put_u16(&mut d, 1);
    put_u16(&mut d, 40);
    put_u16(&mut d, 5);
    put_u16(&mut d, 4);
    for v in [1u32, 0x100, 0x0800_0000, 0x0800_0000, 0x10, 0x10, 5, 4] {
        put_u32(&mut d, v);
    }
    d.resize(0x100, 0);
    d.extend_from_slice(b"xx1.2.3xxxxx");
    d.extend_from_slice(&[0, 0, 0, 0]);
    d.extend_from_slice(&[0, 0, 0, 0]);
    put_u32(&mut d, 0x0800_0002);
    put_u32(&mut d, 5);
    d.resize(0x120, 0);
    d.extend_from_slice(b"\0.text\0.firmware_flag\0.metadata\0.shstrtab\0");
    d.resize(0x180, 0);
    d.extend_from_slice(&[0u8; 40]);
    let sections: [(u32, u32, u32, u32, u32, u32); 4] = [
        (1, 1, 6, 0x0800_0000, 0x100, 12),
        (7, 1, 3, 0x0800_000C, 0x10C, 4),
        (22, 1, 0, 0, 0x110, 12),
        (32, 3, 0, 0, 0x120, 42),
    ];
    for (name, kind, flags, addr, offset, size) in sections {
        for v in [name, kind, flags, addr, offset, size, 0, 0, 1, 0] {
            put_u32(&mut d, v);
        }
    }
    d
}

#[test]
fn parse_reads_sections_and_segments() {
    let img = parse_image(&firmware_elf()).unwrap();
    let flag = img.sections.iter().find(|s| s.name == ".firmware_flag").unwrap();
    assert_eq!(flag.address, 0x0800_000C);
    assert_eq!(flag.file_range, Some((0x10C, 4)));
    assert_eq!(img.segments.len(), 1);
    assert_eq!(img.segments[0].address, 0x0800_0000);
    assert_eq!(read_version(&img).unwrap(), "1.2.3");
}

#[test]
fn build_from_versioned_firmware() {
    let raw = firmware_elf();
    let a = build_artifacts("fw.elf", "bl.elf", "cfg.json", &raw, &raw).unwrap();
    assert_eq!(a.index.firmware_version, "1.2.3");
    assert_eq!(a.index.bootloader_version, "1.2.3");
    assert_eq!(a.index.firmware, "fw.elf");
    assert_eq!(a.index.config, "cfg.json");
    assert_eq!(a.index.firmware_update, "fw.elf-1.2.3-update.elf");
    assert_eq!(a.index.firmware_update_bin, "fw.elf-1.2.3-update.grplfw");
    assert_eq!(a.index.bootloader_update_bin, "bl.elf-1.2.3.grplbt");
    assert_eq!(&a.update_image[0x10C..0x110], &[0xff; 4]);
    assert_eq!(&a.update_image[..0x10C], &raw[..0x10C]);
    assert_eq!(&a.update_image[0x110..], &raw[0x110..]);
    let updated = parse_image(&a.update_image).unwrap();
    let flag = updated.sections.iter().find(|s| s.name == ".firmware_flag").unwrap();
    assert_eq!(flag.data, vec![0xff; 4]);
    let mut expected_bin = b"xx1.2.3xxxxx".to_vec();
    expected_bin.extend_from_slice(&[0xff; 4]);
    assert_eq!(a.update_bin, expected_bin);
    let mut bootloader_bin = b"xx1.2.3xxxxx".to_vec();
    bootloader_bin.extend_from_slice(&[0; 4]);
    assert_eq!(a.bootloader_bin, bootloader_bin);
}

#[test]
fn linearize_sorts_segments_by_address() {
    let forward = linearize(&vec![seg(0x1000, vec![1]), seg(0x1010, vec![2])]).unwrap();
    let backward = linearize(&vec![seg(0x1010, vec![2]), seg(0x1000, vec![1])]).unwrap();
    assert_eq!(forward, backward);
    assert_eq!(forward.len(), 0x11);
    assert_eq!(forward[0], 1);
    assert_eq!(forward[0x10], 2);
    let mixed = linearize(&vec![seg(0x30, vec![3]), seg(0x0, vec![]), seg(0x10, vec![1]), seg(0x20, vec![2])]).unwrap();
    assert_eq!(mixed.len(), 0x21);
    assert_eq!((mixed[0], mixed[0x10], mixed[0x20]), (1, 2, 3));
}

#[test]
fn linearize_rejects_overlap_in_any_order() {
    let segs = vec![seg(0x1002, vec![5]), seg(0x1000, vec![1, 2, 3, 4])];
    assert_eq!(linearize(&segs), Err(ImageError::AddressOverlap));
}
