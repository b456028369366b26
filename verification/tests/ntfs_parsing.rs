use rescueforge::datetime::unix_to_string;
use rescueforge::ntfs::{
    parse_attr_list_refs, parse_boot_sector, parse_file_name_value, parse_record, parse_runs,
    ATTR_DATA,
};
use rescueforge::paths::{dir_under_lowered, path_under_dir};

#[test]
fn parse_boot_sector_ntfs() {
    let mut b = vec![0u8; 512];
    b[3..8].copy_from_slice(b"NTFS ");
    b[11] = 0x00;
    b[12] = 0x02; // 512 bytes per sector
    b[13] = 8; // 8 sectors per cluster
    b[48..56].copy_from_slice(&1000u64.to_le_bytes());
    b[64] = 0xF6; // -10 -> 1024-byte records
    b[510] = 0x55;
    b[511] = 0xAA;
    let bi = parse_boot_sector(&b).unwrap();
    assert_eq!(bi.cluster_size, 4096);
    assert_eq!(bi.record_size, 1024);
    assert_eq!(bi.mft_offset, 1000 * 4096);
    assert!(parse_boot_sector(&vec![0u8; 512]).is_none());
}

#[test]
fn parse_runs_single_and_negative_delta() {
    // run1: head=0x23 (len=3, off=2) count=[00,08,00]=2048, delta=[10,00]=+16 -> lcn=16
    // run2: head=0x12 (len=2, off=1) count=[00,01]=256, delta=[F6]=-10 -> lcn=6
    let data = [0x23, 0x00, 0x08, 0x00, 0x10, 0x00, 0x12, 0x00, 0x01, 0xF6, 0x00];
    let runs = parse_runs(&data);
    assert_eq!(runs, vec![(16, 2048), (6, 256)]);
}

#[test]
fn parse_runs_sparse_run() {
    // head=0x02 (len=2, off=0): no offset field means sparse, count=[00,04]=1024
    let data = [0x02, 0x00, 0x04, 0x00];
    let runs = parse_runs(&data);
    assert_eq!(runs, vec![(u64::MAX, 1024)]);
}

#[test]
fn parse_file_name_utf16() {
    let mut v = vec![0u8; 0x42];
    v[0x30..0x38].copy_from_slice(&12345u64.to_le_bytes());
    v[0x10..0x18].copy_from_slice(&132_000_000_000_000_000u64.to_le_bytes());
    v[0x40] = 4;
    v[0x41] = 1;
    for c in "test".encode_utf16() {
        v.extend_from_slice(&c.to_le_bytes());
    }
    let n = parse_file_name_value(&v).unwrap();
    assert_eq!(n.name, "test");
    assert_eq!(n.size, 12345);
    assert_eq!(n.namespace, 1);
    assert!(n.mtime_unix > 0);
}

#[test]
fn parse_file_name_extracts_parent_ref() {
    // The low 6 bytes at offset 0 are the parent's record number; the high 2 bytes
    // (sequence number) must be dropped.
    let mut v = vec![0u8; 0x42];
    let parent_raw: u64 = 0xABCD_0000_0000_0042;
    v[0x00..0x08].copy_from_slice(&parent_raw.to_le_bytes());
    v[0x30..0x38].copy_from_slice(&999u64.to_le_bytes());
    v[0x40] = 1;
    v[0x41] = 1;
    let ch: u16 = 'x' as u16;
    v.extend_from_slice(&ch.to_le_bytes());
    let n = parse_file_name_value(&v).unwrap();
    assert_eq!(n.parent_ref, 0x42, "the parent record number must drop the sequence number");
    assert_eq!(n.name, "x");
    assert_eq!(n.size, 999);
}

#[test]
fn path_under_dir_matches_target_and_subdirs() {
    assert!(path_under_dir("D:\\temp\\a.txt", "D:\\temp"), "a file in the directory matches");
    assert!(path_under_dir("D:\\temp\\sub\\a.txt", "D:\\temp"), "a file in a subdirectory matches");
    assert!(path_under_dir("d:\\TEMP\\sub\\a.txt", "D:\\temp"), "case does not matter");
    assert!(path_under_dir("D:\\temp\\a.txt", "D:\\temp\\"), "a trailing separator on the target still matches");
    assert!(!path_under_dir("D:\\temp2\\a.txt", "D:\\temp"), "a sibling with a longer name does not match");
    assert!(!path_under_dir("D:\\other\\a.txt", "D:\\temp"), "an unrelated directory does not match");
    assert!(!path_under_dir("C:\\temp\\a.txt", "D:\\temp"), "another drive does not match");
}

#[test]
fn parse_attr_list_refs_entries() {
    let mut buf = vec![0u8; 0x28];
    buf[0..4].copy_from_slice(&ATTR_DATA.to_le_bytes());
    buf[4..6].copy_from_slice(&0x20u16.to_le_bytes());
    buf[8..16].copy_from_slice(&7u64.to_le_bytes()); // start_vcn
    buf[0x10..0x18].copy_from_slice(&(99u64 | (1u64 << 48)).to_le_bytes());
    let refs = parse_attr_list_refs(&buf);
    assert_eq!(refs.len(), 1);
    assert_eq!(refs[0], (ATTR_DATA, 99, 7));
}

#[test]
fn unix_to_string_known_epoch() {
    assert_eq!(unix_to_string(1_700_000_000).as_deref(), Some("2023-11-14 22:13:20"));
    assert_eq!(unix_to_string(0), None);
}

#[test]
fn parse_record_rejects_non_file_magic() {
    assert!(parse_record(&vec![0u8; 1024]).is_none());
}

#[test]
fn subdirectories_count_with_either_separator() {
    assert!(path_under_dir("D:/temp/sub/a.txt", "D:/temp"));
    assert!(path_under_dir("D:/temp/sub/a.txt", "d:/TEMP/"));
    assert!(path_under_dir("D:\\temp/sub\\a.txt", "D:\\temp"));
    assert!(path_under_dir("D:/temp/a.txt", "D:/temp"));
    assert!(!path_under_dir("D:/temp2/a.txt", "D:/temp"));
    assert!(path_under_dir("a.txt", "\\"), "a target of separators only contains everything");
    assert!(!path_under_dir("a.txt", "D:\\temp"), "a bare name lies in no directory");
    assert!(dir_under_lowered("d:\\temp", "d:\\temp"));
    assert!(dir_under_lowered("d:\\temp\\x", "d:\\temp"));
    assert!(dir_under_lowered("d:\\temp/x", "d:\\temp"));
    assert!(!dir_under_lowered("d:\\tempx", "d:\\temp"));
    assert!(!dir_under_lowered("D:\\temp\\x", "d:\\temp"), "the texts are compared as given");
}

fn ntfs_boot(lcn: u64, code: u8) -> Vec<u8> {
    let mut b = vec![0u8; 512];
    b[3..8].copy_from_slice(b"NTFS ");
    b[12] = 0x02;
    b[13] = 8;
    b[48..56].copy_from_slice(&lcn.to_le_bytes());
    b[64] = code;
    b[510] = 0x55;
    b[511] = 0xAA;
    b
}

#[test]
fn boot_sector_refuses_overflowing_geometry() {
    assert!(parse_boot_sector(&ntfs_boot(u64::MAX, 0xF6)).is_none(), "the MFT offset would overflow");
    let max_lcn = u64::MAX / 4096;
    assert_eq!(parse_boot_sector(&ntfs_boot(max_lcn, 0xF6)).unwrap().mft_offset, max_lcn * 4096);
    assert!(parse_boot_sector(&ntfs_boot(max_lcn + 1, 0xF6)).is_none());
    assert!(parse_boot_sector(&ntfs_boot(4, 0x80)).is_none(), "a shift of 128 is refused");
    assert!(parse_boot_sector(&ntfs_boot(4, 0xC0)).is_none(), "a shift of 64 is refused");
    assert!(parse_boot_sector(&ntfs_boot(4, 0xB6)).is_none(), "a shift of 74 is refused, not taken mod 64");
    assert_eq!(parse_boot_sector(&ntfs_boot(4, 0xF0)).unwrap().record_size, 65536);
    assert_eq!(parse_boot_sector(&ntfs_boot(4, 1)).unwrap().record_size, 4096);
}
