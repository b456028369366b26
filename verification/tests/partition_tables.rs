use rescueforge::partition_table::{
    build_mbr_sector, detect_boot_signature, fat_label_from_boot, fs_size_from_boot,
    parse_gpt_entries, parse_gpt_header, parse_mbr_entries, MbrPartition, check_rebuild_request,
    check_rebuild_target, RebuildRefusal,
};

/// A sector that carries only the 55AA signature.
fn blank_sector() -> Vec<u8> {
    let mut v = vec![0u8; 512];
    v[510] = 0x55;
    v[511] = 0xAA;
    v
}

fn make_ntfs_boot() -> Vec<u8> {
    let mut s = blank_sector();
    s[0] = 0xEB;
    s[1] = 0x52;
    s[2] = 0x90;
    s[3..11].copy_from_slice(b"NTFS    ");
    s[0x0B] = 0x00;
    s[0x0C] = 0x08;
    s[0x28..0x30].copy_from_slice(&100_000u64.to_le_bytes());
    s
}

fn make_fat32_boot(label: &str) -> Vec<u8> {
    let mut s = blank_sector();
    s[82..90].copy_from_slice(b"FAT32   ");
    s[0x20..0x24].copy_from_slice(&200_000u32.to_le_bytes());
    let lb = label.as_bytes();
    s[71..71 + lb.len().min(11)].copy_from_slice(&lb[..lb.len().min(11)]);
    s
}

#[test]
fn mbr_parse_roundtrip() {
    let mut mbr = blank_sector();
    mbr[0..8].copy_from_slice(b"BOOTCODE");
    // partition 1: bootable NTFS at LBA 2048, 1,000,000 sectors
    let off = 446;
    mbr[off] = 0x80;
    mbr[off + 4] = 0x07;
    mbr[off + 8..off + 12].copy_from_slice(&2048u32.to_le_bytes());
    mbr[off + 12..off + 16].copy_from_slice(&1_000_000u32.to_le_bytes());

    let entries = parse_mbr_entries(&mbr);
    assert_eq!(entries.len(), 1);
    assert!(entries[0].bootable);
    assert_eq!(entries[0].ptype, 0x07);
    assert_eq!(entries[0].start_lba, 2048);
    assert_eq!(entries[0].size_lba, 1_000_000);

    // rebuild: boot code kept, entries replaced
    let new = build_mbr_sector(&mbr, &[
        MbrPartition { bootable: false, ptype: 0x0C, start_lba: 4096, size_lba: 500 },
        MbrPartition { bootable: true, ptype: 0x07, start_lba: 8192, size_lba: 600 },
    ])
    .unwrap();
    assert_eq!(&new[0..8], b"BOOTCODE");
    let re = parse_mbr_entries(&new);
    assert_eq!(re.len(), 2);
    assert_eq!(re[0].ptype, 0x0C);
    assert_eq!(re[0].start_lba, 4096);
    assert!(re[1].bootable);
    assert_eq!(re[1].size_lba, 600);
}

#[test]
fn mbr_without_signature_returns_empty() {
    let mut bad = vec![0u8; 512];
    bad[446 + 4] = 0x07; // an entry but no 55AA
    assert!(parse_mbr_entries(&bad).is_empty());
}

#[test]
fn boot_signature_detection() {
    assert_eq!(detect_boot_signature(&make_ntfs_boot()), Some("NTFS"));
    assert_eq!(detect_boot_signature(&make_fat32_boot("MYDISK")), Some("FAT32"));

    let mut exfat = blank_sector();
    exfat[3..11].copy_from_slice(b"EXFAT   ");
    assert_eq!(detect_boot_signature(&exfat), Some("exFAT"));

    let mut fat16 = blank_sector();
    fat16[54..59].copy_from_slice(b"FAT16");
    assert_eq!(detect_boot_signature(&fat16), Some("FAT"));

    assert_eq!(detect_boot_signature(&blank_sector()), None);
}

#[test]
fn fs_size_inference() {
    assert_eq!(fs_size_from_boot(&make_ntfs_boot(), "NTFS"), Some(100_000));
    assert_eq!(fs_size_from_boot(&make_fat32_boot("X"), "FAT32"), Some(200_000));
}

#[test]
fn fat_label_extraction() {
    assert_eq!(fat_label_from_boot(&make_fat32_boot("DATA"), "FAT32"), Some("DATA".into()));
    assert_eq!(fat_label_from_boot(&make_fat32_boot("NO NAME"), "FAT32"), None);
    assert_eq!(fat_label_from_boot(&make_ntfs_boot(), "NTFS"), None);
}

#[test]
fn gpt_header_and_entries() {
    let mut hdr = blank_sector();
    hdr[0..8].copy_from_slice(b"EFI PART");
    hdr[0x48..0x50].copy_from_slice(&2u64.to_le_bytes()); // entries at LBA 2
    hdr[0x50..0x54].copy_from_slice(&128u32.to_le_bytes());
    hdr[0x54..0x58].copy_from_slice(&128u32.to_le_bytes());
    let g = parse_gpt_header(&hdr).unwrap();
    assert_eq!(g.partition_entry_lba, 2);
    assert_eq!(g.num_entries, 128);

    // one entry: start=2048 end=4095, name="WIN"
    let mut e = vec![0u8; 128];
    e[0] = 0x01; // non-zero type GUID
    e[32..40].copy_from_slice(&2048u64.to_le_bytes());
    e[40..48].copy_from_slice(&4095u64.to_le_bytes());
    let name = "WIN".encode_utf16().collect::<Vec<u16>>();
    for (i, c) in name.iter().enumerate() {
        e[56 + i * 2..58 + i * 2].copy_from_slice(&c.to_le_bytes());
    }
    let parts = parse_gpt_entries(&e, 128);
    assert_eq!(parts.len(), 1);
    assert_eq!(parts[0].start_lba, 2048);
    assert_eq!(parts[0].end_lba, 4095);
    assert_eq!(parts[0].name, "WIN");
}

#[test]
fn rebuild_refuses_gpt_disks_and_unsigned_sectors() {
    // a protective MBR: one entry of type 0xEE, whatever its first bytes hold
    let mut pmbr = blank_sector();
    pmbr[446 + 4] = 0xEE;
    assert_eq!(check_rebuild_target(&pmbr), Err(RebuildRefusal::GptDisk));
    pmbr[447] = 0x02;
    assert_eq!(check_rebuild_target(&pmbr), Err(RebuildRefusal::GptDisk));
    let mut later = blank_sector();
    later[446 + 16 + 4] = 0x07;
    later[446 + 32 + 4] = 0xEE;
    assert_eq!(check_rebuild_target(&later), Err(RebuildRefusal::GptDisk));
    let mut mbr = blank_sector();
    mbr[446 + 4] = 0x07;
    assert_eq!(check_rebuild_target(&mbr), Ok(()));
    assert_eq!(check_rebuild_target(&blank_sector()), Ok(()));
    let mut unsigned = pmbr.clone();
    unsigned[510] = 0;
    assert_eq!(check_rebuild_target(&unsigned), Err(RebuildRefusal::NoMbrSignature));

    assert_eq!(check_rebuild_request(0, true), Err(RebuildRefusal::NoPartitions));
    assert_eq!(check_rebuild_request(5, true), Err(RebuildRefusal::TooManyPartitions));
    assert_eq!(check_rebuild_request(2, false), Err(RebuildRefusal::NotElevated));
    assert_eq!(check_rebuild_request(4, true), Ok(()));
}
