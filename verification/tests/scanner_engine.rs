use rescueforge::carving::{reassemble_fragments, stable_order_of, CarvingEngine, FileSignature};
use rescueforge::model::SidecarCommand;
use rescueforge::scanner::{
    backup_boot_sector, create_disk_image, detect_filesystem, invalid_command_message, is_exfat_volume,
    is_ext_volume, is_fat_volume, is_ntfs_volume, parse_ext4, parse_fat, parse_gpt_header, parse_mbr,
    parse_ntfs, read_smart_data, rebuild_partition_table, restore_boot_sector, search_lost_partitions,
    sidecar_step, ScanError, SidecarReply,
};

fn sig(ext: &str, enabled: bool) -> FileSignature {
    FileSignature {
        id: 1,
        extension: ext.to_string(),
        description: None,
        header_bytes: vec![0xFF, 0xD8],
        footer_bytes: None,
        max_size_bytes: Some(1024),
        enabled,
    }
}

#[test]
fn volume_probes_check_their_magic() {
    let mut ext = vec![0u8; 0x43A];
    assert!(!is_ext_volume(&ext));
    ext[0x438] = 0x53;
    ext[0x439] = 0xEF;
    assert!(is_ext_volume(&ext));
    assert!(!is_ext_volume(&ext[..0x439]));

    let mut fat = vec![0u8; 512];
    assert!(!is_fat_volume(&fat));
    fat[0] = 0xEB;
    assert!(is_fat_volume(&fat));
    fat[0] = 0xE9;
    assert!(is_fat_volume(&fat));
    assert!(!is_fat_volume(&fat[..511]));

    let mut exfat = vec![0u8; 11];
    exfat[3..11].copy_from_slice(b"EXFAT   ");
    assert!(is_exfat_volume(&exfat));
    assert!(!is_exfat_volume(&exfat[..10]));
    exfat[10] = b'X';
    assert!(!is_exfat_volume(&exfat));

    let mut ntfs = vec![0u8; 8];
    ntfs[3..8].copy_from_slice(b"NTFS ");
    assert!(is_ntfs_volume(&ntfs));
    assert!(!is_ntfs_volume(&ntfs[..7]));
}

#[test]
fn unimplemented_operations_report_so() {
    assert_eq!(backup_boot_sector("sda", "/tmp/x").unwrap_err(), ScanError::NotImplemented);
    assert_eq!(restore_boot_sector("sda", "/tmp/x").unwrap_err(), ScanError::NotImplemented);
    assert_eq!(create_disk_image("sda", "/tmp/x", true).unwrap_err(), ScanError::NotImplemented);
    assert_eq!(rebuild_partition_table("sda", &[]).unwrap_err(), ScanError::NotImplemented);
    assert!(parse_ntfs(&[0u8; 16], 0).unwrap().is_empty());
    assert!(parse_fat(&[0u8; 16], 0).unwrap().is_empty());
    assert!(parse_ext4(&[0u8; 16], 0).unwrap().is_empty());
    assert!(search_lost_partitions(&[0u8; 16], 1).unwrap().is_empty());
    let smart = read_smart_data("sda").unwrap();
    assert!(smart.healthy);
    assert!(smart.attributes.is_empty() && smart.temperature.is_none() && smart.warning.is_none());
}

#[test]
fn helper_mbr_parse_errors_and_entries() {
    assert_eq!(parse_mbr(&[0u8; 100]).unwrap_err(), ScanError::MbrTooSmall);
    let mut mbr = vec![0u8; 512];
    assert_eq!(parse_mbr(&mbr).unwrap_err(), ScanError::MbrBadSignature);
    mbr[510] = 0x55;
    mbr[511] = 0xAA;
    assert!(parse_mbr(&mbr).unwrap().is_empty());
    // slot 2: bootable, type 0x83, CHS fields, LBA 63, 1000 sectors
    let o = 446 + 16;
    mbr[o] = 0x80;
    mbr[o + 1] = 1;
    mbr[o + 2] = 2;
    mbr[o + 3] = 3;
    mbr[o + 4] = 0x83;
    mbr[o + 5] = 5;
    mbr[o + 6] = 6;
    mbr[o + 7] = 7;
    mbr[o + 8..o + 12].copy_from_slice(&63u32.to_le_bytes());
    mbr[o + 12..o + 16].copy_from_slice(&1000u32.to_le_bytes());
    let es = parse_mbr(&mbr).unwrap();
    assert_eq!(es.len(), 1);
    let e = es[0];
    assert!(e.bootable);
    assert_eq!((e.start_head, e.start_sector, e.start_cylinder), (1, 2, 3));
    assert_eq!(e.partition_type, 0x83);
    assert_eq!((e.end_head, e.end_sector, e.end_cylinder), (5, 6, 7));
    assert_eq!((e.first_sector, e.total_sectors), (63, 1000));
    assert_eq!(detect_filesystem(e.partition_type), "Linux (ext2/3/4)");
}

#[test]
fn helper_gpt_header_fields() {
    assert_eq!(parse_gpt_header(&[0u8; 91]).unwrap_err(), ScanError::GptTooSmall);
    let mut h = vec![0u8; 92];
    assert_eq!(parse_gpt_header(&h).unwrap_err(), ScanError::GptBadSignature);
    h[0..8].copy_from_slice(b"EFI PART");
    h[8..12].copy_from_slice(&0x0001_0000u32.to_le_bytes());
    h[12..16].copy_from_slice(&92u32.to_le_bytes());
    h[24..32].copy_from_slice(&1u64.to_le_bytes());
    h[32..40].copy_from_slice(&999u64.to_le_bytes());
    h[56..72].copy_from_slice(&[7u8; 16]);
    h[72..80].copy_from_slice(&2u64.to_le_bytes());
    h[80..84].copy_from_slice(&128u32.to_le_bytes());
    h[84..88].copy_from_slice(&128u32.to_le_bytes());
    let g = parse_gpt_header(&h).unwrap();
    assert_eq!(&g.signature, b"EFI PART");
    assert_eq!(g.revision, 0x0001_0000);
    assert_eq!(g.header_size, 92);
    assert_eq!((g.current_lba, g.backup_lba), (1, 999));
    assert_eq!(g.disk_guid, [7u8; 16]);
    assert_eq!(g.partition_entry_lba, 2);
    assert_eq!((g.num_partition_entries, g.partition_entry_size), (128, 128));
}

#[test]
fn filesystem_names_of_partition_types() {
    assert_eq!(detect_filesystem(0x07), "NTFS/exFAT");
    assert_eq!(detect_filesystem(0x0C), "FAT32 (LBA)");
    assert_eq!(detect_filesystem(0xEE), "GPT Protective");
    assert_eq!(detect_filesystem(0xEF), "EFI System");
    assert_eq!(detect_filesystem(0x42), "Unknown");
}

#[test]
fn carving_engine_keeps_enabled_signatures() {
    let mut e = CarvingEngine::new(vec![sig("jpg", true), sig("png", false), sig("gif", true)]);
    assert_eq!(e.get_progress(), (0, 0));
    assert!(e.carve(&[1, 2, 3], 0).unwrap().is_empty());
    e.cancel();
    assert_eq!(e.get_progress(), (0, 0));
}

#[test]
fn fragments_join_by_offset_keeping_ties_in_order() {
    let frags = vec![(vec![3u8, 3], 30u64), (vec![1u8], 10), (vec![2u8], 20), (vec![4u8], 10)];
    assert_eq!(reassemble_fragments(&frags).unwrap(), vec![1, 4, 2, 3, 3]);
    assert!(reassemble_fragments(&[]).unwrap().is_empty());
    assert_eq!(stable_order_of(&[5, 1, 5, 0]), vec![3, 1, 0, 2]);
    let total: usize = frags.iter().map(|(d, _)| d.len()).sum();
    assert_eq!(reassemble_fragments(&frags).unwrap().len(), total);
}

#[test]
fn helper_answers_each_command() {
    let scan = SidecarCommand::Scan { device_path: "sdb".into(), scan_mode: "deep".into(), signature_ids: None };
    assert_eq!(
        sidecar_step(&scan),
        SidecarReply::Log { level: "info".into(), message: "Starting scan on sdb (mode: deep)".into() }
    );
    assert_eq!(sidecar_step(&SidecarCommand::Pause), SidecarReply::Nothing);
    assert_eq!(sidecar_step(&SidecarCommand::Resume), SidecarReply::Nothing);
    assert_eq!(sidecar_step(&SidecarCommand::Cancel), SidecarReply::Stop);
    assert_eq!(invalid_command_message("eof"), "Invalid command: eof");
}
