use rescueforge::applog::{log_cut_point, log_line, log_tail};
use rescueforge::disks::{disks_from_probes, drive_letter_for_index, DriveProbe};
use rescueforge::model::{FoundPartition, PartitionStatus};
use rescueforge::partition_repair::{
    gpt_found_partition, is_gpt_disk, mbr_found_partition, rebuild_entries, ImageCopy, ImageError,
    LostPartitionSearch,
};
use rescueforge::partition_table::{GptPartition, MbrPartition};
use rescueforge::privilege::{
    first_instance_action, is_app_window_title, is_root_uid, osascript_command, runas_command,
    takeover_action, takeover_command, InstanceAction, InstanceCheck, PrivilegeStatus,
};
use rescueforge::scheduler::{JobPriority, MemoryGuard};

fn fat32_boot(label: &str, sectors: u32) -> Vec<u8> {
    let mut s = vec![0u8; 512];
    s[510] = 0x55;
    s[511] = 0xAA;
    s[82..90].copy_from_slice(b"FAT32   ");
    s[0x20..0x24].copy_from_slice(&sectors.to_le_bytes());
    s[71..71 + label.len()].copy_from_slice(label.as_bytes());
    s
}

#[test]
fn table_partitions_from_mbr_and_gpt() {
    let ext = MbrPartition { bootable: false, ptype: 0x05, start_lba: 10, size_lba: 10 };
    assert!(mbr_found_partition(&ext, None).is_none());
    let e = MbrPartition { bootable: true, ptype: 0x0C, start_lba: 2048, size_lba: 4096 };
    let boot = fat32_boot("DATA", 4096);
    let (f, span) = mbr_found_partition(&e, Some(&boot)).unwrap();
    assert_eq!((f.start_sector, f.size_sectors), (2048, 4096));
    assert_eq!(f.filesystem, "FAT32");
    assert_eq!(f.label.as_deref(), Some("DATA"));
    assert_eq!(f.confidence_percent, 100);
    assert!(f.is_bootable);
    assert_eq!(span, (2048, 6144));
    let (g, _) = mbr_found_partition(&e, None).unwrap();
    assert_eq!(g.filesystem, "未知");
    assert!(g.label.is_none());

    assert!(is_gpt_disk(&[e, MbrPartition { bootable: false, ptype: 0xEE, start_lba: 1, size_lba: 100 }]));
    assert!(!is_gpt_disk(&[e]));
    let p = GptPartition { start_lba: 34, end_lba: 1000, name: "Basic data".into() };
    let (h, span) = gpt_found_partition(&p, None);
    assert_eq!((h.start_sector, h.size_sectors), (34, 967));
    assert_eq!(h.label.as_deref(), Some("Basic data"));
    assert!(!h.is_bootable);
    assert_eq!(span, (34, 1001));
    let q = GptPartition { start_lba: 50, end_lba: 10, name: String::new() };
    let (k, _) = gpt_found_partition(&q, None);
    assert_eq!(k.size_sectors, 1);
    assert!(k.label.is_none());
}

#[test]
fn lost_partition_search_skips_known_ranges() {
    let known = FoundPartition { start_sector: 0, size_sectors: 4096, filesystem: "NTFS".into(), label: None, confidence_percent: 100, is_bootable: false };
    let mut s = LostPartitionSearch::new(vec![known], vec![(0, 4096)], 10_000 * 512);
    // sectors 0 and 2048 are covered; 4096 is the first probe
    assert_eq!(s.next_probe(), Some(4096));
    s.feed(Some(&fat32_boot("LOST", 3000)));
    assert_eq!(s.lost(), 1);
    // the found partition covers 4096..7096, so 6144 is skipped and 8192 is next
    assert_eq!(s.next_probe(), Some(8192));
    s.feed(None);
    assert_eq!(s.next_probe(), None);
    let found = s.into_found();
    assert_eq!(found.len(), 2);
    assert_eq!((found[1].start_sector, found[1].size_sectors), (4096, 3000));
    assert_eq!(found[1].confidence_percent, 75);
    assert_eq!(found[1].label.as_deref(), Some("LOST"));
}

#[test]
fn rebuilt_mbr_entries() {
    let parts = vec![
        FoundPartition { start_sector: 2048, size_sectors: 1 << 40, filesystem: "FAT32".into(), label: None, confidence_percent: 100, is_bootable: true },
        FoundPartition { start_sector: (1 << 32) + 5, size_sectors: 10, filesystem: "exFAT".into(), label: None, confidence_percent: 75, is_bootable: false },
    ];
    let es = rebuild_entries(&parts);
    assert_eq!(es[0], MbrPartition { bootable: true, ptype: 0x0C, start_lba: 2048, size_lba: u32::MAX });
    assert_eq!(es[1], MbrPartition { bootable: false, ptype: 0x07, start_lba: 5, size_lba: 10 });
}

#[test]
fn disk_image_copy_progress() {
    let mut c = ImageCopy::new(5 * 1024 * 1024);
    assert_eq!(c.next_chunk(), Some((0, 4 * 1024 * 1024)));
    assert_eq!(c.record_read(4 * 1024 * 1024, true, false), Ok(()));
    assert_eq!(c.next_chunk(), Some((4 * 1024 * 1024, 1024 * 1024)));
    assert_eq!(c.record_read(1024 * 1024, false, false), Err(ImageError::ReadFailed(4 * 1024 * 1024)));
    assert_eq!(c.record_read(1024 * 1024, false, true), Ok(()));
    assert_eq!(c.next_chunk(), None);
    assert_eq!(c.sectors(), (10240, 10240, 2048));
}

#[test]
fn disks_are_listed_in_letter_order() {
    let probes = [
        DriveProbe { letter: 'A', drive_type: 1, total_bytes: 0, free_bytes: 0 },
        DriveProbe { letter: 'C', drive_type: 3, total_bytes: 512 * 1000, free_bytes: 512 * 10 },
        DriveProbe { letter: 'D', drive_type: 5, total_bytes: 512 * 77, free_bytes: 0 },
        DriveProbe { letter: 'E', drive_type: 2, total_bytes: 1024, free_bytes: 0 },
        DriveProbe { letter: 'F', drive_type: 3, total_bytes: 0, free_bytes: 0 },
    ];
    let disks = disks_from_probes(&probes);
    assert_eq!(disks.len(), 2);
    assert_eq!(disks[0].index, 0);
    assert_eq!(disks[0].model, "本地磁盘 (C:)");
    assert_eq!(disks[0].serial, "C");
    assert_eq!(disks[0].total_sectors, 1000);
    assert_eq!(disks[0].free_bytes, 5120);
    assert_eq!(disks[0].device_path, "PhysicalDrive0");
    assert_eq!(disks[0].partitions[0].mount_point.as_deref(), Some("C:\\"));
    assert_eq!(disks[0].partitions[0].status, PartitionStatus::Active);
    assert_eq!(disks[1].model, "本地磁盘 (E:) 可移动");
    assert!(disks[1].is_removable);
    assert_eq!(disks[1].device_path, "PhysicalDrive1");
    assert_eq!(drive_letter_for_index(0, &probes), Some('C'));
    assert_eq!(drive_letter_for_index(1, &probes), Some('E'));
    assert_eq!(drive_letter_for_index(2, &probes), None);
}

#[test]
fn privilege_commands_and_instance_rules() {
    assert!(is_root_uid(0));
    assert!(!is_root_uid(1000));
    assert!(PrivilegeStatus::new(true).elevated);
    assert_eq!(
        runas_command("C:\\rf\\scanner.exe", &["--scan", "D:"]),
        "Start-Process -FilePath 'C:\\rf\\scanner.exe' -ArgumentList '--scan D:' -Verb RunAs -Wait"
    );
    assert_eq!(
        takeover_command("C:\\rf\\app.exe"),
        "Start-Process -FilePath 'C:\\rf\\app.exe' -ArgumentList '--rf-takeover' -Verb RunAs"
    );
    assert_eq!(
        osascript_command("/Apps/scanner", &["a", "b"]),
        "do shell script \"'/Apps/scanner' a b\" with administrator privileges"
    );
    assert_eq!(first_instance_action(InstanceCheck::Exclusive, false), InstanceAction::Start);
    assert_eq!(first_instance_action(InstanceCheck::Failed, true), InstanceAction::Start);
    assert_eq!(first_instance_action(InstanceCheck::Taken, false), InstanceAction::ActivateAndExit);
    assert_eq!(first_instance_action(InstanceCheck::Taken, true), InstanceAction::WaitAndRetry);
    assert_eq!(takeover_action(InstanceCheck::Taken, 39), InstanceAction::WaitAndRetry);
    assert_eq!(takeover_action(InstanceCheck::Taken, 40), InstanceAction::Start);
    assert_eq!(takeover_action(InstanceCheck::Exclusive, 3), InstanceAction::Start);
    assert!(is_app_window_title("RescueForge - Home", 18));
    assert!(!is_app_window_title("RescueForge", 8));
    assert!(!is_app_window_title("Notepad - x", 11));
}

#[test]
fn log_lines_and_tail() {
    assert_eq!(log_line(0, 7, "INFO", "start"), "[1970-01-01 08:00:00.007] [INFO] start\n");
    assert_eq!(log_line(1_700_000_000, 123, "WARN", "x"), "[2023-11-15 06:13:20.123] [WARN] x\n");
    assert_eq!(log_cut_point(2 * 1024 * 1024), None);
    assert_eq!(log_cut_point(3 * 1024 * 1024), Some(3 * 512 * 1024));
    let text = (1..=15).map(|i| format!("line {}\r\n", i)).collect::<String>();
    let tail = log_tail(&text, Some(3));
    assert_eq!(tail.len(), 10);
    assert_eq!(tail[0], "line 6");
    assert_eq!(tail[9], "line 15");
    assert_eq!(log_tail(&text, None).len(), 15);
    assert_eq!(log_tail("a\n\nb\r", None), vec!["a".to_string(), "".to_string(), "b\r".to_string()]);
    assert!(log_tail("", Some(50)).is_empty());
}

#[test]
fn job_priorities_and_memory_guard() {
    assert!(JobPriority::Low < JobPriority::Normal);
    assert!(JobPriority::High < JobPriority::Critical);
    let _g = MemoryGuard::new();
}
