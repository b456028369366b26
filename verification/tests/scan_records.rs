use rescueforge::scan::{
    candidate_file_name, completion_message, count_deleted, deep_start_message, deleted_found_message,
    ext_lower, file_id, make_found_file, match_signature, parse_recover_request, path_done_message,
    path_start_message, prepare_scan_paths, preview_len, recover_message, recycle_data_name,
    recycle_dest_name, recycle_found_file, result_page, unique_dest_path, NameConflict, skip_walk_dir, target_dir_for_drive,
    validation_for, walk_entry_action, walk_progress_message, walk_visits, FoundFile, PathError,
    PathKind, RecoverTarget, WalkAction, recycle_meta_in, ResultBatcher, RESULT_BATCH,
};

#[test]
fn signatures_by_magic_bytes() {
    assert_eq!(match_signature(&[0xFF]), "Unknown");
    assert_eq!(match_signature(&[0xFF, 0xD8, 0xFF]), "JPEG");
    assert_eq!(match_signature(b"\x89PNG\r\n"), "PNG");
    assert_eq!(match_signature(b"\x89PX"), "Other");
    assert_eq!(match_signature(b"GIF89a"), "GIF");
    assert_eq!(match_signature(b"%PDF-1.4"), "PDF");
    assert_eq!(match_signature(&[b'P', b'K', 3, 4]), "ZIP/DOCX");
    assert_eq!(match_signature(b"ID3\x04"), "MP3");
    assert_eq!(match_signature(b"SQLite format 3\0"), "SQLite");
    assert_eq!(match_signature(b"SQLite"), "Other");
    assert_eq!(match_signature(b"{\"a\":1}"), "JSON");
    assert_eq!(match_signature(&[0, 0, 1, 0]), "TTF");
    assert_eq!(match_signature(b"<html"), "HTML");
    assert_eq!(match_signature(b"hello"), "Other");
}

#[test]
fn found_file_records_number_and_type() {
    let f = FoundFile::new_found("f-9".into(), "a.TXT".into(), "/x/a.TXT".into(), "txt".into(), 5, "Other".into(), None, false);
    assert_eq!(f.id, "f-9");
    assert!(f.original_path.is_none() && f.data_intact.is_none());

    let mut counter = 41u64;
    assert!(make_found_file(&mut counter, "empty.bin".into(), "/x/empty.bin".into(), 0, "Unknown").is_none());
    assert_eq!(counter, 41);
    let g = make_found_file(&mut counter, "Photo.JPG".into(), "/x/Photo.JPG".into(), 10, "JPEG").unwrap();
    assert_eq!(counter, 42);
    assert_eq!(g.id, "f-42");
    assert_eq!(g.extension, "jpg");
    assert_eq!(g.file_type, "JPEG");
    assert!(!g.deleted);

    assert_eq!(file_id(0), "f-0");
    assert_eq!(ext_lower("archive.TAR.GZ"), "gz");
    assert_eq!(ext_lower("README"), "");
    assert_eq!(ext_lower(".bashrc"), "");
}

#[test]
fn recycle_bin_records() {
    assert_eq!(recycle_data_name("$IAB12CD.txt").as_deref(), Some("$RAB12CD.txt"));
    assert_eq!(recycle_data_name("$I"), None);
    assert_eq!(recycle_data_name("$RAB12CD.txt"), None);

    let mut counter = 0u64;
    let f = recycle_found_file(&mut counter, "D:\\docs\\Report.DOCX".into(), "Report.DOCX".into(), "D:\\$RECYCLE.BIN\\S-1\\$R1.DOCX", 99, "ZIP/DOCX", 1_700_000_000);
    assert_eq!(counter, 1);
    assert_eq!(f.id, "f-1");
    assert_eq!(f.filepath, "recycle://D:\\$RECYCLE.BIN\\S-1\\$R1.DOCX||Report.DOCX");
    assert_eq!(f.extension, "docx");
    assert_eq!(f.modified_time.as_deref(), Some("2023-11-14 22:13:20"));
    assert!(f.deleted);
    assert_eq!(f.original_path.as_deref(), Some("D:\\docs\\Report.DOCX"));
    assert_eq!(f.data_intact, Some(true));
}

#[test]
fn scan_paths_are_normalised_sorted_and_deduplicated() {
    let inputs = vec!["  D:\\a ".to_string(), "\"D:\\a\"".into(), "   ".into(), "D:\\gone".into(), "D:\\b".into()];
    let kinds = [PathKind::Dir, PathKind::Dir, PathKind::Missing, PathKind::Missing, PathKind::File];
    let (valid, invalid) = prepare_scan_paths(inputs, &kinds, false);
    assert_eq!(valid, vec!["D:\\a".to_string(), "D:\\b".to_string()]);
    assert_eq!(invalid, vec!["D:\\gone".to_string()]);

    let inputs = vec!["D:/a".to_string(), "D:\\a".into(), "D:/gone".into()];
    let kinds = [PathKind::Dir, PathKind::Dir, PathKind::Missing];
    let (valid, invalid) = prepare_scan_paths(inputs.clone(), &kinds, true);
    assert_eq!(valid, vec!["D:\\a".to_string()]);
    assert_eq!(invalid, vec!["D:\\gone".to_string()]);
    let (valid, _) = prepare_scan_paths(inputs, &kinds, false);
    assert_eq!(valid, vec!["D:/a".to_string(), "D:\\a".to_string()]);
}

#[test]
fn typed_in_path_validation() {
    assert!(matches!(validation_for("   ", PathKind::Dir, false), Err(PathError::Empty)));
    let v = validation_for(" \"D:\\x\" ", PathKind::File, false).unwrap();
    assert_eq!(v.normalized, "D:\\x");
    assert_eq!(v.kind, "file");
    assert_eq!(validation_for("a", PathKind::Missing, false).unwrap().kind, "missing");
    assert_eq!(validation_for("a", PathKind::Dir, false).unwrap().kind, "dir");
    assert_eq!(validation_for(" D:/temp/sub ", PathKind::Dir, true).unwrap().normalized, "D:\\temp\\sub");
    assert_eq!(validation_for("D:/temp", PathKind::Dir, false).unwrap().normalized, "D:/temp");
}

#[test]
fn recovered_file_names() {
    assert_eq!(candidate_file_name("a.txt", 0), "a.txt");
    assert_eq!(candidate_file_name("a.txt", 1), "a (1).txt");
    assert_eq!(candidate_file_name("archive.tar.gz", 12), "archive.tar (12).gz");
    assert_eq!(candidate_file_name("README", 3), "README (3)");
    assert_eq!(candidate_file_name("", 0), "recovered.bin");
    assert_eq!(candidate_file_name("", 2), "recovered (2).bin");
    assert_eq!(candidate_file_name(".profile", 1), ".profile (1)");
    assert_eq!(recycle_dest_name("a<b>:c.txt", "$R1.txt"), "a_b__c.txt");
    assert_eq!(recycle_dest_name("   ", "$R1.txt"), "$R1.txt");
}

#[test]
fn recovery_requests_name_their_source() {
    let r = parse_recover_request("f-1||recycle://D:\\$RECYCLE.BIN\\S\\$R1.txt||a.txt");
    match r.target {
        RecoverTarget::Recycle { data_path, original_name } => {
            assert_eq!(data_path, "D:\\$RECYCLE.BIN\\S\\$R1.txt");
            assert_eq!(original_name, "a.txt");
        }
        _ => panic!("expected a recycle-bin target"),
    }
    assert_eq!(r.name_hint, "$R1.txt||a.txt");

    let r = parse_recover_request("f-2||ntfs://D:/1234||D:\\temp\\b.doc");
    match r.target {
        RecoverTarget::Deleted { encoded, original_path } => {
            assert_eq!(encoded, "ntfs://D:/1234");
            assert_eq!(original_path, "D:\\temp\\b.doc");
        }
        _ => panic!("expected a deleted-file target"),
    }
    let r = parse_recover_request("f-3||recycleresidue://E:/77");
    assert!(matches!(r.target, RecoverTarget::Deleted { ref original_path, .. } if original_path.is_empty()));

    let r = parse_recover_request("f-4||/home/u/c.png");
    match r.target {
        RecoverTarget::Existing { path } => assert_eq!(path, "/home/u/c.png"),
        _ => panic!("expected an existing file"),
    }
    assert_eq!(r.name_hint, "c.png");
    let r = parse_recover_request("plain");
    assert!(matches!(r.target, RecoverTarget::Existing { ref path } if path == "plain"));
}

#[test]
fn result_pages_are_clamped() {
    assert_eq!(result_page(10, None, None), (0, 10));
    assert_eq!(result_page(5000, None, None), (0, 1000));
    assert_eq!(result_page(9000, Some(100), Some(7000)), (100, 5100));
    assert_eq!(result_page(10, Some(20), Some(5)), (10, 10));
    assert_eq!(result_page(10, Some(8), Some(5)), (8, 10));
    assert_eq!(preview_len(3), 3);
    assert_eq!(preview_len(5000), 2000);
}

#[test]
fn deep_phase_helpers() {
    let dirs = vec!["d:\\temp".to_string(), "E:\\x".into(), "D:\\other".into()];
    assert_eq!(target_dir_for_drive(&dirs, 'D'), Some(0));
    assert_eq!(target_dir_for_drive(&dirs, 'E'), Some(1));
    assert_eq!(target_dir_for_drive(&dirs, 'F'), None);
    assert!(skip_walk_dir("$RECYCLE.BIN"));
    assert!(skip_walk_dir("System Volume Information"));
    assert!(skip_walk_dir("node_modules"));
    assert!(!skip_walk_dir("src"));
    let mut c = 0u64;
    let a = make_found_file(&mut c, "a".into(), "a".into(), 1, "Other").unwrap();
    let mut b = a.clone();
    b.deleted = true;
    assert_eq!(count_deleted(&[a.clone(), b.clone(), b]), 2);
}

#[test]
fn scan_messages() {
    assert_eq!(path_start_message(1, 3, "temp"), "[1/3] 正在扫描: temp");
    assert_eq!(path_done_message(2, 3, "temp", 15), "[2/3] 完成: temp — 累计 15 文件");
    assert_eq!(walk_progress_message("temp", 7), "[temp] 已扫描 7 个文件");
    assert_eq!(deep_start_message(2), "进入深度恢复阶段: 扫描 2 个卷的回收站与已删除文件");
    assert_eq!(deleted_found_message(false, 4), "回收站: 已发现 4 个已删除文件");
    assert_eq!(deleted_found_message(true, 0), "深度扫描: 已发现 0 个已删除文件");
    assert_eq!(recover_message("a.txt", None), "已恢复: a.txt");
    assert_eq!(recover_message("a.txt", Some("busy")), "失败 a.txt: busy");
    assert_eq!(
        completion_message(1, 10, 2, &[]),
        "完成! 1 路径: 10 个现存文件, 2 个可恢复的已删除文件"
    );
    assert_eq!(
        completion_message(2, 0, 0, &["需要管理员".to_string(), "卷 D 不可用".to_string()]),
        "完成! 2 路径: 0 个现存文件, 0 个可恢复的已删除文件 | ⚠ 需要管理员；卷 D 不可用"
    );
}

#[test]
fn recovered_names_never_overwrite() {
    assert_eq!(unique_dest_path("a.txt", &[]).unwrap(), "a.txt");
    let taken = vec!["a.txt".to_string(), "a (1).txt".to_string(), "b.txt".to_string()];
    assert_eq!(unique_dest_path("a.txt", &taken).unwrap(), "a (2).txt");
    assert_eq!(unique_dest_path("", &["recovered.bin".to_string()]).unwrap(), "recovered (1).bin");
    let mut all = vec!["x".to_string()];
    for n in 1..9999 {
        all.push(format!("x ({})", n));
    }
    assert_eq!(unique_dest_path("x", &all), Err(NameConflict::TooManyConflicts));
    all.pop();
    assert_eq!(unique_dest_path("x", &all).unwrap(), "x (9998)");
}

#[test]
fn recovered_names_ignore_case_of_existing_files() {
    let taken = vec!["A.TXT".to_string(), "a (1).Txt".to_string()];
    assert_eq!(unique_dest_path("a.txt", &taken).unwrap(), "a (2).txt");
    assert_eq!(unique_dest_path("Photo.jpg", &["photo.JPG".to_string()]).unwrap(), "Photo (1).jpg");
    assert_eq!(unique_dest_path("b.txt", &taken).unwrap(), "b.txt");
}

#[test]
fn directory_walk_decisions() {
    assert_eq!(walk_entry_action(0, PathKind::Dir, "photos"), WalkAction::Descend);
    assert_eq!(walk_entry_action(14, PathKind::Dir, "photos"), WalkAction::Descend);
    assert_eq!(walk_entry_action(15, PathKind::Dir, "photos"), WalkAction::Skip);
    assert_eq!(walk_entry_action(0, PathKind::Dir, "$RECYCLE.BIN"), WalkAction::Skip);
    assert_eq!(walk_entry_action(0, PathKind::Dir, "node_modules"), WalkAction::Skip);
    assert_eq!(walk_entry_action(0, PathKind::Dir, "System Volume Information"), WalkAction::Skip);
    assert_eq!(walk_entry_action(15, PathKind::File, "a.txt"), WalkAction::Take);
    assert_eq!(walk_entry_action(3, PathKind::File, "$a.txt"), WalkAction::Take);
    assert_eq!(walk_entry_action(3, PathKind::Missing, "dev"), WalkAction::Skip);
    assert!(walk_visits(0));
    assert!(walk_visits(15));
    assert!(!walk_visits(16));
}

fn v2_meta(path: &str, unix: u64) -> Vec<u8> {
    let ft = (unix + 11_644_473_600) * 10_000_000;
    let units: Vec<u16> = path.encode_utf16().collect();
    let mut buf = Vec::new();
    buf.extend_from_slice(&2u64.to_le_bytes());
    buf.extend_from_slice(&0u64.to_le_bytes());
    buf.extend_from_slice(&ft.to_le_bytes());
    buf.extend_from_slice(&(units.len() as u32).to_le_bytes());
    for u in units {
        buf.extend_from_slice(&u.to_le_bytes());
    }
    buf
}

#[test]
fn recycle_metadata_kept_only_inside_target() {
    let buf = v2_meta("D:\\docs\\report.txt", 1_700_000_000);
    assert_eq!(recycle_meta_in(&buf, None), Some(("D:\\docs\\report.txt".to_string(), 1_700_000_000)));
    assert_eq!(recycle_meta_in(&buf, Some("d:\\DOCS\\")), Some(("D:\\docs\\report.txt".to_string(), 1_700_000_000)));
    assert_eq!(recycle_meta_in(&buf, Some("D:\\doc")), None);
    assert_eq!(recycle_meta_in(&buf, Some("E:\\docs")), None);
    assert_eq!(recycle_meta_in(&[0u8; 10], None), None);
}

#[test]
fn results_are_handed_on_in_batches() {
    let mut b = ResultBatcher::new();
    let mut counter = 0u64;
    let mut starts = Vec::new();
    for i in 0..(2 * RESULT_BATCH + 7) {
        let f = make_found_file(&mut counter, format!("f{}.txt", i), format!("C:\\f{}.txt", i), 1, "Text").unwrap();
        if let Some(start) = b.push(f) {
            assert_eq!(b.handed_files().len() - start, RESULT_BATCH);
            starts.push(start);
        }
    }
    assert_eq!(starts, vec![0, RESULT_BATCH]);
    assert_eq!(b.count(), 2 * RESULT_BATCH + 7);
    assert_eq!(b.handed_files().len(), 2 * RESULT_BATCH);
    assert_eq!(b.flush(), Some(2 * RESULT_BATCH));
    assert_eq!(b.flush(), None);
    let files = b.into_files();
    assert_eq!(files.len(), 2 * RESULT_BATCH + 7);
    for (i, f) in files.iter().enumerate() {
        assert_eq!(f.filename, format!("f{}.txt", i));
    }
}
