use rescueforge::deleted_scan::{
    best_name_index, candidate_data, candidate_name, deleted_file_name, deleted_found_file,
    deleted_scan_limit, extent_records, is_deleted_record, join_dir, keep_for_filter, limit_message,
    mft_chunk_plan, mft_extent_records, mft_percent, parse_deleted_ref, parse_u64, progress_message,
    record_read_plan, record_slots, recover_deleted_file, recovery_name_index, recovery_refusal,
    recovery_size, residue_found_file, residue_kind, run_read_plan, scan_failure_note, note_for_lowered,
    scan_volume_deleted, vcn_to_lcn, CandidateData, DeletedRecoverError, DeletedRefError, DirPathWalk,
    MftChunk, ReadPiece, RecordReadError, RecoverRefusal, RecycleResidue, ResidueData,
};
use rescueforge::ntfs::{NameInfo, ParsedRecord};

fn name(n: &str, ns: u8, size: u64) -> NameInfo {
    NameInfo { name: n.to_string(), namespace: ns, size, mtime_unix: 0, parent_ref: 5 }
}

fn record(names: Vec<NameInfo>) -> ParsedRecord {
    ParsedRecord {
        in_use: false,
        names,
        resident_data: None,
        data_runs: vec![(100, 2)],
        data_size: 0,
        compressed: false,
        attr_list_present: false,
        attr_list_resident: None,
        attr_list_runs: vec![],
        attr_list_size: 0,
    }
}

#[test]
fn name_choice_prefers_win32_then_posix_then_both() {
    let names = vec![name("LONGFI~1.TXT", 2, 0), name("both.txt", 3, 0), name("posix.txt", 0, 0)];
    assert_eq!(best_name_index(&names), Some(2));
    assert_eq!(recovery_name_index(&names), Some(2));
    let names = vec![name("LONGFI~1.TXT", 2, 0), name("both.txt", 3, 0)];
    assert_eq!(best_name_index(&names), Some(1));
    assert_eq!(recovery_name_index(&names), None);
    let names = vec![name("w.txt", 1, 0), name("p.txt", 0, 0)];
    assert_eq!(best_name_index(&names), Some(0));
    assert_eq!(best_name_index(&[name("X~1", 2, 0)]), None);
}

#[test]
fn deleted_records_and_candidates() {
    let mut rec = vec![0u8; 1024];
    rec[0..4].copy_from_slice(b"FILE");
    assert!(is_deleted_record(&rec));
    rec[0x16] = 0x01;
    assert!(!is_deleted_record(&rec));
    rec[0x16] = 0x02;
    assert!(is_deleted_record(&rec));
    assert!(!is_deleted_record(&rec[..0x17]));
    rec[0] = b'B';
    assert!(!is_deleted_record(&rec));

    let p = record(vec![name("a.txt", 1, 10)]);
    assert_eq!(candidate_name(&p), Some(0));
    let mut q = record(vec![name("$R12345.txt", 1, 10)]);
    assert_eq!(candidate_name(&q), None);
    q.names = vec![name("", 1, 0)];
    assert_eq!(candidate_name(&q), None);
    let mut r = record(vec![name("a.txt", 1, 10)]);
    r.in_use = true;
    assert_eq!(candidate_name(&r), None);
    r.in_use = false;
    r.compressed = true;
    assert_eq!(candidate_name(&r), None);

    assert!(matches!(candidate_data(&p), CandidateData::Runs(ref v) if v == &vec![(100, 2)]));
    let mut res = record(vec![]);
    res.resident_data = Some((0u8..40).collect());
    assert!(matches!(candidate_data(&res), CandidateData::Resident(ref h) if h.len() == 32 && h[31] == 31));
    res.resident_data = Some(vec![]);
    assert!(matches!(candidate_data(&res), CandidateData::NoData));
    let mut ext = record(vec![]);
    ext.attr_list_present = true;
    assert!(matches!(candidate_data(&ext), CandidateData::ExtentRuns));
    ext.attr_list_present = false;
    ext.data_runs.clear();
    assert!(matches!(candidate_data(&ext), CandidateData::NoData));
}

#[test]
fn deleted_file_records() {
    assert_eq!(join_dir("D:\\", "a.txt"), "D:\\a.txt");
    assert_eq!(join_dir("D:\\temp", "a.txt"), "D:\\temp\\a.txt");
    assert!(keep_for_filter(None, Some("D:\\temp")));
    assert!(keep_for_filter(Some("C:\\x\\a.txt"), None));
    assert!(keep_for_filter(Some("D:\\Temp\\Sub\\a.txt"), Some("d:\\temp\\")));
    assert!(!keep_for_filter(Some("D:\\other\\a.txt"), Some("D:\\temp")));

    let mut counter = 0u64;
    let n = NameInfo { name: "Movie.MP4".into(), namespace: 1, size: 500, mtime_unix: 0, parent_ref: 5 };
    assert!(deleted_found_file(&mut counter, &name("z", 1, 0), 0, &[], 30, 'D', None).is_none());
    assert_eq!(counter, 0);
    let f = deleted_found_file(&mut counter, &n, 100, &[0u8; 32], 1234, 'D', Some("D:\\v\\Movie.MP4".into())).unwrap();
    assert_eq!(counter, 1);
    assert_eq!(f.id, "f-1");
    assert_eq!(f.filepath, "ntfs://D:/1234");
    assert_eq!(f.extension, "mp4");
    assert_eq!(f.size_bytes, 500);
    assert_eq!(f.file_type, "Other");
    assert_eq!(f.data_intact, Some(false));
    assert!(f.modified_time.is_none());
    let g = deleted_found_file(&mut counter, &n, 900, &[0xFF, 0xD8], 7, 'E', None).unwrap();
    assert_eq!((g.size_bytes, g.file_type.as_str(), g.data_intact), (900, "JPEG", Some(true)));
    let h = deleted_found_file(&mut counter, &n, 1, &[], 8, 'E', None).unwrap();
    assert_eq!((h.file_type.as_str(), h.data_intact), ("Unknown", None));
}

#[test]
fn recycle_residue_pairs_data_and_metadata() {
    assert_eq!(residue_kind("$RAB12CD.txt"), Some((true, "AB12CD.txt".to_string())));
    assert_eq!(residue_kind("$IAB12CD.txt"), Some((false, "AB12CD.txt".to_string())));
    assert_eq!(residue_kind("$Rab"), None);
    assert_eq!(residue_kind("$R中"), Some((true, "中".to_string())));
    assert_eq!(residue_kind("report.txt"), None);

    let mut res = RecycleResidue::new();
    res.insert_data("ABC.txt".into(), ResidueData { record: 40, head: None, runs: vec![], size: 10 });
    res.insert_data("ABC.txt".into(), ResidueData { record: 41, head: None, runs: vec![(5, 1)], size: 11 });
    res.insert_data("XYZ.doc".into(), ResidueData { record: 50, head: None, runs: vec![], size: 20 });
    res.insert_meta("ABC.txt".into(), 60, "D:\\docs\\a.txt".into());
    let entries = res.data_entries();
    assert_eq!(entries, vec![("ABC.txt".to_string(), 41, 11), ("XYZ.doc".to_string(), 50, 20)]);
    assert_eq!(res.original_path_of(&"ABC.txt".to_string()).as_deref(), Some("D:\\docs\\a.txt"));
    assert_eq!(res.original_path_of(&"XYZ.doc".to_string()), None);

    let mut counter = 5u64;
    let f = residue_found_file(&mut counter, "ABC.txt", 41, 11, Some("D:\\docs\\a.txt".into()), Some("a.txt".into()), &[b'h', b'i'], 'D', Some("D:\\docs")).unwrap();
    assert_eq!(f.id, "f-6");
    assert_eq!(f.filepath, "recycleresidue://D:/41");
    assert_eq!(f.filename, "a.txt");
    assert_eq!(f.data_intact, Some(true));
    assert!(residue_found_file(&mut counter, "ABC.txt", 41, 11, Some("D:\\docs\\a.txt".into()), Some("a.txt".into()), &[], 'D', Some("D:\\other")).is_none());
    assert_eq!(counter, 6);
    let g = residue_found_file(&mut counter, "XYZ.doc", 50, 20, None, None, &[], 'D', Some("D:\\other")).unwrap();
    assert_eq!(g.filename, "recovered_XYZ.doc.bin");
    assert_eq!(g.extension, "bin");
}

#[test]
fn deleted_file_references() {
    assert_eq!(parse_deleted_ref("ntfs://D:/1234"), Ok(('D', 1234)));
    assert_eq!(parse_deleted_ref("recycleresidue://E:/+7"), Ok(('E', 7)));
    assert_eq!(parse_deleted_ref("file://D:/1"), Err(DeletedRefError::BadEncoding));
    assert_eq!(parse_deleted_ref("ntfs://D-1"), Err(DeletedRefError::BadEncoding));
    assert_eq!(parse_deleted_ref("ntfs://:/1"), Err(DeletedRefError::NoDrive));
    assert_eq!(parse_deleted_ref("ntfs://D:/12x"), Err(DeletedRefError::BadRecord));
    assert_eq!(parse_deleted_ref("ntfs://D:/"), Err(DeletedRefError::BadRecord));
    let digits: Vec<char> = "18446744073709551615".chars().collect();
    assert_eq!(parse_u64(&digits), Some(u64::MAX));
    let over: Vec<char> = "18446744073709551616".chars().collect();
    assert_eq!(parse_u64(&over), None);
    assert_eq!(parse_u64(&['+']), None);
    assert_eq!(parse_u64(&['-', '1']), None);
}

#[test]
fn recovery_of_a_deleted_record() {
    let mut p = record(vec![name("a:b.txt", 1, 70)]);
    p.data_size = 50;
    assert_eq!(recovery_refusal(&p), None);
    assert_eq!(recovery_size(&p), 70);
    assert_eq!(deleted_file_name(None, &p.names, 9), "a_b.txt");
    assert_eq!(deleted_file_name(Some(""), &p.names, 9), "a_b.txt");
    assert_eq!(deleted_file_name(Some("x?.doc"), &p.names, 9), "x_.doc");
    assert_eq!(deleted_file_name(None, &[name("D~1", 2, 0)], 9), "deleted_9.bin");
    p.in_use = true;
    assert_eq!(recovery_refusal(&p), Some(RecoverRefusal::Reused));
    p.in_use = false;
    p.compressed = true;
    assert_eq!(recovery_refusal(&p), Some(RecoverRefusal::Compressed));
    assert_eq!(recover_deleted_file("ntfs://D:/1", "/tmp", None), Err(DeletedRecoverError::Unsupported));
    let mut counter = 3u64;
    let out = scan_volume_deleted('D', None, &mut counter);
    assert!(out.files.is_empty());
    assert_eq!(out.note.as_deref(), Some("卷 D 的已删除文件扫描仅支持 Windows"));
    assert_eq!(counter, 3);
}

#[test]
fn reading_through_runs() {
    let runs = [(100u64, 4u64), (u64::MAX, 2), (50, 10)];
    assert_eq!(vcn_to_lcn(&runs, 0), Some(100));
    assert_eq!(vcn_to_lcn(&runs, 3), Some(103));
    assert_eq!(vcn_to_lcn(&runs, 4), Some(u64::MAX));
    assert_eq!(vcn_to_lcn(&runs, 7), Some(51));
    assert_eq!(vcn_to_lcn(&runs, 16), None);

    // records of 1024 bytes in 4096-byte clusters: record 5 is cluster 1, offset 1024
    assert_eq!(
        record_read_plan(&runs, 4096, 1024, 16 * 4096, 5),
        Ok(vec![ReadPiece::Read { offset: 101 * 4096 + 1024, len: 1024 }])
    );
    // record 18 lies in the sparse run
    assert_eq!(record_read_plan(&runs, 4096, 1024, 16 * 4096, 18), Ok(vec![ReadPiece::Zeros(1024)]));
    // 2048-byte clusters: a 4096-byte record spans two clusters of different runs
    assert_eq!(
        record_read_plan(&[(10, 1), (20, 1)], 2048, 4096, 4096, 0),
        Ok(vec![ReadPiece::Read { offset: 10 * 2048, len: 2048 }, ReadPiece::Read { offset: 20 * 2048, len: 2048 }])
    );
    assert_eq!(record_read_plan(&runs, 4096, 1024, 16 * 4096, 64), Err(RecordReadError::PastEnd));
    assert_eq!(record_read_plan(&[(10, 1)], 4096, 1024, 8 * 4096, 4), Err(RecordReadError::Unmapped));

    assert_eq!(
        run_read_plan(&runs, 4096, 5 * 4096),
        vec![ReadPiece::Read { offset: 100 * 4096, len: 4 * 4096 }, ReadPiece::Zeros(4096)]
    );
    assert_eq!(run_read_plan(&runs, 4096, 32), vec![ReadPiece::Read { offset: 100 * 4096, len: 32 }]);
    assert!(run_read_plan(&runs, 4096, 0).is_empty());
}

#[test]
fn scanning_the_mft_in_chunks() {
    let mib = 1u64 << 20;
    // one run of 40 MiB in 4 KiB clusters, MFT of 20 MiB: chunks of 16 MiB and 4 MiB
    let runs = [(1000u64, 10240u64)];
    assert_eq!(
        mft_chunk_plan(&runs, 4096, 20 * mib),
        vec![
            MftChunk { pos: 0, len: 16 * mib, source: Some(1000 * 4096) },
            MftChunk { pos: 16 * mib, len: 4 * mib, source: Some(1000 * 4096 + 16 * mib) },
        ]
    );
    let sparse = [(u64::MAX, 2u64), (7, 1)];
    assert_eq!(
        mft_chunk_plan(&sparse, 4096, 3 * 4096),
        vec![
            MftChunk { pos: 0, len: 8192, source: None },
            MftChunk { pos: 8192, len: 4096, source: Some(7 * 4096) },
        ]
    );
    // records 24 on: a chunk at MFT position 20 KiB with 1 KiB records holds records 20..29
    let slots = record_slots(20 * 1024, 10 * 1024, 1024);
    assert_eq!(slots.first(), Some(&(4 * 1024, 24)));
    assert_eq!(slots.len(), 6);
    assert!(record_slots(0, 1000, 1024).is_empty());
    assert_eq!(mft_percent(0, 10), 0);
    assert_eq!(mft_percent(1, 3), 33);
    assert_eq!(mft_percent(10, 10), 100);
    assert_eq!(deleted_scan_limit(true), 500_000);
    assert_eq!(deleted_scan_limit(false), 200_000);
}

#[test]
fn rebuilding_a_directory_path() {
    let mut w = DirPathWalk::new(40);
    assert_eq!(w.next_record(), Some(40));
    w.feed(Some(("sub".into(), 30)));
    assert_eq!(w.next_record(), Some(30));
    w.feed(Some(("temp".into(), 5)));
    assert_eq!(w.next_record(), None);
    assert_eq!(w.finish('D').as_deref(), Some("D:\\temp\\sub"));

    let root = DirPathWalk::new(5);
    assert_eq!(root.next_record(), None);
    assert_eq!(root.finish('C').as_deref(), Some("C:\\"));

    let mut broken = DirPathWalk::new(40);
    broken.feed(None);
    assert_eq!(broken.next_record(), None);
    assert_eq!(broken.finish('D'), None);
}

#[test]
fn deleted_scan_messages() {
    assert_eq!(
        scan_failure_note('D', "无法打开卷 D (需要管理员权限): 拒绝访问。"),
        "卷 D 需要管理员权限才能扫描已删除文件，请以管理员身份运行本程序"
    );
    assert_eq!(
        scan_failure_note('E', "Access is DENIED"),
        "卷 E 需要管理员权限才能扫描已删除文件，请以管理员身份运行本程序"
    );
    assert_eq!(scan_failure_note('E', "not NTFS"), "not NTFS");
    assert_eq!(progress_message('D', 42, 7), "卷 D: 已分析 MFT 42%，发现 7 个已删除文件");
    assert_eq!(limit_message('D', 200_000), "卷 D: 已达 200000 条上限，停止分析");
}

#[test]
fn extension_records_in_vcn_order() {
    let refs = [(0x80u32, 12u64, 300u64), (0x30, 99, 0), (0x80, 11, 100), (0x80, 10, 100), (0x80, 0, 50), (0x80, 11, 400), (0x80, 7, 0)];
    assert_eq!(extent_records(&refs, 7), vec![11, 10, 12]);
    assert_eq!(mft_extent_records(&refs), vec![7, 10, 11, 12]);
}

#[test]
fn open_error_notes_from_lowered_text() {
    let admin = "卷 D 需要管理员权限才能扫描已删除文件，请以管理员身份运行本程序";
    assert_eq!(note_for_lowered('D', "Access is DENIED", "access is denied"), admin);
    // only the lower-cased text is searched for the English words
    assert_eq!(note_for_lowered('D', "Access is denied", "access is DENIED"), "Access is denied");
    assert_eq!(note_for_lowered('D', "x 拒绝", "y"), admin);
    assert_eq!(note_for_lowered('D', "code", "error 0x80070005"), admin);
    assert_eq!(note_for_lowered('D', "not NTFS", "not ntfs"), "not NTFS");
}
