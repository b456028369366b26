use rescueforge::path_scan::{
    path_scan_step, PathScanAction, PathScanEvent, PathScanState, ScanReport, ScanStatus,
};
use rescueforge::scan::{make_found_file, FoundFile};

fn file(counter: &mut u64, name: &str) -> FoundFile {
    make_found_file(counter, name.to_string(), format!("C:\\d\\{}", name), 1, "Text").unwrap()
}

fn go(files: Vec<FoundFile>, note: Option<&str>, cancelled: bool) -> PathScanEvent {
    PathScanEvent { files, note: note.map(|n| n.to_string()), cancelled }
}

fn report(a: &PathScanAction) -> &ScanReport {
    match a {
        PathScanAction::Emit(r) => r,
        other => panic!("expected a report, got {:?}", other),
    }
}

#[test]
fn shallow_scan_walks_each_path_then_completes() {
    let mut c = 0u64;
    let s = PathScanState::new(vec!["a".into(), "b".into()], false, 3);
    let (s, acts) = path_scan_step(s, go(vec![], None, false));
    assert_eq!(acts.len(), 2);
    let r = report(&acts[0]);
    assert_eq!((r.status, r.progress, r.found, r.current, r.path_progress, r.results), (ScanStatus::Scanning, (0, 2), 0, Some(0), Some(0), (0, 0)));
    assert_eq!(r.message, "[1/2] 正在扫描: a");
    assert!(matches!(acts[1], PathScanAction::WalkPath(0)));

    let (s, acts) = path_scan_step(s, go(vec![file(&mut c, "x.txt"), file(&mut c, "y.txt")], None, false));
    let r = report(&acts[0]);
    assert_eq!((r.progress, r.found, r.current, r.path_progress, r.results), ((1, 2), 2, Some(0), Some(100), (0, 2)));
    assert_eq!(r.message, "[1/2] 完成: a — 累计 2 文件");
    assert!(matches!(acts[2], PathScanAction::WalkPath(1)));

    let (s, acts) = path_scan_step(s, go(vec![file(&mut c, "z.txt")], None, false));
    // path done, then (not deep) save, completed, cleanup: no deleted-file phase
    assert_eq!(acts.len(), 4);
    assert!(matches!(acts[1], PathScanAction::Save));
    let r = report(&acts[2]);
    assert_eq!((r.status, r.progress, r.found, r.results), (ScanStatus::Completed, (1, 1), 3, (0, 3)));
    assert_eq!(r.message, "完成! 2 路径: 3 个现存文件, 0 个可恢复的已删除文件");
    assert!(matches!(acts[3], PathScanAction::Cleanup));
    assert!(s.is_finished());
    let names: Vec<&str> = s.files().iter().map(|f| f.filename.as_str()).collect();
    assert_eq!(names, vec!["x.txt", "y.txt", "z.txt"]);
    let (_, acts) = path_scan_step(s, go(vec![], None, false));
    assert!(acts.is_empty());
}

#[test]
fn cancel_before_a_path_saves_and_reports_what_was_found() {
    let mut c = 0u64;
    let s = PathScanState::new(vec!["a".into(), "b".into()], true, 1);
    let (s, _) = path_scan_step(s, go(vec![], None, false));
    let (s, acts) = path_scan_step(s, go(vec![file(&mut c, "x.txt")], None, true));
    assert_eq!(acts.len(), 4);
    assert!(matches!(acts[1], PathScanAction::Save));
    let r = report(&acts[2]);
    assert_eq!((r.status, r.progress, r.found, r.current, r.results), (ScanStatus::Cancelled, (0, 1), 1, Some(1), (0, 1)));
    assert_eq!(r.message, "已取消");
    assert!(matches!(acts[3], PathScanAction::Cleanup));
    assert!(s.is_finished());
}

#[test]
fn deep_scan_searches_recycle_bins_then_mfts_and_reports_notes() {
    let mut c = 0u64;
    let s = PathScanState::new(vec!["a".into()], true, 2);
    let (s, _) = path_scan_step(s, go(vec![], None, false));
    let (s, acts) = path_scan_step(s, go(vec![file(&mut c, "x.txt")], None, false));
    // path done, deep start, first recycle bin
    assert_eq!(acts.len(), 3);
    let r = report(&acts[1]);
    assert_eq!((r.progress, r.found), ((90, 100), 1));
    assert!(matches!(acts[2], PathScanAction::ScanRecycle(0)));
    let (s, acts) = path_scan_step(s, go(vec![file(&mut c, "r.txt")], None, false));
    assert!(matches!(acts[0], PathScanAction::ScanRecycle(1)));
    let (s, acts) = path_scan_step(s, go(vec![], None, false));
    assert!(matches!(acts[0], PathScanAction::ScanMft(0)));
    let (s, acts) = path_scan_step(s, go(vec![], Some("卷 C 需要管理员权限"), false));
    assert!(matches!(acts[0], PathScanAction::ScanMft(1)));
    let (s, acts) = path_scan_step(s, go(vec![file(&mut c, "m.txt")], None, false));
    assert_eq!(acts.len(), 4);
    let r = report(&acts[0]);
    assert_eq!((r.progress, r.found, r.message.as_str()), ((98, 100), 3, "卷 C 需要管理员权限"));
    let r = report(&acts[2]);
    assert_eq!(r.status, ScanStatus::Completed);
    assert_eq!(r.found, 3);
    assert!(s.is_finished());
    let names: Vec<&str> = s.files().iter().map(|f| f.filename.as_str()).collect();
    assert_eq!(names, vec!["x.txt", "r.txt", "m.txt"]);
}

#[test]
fn cancel_during_the_deep_phase_still_completes() {
    let mut c = 0u64;
    let s = PathScanState::new(vec!["a".into()], true, 2);
    let (s, _) = path_scan_step(s, go(vec![], None, false));
    let (s, _) = path_scan_step(s, go(vec![file(&mut c, "x.txt")], None, false));
    let (s, acts) = path_scan_step(s, go(vec![], None, true));
    assert_eq!(acts.len(), 3);
    assert!(matches!(acts[0], PathScanAction::Save));
    assert_eq!(report(&acts[1]).status, ScanStatus::Completed);
    assert!(s.is_finished());
}
