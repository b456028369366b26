use rescueforge::paths::{drive_letters_of, normalize_path_input, normalize_path_input_windows};
use rescueforge::paths::path_under_dir;
use rescueforge::scan::parse_recycle_info_meta;
use rescueforge::scheduler::{pause_step, CancellationToken};

#[test]
fn normalize_trims_whitespace_and_strips_surrounding_quotes() {
    assert_eq!(normalize_path_input("  D:\\temp  "), "D:\\temp");
    assert_eq!(normalize_path_input("\"D:\\temp\""), "D:\\temp");
    assert_eq!(normalize_path_input("  \"D:\\my folder\"  "), "D:\\my folder");
}

#[test]
fn normalize_empty_input_stays_empty() {
    assert_eq!(normalize_path_input(""), "");
    assert_eq!(normalize_path_input("   "), "");
}

#[test]
fn normalize_unifies_forward_slashes_on_windows() {
    assert_eq!(normalize_path_input_windows("D:/temp/sub"), "D:\\temp\\sub");
}

#[test]
fn cancellation_token_pause_resume_semantics() {
    let token = CancellationToken::new();
    assert!(!token.is_paused());
    token.pause();
    assert!(token.is_paused());
    token.resume();
    assert!(!token.is_paused());
    // once cancelled, a paused worker stops at once instead of waiting
    token.pause();
    token.cancel();
    assert_eq!(token.check_pause(), Some(false));
}

#[test]
fn drive_letters_dedup_and_uppercase() {
    assert_eq!(
        drive_letters_of(&["D:\\temp".into(), "d:\\foo".into(), "E:\\".into()]),
        vec!['D', 'E']
    );
    let none: Vec<String> = Vec::new();
    assert!(drive_letters_of(&none).is_empty());
    assert!(drive_letters_of(&["relative/path".into(), "/unix/path".into()]).is_empty());
}

#[test]
fn parse_recycle_meta_v2_and_v1() {
    let ft: u64 = (1_700_000_000u64 + 11_644_473_600) * 10_000_000;
    let mut buf = vec![0u8; 28];
    buf[0..8].copy_from_slice(&2u64.to_le_bytes());
    buf[8..16].copy_from_slice(&555u64.to_le_bytes());
    buf[16..24].copy_from_slice(&ft.to_le_bytes());
    let path = "D:\\docs\\report.docx";
    let wide: Vec<u16> = path.encode_utf16().collect();
    buf[24..28].copy_from_slice(&(wide.len() as u32).to_le_bytes());
    for c in &wide {
        buf.extend_from_slice(&c.to_le_bytes());
    }
    let (p, unix) = parse_recycle_info_meta(&buf).expect("v2 metadata must parse");
    assert_eq!(p, path, "the path must not carry a leading NUL");
    assert!(!p.starts_with('\0'));
    assert_eq!(unix, 1_700_000_000, "deletion time");
    assert!(path_under_dir(&p, "D:\\docs"));

    let mut buf2 = buf.clone();
    buf2.extend_from_slice(&0u16.to_le_bytes());
    let n = u32::from_le_bytes(buf2[24..28].try_into().unwrap()) as usize + 1;
    buf2[24..28].copy_from_slice(&(n as u32).to_le_bytes());
    let (p2, _) = parse_recycle_info_meta(&buf2).expect("a counted terminator must parse");
    assert_eq!(p2, path, "the trailing NUL must be trimmed");

    let mut b1 = vec![0u8; 24 + 520];
    b1[0..8].copy_from_slice(&1u64.to_le_bytes());
    b1[16..24].copy_from_slice(&ft.to_le_bytes());
    for (i, c) in "C:\\a.txt".encode_utf16().enumerate() {
        b1[24 + i * 2..26 + i * 2].copy_from_slice(&c.to_le_bytes());
    }
    let (p1, _) = parse_recycle_info_meta(&b1).expect("v1 metadata must parse");
    assert_eq!(p1, "C:\\a.txt");

    assert!(parse_recycle_info_meta(&[0u8; 10]).is_none(), "a short buffer is refused");
}

#[test]
fn checkpoint_decisions() {
    assert_eq!(pause_step(false, false), Some(true));
    assert_eq!(pause_step(false, true), Some(false));
    assert_eq!(pause_step(true, false), None);
    assert_eq!(pause_step(true, true), Some(false));
    let token = CancellationToken::new();
    assert_eq!(token.check_pause(), Some(true));
    token.pause();
    assert_eq!(token.check_pause(), None);
}
