use rescueforge::privilege::{is_elevated, PrivilegeStatus};

#[test]
fn privilege_status_reflects_is_elevated() {
    let st = PrivilegeStatus { elevated: is_elevated() };
    assert_eq!(st.elevated, is_elevated());
}

#[test]
fn is_elevated_is_deterministic() {
    let a = is_elevated();
    let b = is_elevated();
    assert_eq!(a, b);
}

#[test]
fn default_settings_table() {
    let d = rescueforge::settings::default_settings();
    let expected = [
        ("theme", "\"eye\""),
        ("language", "\"zh-CN\""),
        ("default_recovery_path", "\"\""),
        ("auto_update", "true"),
        ("show_hidden_files", "false"),
    ];
    assert_eq!(d.len(), expected.len());
    for ((k, v), (ek, ev)) in d.iter().zip(expected.iter()) {
        assert_eq!(k, ek);
        assert_eq!(v, ev);
    }
}
