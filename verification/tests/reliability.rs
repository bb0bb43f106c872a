use vector_core::reliability::{
    commit_line, macos_version_text, os_release_name, panic_payload_text, strip_panic_frames, windows_version_text,
};

#[test]
fn os_release_fields() {
    let content = "NAME=\"Ubuntu\"\nID=ubuntu\nVERSION_ID=\"24.04\"\n";
    assert_eq!(os_release_name(content), "ubuntu 24.04");
    assert_eq!(os_release_name(""), "unknown unknown");
    assert_eq!(os_release_name("ID=\"arch\"\r\nBUILD_ID=rolling"), "arch unknown");
    assert_eq!(os_release_name("ID=a\nID=b"), "b unknown");
}

#[test]
fn macos_version() {
    assert_eq!(macos_version_text(Some("14.5\n")), "14.5");
    assert_eq!(macos_version_text(Some("  \n")), "unknown");
    assert_eq!(macos_version_text(None), "unknown");
}

#[test]
fn windows_version() {
    assert_eq!(windows_version_text(Some((10, 0, 22631))), "10.0.22631");
    assert_eq!(windows_version_text(None), "unknown");
}

#[test]
fn panic_payloads() {
    assert_eq!(panic_payload_text(Some("oops"), None), "oops");
    assert_eq!(panic_payload_text(None, Some("owned".to_string())), "owned");
    assert_eq!(panic_payload_text(None, None), "Box<Any>");
}

#[test]
fn panic_frames_are_stripped() {
    let s = |v: &[&str]| v.iter().map(|x| x.to_string()).collect::<Vec<_>>();
    assert_eq!(strip_panic_frames(s(&["a", "rust_begin_unwind", "b", "c"])), s(&["b", "c"]));
    assert_eq!(strip_panic_frames(s(&["_rust_begin_unwind", "b"])), s(&["b"]));
    assert_eq!(strip_panic_frames(s(&["a", "b"])), s(&["a", "b"]));
}

#[test]
fn commit_lines() {
    assert_eq!(commit_line(Some("abc123")), "commit abc123\n");
    assert_eq!(commit_line(None), "");
}
