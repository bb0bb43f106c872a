use vector_core::extensions::{
    gleam_asset_name, gleam_binary_path, gleam_version_dir, html_install_outcome, html_server_needs_install,
    html_server_ready, is_stale_gleam_entry, label_for_completion, sanitize_windows_path, strip_newlines_from_detail,
    taplo_args, taplo_asset_name, taplo_binary_path, taplo_binary_without_download, taplo_version_dir,
    usable_cached_binary, Architecture, CodeLabelSpan, CompletionKind, Os, BINARY_NAME, PACKAGE_NAME, SERVER_PATH,
};

#[test]
fn detail_newlines_are_removed() {
    assert_eq!(strip_newlines_from_detail("fn(\n  a,\n  b,\n) ->\n  c"), "fn(a, b) -> c");
    assert_eq!(strip_newlines_from_detail("Int"), "Int");
    assert_eq!(strip_newlines_from_detail(" a , b "), "a, b");
}

#[test]
fn completion_label_layout() {
    let label = label_for_completion("map", Some("fn(a) -> b"), Some(CompletionKind::Function)).unwrap();
    assert_eq!(label.code, "let a: fn(a) -> b = map()");
    let ranges: Vec<(usize, usize)> = label
        .spans
        .iter()
        .map(|s| match s {
            CodeLabelSpan::CodeRange(r) => (r.start, r.end),
        })
        .collect();
    assert_eq!(ranges, vec![(20, 23), (5, 7), (7, 17)]);
    assert_eq!((label.filter_range.start, label.filter_range.end), (0, 3));

    let value = label_for_completion("x", Some("Int"), Some(CompletionKind::Variable)).unwrap();
    assert_eq!(value.code, "let a: Int = x");
    assert!(label_for_completion("x", None, Some(CompletionKind::Variable)).is_none());
    assert!(label_for_completion("x", Some("Int"), None).is_none());
}

#[test]
fn gleam_release_names() {
    assert_eq!(gleam_asset_name("v1.2.0", Os::Linux, Architecture::X8664), "gleam-v1.2.0-x86_64-unknown-linux-musl.tar.gz");
    assert_eq!(gleam_asset_name("v1.2.0", Os::Mac, Architecture::Aarch64), "gleam-v1.2.0-aarch64-apple-darwin.tar.gz");
    assert_eq!(gleam_asset_name("v1", Os::Windows, Architecture::X86), "gleam-v1-x86-pc-windows-msvc.tar.gz");
    assert_eq!(gleam_version_dir("v1.2.0"), "gleam-v1.2.0");
    assert_eq!(gleam_binary_path("gleam-v1.2.0"), "gleam-v1.2.0/gleam");
    assert!(is_stale_gleam_entry("gleam-v1.1.0", "gleam-v1.2.0"));
    assert!(!is_stale_gleam_entry("gleam-v1.2.0", "gleam-v1.2.0"));
    assert!(!is_stale_gleam_entry("other", "gleam-v1.2.0"));
}

#[test]
fn cached_binary_only_where_a_file() {
    assert_eq!(usable_cached_binary(&Some("bin/x".to_string()), true), Some("bin/x".to_string()));
    assert_eq!(usable_cached_binary(&Some("bin/x".to_string()), false), None);
    assert_eq!(usable_cached_binary(&None, true), None);
}

#[test]
fn taplo_sources_in_order() {
    let cached = Some("taplo-0.9/taplo".to_string());
    let b = taplo_binary_without_download(
        Some("/opt/taplo".to_string()),
        Some(vec!["lsp".to_string()]),
        Some("/usr/bin/taplo".to_string()),
        &cached,
        true,
    )
    .unwrap();
    assert_eq!(b.path, "/opt/taplo");
    assert_eq!(b.args, Some(vec!["lsp".to_string()]));
    let b = taplo_binary_without_download(None, None, Some("/usr/bin/taplo".to_string()), &cached, true).unwrap();
    assert_eq!(b.path, "/usr/bin/taplo");
    let b = taplo_binary_without_download(None, None, None, &cached, true).unwrap();
    assert_eq!(b.path, "taplo-0.9/taplo");
    assert!(taplo_binary_without_download(None, None, None, &cached, false).is_none());
}

#[test]
fn taplo_release_names() {
    assert_eq!(taplo_asset_name(Os::Mac, Architecture::Aarch64), "taplo-darwin-aarch64.gz");
    assert_eq!(taplo_asset_name(Os::Linux, Architecture::X8664), "taplo-linux-x86_64.gz");
    assert_eq!(taplo_version_dir("0.9.3"), "taplo-0.9.3");
    assert_eq!(taplo_binary_path("taplo-0.9.3", Os::Windows), "taplo-0.9.3/taplo.exe");
    assert_eq!(taplo_binary_path("taplo-0.9.3", Os::Linux), "taplo-0.9.3/taplo");
    assert_eq!(taplo_args(None), vec!["lsp".to_string(), "stdio".to_string()]);
    assert_eq!(taplo_args(Some(vec!["x".to_string()])), vec!["x".to_string()]);
}

#[test]
fn html_server_decisions() {
    assert_eq!(PACKAGE_NAME, "vscode-langservers-extracted");
    assert_eq!(BINARY_NAME, "vscode-html-language-server");
    assert!(SERVER_PATH.ends_with(BINARY_NAME));
    assert_eq!(sanitize_windows_path("/C:/x/y", Os::Windows), "C:/x/y");
    assert_eq!(sanitize_windows_path("/home/x", Os::Linux), "/home/x");
    assert!(html_server_ready(true, true));
    assert!(!html_server_ready(false, true));
    assert!(html_server_needs_install(false, &Some("1.0.0".to_string()), "1.0.0"));
    assert!(html_server_needs_install(true, &Some("0.9.0".to_string()), "1.0.0"));
    assert!(html_server_needs_install(true, &None, "1.0.0"));
    assert!(!html_server_needs_install(true, &Some("1.0.0".to_string()), "1.0.0"));
    assert_eq!(html_install_outcome(Err("net".to_string()), true), Ok(()));
    assert_eq!(html_install_outcome(Err("net".to_string()), false), Err("net".to_string()));
    assert_eq!(
        html_install_outcome(Ok(()), false),
        Err(format!("installed package '{PACKAGE_NAME}' did not contain expected path '{SERVER_PATH}'"))
    );
}

#[test]
fn detail_keeps_no_line_break() {
    assert_eq!(strip_newlines_from_detail("fn(\n  Int,\n  Int,\n) -> Int"), "fn(Int, Int) -> Int");
    assert_eq!(strip_newlines_from_detail("a\nb"), "ab");
    assert_eq!(strip_newlines_from_detail("List(\na)"), "List(a)");
    for d in ["x\n\ny", "\n", "a,\nb\nc", "->\n"] {
        assert!(!strip_newlines_from_detail(d).contains('\n'));
    }
}
