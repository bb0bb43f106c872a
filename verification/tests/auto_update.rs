use vector_core::auto_update::{
    artifact_token, check_outcome, configured_update_url, expand_template, last_seen_asset_token_key,
    linux_app_folder_name, linux_install_prefix, linux_install_target, looks_like_manifest_url, parse_version_check_type,
    should_download_manifest_update, should_poll_for_updates, target_filename, AutoUpdateStatus, AutoUpdater,
    CheckOutcome, ReleaseAsset, ReleaseChannel, SemanticVersion, UpdateCheckType, UpdateError, UpdateSource,
    VersionCheckType,
};

fn v(major: u64, minor: u64, patch: u64) -> SemanticVersion {
    SemanticVersion { major, minor, patch, pre: String::new(), build: String::new() }
}

fn sha(s: &str) -> VersionCheckType {
    VersionCheckType::Sha(s.to_string())
}

#[test]
fn version_text() {
    assert_eq!(v(1, 2, 3).to_string(), "1.2.3");
    let full = SemanticVersion { major: 0, minor: 9, patch: 1, pre: "beta.1".to_string(), build: "abc".to_string() };
    assert_eq!(full.to_string(), "0.9.1-beta.1+abc");
}

#[test]
fn manifest_urls_end_in_json() {
    assert!(looks_like_manifest_url("https://x.test/latest.json"));
    assert!(looks_like_manifest_url("https://x.test/LATEST.JSONC"));
    assert!(!looks_like_manifest_url("https://x.test/vector.tar.gz"));
    assert!(!looks_like_manifest_url("https://x.test/json"));
}

#[test]
fn template_is_expanded() {
    let url = expand_template(
        "https://u.test/{channel}/{os}-{arch}/{version}/{channel}.json",
        ReleaseChannel::Preview,
        &v(1, 4, 0),
        "linux",
        "x86_64",
    );
    assert_eq!(url, "https://u.test/preview/linux-x86_64/1.4.0/preview.json");
    assert_eq!(expand_template("plain", ReleaseChannel::Stable, &v(0, 0, 1), "macos", "aarch64"), "plain");
}

#[test]
fn token_key_names_channel_and_platform() {
    assert_eq!(
        last_seen_asset_token_key(ReleaseChannel::Nightly, "linux", "x86_64"),
        "auto-updater-last-seen-asset-token-nightly-linux-x86_64"
    );
}

#[test]
fn version_check_types() {
    match parse_version_check_type(ReleaseChannel::Stable, "1.2.3") {
        VersionCheckType::Semantic(s) => assert_eq!(s.to_string(), "1.2.3"),
        other => panic!("unexpected {:?}", other),
    }
    match parse_version_check_type(ReleaseChannel::Nightly, "0.1.0+nightly.deadbeef") {
        VersionCheckType::Sha(s) => assert_eq!(s, "deadbeef"),
        other => panic!("unexpected {:?}", other),
    }
    match parse_version_check_type(ReleaseChannel::Nightly, "0.1.0") {
        VersionCheckType::Sha(s) => assert_eq!(s, ""),
        other => panic!("unexpected {:?}", other),
    }
    match parse_version_check_type(ReleaseChannel::Stable, "cafe1234") {
        VersionCheckType::Sha(s) => assert_eq!(s, "cafe1234"),
        other => panic!("unexpected {:?}", other),
    }
}

#[test]
fn manifest_update_decisions() {
    let idle = AutoUpdateStatus::Idle;
    let newer = VersionCheckType::Semantic(v(1, 3, 0));
    assert!(should_download_manifest_update(ReleaseChannel::Stable, None, &v(1, 2, 9), &newer, &idle));
    assert!(!should_download_manifest_update(ReleaseChannel::Stable, None, &v(1, 3, 0), &newer, &idle));
    let pre = VersionCheckType::Semantic(SemanticVersion {
        major: 1,
        minor: 3,
        patch: 0,
        pre: "rc.1".to_string(),
        build: String::new(),
    });
    assert!(!should_download_manifest_update(ReleaseChannel::Stable, None, &v(1, 3, 0), &pre, &idle));
    let updated = AutoUpdateStatus::Updated { version: VersionCheckType::Semantic(v(1, 3, 0)) };
    assert!(!should_download_manifest_update(ReleaseChannel::Stable, None, &v(1, 0, 0), &newer, &updated));
    assert!(!should_download_manifest_update(ReleaseChannel::Nightly, Some("abc"), &v(1, 0, 0), &sha("abc"), &idle));
    assert!(should_download_manifest_update(ReleaseChannel::Nightly, Some("abc"), &v(1, 0, 0), &sha("abd"), &idle));
    assert!(should_download_manifest_update(ReleaseChannel::Nightly, None, &v(1, 0, 0), &sha("abc"), &idle));
}

#[test]
fn update_url_setting_is_trimmed() {
    assert_eq!(configured_update_url(Some("  https://u.test/x.json ")), Some("https://u.test/x.json".to_string()));
    assert_eq!(configured_update_url(Some("   ")), None);
    assert_eq!(configured_update_url(None), None);
}

#[test]
fn polling_needs_channel_setting_and_url() {
    assert!(should_poll_for_updates(false, Some(ReleaseChannel::Stable), true, true));
    assert!(!should_poll_for_updates(true, Some(ReleaseChannel::Stable), true, true));
    assert!(!should_poll_for_updates(false, Some(ReleaseChannel::Dev), true, true));
    assert!(!should_poll_for_updates(false, None, true, true));
    assert!(!should_poll_for_updates(false, Some(ReleaseChannel::Preview), false, true));
    assert!(!should_poll_for_updates(false, Some(ReleaseChannel::Preview), true, false));
}

#[test]
fn artifact_tokens_prefer_etag() {
    let s = |x: &str| Some(x.to_string());
    assert_eq!(artifact_token(s("\"e1\""), s("Mon"), s("10")), s("\"e1\""));
    assert_eq!(artifact_token(None, s("Mon"), s("10")), s("Mon"));
    assert_eq!(artifact_token(None, None, s("10")), s("content-length:10"));
    assert_eq!(artifact_token(None, None, None), None);
}

#[test]
fn platform_names() {
    assert_eq!(target_filename("macos"), Some("Vector.dmg"));
    assert_eq!(target_filename("linux"), Some("vector.tar.gz"));
    assert_eq!(target_filename("windows"), Some("Vector.exe"));
    assert_eq!(target_filename("freebsd"), None);
    assert_eq!(linux_app_folder_name("stable"), "vector.app");
    assert_eq!(linux_app_folder_name("preview"), "vector-preview.app");
    assert_eq!(
        linux_install_prefix("/home/u/.local/vector-preview.app/libexec/vector-editor", "vector-preview.app"),
        Some("/home/u/.local/".to_string())
    );
    assert_eq!(linux_install_prefix("/usr/bin/vector", "vector.app"), None);
}

#[test]
fn check_action_outcomes() {
    match check_outcome(Some("use apt".to_string()), true, true) {
        CheckOutcome::ExplainPackageManager { message } => assert_eq!(message, "use apt"),
        other => panic!("unexpected {:?}", other),
    }
    assert!(matches!(check_outcome(None, false, true), CheckOutcome::UpdateUrlMissing));
    assert!(matches!(check_outcome(None, true, false), CheckOutcome::AutoUpdateDisabled));
    assert!(matches!(check_outcome(None, true, true), CheckOutcome::Poll));
}

#[test]
fn updater_polls_once_at_a_time() {
    let mut u = AutoUpdater::new(v(1, 0, 0));
    assert!(u.poll());
    assert!(!u.poll());
    u.poll_finished(UpdateCheckType::Manual, Some("boom".to_string()));
    assert!(matches!(u.status(), AutoUpdateStatus::Errored { ref error } if error == "boom"));
    assert!(u.poll());
    u.poll_finished(UpdateCheckType::Automatic, Some("quiet".to_string()));
    assert!(matches!(u.status(), AutoUpdateStatus::Idle));
    assert!(!u.dismiss());
    assert_eq!(u.current_version().to_string(), "1.0.0");
}

#[test]
fn start_update_sources() {
    let mut u = AutoUpdater::new(v(2, 0, 0));
    assert!(matches!(
        u.start_update(None, true, true, ReleaseChannel::Stable, "linux", "x86_64"),
        Ok(UpdateSource::Skip)
    ));
    assert!(matches!(
        u.start_update(Some("https://u.test/a.json".to_string()), false, true, ReleaseChannel::Stable, "linux", "x86_64"),
        Ok(UpdateSource::Skip)
    ));
    assert_eq!(
        u.start_update(Some("https://u.test/a.json".to_string()), true, false, ReleaseChannel::Stable, "linux", "x86_64")
            .unwrap_err(),
        UpdateError::MissingRsync
    );
    match u.start_update(Some("https://u.test/{channel}.json".to_string()), true, true, ReleaseChannel::Stable, "linux", "x86_64") {
        Ok(UpdateSource::Manifest { manifest_url }) => assert_eq!(manifest_url, "https://u.test/stable.json"),
        other => panic!("unexpected {:?}", other),
    }
    assert!(matches!(u.status(), AutoUpdateStatus::Checking));
    match u.start_update(Some("https://u.test/{os}/vector.tar.gz".to_string()), true, true, ReleaseChannel::Stable, "linux", "x86_64") {
        Ok(UpdateSource::Artifact { download_url }) => assert_eq!(download_url, "https://u.test/linux/vector.tar.gz"),
        other => panic!("unexpected {:?}", other),
    }
    assert_eq!(
        u.start_update(Some("not a url".to_string()), true, true, ReleaseChannel::Stable, "linux", "x86_64").unwrap_err(),
        UpdateError::InvalidUpdateUrl
    );
}

#[test]
fn manifest_resolution() {
    let mut u = AutoUpdater::new(v(1, 0, 0));
    let asset = ReleaseAsset { version: "1.1.0".to_string(), url: "files/{os}.tar.gz".to_string() };
    match u.manifest_fetched(&asset, "https://u.test/rel/latest.json", ReleaseChannel::Stable, None, &AutoUpdateStatus::Idle, "linux", "x86_64") {
        Ok(Some((VersionCheckType::Semantic(s), url))) => {
            assert_eq!(s.to_string(), "1.1.0");
            assert_eq!(url, "https://u.test/rel/files/linux.tar.gz");
        },
        other => panic!("unexpected {:?}", other),
    }
    let same = ReleaseAsset { version: "1.0.0".to_string(), url: "https://u.test/x".to_string() };
    assert!(matches!(
        u.manifest_fetched(&same, "https://u.test/latest.json", ReleaseChannel::Stable, None, &AutoUpdateStatus::Idle, "linux", "x86_64"),
        Ok(None)
    ));
    assert!(matches!(u.status(), AutoUpdateStatus::Idle));
}

#[test]
fn artifact_token_decisions() {
    let mut u = AutoUpdater::new(v(1, 0, 0));
    let t = Some("etag-1".to_string());
    assert!(u.artifact_token_fetched(UpdateCheckType::Automatic, &t, &t, &AutoUpdateStatus::Idle).is_none());
    assert!(u.artifact_token_fetched(UpdateCheckType::Automatic, &None, &t, &AutoUpdateStatus::Idle).is_none());
    match u.artifact_token_fetched(UpdateCheckType::Manual, &None, &t, &AutoUpdateStatus::Idle) {
        Some(VersionCheckType::Sha(s)) => assert_eq!(s, "manual"),
        other => panic!("unexpected {:?}", other),
    }
    match u.artifact_token_fetched(UpdateCheckType::Automatic, &Some("etag-2".to_string()), &t, &AutoUpdateStatus::Idle) {
        Some(VersionCheckType::Sha(s)) => assert_eq!(s, "etag-2"),
        other => panic!("unexpected {:?}", other),
    }
}

#[test]
fn status_progression() {
    let mut u = AutoUpdater::new(v(1, 0, 0));
    u.download_started(sha("a"));
    assert!(matches!(u.status(), AutoUpdateStatus::Downloading { .. }));
    u.install_started(sha("a"));
    assert!(matches!(u.status(), AutoUpdateStatus::Installing { .. }));
    u.update_installed(sha("a"));
    assert!(u.status().is_updated());
    assert!(u.dismiss());
    assert!(matches!(u.status(), AutoUpdateStatus::Idle));
}

#[test]
fn linux_install_targets() {
    let (dir, bin) = linux_install_target("/home/u", "/usr/bin/vector", "stable");
    assert_eq!(dir, "/home/u/.local");
    assert_eq!(bin, "/home/u/.local/vector.app/libexec/vector-editor");
    let (dir, bin) = linux_install_target("/home/u", "/opt/vector.app/libexec/vector-editor", "stable");
    assert_eq!(dir, "/opt/");
    assert_eq!(bin, "/opt/vector.app/libexec/vector-editor");
    let (dir, bin) = linux_install_target("/home/u", "/opt/vector-preview.app/libexec/vector-editor", "preview");
    assert_eq!(dir, "/opt/");
    assert_eq!(bin, "/opt/vector-preview.app/libexec/vector-editor");
    let (dir, _) = linux_install_target("/home/u", "/opt/vector.app/libexec/vector-editor", "nightly");
    assert_eq!(dir, "/home/u/.local");
}

#[test]
fn dismiss_keeps_version() {
    let mut u = AutoUpdater::new(v(3, 1, 4));
    u.download_started(VersionCheckType::Semantic(v(3, 2, 0)));
    assert!(u.dismiss());
    assert!(matches!(u.status(), AutoUpdateStatus::Idle));
    assert_eq!(u.current_version().to_string(), "3.1.4");
    assert!(!u.pending_poll);
}
