use recall::config::{parse_update_config, should_check, version_from_tag, version_is_newer, UpdateConfig};
use recall::health::{marker_text, parse_check_marker};
use recall::json::parse_json;
use recall::release::{find_asset_url, full_target_triple, latest_version, platform_target, AssetError};

#[test]
fn test_version_is_newer() {
    assert!(version_is_newer("0.1.0", "0.2.0"));
    assert!(version_is_newer("0.1.0", "0.1.1"));
    assert!(version_is_newer("0.1.0", "1.0.0"));
    assert!(version_is_newer("1.2.3", "1.2.4"));
    assert!(version_is_newer("1.2.3", "1.3.0"));
}

#[test]
fn test_version_is_not_newer() {
    assert!(!version_is_newer("0.2.0", "0.1.0"));
    assert!(!version_is_newer("0.1.0", "0.1.0"));
    assert!(!version_is_newer("1.0.0", "0.9.9"));
    assert!(!version_is_newer("2.0.0", "1.99.99"));
}

#[test]
fn test_version_different_lengths() {
    assert!(version_is_newer("0.1", "0.1.1"));
    assert!(!version_is_newer("0.1.1", "0.1"));
}

#[test]
fn version_comparison_is_strict() {
    for (a, b) in [("1.2", "1.10"), ("0.9.9", "1"), ("3.x", "3.0"), ("2", "2.0.0")] {
        assert!(!(version_is_newer(a, b) && version_is_newer(b, a)));
        assert!(!version_is_newer(a, a));
    }
}

#[test]
fn test_parse_update_config_defaults() {
    let config = parse_update_config("");
    assert!(config.check);
    assert_eq!(config.interval_hours, 24);
}

#[test]
fn test_parse_update_config_disabled() {
    let content = "[update]\ncheck = false\ninterval_hours = 12\n";
    let config = parse_update_config(content);
    assert!(!config.check);
    assert_eq!(config.interval_hours, 12);
}

#[test]
fn test_parse_update_config_ignores_other_sections() {
    let content = "[telemetry]\nenabled = true\n\n[update]\ncheck = false\n";
    let config = parse_update_config(content);
    assert!(!config.check);
}

#[test]
fn update_check_interval() {
    let config = UpdateConfig::default();
    assert!(should_check(false, true, &config, None, 1000));
    assert!(!should_check(true, true, &config, None, 1000));
    assert!(!should_check(false, false, &config, None, 1000));
    assert!(!should_check(false, true, &config, Some(1000), 1000 + 24 * 3600 - 1));
    assert!(should_check(false, true, &config, Some(1000), 1000 + 24 * 3600));
    // A clock that went backwards counts as no time elapsed.
    assert!(!should_check(false, true, &config, Some(5000), 10));
    assert_eq!(parse_check_marker(" 1700000000\n"), Some(1700000000));
    assert_eq!(parse_check_marker("soon"), None);
    assert_eq!(marker_text(42), "42");
}

#[test]
fn test_platform_target_format() {
    let target = platform_target("linux", "x86_64");
    assert!(target.contains('-'), "target should contain arch-os: {}", target);
}

#[test]
fn platform_targets_exact() {
    assert_eq!(platform_target("linux", "x86_64"), "x86_64-unknown-linux");
    assert_eq!(platform_target("darwin", "aarch64"), "aarch64-apple-darwin");
    assert_eq!(platform_target("windows", "x86_64"), "x86_64-pc-windows");
    assert_eq!(platform_target("freebsd", "x86_64"), "x86_64-freebsd");
    assert_eq!(full_target_triple("windows", "x86_64"), "x86_64-pc-windows-msvc");
    assert_eq!(full_target_triple("linux", "aarch64"), "aarch64-unknown-linux-gnu");
    assert_eq!(full_target_triple("macos", "aarch64"), "aarch64-apple-darwin");
    assert_eq!(version_from_tag("v1.4.0"), "1.4.0");
    assert_eq!(version_from_tag("1.4.0"), "1.4.0");
}

#[test]
fn release_asset_selection_prefers_full_triple() {
    let release = parse_json(
        r#"{"tag_name":"v0.3.1","assets":[
            {"name":"recall-x86_64-unknown-linux-musl.tar.gz","browser_download_url":"https://x/musl"},
            {"name":"recall-x86_64-unknown-linux-gnu.tar.gz","browser_download_url":"https://x/gnu"},
            {"name":"recall-x86_64-pc-windows-msvc.zip","browser_download_url":"https://x/win"}
        ]}"#,
    )
    .unwrap();
    assert_eq!(latest_version(&release).as_deref(), Some("0.3.1"));
    let triple = full_target_triple("linux", "x86_64");
    let target = platform_target("linux", "x86_64");
    assert_eq!(find_asset_url(&release, &triple, &target), Ok("https://x/gnu".to_string()));
    // Without a full-triple match, the first OS-target match wins.
    assert_eq!(
        find_asset_url(&release, "aarch64-unknown-linux-gnu", "x86_64-unknown-linux"),
        Ok("https://x/musl".to_string())
    );
    assert_eq!(
        find_asset_url(&release, "riscv64gc-unknown-linux-gnu", "riscv64gc-unknown-linux"),
        Err(AssetError::NoMatch)
    );
    let no_assets = parse_json(r#"{"tag_name":"0.1.0"}"#).unwrap();
    assert_eq!(find_asset_url(&no_assets, &triple, &target), Err(AssetError::NoAssets));
    assert_eq!(latest_version(&no_assets).as_deref(), Some("0.1.0"));
}

#[test]
fn markers_read_back_what_was_written() {
    for t in [0u64, 7, 1_700_000_000, u64::MAX] {
        assert_eq!(parse_check_marker(&marker_text(t)), Some(t));
    }
    for t in [0u64, 1_753_920_000, i64::MAX as u64] {
        assert_eq!(recall::health::parse_ingest_marker(&marker_text(t)), Some(t as i64));
    }
}

#[test]
fn check_due_only_after_interval() {
    let config = UpdateConfig { check: true, interval_hours: 2 };
    for elapsed in [0u64, 1, 7199] {
        assert!(!should_check(false, true, &config, Some(100), 100 + elapsed));
    }
    assert!(should_check(false, true, &config, Some(100), 100 + 7200));
}
