use recall::commands::{command_name, detect_wing_duplicates, project_coverage, project_wing_name, wing_from_dir_name, CommandKind};
use recall::health::{build_health_report, forget_cutoff, missing_display, parse_ingest_marker, ForgetError};
use recall::commands::group_by_keys;

fn strings(v: &[&str]) -> Vec<String> {
    v.iter().map(|s| s.to_string()).collect()
}

#[test]
fn health_report_assembly() {
    let wings = vec![("my-app".to_string(), 3), ("my_app".to_string(), 2), ("other".to_string(), 1)];
    let report = build_health_report(
        6,
        4,
        1,
        1,
        wings,
        strings(&["my_app"]),
        Some(1_700_000_000),
        &strings(&["my_app", "tools", "web"]),
    );
    assert_eq!(report.total_chunks, 6);
    assert_eq!(report.wing_count, 3);
    assert_eq!(report.duplicates, vec![strings(&["my-app", "my_app"])]);
    assert_eq!(report.discoverable_projects, 3);
    assert_eq!(report.covered_projects, 1);
    assert_eq!(report.missing_projects, strings(&["tools", "web"]));
    assert_eq!(report.last_ingest_ts, Some(1_700_000_000));
    assert!(report.stale_wings.is_empty());
}

#[test]
fn missing_projects_display() {
    assert_eq!(missing_display(&strings(&["a", "b"])), "a, b");
    assert_eq!(missing_display(&strings(&["a", "b", "c", "d", "e", "f", "g"])), "a, b, c, d, e (+2 more)");
    assert_eq!(missing_display(&Vec::new()), "");
}

#[test]
fn wing_names_from_directories() {
    assert_eq!(wing_from_dir_name(Some("my-cool-app")), "my_cool_app");
    assert_eq!(wing_from_dir_name(None), "global");
    assert_eq!(project_wing_name("my-app.v2"), "my_appv2");
    let (found, covered, missing) = project_coverage(&strings(&["a", "b"]), &strings(&["b", "z"]));
    assert_eq!((found, covered, missing), (2, 1, strings(&["a"])));
    assert!(detect_wing_duplicates(&strings(&["x", "y"])).is_empty());
    assert_eq!(command_name(CommandKind::ImportAll), "import-all");
}

#[test]
fn forget_cutoffs() {
    assert_eq!(forget_cutoff(1_000_000, None), Ok(None));
    assert_eq!(forget_cutoff(1_000_000, Some("1d")), Ok(Some(1_000_000 - 86400)));
    assert_eq!(forget_cutoff(1_000_000, Some("-1d")), Err(ForgetError::InvalidDuration));
    assert_eq!(forget_cutoff(1_000_000, Some("soon")), Err(ForgetError::InvalidDuration));
    assert_eq!(parse_ingest_marker("1700000000\n"), Some(1_700_000_000));
    assert_eq!(parse_ingest_marker(""), None);
}

#[test]
fn grouping_names_by_key() {
    let names = strings(&["A-b", "x", "a_b", "A.B", "y"]);
    let keys: Vec<Vec<char>> = ["a_b", "x", "a_b", "a_b", "x"].iter().map(|k| k.chars().collect()).collect();
    assert_eq!(group_by_keys(&names, &keys), vec![strings(&["A-b", "a_b", "A.B"]), strings(&["x", "y"])]);
    assert_eq!(
        detect_wing_duplicates(&strings(&["web-app", "Web_App", "api", "web.app"])),
        vec![strings(&["web-app", "Web_App", "web.app"])]
    );
}
