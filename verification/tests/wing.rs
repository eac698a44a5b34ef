use recall::wing::{normalize_wing, pending_wing_rewrites, plan_wing_migration};

#[test]
fn folds_all_separators_to_underscore() {
    assert_eq!(normalize_wing("sci-phoenix"), "sci_phoenix");
    assert_eq!(normalize_wing("sci.phoenix"), "sci_phoenix");
    assert_eq!(normalize_wing("sci phoenix"), "sci_phoenix");
    assert_eq!(normalize_wing("sci_phoenix"), "sci_phoenix");
}

#[test]
fn pep503_parity_all_variants_collapse_to_one() {
    // Every separator variant of the same name maps to one canonical key.
    let canonical = normalize_wing("sci_phoenix");
    for variant in ["sci-phoenix", "sci.phoenix", "sci phoenix", "SCI-Phoenix"] {
        assert_eq!(normalize_wing(variant), canonical, "variant: {variant}");
    }
}

#[test]
fn lowercases() {
    assert_eq!(normalize_wing("MyApp"), "myapp");
    assert_eq!(normalize_wing("CREW-Research"), "crew_research");
}

#[test]
fn collapses_runs_of_separators() {
    assert_eq!(normalize_wing("a--b"), "a_b");
    assert_eq!(normalize_wing("a-.b"), "a_b");
    assert_eq!(normalize_wing("a__b"), "a_b");
    assert_eq!(normalize_wing("a - b"), "a_b");
}

#[test]
fn trims_leading_and_trailing_separators() {
    assert_eq!(normalize_wing("-web-app-"), "web_app");
    assert_eq!(normalize_wing("__x__"), "x");
    assert_eq!(normalize_wing(".hidden"), "hidden");
}

#[test]
fn empty_and_separator_only_map_to_global() {
    assert_eq!(normalize_wing(""), "global");
    assert_eq!(normalize_wing("---"), "global");
    assert_eq!(normalize_wing("_._"), "global");
    assert_eq!(normalize_wing("   "), "global");
}

#[test]
fn idempotent() {
    for input in ["sci-phoenix", "MyApp", "a--b", "", "---", "web_app"] {
        let once = normalize_wing(input);
        let twice = normalize_wing(&once);
        assert_eq!(once, twice, "not idempotent for: {input}");
    }
}

#[test]
fn already_canonical_unchanged() {
    assert_eq!(normalize_wing("web_app"), "web_app");
    assert_eq!(normalize_wing("global"), "global");
    assert_eq!(normalize_wing("my_project"), "my_project");
}

fn rows(v: &[(&str, i64)]) -> Vec<(String, i64)> {
    v.iter().map(|(w, n)| (w.to_string(), *n)).collect()
}

#[test]
fn plan_lists_only_non_canonical_wings_largest_first() {
    let stored = rows(&[("sci-phoenix", 3), ("sci_phoenix", 5), ("SCI.Phoenix", 7), ("web_app", 2)]);
    let pending = pending_wing_rewrites(&stored);
    assert_eq!(pending.len(), 2);
    let plan = plan_wing_migration(&stored, pending);
    assert_eq!(plan.rewrites.len(), 2);
    assert_eq!(plan.rewrites[0].from, "SCI.Phoenix");
    assert_eq!(plan.rewrites[0].to, "sci_phoenix");
    assert_eq!(plan.rewrites[0].chunk_count, 7);
    assert_eq!(plan.rewrites[1].from, "sci-phoenix");
    assert_eq!(plan.total_chunks_affected, 10);
    assert_eq!(plan.distinct_wings_before, 4);
    assert_eq!(plan.distinct_wings_after, 2);
}

#[test]
fn plan_after_migration_is_empty() {
    // Once every stored wing is canonical, a second plan rewrites nothing.
    let stored = rows(&[("sci_phoenix", 15), ("web_app", 2)]);
    let pending = pending_wing_rewrites(&stored);
    assert!(pending.is_empty());
    let plan = plan_wing_migration(&stored, pending);
    assert!(plan.rewrites.is_empty());
    assert_eq!(plan.total_chunks_affected, 0);
    assert_eq!(plan.distinct_wings_before, 2);
    assert_eq!(plan.distinct_wings_after, 2);
}
