use recall::imports::{
    after_batch, import_action, import_source_key, import_source_prefix, import_summary, is_blank,
    like_prefix_pattern, meta_cwd, meta_source, orphaned_sources, plan_session_file,
    recently_modified, room_for_import, session_cwd, sibling_meta_name, wing_for_session,
    ImportAction, MetaSource, SessionFilePlan, plan_import_file, scan_unchanged, ImportFilePlan,
};
use recall::chunking::chunk_markdown;
use recall::json::parse_json;
use recall::hash::{content_hash, file_hash};

fn strings(v: &[&str]) -> Vec<String> {
    v.iter().map(|s| s.to_string()).collect()
}

#[test]
fn import_keys_and_like_pattern() {
    assert_eq!(import_source_prefix("my_wing"), "import:my_wing:");
    assert_eq!(import_source_key("my_wing", "notes/a.md"), "import:my_wing:notes/a.md");
    assert_eq!(like_prefix_pattern("import:a_b:"), "import:a\\_b:%");
    assert_eq!(like_prefix_pattern("100%\\x"), "100\\%\\\\x%");
}

#[test]
fn hash_gate_actions() {
    assert_eq!(import_action(None, "abc"), ImportAction::Import);
    assert_eq!(import_action(Some("abc"), "abc"), ImportAction::Skip);
    assert_eq!(import_action(Some("abd"), "abc"), ImportAction::Update);
    assert!(is_blank(" \n\t "));
    assert!(!is_blank(" x "));
}

#[test]
fn content_hash_is_full_sha256_hex() {
    assert_eq!(
        content_hash("abc"),
        "ba7816bf8f01cfea414140de5dae2223b00361a396177a9cb410ff61f20015ad"
    );
    assert_eq!(file_hash(b"abc"), "ba7816bf8f01cfea");
    assert_eq!(content_hash("").len(), 64);
}

#[test]
fn orphans_keep_manifest_order() {
    let existing = strings(&["a.md", "b.md", "c.md", "d.md"]);
    let current = strings(&["c.md", "a.md"]);
    assert_eq!(orphaned_sources(&existing, &current), strings(&["b.md", "d.md"]));
    assert!(orphaned_sources(&existing, &existing).is_empty());
}

#[test]
fn import_summaries() {
    assert_eq!(import_summary(0, 0, 0, 0), "no changes");
    assert_eq!(import_summary(3, 1, 2, 1), "3 new, 1 updated, 2 unchanged, 1 deleted");
    assert_eq!(import_summary(0, 0, 12, 0), "12 unchanged");
    assert_eq!(after_batch(0), (false, false));
    assert_eq!(after_batch(100), (true, false));
    assert_eq!(after_batch(101), (true, true));
}

#[test]
fn session_file_plans() {
    assert!(recently_modified(Some(299)));
    assert!(!recently_modified(Some(300)));
    assert!(!recently_modified(None));
    let v3 = r#"{"id":"1","timestamp":"t","payload":{"type":"user","content":"How does the scan cache decide?"}}
{"id":"2","timestamp":"t","payload":{"type":"assistant","content":"By mtime and size."}}"#;
    assert!(matches!(plan_session_file(true, v3), SessionFilePlan::Defer));
    match plan_session_file(false, v3) {
        SessionFilePlan::Store(chunks) => assert_eq!(
            chunks,
            vec!["> How does the scan cache decide?\nBy mtime and size.".to_string()]
        ),
        _ => panic!("expected chunks"),
    }
    assert!(matches!(plan_session_file(false, ""), SessionFilePlan::CacheOnly));
    let tiny = r#"{"id":"1","timestamp":"t","payload":{"type":"user","content":"hi"}}
{"id":"2","timestamp":"t","payload":{"type":"assistant","content":"yo"}}"#;
    assert!(matches!(plan_session_file(false, tiny), SessionFilePlan::CacheOnly));
}

#[test]
fn session_metadata_and_wings() {
    assert_eq!(meta_source("messages.jsonl"), MetaSource::SessionJson);
    assert_eq!(meta_source("abc-123.jsonl"), MetaSource::SiblingJson);
    assert_eq!(meta_source("notes.txt"), MetaSource::NoMeta);
    assert_eq!(sibling_meta_name("abc-123"), "abc-123.json");
    let v3 = parse_json(r#"{"workspacePaths":["/home/u/code/my-app","/x"]}"#).unwrap();
    assert_eq!(meta_cwd(MetaSource::SessionJson, &v3).as_deref(), Some("/home/u/code/my-app"));
    assert_eq!(meta_cwd(MetaSource::SiblingJson, &v3), None);
    assert_eq!(session_cwd(MetaSource::SiblingJson, r#"{"cwd":"/w/proj"}"#).as_deref(), Some("/w/proj"));
    assert_eq!(session_cwd(MetaSource::SiblingJson, "{broken"), None);
    assert_eq!(wing_for_session(Some("my-app"), Some("sess_1")), "my_app");
    assert_eq!(wing_for_session(Some(""), Some("cli-x")), "cli_x");
    assert_eq!(wing_for_session(None, None), "sessions");
    assert_eq!(room_for_import(Some("decisions")), "decisions");
    assert_eq!(room_for_import(None), "general");
}

#[test]
fn hash_gate_lifecycle_decisions() {
    let v1 = "## Architecture\n\nThe system uses SQLite for storage with WAL mode for crash safety and FTS5 for full-text search.";
    let v2 = "## Architecture\n\nCompletely rewritten architecture using a new approach with different storage layer.";
    let h1 = content_hash(v1);
    // Never imported: new.
    assert_eq!(import_action(None, &h1), ImportAction::Import);
    // Imported with the same content: skipped.
    assert_eq!(import_action(Some(&h1), &content_hash(v1)), ImportAction::Skip);
    // Edited: updated.
    let h2 = content_hash(v2);
    assert_ne!(h1, h2);
    assert_eq!(import_action(Some(&h1), &h2), ImportAction::Update);
    // Removed from disk: an orphan.
    assert_eq!(orphaned_sources(&strings(&["test.md"]), &Vec::new()), strings(&["test.md"]));
}

#[test]
fn plan_import_file_follows_the_hash_gate() {
    assert!(matches!(plan_import_file("  \n\t", None, None), ImportFilePlan::Blank));
    let text = "---\ntype: decision\n---\n## Heading\nSome notes that are long enough to keep as a chunk.";
    let hash = content_hash(text);
    assert!(matches!(plan_import_file(text, Some(hash.as_str()), None), ImportFilePlan::Unchanged));
    match plan_import_file(text, None, None) {
        ImportFilePlan::Store { action, hash: h, chunks, room, dtype } => {
            assert_eq!(action, ImportAction::Import);
            assert_eq!(h, hash);
            assert_eq!(chunks, chunk_markdown(text));
            assert!(!chunks.is_empty());
            assert_eq!(room, "general");
            assert_eq!(dtype, "decision");
        }
        _ => panic!("a new file is stored"),
    }
    match plan_import_file(text, Some("0000"), Some("notes")) {
        ImportFilePlan::Store { action, room, .. } => {
            assert_eq!(action, ImportAction::Update);
            assert_eq!(room, "notes");
        }
        _ => panic!("changed content is stored again"),
    }
}

#[test]
fn scan_cache_compares_time_and_size() {
    assert!(scan_unchanged(Some((100, 20)), 100, 20));
    assert!(!scan_unchanged(Some((100, 20)), 101, 20));
    assert!(!scan_unchanged(Some((100, 20)), 100, 21));
    assert!(!scan_unchanged(None, 100, 20));
}
