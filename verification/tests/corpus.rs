use recall::corpus::{preview, prime_fact_line, prime_query, status_report, ChunkInfo, CorpusStats};

#[test]
fn status_overview_lists_wings() {
    let stats = CorpusStats {
        total_chunks: 12,
        wings: vec![("alpha".to_string(), 5), ("beta".to_string(), 7)],
    };
    assert_eq!(
        status_report(&stats),
        "\n  Recall — 12 drawers\n\n  WING: alpha (5)\n  WING: beta (7)\n"
    );
    let empty = CorpusStats { total_chunks: 0, wings: Vec::new() };
    assert_eq!(status_report(&empty), "\n  Recall — 0 drawers\n\n");
}

#[test]
fn prime_lines_preview_and_date() {
    let chunk = ChunkInfo {
        content: "x".repeat(130),
        wing: "w".to_string(),
        room: "general".to_string(),
        dtype: "decision".to_string(),
        created_at: 1704067200,
    };
    assert_eq!(prime_fact_line(&chunk), format!("- [decision] {} (2024-01-01)", "x".repeat(120)));
    let undated = ChunkInfo { created_at: 0, content: "short".to_string(), ..chunk };
    assert_eq!(prime_fact_line(&undated), "- [decision] short (unknown)");
    assert_eq!(preview("héllo wörld", 4), "héll");
    assert_eq!(prime_query("my_app"), "important decisions and architecture for my_app");
}
