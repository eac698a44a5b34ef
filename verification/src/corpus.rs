//! What the store reports about the corpus, and how commands show it.

use vstd::prelude::*;
use crate::dates::format_epoch_date;
use crate::text::{append_chars, append_str, chars_of, string_from};

verus! {

/// One stored chunk as the session-start payload lists it.
pub struct ChunkInfo {
    pub content: String,
    pub wing: String,
    pub room: String,
    pub dtype: String,
    pub created_at: i64,
}

/// Chunk counts: in total and per wing (in wing order).
pub struct CorpusStats {
    pub total_chunks: i64,
    pub wings: Vec<(String, i64)>,
}

/// At most the first `n` characters of `s`.
pub open spec fn preview_spec(s: Seq<char>, n: nat) -> Seq<char> {
    if s.len() <= n {
        s
    } else {
        s.take(n as int)
    }
}

/// The first `n` characters of a text (all of it when shorter).
pub fn preview(s: &str, n: usize) -> (r: String)
    ensures
        r@ == preview_spec(s@, n as nat),
{
    let v = chars_of(s);
    if v.len() <= n {
        string_from(&v)
    } else {
        let p = crate::text::slice_range(&v, 0, n);
        assert(p@ =~= v@.take(n as int));
        string_from(&p)
    }
}

/// `- [<type>] <first 120 characters> (<date>)`: a recent memory in the
/// session-start payload.
pub fn prime_fact_line(chunk: &ChunkInfo) -> (r: String)
    ensures
        r@ == "- ["@ + chunk.dtype@ + "] "@ + preview_spec(chunk.content@, 120) + " ("@
            + crate::dates::epoch_display(chunk.created_at as int) + ")"@,
{
    let mut v: Vec<char> = Vec::new();
    append_str(&mut v, "- [");
    append_str(&mut v, chunk.dtype.as_str());
    append_str(&mut v, "] ");
    let p = preview(chunk.content.as_str(), 120);
    append_str(&mut v, p.as_str());
    append_str(&mut v, " (");
    let d = format_epoch_date(chunk.created_at);
    append_str(&mut v, d.as_str());
    append_str(&mut v, ")");
    string_from(&v)
}

/// The search that opens a session for a wing.
pub fn prime_query(wing: &str) -> (r: String)
    ensures
        r@ == "important decisions and architecture for "@ + wing@,
{
    let mut v: Vec<char> = Vec::new();
    append_str(&mut v, "important decisions and architecture for ");
    append_str(&mut v, wing);
    string_from(&v)
}

/// A count as shown (`{}` of an `i64`).
pub open spec fn count_text(n: i64) -> Seq<char> {
    crate::dates::fmt_signed(n as int, 1)
}

fn count_chars(n: i64) -> (r: Vec<char>)
    ensures
        r@ == count_text(n),
{
    crate::dates::format_signed(n, 1)
}

/// The per-wing lines of the status overview.
pub open spec fn wing_lines(ws: Seq<(Seq<char>, i64)>) -> Seq<char>
    decreases ws.len(),
{
    if ws.len() == 0 {
        seq![]
    } else {
        wing_lines(ws.drop_last()) + "  WING: "@ + ws.last().0 + " ("@ + count_text(ws.last().1)
            + ")\n"@
    }
}

pub open spec fn stats_wings_view(ws: Seq<(String, i64)>) -> Seq<(Seq<char>, i64)> {
    ws.map_values(|w: (String, i64)| (w.0@, w.1))
}

/// The corpus overview printed by `status`.
pub fn status_report(stats: &CorpusStats) -> (r: String)
    ensures
        r@ == "\n  Recall — "@ + count_text(stats.total_chunks) + " drawers\n\n"@ + wing_lines(
            stats_wings_view(stats.wings@),
        ),
{
    let ghost ws = stats_wings_view(stats.wings@);
    let mut v: Vec<char> = Vec::new();
    append_str(&mut v, "\n  Recall — ");
    let t = count_chars(stats.total_chunks);
    append_chars(&mut v, &t);
    append_str(&mut v, " drawers\n\n");
    let ghost head = v@;
    let mut i: usize = 0;
    assert(ws.take(0) =~= Seq::<(Seq<char>, i64)>::empty());
    while i < stats.wings.len()
        invariant
            i <= stats.wings@.len(),
            ws == stats_wings_view(stats.wings@),
            v@ == head + wing_lines(ws.take(i as int)),
        decreases stats.wings@.len() - i,
    {
        proof {
            assert(ws.take(i + 1).drop_last() =~= ws.take(i as int));
            assert(ws.take(i + 1).last() == ws[i as int]);
        }
        append_str(&mut v, "  WING: ");
        append_str(&mut v, stats.wings[i].0.as_str());
        append_str(&mut v, " (");
        let c = count_chars(stats.wings[i].1);
        append_chars(&mut v, &c);
        append_str(&mut v, ")\n");
        i = i + 1;
    }
    assert(ws.take(i as int) =~= ws);
    string_from(&v)
}

} // verus!
