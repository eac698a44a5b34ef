//! The health report: corpus counts, duplicate wings, project coverage and
//! the staleness markers written after ingestion and update checks.

use vstd::prelude::*;
use crate::commands::{
    coverage_spec, detect_wing_duplicates, duplicate_groups, duplicate_key, parse_duration,
    parse_duration_spec, project_coverage, strings_view,
};
use crate::num::{dec, format_u64, parse_i64, parse_i64_spec, parse_u64, parse_u64_spec};
use crate::text::{append_chars, append_str, chars_of, join, join_exec, string_from, trim, trimmed, views};

verus! {

/// Machine-readable health diagnostics.
pub struct HealthReport {
    pub total_chunks: i64,
    pub import_chunks: i64,
    pub session_chunks: i64,
    pub agent_chunks: i64,
    pub wing_count: usize,
    /// Chunks per wing.
    pub wings: Vec<(String, i64)>,
    /// Wings that hold imported chunks.
    pub import_wings: Vec<String>,
    /// Groups of wing names that differ only by `-`, `.`, `_` or case.
    pub duplicates: Vec<Vec<String>>,
    pub last_ingest_ts: Option<i64>,
    pub discoverable_projects: usize,
    pub covered_projects: usize,
    pub missing_projects: Vec<String>,
    pub stale_wings: Vec<String>,
}

/// The names of per-wing counts.
pub open spec fn wing_names(wings: Seq<(String, i64)>) -> Seq<Seq<char>> {
    wings.map_values(|w: (String, i64)| w.0@)
}

pub open spec fn groups_view(g: Seq<Vec<String>>) -> Seq<Seq<Seq<char>>> {
    g.map_values(|v: Vec<String>| strings_view(v@))
}

/// The report assembled from the counts the store gives, the marker of the
/// last ingestion, and the projects found on disk.
pub open spec fn report_matches(
    r: HealthReport,
    total: i64,
    imports: i64,
    sessions: i64,
    agents: i64,
    wings: Seq<(String, i64)>,
    import_wings: Seq<String>,
    last_ingest: Option<i64>,
    discoverable: Seq<String>,
) -> bool {
    let names = wing_names(wings);
    let cov = coverage_spec(strings_view(discoverable), strings_view(import_wings));
    &&& r.total_chunks == total
    &&& r.import_chunks == imports
    &&& r.session_chunks == sessions
    &&& r.agent_chunks == agents
    &&& r.wing_count == wings.len()
    &&& r.wings@ == wings
    &&& strings_view(r.import_wings@) == strings_view(import_wings)
    &&& groups_view(r.duplicates@) == duplicate_groups(
        names,
        names.map_values(|n: Seq<char>| duplicate_key(n)),
        names.len() as int,
    )
    &&& r.last_ingest_ts == last_ingest
    &&& r.discoverable_projects == cov.0
    &&& r.covered_projects == cov.1
    &&& strings_view(r.missing_projects@) == cov.2
    &&& r.stale_wings@.len() == 0
}

/// Assemble the health report.
pub fn build_health_report(
    total: i64,
    imports: i64,
    sessions: i64,
    agents: i64,
    wings: Vec<(String, i64)>,
    import_wings: Vec<String>,
    last_ingest: Option<i64>,
    discoverable: &Vec<String>,
) -> (r: HealthReport)
    ensures
        report_matches(r, total, imports, sessions, agents, wings@, import_wings@, last_ingest, discoverable@),
{
    let mut names: Vec<String> = Vec::new();
    let mut i: usize = 0;
    while i < wings.len()
        invariant
            i <= wings@.len(),
            strings_view(names@) == wing_names(wings@).take(i as int),
        decreases wings@.len() - i,
    {
        let ghost before = strings_view(names@);
        names.push(wings[i].0.clone());
        proof {
            assert(strings_view(names@) =~= before.push(wings@[i as int].0@));
            assert(wing_names(wings@).take(i + 1) =~= wing_names(wings@).take(i as int).push(
                wings@[i as int].0@,
            ));
        }
        i = i + 1;
    }
    assert(wing_names(wings@).take(i as int) =~= wing_names(wings@));
    let duplicates = detect_wing_duplicates(&names);
    assert(groups_view(duplicates@) =~= duplicates@.map_values(|g: Vec<String>| strings_view(g@)));
    let (discoverable_projects, covered_projects, missing_projects) = project_coverage(discoverable, &import_wings);
    HealthReport {
        total_chunks: total,
        import_chunks: imports,
        session_chunks: sessions,
        agent_chunks: agents,
        wing_count: wings.len(),
        wings,
        import_wings,
        duplicates,
        last_ingest_ts: last_ingest,
        discoverable_projects,
        covered_projects,
        missing_projects,
        stale_wings: Vec::new(),
    }
}

/// The missing projects as shown: the first five, comma-separated, then
/// ` (+N more)` when there are more.
pub open spec fn missing_display_spec(missing: Seq<Seq<char>>) -> Seq<char> {
    let shown = join(missing.take(if missing.len() < 5 { missing.len() as int } else { 5 }), ", "@);
    if missing.len() > 5 {
        shown + " (+"@ + dec((missing.len() - 5) as nat) + " more)"@
    } else {
        shown
    }
}

/// The line of missing projects in the health report.
pub fn missing_display(missing: &Vec<String>) -> (r: String)
    ensures
        r@ == missing_display_spec(strings_view(missing@)),
{
    let ghost mv = strings_view(missing@);
    let n: usize = if missing.len() < 5 { missing.len() } else { 5 };
    let mut parts: Vec<Vec<char>> = Vec::new();
    let mut i: usize = 0;
    while i < n
        invariant
            i <= n <= missing@.len(),
            mv == strings_view(missing@),
            views(parts@) == mv.take(i as int),
        decreases n - i,
    {
        let ghost before = views(parts@);
        parts.push(chars_of(missing[i].as_str()));
        proof {
            assert(views(parts@) =~= before.push(mv[i as int]));
            assert(mv.take(i + 1) =~= mv.take(i as int).push(mv[i as int]));
        }
        i = i + 1;
    }
    let sep = chars_of(", ");
    let mut out = join_exec(&parts, &sep);
    if missing.len() > 5 {
        append_str(&mut out, " (+");
        let k = format_u64((missing.len() - 5) as u64);
        append_chars(&mut out, &k);
        append_str(&mut out, " more)");
    }
    string_from(&out)
}

// ─────────────────────────────── markers ───────────────────────────────

/// The time stored in the ingestion marker (decimal seconds, surrounding
/// white space ignored), if it holds one.
pub fn parse_ingest_marker(content: &str) -> (r: Option<i64>)
    ensures
        r == parse_i64_spec(trim(content@)),
{
    let v = chars_of(content);
    let t = trimmed(&v);
    parse_i64(&t)
}

/// The time stored in the update-check marker, if it holds one.
pub fn parse_check_marker(content: &str) -> (r: Option<u64>)
    ensures
        r == parse_u64_spec(trim(content@)),
{
    let v = chars_of(content);
    let t = trimmed(&v);
    parse_u64(&t)
}

/// The marker text for a time: its decimal seconds.
pub fn marker_text(epoch: u64) -> (r: String)
    ensures
        r@ == dec(epoch as nat),
{
    let v = format_u64(epoch);
    string_from(&v)
}

/// The update-check marker reads back the time it was written with.
pub proof fn lemma_check_marker_roundtrip(t: u64)
    ensures
        parse_u64_spec(trim(dec(t as nat))) == Some(t),
{
    lemma_marker_digits(t as nat);
}

/// The ingestion marker reads back the time it was written with (for times
/// that fit in `i64`).
pub proof fn lemma_ingest_marker_roundtrip(t: u64)
    requires
        t <= i64::MAX,
    ensures
        parse_i64_spec(trim(dec(t as nat))) == Some(t as i64),
{
    lemma_marker_digits(t as nat);
}

proof fn lemma_marker_digits(n: nat)
    ensures
        trim(dec(n)) == dec(n),
        dec(n).len() > 0,
        dec(n)[0] != '+' && dec(n)[0] != '-',
        crate::num::all_digits(dec(n)),
        crate::num::digits_value(dec(n)) == n,
{
    crate::num::lemma_dec_digits(n);
    let d = dec(n);
    assert(crate::num::is_digit(d[0]));
    assert(crate::num::is_digit(d[d.len() - 1]));
    crate::text::lemma_trim_plain(d);
}

// ─────────────────────────────── forget ───────────────────────────────

/// Why a `forget` cannot go ahead.
#[derive(Debug, Clone, Copy, PartialEq, Eq, Structural)]
pub enum ForgetError {
    /// The `--older-than` value is not a positive duration such as `90d`.
    InvalidDuration,
}

/// The cutoff of a `forget` at time `now`: none without `--older-than`,
/// else `now` minus the duration.
pub fn forget_cutoff(now: i64, older_than: Option<&str>) -> (r: Result<Option<i64>, ForgetError>)
    requires
        match older_than {
            Some(a) => match parse_duration_spec(a@) {
                Some(secs) => now - secs >= i64::MIN,
                None => true,
            },
            None => true,
        },
    ensures
        match older_than {
            None => r == Ok::<Option<i64>, ForgetError>(None),
            Some(a) => match parse_duration_spec(a@) {
                Some(secs) => r == Ok::<Option<i64>, ForgetError>(Some((now - secs) as i64)),
                None => r == Err::<Option<i64>, ForgetError>(ForgetError::InvalidDuration),
            },
        },
{
    match older_than {
        None => Ok(None),
        Some(a) => match parse_duration(a) {
            Some(secs) => {
                proof {
                    crate::commands::lemma_duration_positive(a@);
                }
                Ok(Some(now - secs))
            },
            None => Err(ForgetError::InvalidDuration),
        },
    }
}

} // verus!
