//! Telemetry decisions: the first-run prompt, status labels, the usage event
//! of a command, and statistics over the event log.

use vstd::prelude::*;
use crate::commands::{answer_is_yes, is_affirmative};
use crate::config::{error_type_of, TelemetryConfig, TelemetryEvent};
use crate::json::{as_str, as_u64, get, json_as_str, json_as_u64, json_get, json_parse, parse_json, JsonValue};
use crate::text::{chars_of, lines, lines_exec, split, str_eq, string_from};

verus! {

// ─────────────────────────────── first run ───────────────────────────────

/// What the first run does about telemetry settings.
#[derive(Debug, Clone, Copy, PartialEq, Eq, Structural)]
pub enum FirstRun {
    /// A settings file exists: nothing to do.
    Configured,
    /// No settings and nobody to ask (suppressed, or not a terminal): store
    /// everything off without asking.
    SaveDisabled,
    /// Ask the user.
    Prompt,
}

/// The first-run step, from whether settings exist, whether the environment
/// suppresses telemetry, and whether stdin is a terminal.
pub fn first_run_step(config_exists: bool, suppressed: bool, is_tty: bool) -> (s: FirstRun)
    ensures
        s == (if config_exists {
            FirstRun::Configured
        } else if suppressed || !is_tty {
            FirstRun::SaveDisabled
        } else {
            FirstRun::Prompt
        }),
{
    if config_exists {
        FirstRun::Configured
    } else if suppressed || !is_tty {
        FirstRun::SaveDisabled
    } else {
        FirstRun::Prompt
    }
}

/// The settings chosen by the answer to the first-run prompt: usage events
/// and crash reports both on for `y`/`yes`, both off otherwise.
pub fn config_from_answer(answer: &str) -> (c: TelemetryConfig)
    ensures
        c.enabled == is_affirmative(answer@),
        c.crash_reporting == is_affirmative(answer@),
{
    let yes = answer_is_yes(answer);
    TelemetryConfig { enabled: yes, crash_reporting: yes }
}

// ─────────────────────────────── status ───────────────────────────────

/// The usage-telemetry line of the status report.
pub fn usage_status_label(suppressed: bool, enabled: bool) -> (r: &'static str)
    ensures
        r@ == (if suppressed {
            "disabled (env override)"@
        } else if enabled {
            "enabled"@
        } else {
            "disabled"@
        }),
{
    if suppressed {
        "disabled (env override)"
    } else if enabled {
        "enabled"
    } else {
        "disabled"
    }
}

/// The crash-reporting line of the status report.
pub fn crash_status_label(crash_reporting: bool) -> (r: &'static str)
    ensures
        r@ == (if crash_reporting {
            "enabled"@
        } else {
            "disabled"@
        }),
{
    if crash_reporting {
        "enabled"
    } else {
        "disabled"
    }
}

// ─────────────────────────────── events ───────────────────────────────

/// The usage event of one command run. A failed run records the first
/// `:`-separated part of its error message.
pub fn telemetry_event(
    command: &str,
    version: &str,
    os: &str,
    arch: &str,
    duration_ms: u64,
    exit_code: i32,
    error_message: Option<&str>,
    date: &str,
) -> (e: TelemetryEvent)
    ensures
        e.command@ == command@,
        e.version@ == version@,
        e.os@ == os@,
        e.arch@ == arch@,
        e.duration_ms == duration_ms,
        e.exit_code == exit_code,
        e.date@ == date@,
        match error_message {
            Some(m) => e.error_type is Some && e.error_type->0@ == split(m@, ":"@)[0],
            None => e.error_type is None,
        },
{
    let cv = chars_of(command);
    let vv = chars_of(version);
    let ov = chars_of(os);
    let av = chars_of(arch);
    let dv = chars_of(date);
    TelemetryEvent {
        command: string_from(&cv),
        version: string_from(&vv),
        os: string_from(&ov),
        arch: string_from(&av),
        duration_ms,
        exit_code,
        error_type: match error_message {
            Some(m) => Some(error_type_of(m)),
            None => None,
        },
        date: string_from(&dv),
    }
}

// ─────────────────────────────── statistics ───────────────────────────────

/// Statistics over the event log.
pub struct TelemetryStats {
    /// Lines in the log.
    pub total_events: usize,
    /// Events that record an error type.
    pub error_events: usize,
    /// Sum of the recorded durations.
    pub total_duration_ms: u128,
    /// Events per command, most frequent first; equal counts in order of
    /// first appearance.
    pub commands: Vec<(String, usize)>,
}

/// The command an event names.
pub open spec fn event_command(e: Option<JsonValue>) -> Option<Seq<char>> {
    match e {
        Some(v) => as_str(get(v, "command"@)),
        None => None,
    }
}

/// Whether an event records an error type.
pub open spec fn event_failed(e: Option<JsonValue>) -> bool {
    match e {
        Some(v) => as_str(get(v, "error_type"@)) is Some,
        None => false,
    }
}

/// The duration an event records, zero when none.
pub open spec fn event_duration(e: Option<JsonValue>) -> nat {
    match e {
        Some(v) => match as_u64(get(v, "duration_ms"@)) {
            Some(d) => d as nat,
            None => 0,
        },
        None => 0,
    }
}

/// The parsed events of a log: one per line, `None` where a line is not JSON.
pub open spec fn log_events(content: Seq<char>) -> Seq<Option<JsonValue>> {
    lines(content).map_values(|l: Seq<char>| json_parse(l))
}

pub open spec fn count_failed(es: Seq<Option<JsonValue>>) -> nat
    decreases es.len(),
{
    if es.len() == 0 {
        0
    } else {
        count_failed(es.drop_last()) + if event_failed(es.last()) {
            1nat
        } else {
            0nat
        }
    }
}

pub open spec fn sum_durations(es: Seq<Option<JsonValue>>) -> nat
    decreases es.len(),
{
    if es.len() == 0 {
        0
    } else {
        sum_durations(es.drop_last()) + event_duration(es.last())
    }
}

/// Index of the entry for command `c` in `t`, from `i` on; `t.len()` when none.
pub open spec fn find_command(t: Seq<(Seq<char>, nat)>, c: Seq<char>, i: int) -> int
    decreases t.len() - i,
{
    if i < 0 || i >= t.len() {
        t.len() as int
    } else if t[i].0 == c {
        i
    } else {
        find_command(t, c, i + 1)
    }
}

proof fn lemma_find_command(t: Seq<(Seq<char>, nat)>, c: Seq<char>, i: int)
    requires
        0 <= i,
    ensures
        i <= find_command(t, c, i) <= t.len() || i > t.len(),
        find_command(t, c, i) < t.len() ==> t[find_command(t, c, i)].0 == c,
    decreases t.len() - i,
{
    if i < t.len() && t[i].0 != c {
        lemma_find_command(t, c, i + 1);
    }
}

/// Events per command, in order of each command's first event.
pub open spec fn tally(es: Seq<Option<JsonValue>>) -> Seq<(Seq<char>, nat)>
    decreases es.len(),
{
    if es.len() == 0 {
        seq![]
    } else {
        let t = tally(es.drop_last());
        match event_command(es.last()) {
            Some(c) => {
                let k = find_command(t, c, 0);
                if k < t.len() {
                    t.update(k, (c, t[k].1 + 1))
                } else {
                    t.push((c, 1nat))
                }
            },
            None => t,
        }
    }
}

/// Length of the leading run of `s` whose counts are at least `c`.
pub open spec fn run_at_least(s: Seq<(Seq<char>, nat)>, c: nat) -> int
    decreases s.len(),
{
    if s.len() == 0 {
        0
    } else if s[0].1 >= c {
        1 + run_at_least(s.drop_first(), c)
    } else {
        0
    }
}

/// `s` sorted by count, largest first, stably.
pub open spec fn by_count_desc(s: Seq<(Seq<char>, nat)>) -> Seq<(Seq<char>, nat)>
    decreases s.len(),
{
    if s.len() == 0 {
        seq![]
    } else {
        let r = by_count_desc(s.drop_last());
        let k = run_at_least(r, s.last().1);
        r.take(k).push(s.last()) + r.skip(k)
    }
}

pub open spec fn counts_view(v: Seq<(String, usize)>) -> Seq<(Seq<char>, nat)> {
    v.map_values(|p: (String, usize)| (p.0@, p.1 as nat))
}

fn find_command_exec(t: &Vec<(String, usize)>, c: &str) -> (k: usize)
    ensures
        k as int == find_command(counts_view(t@), c@, 0),
        k <= t@.len(),
{
    let ghost tv = counts_view(t@);
    let mut j: usize = 0;
    while j < t.len()
        invariant
            j <= t@.len(),
            tv == counts_view(t@),
            find_command(tv, c@, 0) == find_command(tv, c@, j as int),
        decreases t@.len() - j,
    {
        if str_eq(t[j].0.as_str(), c) {
            return j;
        }
        j = j + 1;
    }
    j
}

fn run_at_least_exec(v: &Vec<(String, usize)>, c: usize) -> (k: usize)
    ensures
        k as int == run_at_least(counts_view(v@), c as nat),
        k <= v@.len(),
{
    let ghost vv = counts_view(v@);
    let mut k: usize = 0;
    assert(vv.skip(0) =~= vv);
    while k < v.len() && v[k].1 >= c
        invariant
            k <= v@.len(),
            vv == counts_view(v@),
            run_at_least(vv, c as nat) == k + run_at_least(vv.skip(k as int), c as nat),
        decreases v@.len() - k,
    {
        assert(vv.skip(k as int).drop_first() =~= vv.skip(k + 1));
        k = k + 1;
    }
    k
}

/// Stable sort of command counts, largest first.
fn sort_counts(t: &Vec<(String, usize)>) -> (r: Vec<(String, usize)>)
    ensures
        counts_view(r@) == by_count_desc(counts_view(t@)),
{
    let ghost tv = counts_view(t@);
    let mut out: Vec<(String, usize)> = Vec::new();
    let mut i: usize = 0;
    assert(tv.take(0) =~= Seq::<(Seq<char>, nat)>::empty());
    while i < t.len()
        invariant
            i <= t@.len(),
            tv == counts_view(t@),
            counts_view(out@) == by_count_desc(tv.take(i as int)),
        decreases t@.len() - i,
    {
        let name = t[i].0.clone();
        let n = t[i].1;
        let k = run_at_least_exec(&out, n);
        let ghost before = counts_view(out@);
        out.insert(k, (name, n));
        proof {
            assert(tv.take(i + 1).drop_last() =~= tv.take(i as int));
            assert(tv.take(i + 1).last() == (name@, n as nat));
            assert(counts_view(out@) =~= before.take(k as int).push((name@, n as nat)) + before.skip(
                k as int,
            ));
        }
        i = i + 1;
    }
    assert(tv.take(i as int) =~= tv);
    out
}

/// Statistics of `n` logged lines whose parsed events are `es`.
pub open spec fn stats_of(s: TelemetryStats, n: nat, es: Seq<Option<JsonValue>>) -> bool {
    &&& s.total_events == n
    &&& s.error_events == count_failed(es)
    &&& s.total_duration_ms == sum_durations(es)
    &&& counts_view(s.commands@) == by_count_desc(tally(es))
}

/// The statistics of an event log (one JSON event per line).
pub open spec fn stats_match(s: TelemetryStats, content: Seq<char>) -> bool {
    stats_of(s, lines(content).len(), log_events(content))
}

/// Statistics of `line_count` logged lines, given their parsed events
/// (`None` for a line that is not JSON): errors, total recorded time, and
/// events per command.
pub fn stats_from_events(line_count: usize, events: &Vec<Option<JsonValue>>) -> (s: TelemetryStats)
    ensures
        stats_of(s, line_count as nat, events@),
{
    let ghost es = events@;
    let mut errors: usize = 0;
    let mut total: u128 = 0;
    let mut counts: Vec<(String, usize)> = Vec::new();
    let mut i: usize = 0;
    assert(es.take(0) =~= Seq::<Option<JsonValue>>::empty());
    while i < events.len()
        invariant
            i <= events@.len(),
            es == events@,
            errors as nat == count_failed(es.take(i as int)),
            errors <= i,
            total as nat == sum_durations(es.take(i as int)),
            total <= i * 18446744073709551615u128,
            counts_view(counts@) == tally(es.take(i as int)),
            forall|j: int| 0 <= j < counts@.len() ==> #[trigger] counts@[j].1 <= i,
        decreases events@.len() - i,
    {
        proof {
            assert(es.take(i + 1).drop_last() =~= es.take(i as int));
        }
        let ghost t0 = counts_view(counts@);
        if let Some(e) = &events[i] {
            if let Some(c) = json_as_str(json_get(e, "command")) {
                let k = find_command_exec(&counts, c);
                proof {
                    lemma_find_command(t0, c@, 0);
                }
                if k < counts.len() {
                    let n = counts[k].1;
                    let name = counts[k].0.clone();
                    counts.set(k, (name, n + 1));
                    proof {
                        assert(counts_view(counts@) =~= t0.update(k as int, (c@, t0[k as int].1 + 1)));
                    }
                } else {
                    let cs = chars_of(c);
                    counts.push((string_from(&cs), 1));
                    proof {
                        assert(counts_view(counts@) =~= t0.push((c@, 1nat)));
                    }
                }
            }
            if let Some(d) = json_as_u64(json_get(e, "duration_ms")) {
                total = total + d as u128;
            }
            if json_as_str(json_get(e, "error_type")).is_some() {
                errors = errors + 1;
            }
        }
        i = i + 1;
    }
    assert(es.take(i as int) =~= es);
    TelemetryStats {
        total_events: line_count,
        error_events: errors,
        total_duration_ms: total,
        commands: sort_counts(&counts),
    }
}

/// Statistics of the event log `content`: events, errors, total recorded
/// time, and events per command.
pub fn telemetry_stats(content: &str) -> (s: TelemetryStats)
    ensures
        stats_match(s, content@),
{
    let v = chars_of(content);
    let ls = lines_exec(&v);
    let ghost lv = crate::text::views(ls@);
    assert(lv == lines(content@));
    let mut events: Vec<Option<JsonValue>> = Vec::new();
    let mut i: usize = 0;
    while i < ls.len()
        invariant
            i <= ls@.len(),
            lv == crate::text::views(ls@),
            events@ == lv.take(i as int).map_values(|l: Seq<char>| json_parse(l)),
        decreases ls@.len() - i,
    {
        let line = string_from(&ls[i]);
        let ev = parse_json(line.as_str());
        events.push(ev);
        proof {
            assert(lv.take(i + 1) =~= lv.take(i as int).push(lv[i as int]));
            assert(events@ =~= lv.take(i + 1).map_values(|l: Seq<char>| json_parse(l)));
        }
        i = i + 1;
    }
    assert(lv.take(i as int) =~= lv);
    stats_from_events(ls.len(), &events)
}

} // verus!
