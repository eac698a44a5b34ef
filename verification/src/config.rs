//! The settings file (`~/.recall/config.toml`): telemetry and update
//! sections, the environment overrides, and release version comparison.

use vstd::prelude::*;
use crate::num::parse_u64_spec;
use crate::text::{
    append_str, chars_eq_str, chars_of, is_ws, lemma_lines_cons, lemma_trim_plain, lines,
    lines_exec, slice_range, split, split_exec, starts_with, starts_with_exec, string_from,
    strip_cr, trim, trim_end, trim_start, trimmed, views,
};

verus! {

// ─────────────────────────────── settings lines ───────────────────────────────

/// The boolean a trimmed line sets for `key`: the line starts with `key`, the
/// rest (trimmed) starts with `=`, and what follows (trimmed) is exactly
/// `true` for true; `None` when the line has no `=` after the key.
pub open spec fn bool_setting(line: Seq<char>, key: Seq<char>) -> Option<bool> {
    let val = trim(line.skip(key.len() as int));
    if val.len() > 0 && val[0] == '=' {
        Some(trim(val.drop_first()) == "true"@)
    } else {
        None
    }
}

/// The text after `=` in a trimmed line that starts with `key`, trimmed.
pub open spec fn setting_text(line: Seq<char>, key: Seq<char>) -> Option<Seq<char>> {
    let val = trim(line.skip(key.len() as int));
    if val.len() > 0 && val[0] == '=' {
        Some(trim(val.drop_first()))
    } else {
        None
    }
}

/// The text after `key` and `=`, trimmed, for a trimmed line starting with `key`.
fn setting_text_exec(line: &[char], key: &str) -> (r: Option<Vec<char>>)
    requires
        starts_with(line@, key@),
    ensures
        match r {
            Some(v) => setting_text(line@, key@) == Some(v@),
            None => setting_text(line@, key@) is None,
        },
{
    let k = chars_of(key);
    let rest = slice_range(line, k.len(), line.len());
    assert(rest@ =~= line@.skip(key@.len() as int));
    let val = trimmed(&rest);
    if val.len() > 0 && val[0] == '=' {
        let after = slice_range(&val, 1, val.len());
        assert(after@ =~= val@.drop_first());
        Some(trimmed(&after))
    } else {
        None
    }
}

// ─────────────────────────────── telemetry ───────────────────────────────

/// Telemetry settings: usage events and local crash reports.
pub struct TelemetryConfig {
    pub enabled: bool,
    pub crash_reporting: bool,
}

impl Default for TelemetryConfig {
    /// Both off.
    fn default() -> (c: Self)
        ensures
            !c.enabled && !c.crash_reporting,
    {
        TelemetryConfig { enabled: false, crash_reporting: false }
    }
}

/// The telemetry settings after one line of the file.
pub open spec fn telemetry_step(st: (bool, bool), raw: Seq<char>) -> (bool, bool) {
    let line = trim(raw);
    if starts_with(line, "enabled"@) {
        match bool_setting(line, "enabled"@) {
            Some(b) => (b, st.1),
            None => st,
        }
    } else if starts_with(line, "crash_reporting"@) {
        match bool_setting(line, "crash_reporting"@) {
            Some(b) => (st.0, b),
            None => st,
        }
    } else {
        st
    }
}

/// The telemetry settings after the given lines, starting from both off.
pub open spec fn telemetry_after(ls: Seq<Seq<char>>) -> (bool, bool)
    decreases ls.len(),
{
    if ls.len() == 0 {
        (false, false)
    } else {
        telemetry_step(telemetry_after(ls.drop_last()), ls.last())
    }
}

/// Read the telemetry settings from the settings file: every line of the
/// form `enabled = <v>` or `crash_reporting = <v>` (spaces around the parts
/// allowed) sets that flag to whether `<v>` is `true`; the last such line wins.
pub fn parse_config(content: &str) -> (c: TelemetryConfig)
    ensures
        (c.enabled, c.crash_reporting) == telemetry_after(lines(content@)),
{
    let v = chars_of(content);
    let ls = lines_exec(&v);
    let ghost lv = views(ls@);
    let mut enabled = false;
    let mut crash = false;
    let mut i: usize = 0;
    assert(lv.take(0) =~= Seq::<Seq<char>>::empty());
    while i < ls.len()
        invariant
            i <= ls@.len(),
            lv == views(ls@),
            (enabled, crash) == telemetry_after(lv.take(i as int)),
        decreases ls@.len() - i,
    {
        proof {
            assert(lv.take(i + 1).drop_last() =~= lv.take(i as int));
            assert(lv.take(i + 1).last() == ls@[i as int]@);
        }
        let line = trimmed(&ls[i]);
        if starts_with_exec(&line, &chars_of("enabled")) {
            match setting_text_exec(&line, "enabled") {
                Some(val) => {
                    enabled = chars_eq_str(&val, "true");
                },
                None => {},
            }
        } else if starts_with_exec(&line, &chars_of("crash_reporting")) {
            match setting_text_exec(&line, "crash_reporting") {
                Some(val) => {
                    crash = chars_eq_str(&val, "true");
                },
                None => {},
            }
        }
        i = i + 1;
    }
    assert(lv.take(i as int) =~= lv);
    TelemetryConfig { enabled, crash_reporting: crash }
}

impl TelemetryConfig {
    /// The settings file text that stores this configuration.
    pub fn file_text(&self) -> (t: String)
        ensures
            t@ == telemetry_file_text(self.enabled, self.crash_reporting),
    {
        let mut v: Vec<char> = Vec::new();
        append_str(&mut v, "[telemetry]\nenabled = ");
        append_str(&mut v, if self.enabled { "true" } else { "false" });
        append_str(&mut v, "\ncrash_reporting = ");
        append_str(&mut v, if self.crash_reporting { "true" } else { "false" });
        append_str(&mut v, "\n");
        string_from(&v)
    }
}

pub open spec fn bool_text(b: bool) -> Seq<char> {
    if b {
        "true"@
    } else {
        "false"@
    }
}

/// The settings file text for a telemetry configuration.
pub open spec fn telemetry_file_text(enabled: bool, crash: bool) -> Seq<char> {
    "[telemetry]\nenabled = "@ + bool_text(enabled) + "\ncrash_reporting = "@ + bool_text(crash)
        + "\n"@
}

/// A `key = true|false` line is read back as the flag it was written with.
proof fn lemma_setting_line(key: Seq<char>, b: bool)
    requires
        key.len() > 0,
        !is_ws(key[0]),
    ensures
        trim(key + " = "@ + bool_text(b)) == key + " = "@ + bool_text(b),
        starts_with(key + " = "@ + bool_text(b), key),
        bool_setting(key + " = "@ + bool_text(b), key) == Some(b),
{
    reveal_strlit(" = ");
    reveal_strlit("= ");
    reveal_strlit("true");
    reveal_strlit("false");
    let bt = bool_text(b);
    let line = key + " = "@ + bt;
    assert(line[0] == key[0]);
    assert(line.last() == 'e');
    lemma_trim_plain(line);
    assert(line.take(key.len() as int) =~= key);
    let s1 = line.skip(key.len() as int);
    assert(s1 =~= " = "@ + bt);
    let s2 = s1.drop_first();
    assert(trim_start(s1) == trim_start(s2));
    assert(trim_start(s2) == s2);
    assert(trim_end(s2) == s2);
    assert(trim(s1) == s2);
    assert(s2[0] == '=');
    let s3 = s2.drop_first();
    assert(s3 =~= seq![' '] + bt);
    assert(trim_start(s3) == trim_start(bt)) by {
        assert(s3.drop_first() =~= bt);
    }
    lemma_trim_plain(bt);
    assert(trim(s3) == bt);
    if !b {
        assert(bt.len() != "true"@.len());
    }
}

/// Saving telemetry settings and loading them back gives the same settings.
pub proof fn lemma_telemetry_file_roundtrip(enabled: bool, crash: bool)
    ensures
        telemetry_after(lines(telemetry_file_text(enabled, crash))) == (enabled, crash),
{
    reveal_strlit("[telemetry]\nenabled = ");
    reveal_strlit("\ncrash_reporting = ");
    reveal_strlit("\n");
    reveal_strlit("[telemetry]");
    reveal_strlit("enabled = ");
    reveal_strlit("crash_reporting = ");
    reveal_strlit("enabled");
    reveal_strlit("crash_reporting");
    reveal_strlit(" = ");
    reveal_strlit("true");
    reveal_strlit("false");
    let nl = seq!['\n'];
    let l1 = "[telemetry]"@;
    let l2 = "enabled"@ + " = "@ + bool_text(enabled);
    let l3 = "crash_reporting"@ + " = "@ + bool_text(crash);
    let text = telemetry_file_text(enabled, crash);
    let e = Seq::<char>::empty();
    assert(text =~= l1 + nl + (l2 + nl + (l3 + nl + e)));
    assert(!l1.contains('\n')) by {
        assert forall|i: int| 0 <= i < l1.len() implies l1[i] != '\n' by {}
    }
    assert(!l2.contains('\n')) by {
        assert forall|i: int| 0 <= i < l2.len() implies l2[i] != '\n' by {}
    }
    assert(!l3.contains('\n')) by {
        assert forall|i: int| 0 <= i < l3.len() implies l3[i] != '\n' by {}
    }
    lemma_lines_cons(l3, e);
    lemma_lines_cons(l2, l3 + nl + e);
    lemma_lines_cons(l1, l2 + nl + (l3 + nl + e));
    assert(strip_cr(l1) == l1);
    assert(strip_cr(l2) == l2);
    assert(strip_cr(l3) == l3);
    let ls = lines(text);
    assert(ls =~= seq![l1, l2, l3]);
    assert(ls.drop_last() =~= seq![l1, l2]);
    assert(ls.drop_last().drop_last() =~= seq![l1]);
    assert(ls.drop_last().drop_last().drop_last() =~= Seq::<Seq<char>>::empty());
    // First line: the section header sets nothing.
    lemma_trim_plain(l1);
    assert(!starts_with(l1, "enabled"@)) by {
        assert(l1.take(7)[0] != "enabled"@[0]);
    }
    assert(telemetry_step((false, false), l1) == (false, false));
    // Second and third lines set the flags.
    lemma_setting_line("enabled"@, enabled);
    lemma_setting_line("crash_reporting"@, crash);
    assert(telemetry_step((false, false), l2) == (enabled, false));
    assert(!starts_with(l3, "enabled"@)) by {
        assert(l3.take(7)[0] != "enabled"@[0]);
    }
    assert(telemetry_step((enabled, false), l3) == (enabled, crash));
    assert(telemetry_after(ls.drop_last().drop_last().drop_last()) == (false, false));
    assert(ls.drop_last().drop_last().last() == l1);
    assert(telemetry_after(ls.drop_last().drop_last()) == (false, false));
    assert(ls.drop_last().last() == l2);
    assert(telemetry_after(ls.drop_last()) == (enabled, false));
    assert(ls.last() == l3);
}

/// Telemetry is suppressed by the environment: `DO_NOT_TRACK=1`, or `CI`
/// set to `true` or `1`.
pub open spec fn suppressed_spec(do_not_track: Option<Seq<char>>, ci: Option<Seq<char>>) -> bool {
    do_not_track == Some("1"@) || ci == Some("true"@) || ci == Some("1"@)
}

/// Whether the environment values of `DO_NOT_TRACK` and `CI` suppress telemetry.
pub fn env_suppressed(do_not_track: Option<&str>, ci: Option<&str>) -> (b: bool)
    ensures
        b == suppressed_spec(
            match do_not_track {
                Some(x) => Some(x@),
                None => None,
            },
            match ci {
                Some(x) => Some(x@),
                None => None,
            },
        ),
{
    let dnt = match do_not_track {
        Some(x) => crate::text::str_eq(x, "1"),
        None => false,
    };
    let c = match ci {
        Some(x) => crate::text::str_eq(x, "true") || crate::text::str_eq(x, "1"),
        None => false,
    };
    dnt || c
}

/// Effective telemetry state: enabled in the settings and not suppressed by
/// the environment.
pub fn is_enabled(config: &TelemetryConfig, suppressed: bool) -> (b: bool)
    ensures
        b == (config.enabled && !suppressed),
{
    config.enabled && !suppressed
}

/// The error type recorded for a failed command: its message up to the first `:`.
pub fn error_type_of(message: &str) -> (r: String)
    ensures
        r@ == split(message@, ":"@)[0],
{
    let v = chars_of(message);
    let sep = chars_of(":");
    proof {
        reveal_strlit(":");
    }
    let parts = split_exec(&v, &sep);
    proof {
        lemma_split_nonempty(v@, sep@);
    }
    string_from(&parts[0])
}

proof fn lemma_split_nonempty(s: Seq<char>, sep: Seq<char>)
    ensures
        split(s, sep).len() > 0,
{
    if sep.len() > 0 {
        match crate::text::find(s, sep) {
            Some(k) => {},
            None => {},
        }
    }
}

/// One usage event.
pub struct TelemetryEvent {
    pub command: String,
    pub version: String,
    pub os: String,
    pub arch: String,
    pub duration_ms: u64,
    pub exit_code: i32,
    pub error_type: Option<String>,
    pub date: String,
}

// ─────────────────────────────── updates ───────────────────────────────

/// Update-check settings.
pub struct UpdateConfig {
    pub check: bool,
    pub interval_hours: u64,
}

impl Default for UpdateConfig {
    /// Checks on, once every 24 hours.
    fn default() -> (c: Self)
        ensures
            c.check && c.interval_hours == 24,
    {
        UpdateConfig { check: true, interval_hours: 24 }
    }
}

/// The update settings after one line: `[update]` opens the section, any
/// other `[` line closes it; inside it, `check = <v>` sets the check flag to
/// whether `<v>` is `true`, and `interval_hours = <n>` sets the interval when
/// `<n>` is a `u64`.
pub open spec fn update_step(st: (bool, bool, u64), raw: Seq<char>) -> (bool, bool, u64) {
    let line = trim(raw);
    let (inside, check, hours) = st;
    if line == "[update]"@ {
        (true, check, hours)
    } else if starts_with(line, "["@) {
        (false, check, hours)
    } else if !inside {
        st
    } else if starts_with(line, "check"@) {
        match bool_setting(line, "check"@) {
            Some(b) => (inside, b, hours),
            None => st,
        }
    } else if starts_with(line, "interval_hours"@) {
        match setting_text(line, "interval_hours"@) {
            Some(t) => match parse_u64_spec(t) {
                Some(n) => (inside, check, n),
                None => st,
            },
            None => st,
        }
    } else {
        st
    }
}

/// The update settings after the given lines, from the defaults (outside any
/// section).
pub open spec fn update_after(ls: Seq<Seq<char>>) -> (bool, bool, u64)
    decreases ls.len(),
{
    if ls.len() == 0 {
        (false, true, 24)
    } else {
        update_step(update_after(ls.drop_last()), ls.last())
    }
}

/// Read the `[update]` section of the settings file.
pub fn parse_update_config(content: &str) -> (c: UpdateConfig)
    ensures
        c.check == update_after(lines(content@)).1,
        c.interval_hours == update_after(lines(content@)).2,
{
    let v = chars_of(content);
    let ls = lines_exec(&v);
    let ghost lv = views(ls@);
    let mut inside = false;
    let mut check = true;
    let mut hours: u64 = 24;
    let mut i: usize = 0;
    assert(lv.take(0) =~= Seq::<Seq<char>>::empty());
    while i < ls.len()
        invariant
            i <= ls@.len(),
            lv == views(ls@),
            (inside, check, hours) == update_after(lv.take(i as int)),
        decreases ls@.len() - i,
    {
        proof {
            assert(lv.take(i + 1).drop_last() =~= lv.take(i as int));
            assert(lv.take(i + 1).last() == ls@[i as int]@);
        }
        let line = trimmed(&ls[i]);
        if chars_eq_str(&line, "[update]") {
            inside = true;
        } else if starts_with_exec(&line, &chars_of("[")) {
            inside = false;
        } else if inside {
            if starts_with_exec(&line, &chars_of("check")) {
                match setting_text_exec(&line, "check") {
                    Some(val) => {
                        check = chars_eq_str(&val, "true");
                    },
                    None => {},
                }
            } else if starts_with_exec(&line, &chars_of("interval_hours")) {
                match setting_text_exec(&line, "interval_hours") {
                    Some(val) => match crate::num::parse_u64(&val) {
                        Some(n) => {
                            hours = n;
                        },
                        None => {},
                    },
                    None => {},
                }
            }
        }
        i = i + 1;
    }
    assert(lv.take(i as int) =~= lv);
    UpdateConfig { check, interval_hours: hours }
}

/// Whether to check for an update now: not suppressed by the environment,
/// on an interactive terminal, enabled in the settings, and either never
/// checked or last checked at least the interval ago.
pub open spec fn should_check_spec(
    suppressed: bool,
    interactive: bool,
    config_check: bool,
    interval_hours: u64,
    last_check: Option<u64>,
    now: u64,
) -> bool {
    !suppressed && interactive && config_check && match last_check {
        Some(last) => !(if now >= last {
            now - last
        } else {
            0
        } < interval_hours * 3600),
        None => true,
    }
}

/// Updates are checked at most once per interval: within `interval_hours`
/// of the last check (or with a clock that went back before it) no check is
/// due, whatever else holds.
pub proof fn lemma_check_at_most_once_per_interval(
    suppressed: bool,
    interactive: bool,
    config_check: bool,
    interval_hours: u64,
    last: u64,
    now: u64,
)
    requires
        interval_hours > 0,
        now < last + interval_hours * 3600,
    ensures
        !should_check_spec(suppressed, interactive, config_check, interval_hours, Some(last), now),
{
}

/// Whether an update check is due: not suppressed by the environment, stderr
/// is a terminal, checks are on, and the interval has passed since the last
/// check (a clock that went back counts as no time passed).
pub fn should_check(
    suppressed: bool,
    interactive: bool,
    config: &UpdateConfig,
    last_check: Option<u64>,
    now: u64,
) -> (b: bool)
    requires
        config.interval_hours <= u64::MAX / 3600,
    ensures
        b == should_check_spec(
            suppressed,
            interactive,
            config.check,
            config.interval_hours,
            last_check,
            now,
        ),
{
    if suppressed || !interactive || !config.check {
        return false;
    }
    let interval_secs = config.interval_hours * 3600;
    match last_check {
        Some(last) => {
            let elapsed = now.saturating_sub(last);
            !(elapsed < interval_secs)
        },
        None => true,
    }
}

/// The numeric parts of a version: each `.`-separated part as a `u64`, zero
/// when it is not one.
pub open spec fn version_parts(v: Seq<char>) -> Seq<u64> {
    split(v, "."@).map_values(
        |p: Seq<char>|
            match parse_u64_spec(p) {
                Some(n) => n,
                None => 0u64,
            },
    )
}

/// A version part is read as the whole decimal number it spells: each
/// `.`-separated part made of ASCII digits (with a value that fits in `u64`)
/// gives exactly that value, every digit counted, so `0.10.0` reads as
/// `[0, 10, 0]`; there is one number per part.
pub proof fn lemma_version_parts_are_decimal(v: Seq<char>, i: int)
    requires
        0 <= i < split(v, "."@).len(),
        split(v, "."@)[i].len() > 0,
        crate::num::all_digits(split(v, "."@)[i]),
        crate::num::digits_value(split(v, "."@)[i]) <= u64::MAX,
    ensures
        version_parts(v).len() == split(v, "."@).len(),
        version_parts(v)[i] == crate::num::digits_value(split(v, "."@)[i]),
{
    let p = split(v, "."@)[i];
    if p[0] == '+' {
        assert(crate::num::is_digit(p[0]));
    }
    assert(crate::num::unsigned_body(p) == p);
}

/// The `i`th part, zero past the end.
pub open spec fn part_at(p: Seq<u64>, i: int) -> u64 {
    if 0 <= i < p.len() {
        p[i]
    } else {
        0
    }
}

/// Compare from part `i` on: the first part that differs decides.
pub open spec fn newer_from(c: Seq<u64>, l: Seq<u64>, i: nat) -> bool
    decreases (if c.len() > l.len() { c.len() } else { l.len() }) - i,
{
    let n = if c.len() > l.len() {
        c.len()
    } else {
        l.len()
    };
    if i >= n {
        false
    } else if part_at(l, i as int) > part_at(c, i as int) {
        true
    } else if part_at(l, i as int) < part_at(c, i as int) {
        false
    } else {
        newer_from(c, l, i + 1)
    }
}

proof fn lemma_newer_from_asymmetric(c: Seq<u64>, l: Seq<u64>, i: nat)
    ensures
        !(newer_from(c, l, i) && newer_from(l, c, i)),
        !newer_from(c, c, i),
    decreases (if c.len() > l.len() { c.len() } else { l.len() }) - i,
{
    let n = if c.len() > l.len() {
        c.len()
    } else {
        l.len()
    };
    if i < n {
        lemma_newer_from_asymmetric(c, l, i + 1);
    }
    if i < c.len() {
        lemma_newer_from_asymmetric(c, c, i + 1);
    }
}

/// Version comparison is a strict order: no version is newer than itself,
/// and of two versions at most one is newer than the other.
pub proof fn lemma_version_newer_strict(a: Seq<char>, b: Seq<char>)
    ensures
        !newer_from(version_parts(a), version_parts(a), 0),
        !(newer_from(version_parts(a), version_parts(b), 0) && newer_from(
            version_parts(b),
            version_parts(a),
            0,
        )),
{
    lemma_newer_from_asymmetric(version_parts(a), version_parts(b), 0);
    lemma_newer_from_asymmetric(version_parts(a), version_parts(a), 0);
}

/// Whether `latest` is a newer version than `current`, comparing their
/// numeric parts in order (missing parts count as zero).
pub fn version_is_newer(current: &str, latest: &str) -> (b: bool)
    ensures
        b == newer_from(version_parts(current@), version_parts(latest@), 0),
{
    let c = version_numbers(current);
    let l = version_numbers(latest);
    let n = if c.len() > l.len() {
        c.len()
    } else {
        l.len()
    };
    let mut i: usize = 0;
    while i < n
        invariant
            c@ == version_parts(current@),
            l@ == version_parts(latest@),
            n == (if c@.len() > l@.len() { c@.len() } else { l@.len() }),
            i <= n,
            newer_from(c@, l@, 0) == newer_from(c@, l@, i as nat),
        decreases n - i,
    {
        let cv = if i < c.len() {
            c[i]
        } else {
            0
        };
        let lv = if i < l.len() {
            l[i]
        } else {
            0
        };
        if lv > cv {
            return true;
        }
        if lv < cv {
            return false;
        }
        i = i + 1;
    }
    false
}

/// The numeric parts of a version string.
fn version_numbers(v: &str) -> (r: Vec<u64>)
    ensures
        r@ == version_parts(v@),
{
    let cs = chars_of(v);
    let dot = chars_of(".");
    proof {
        reveal_strlit(".");
    }
    let parts = split_exec(&cs, &dot);
    let ghost pv = views(parts@);
    let mut out: Vec<u64> = Vec::new();
    let mut i: usize = 0;
    while i < parts.len()
        invariant
            i <= parts@.len(),
            pv == views(parts@),
            pv == split(v@, "."@),
            out@ == pv.take(i as int).map_values(
                |p: Seq<char>|
                    match parse_u64_spec(p) {
                        Some(n) => n,
                        None => 0u64,
                    },
            ),
        decreases parts@.len() - i,
    {
        let x = match crate::num::parse_u64(&parts[i]) {
            Some(n) => n,
            None => 0,
        };
        out.push(x);
        i = i + 1;
        assert(out@ =~= pv.take(i as int).map_values(
            |p: Seq<char>|
                match parse_u64_spec(p) {
                    Some(n) => n,
                    None => 0u64,
                },
        ));
    }
    assert(pv.take(i as int) =~= pv);
    out
}

/// The release tag as a version: a leading `v` dropped.
pub fn version_from_tag(tag: &str) -> (r: String)
    ensures
        r@ == (if tag@.len() > 0 && tag@[0] == 'v' {
            tag@.drop_first()
        } else {
            tag@
        }),
{
    let v = chars_of(tag);
    if v.len() > 0 && v[0] == 'v' {
        let rest = slice_range(&v, 1, v.len());
        assert(rest@ =~= v@.drop_first());
        string_from(&rest)
    } else {
        string_from(&v)
    }
}

} // verus!
