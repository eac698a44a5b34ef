//! Local crash reports, with absolute paths redacted by `regex`.

use vstd::prelude::*;
use crate::imports::opt_string_view;
use crate::num::{dec, format_u64};
use crate::text::{append_chars, append_str, chars_of, join, join_exec, string_from, views};

verus! {

/// The text `regex::Regex::new(pattern)` and `replace_all(text, replacement)`
/// give, or `None` when `pattern` is not a valid regular expression.
pub uninterp spec fn regex_replace_all(
    pattern: Seq<char>,
    text: Seq<char>,
    replacement: Seq<char>,
) -> Option<Seq<char>>;

/// Compiles `pattern` with `regex::Regex::new` and replaces every match in
/// `text` with `replacement` (`Regex::replace_all`). The result is named by
/// `regex_replace_all`; nothing more is stated of it.
#[verifier::external_body]
fn replace_all_matches(pattern: &str, text: &str, replacement: &str) -> (r: Option<String>)
    ensures
        opt_string_view(r) == regex_replace_all(pattern@, text@, replacement@),
{
    match regex::Regex::new(pattern) {
        Ok(re) => Some(re.replace_all(text, replacement).to_string()),
        Err(_) => None,
    }
}

/// A Windows absolute path: drive letter, `:\`, then everything up to white
/// space, `:` or a quote.
pub open spec fn windows_path_pattern() -> Seq<char> {
    r#"[A-Z]:\\[^\s:"']+"#@
}

/// A Unix home path: `/home/` or `/Users/`, then everything up to white
/// space, `:` or a quote.
pub open spec fn unix_home_pattern() -> Seq<char> {
    r#"/(?:home|Users)/[^\s:"']+"#@
}

/// `s` with Windows absolute paths, then Unix home paths, replaced by
/// `[PATH]`; `None` when a pattern does not compile.
pub open spec fn redacted(s: Seq<char>) -> Option<Seq<char>> {
    match regex_replace_all(windows_path_pattern(), s, "[PATH]"@) {
        Some(t) => regex_replace_all(unix_home_pattern(), t, "[PATH]"@),
        None => None,
    }
}

/// Redact absolute paths so that crash reports hold no user names.
pub fn redact_paths(s: &str) -> (r: Option<String>)
    ensures
        opt_string_view(r) == redacted(s@),
{
    match replace_all_matches(r#"[A-Z]:\\[^\s:"']+"#, s, "[PATH]") {
        Some(t) => replace_all_matches(r#"/(?:home|Users)/[^\s:"']+"#, t.as_str(), "[PATH]"),
        None => None,
    }
}

/// Where a panic happened: file, line and column.
pub struct PanicLocation {
    pub file: String,
    pub line: u32,
    pub column: u32,
}

/// The body of a crash report, given its redacted parts.
pub open spec fn crash_report_text(
    version: Seq<char>,
    os: Seq<char>,
    arch: Seq<char>,
    command: Seq<char>,
    message: Seq<char>,
    location: Seq<char>,
    date: Seq<char>,
) -> Seq<char> {
    "recall crash report\n"@ + "────────────────────\n"@ + "version: "@ + version + "\nos: "@ + os
        + "\narch: "@ + arch + "\ncommand: "@ + command + "\nmessage: "@ + message
        + "\nlocation: "@ + location + "\ntime: "@ + date + "\n"@
}

/// A crash report: the panic message (or `unknown panic`), its location
/// (`file:line:column`, or `unknown location`) and the command line, each
/// with paths redacted; `None` when redaction is not possible.
pub open spec fn crash_report_spec(
    message: Option<Seq<char>>,
    location: Option<(Seq<char>, u32, u32)>,
    args: Seq<Seq<char>>,
    version: Seq<char>,
    os: Seq<char>,
    arch: Seq<char>,
    date: Seq<char>,
) -> Option<Seq<char>> {
    let msg = match message {
        Some(m) => redacted(m),
        None => Some("unknown panic"@),
    };
    let loc = match location {
        Some((f, l, c)) => match redacted(f) {
            Some(rf) => Some(rf + ":"@ + dec(l as nat) + ":"@ + dec(c as nat)),
            None => None,
        },
        None => Some("unknown location"@),
    };
    let cmd = redacted(join(args, " "@));
    match (msg, loc, cmd) {
        (Some(m), Some(l), Some(c)) => Some(crash_report_text(version, os, arch, c, m, l, date)),
        _ => None,
    }
}

/// `file:line:column`.
pub fn location_text(file: &str, line: u32, column: u32) -> (r: String)
    ensures
        r@ == file@ + ":"@ + dec(line as nat) + ":"@ + dec(column as nat),
{
    let mut v = chars_of(file);
    append_str(&mut v, ":");
    let lv = format_u64(line as u64);
    append_chars(&mut v, &lv);
    append_str(&mut v, ":");
    let cv = format_u64(column as u64);
    append_chars(&mut v, &cv);
    string_from(&v)
}

/// The text of a crash report from its (already redacted) parts.
pub fn format_crash_report(
    version: &str,
    os: &str,
    arch: &str,
    command: &str,
    message: &str,
    location: &str,
    date: &str,
) -> (r: String)
    ensures
        r@ == crash_report_text(version@, os@, arch@, command@, message@, location@, date@),
{
    let mut out: Vec<char> = Vec::new();
    append_str(&mut out, "recall crash report\n");
    append_str(&mut out, "────────────────────\n");
    append_str(&mut out, "version: ");
    append_str(&mut out, version);
    append_str(&mut out, "\nos: ");
    append_str(&mut out, os);
    append_str(&mut out, "\narch: ");
    append_str(&mut out, arch);
    append_str(&mut out, "\ncommand: ");
    append_str(&mut out, command);
    append_str(&mut out, "\nmessage: ");
    append_str(&mut out, message);
    append_str(&mut out, "\nlocation: ");
    append_str(&mut out, location);
    append_str(&mut out, "\ntime: ");
    append_str(&mut out, date);
    append_str(&mut out, "\n");
    string_from(&out)
}

pub open spec fn location_view(l: Option<PanicLocation>) -> Option<(Seq<char>, u32, u32)> {
    match l {
        Some(p) => Some((p.file@, p.line, p.column)),
        None => None,
    }
}

/// The text of a crash report.
pub fn build_crash_report(
    message: Option<&str>,
    location: Option<PanicLocation>,
    args: &Vec<String>,
    version: &str,
    os: &str,
    arch: &str,
    date: &str,
) -> (r: Option<String>)
    ensures
        opt_string_view(r) == crash_report_spec(
            match message {
                Some(m) => Some(m@),
                None => None,
            },
            location_view(location),
            args@.map_values(|a: String| a@),
            version@,
            os@,
            arch@,
            date@,
        ),
{
    let msg = match message {
        Some(m) => match redact_paths(m) {
            Some(t) => t,
            None => {
                return None;
            },
        },
        None => {
            let v = chars_of("unknown panic");
            string_from(&v)
        },
    };
    let loc = match &location {
        Some(p) => match redact_paths(p.file.as_str()) {
            Some(rf) => location_text(rf.as_str(), p.line, p.column),
            None => {
                return None;
            },
        },
        None => {
            let v = chars_of("unknown location");
            string_from(&v)
        },
    };
    let ghost av = args@.map_values(|a: String| a@);
    let mut parts: Vec<Vec<char>> = Vec::new();
    let mut i: usize = 0;
    while i < args.len()
        invariant
            i <= args@.len(),
            av == args@.map_values(|a: String| a@),
            views(parts@) == av.take(i as int),
        decreases args@.len() - i,
    {
        let ghost before = views(parts@);
        let a = chars_of(args[i].as_str());
        parts.push(a);
        proof {
            assert(av[i as int] == args@[i as int]@);
            assert(views(parts@) =~= before.push(av[i as int]));
            assert(av.take(i + 1) =~= av.take(i as int).push(av[i as int]));
        }
        i = i + 1;
    }
    assert(av.take(i as int) =~= av);
    let sep = chars_of(" ");
    let joined = join_exec(&parts, &sep);
    let line = string_from(&joined);
    let cmd = match redact_paths(line.as_str()) {
        Some(c) => c,
        None => {
            return None;
        },
    };
    Some(format_crash_report(version, os, arch, cmd.as_str(), msg.as_str(), loc.as_str(), date))
}

} // verus!
