//! What the command-line front end decides: the confirmation gate of
//! `forget`, durations, command names, and wing names of project directories.

use vstd::prelude::*;
use crate::num::parse_i64_spec;
use crate::text::{
    chars_of, lowercase_chars, slice_range, string_from, trim, trim_bounds, unicode_lowercase,
    views, same_chars,
};

verus! {

// ─────────────────────────── confirmation gate ───────────────────────────

/// The outcome of the forget confirmation gate.
#[derive(Debug, Clone, Copy, PartialEq, Eq, Structural)]
pub enum Decision {
    /// Go ahead and delete (either `--yes`, or an interactive "y"/"yes").
    Proceed,
    /// User declined, or default (empty/other) answer.
    Abort,
    /// Not a TTY and no `--yes`: refuse rather than delete unattended.
    RefuseNonInteractive,
    /// Interactive terminal without `--yes`: the caller must prompt, then ask
    /// again with the collected answer.
    NeedsPrompt,
}

/// An answer is affirmative when, trimmed and lowercased, it is `y` or `yes`.
pub open spec fn is_affirmative(answer: Seq<char>) -> bool {
    let l = unicode_lowercase(trim(answer));
    l == "y"@ || l == "yes"@
}

pub open spec fn decide_spec(assume_yes: bool, is_tty: bool, answer: Option<Seq<char>>) -> Decision {
    if assume_yes {
        Decision::Proceed
    } else {
        match answer {
            Some(a) => if is_affirmative(a) {
                Decision::Proceed
            } else {
                Decision::Abort
            },
            None => if is_tty {
                Decision::NeedsPrompt
            } else {
                Decision::RefuseNonInteractive
            },
        }
    }
}

/// Whether a typed answer is `y` or `yes`, ignoring case and surrounding space.
pub fn answer_is_yes(answer: &str) -> (b: bool)
    ensures
        b == is_affirmative(answer@),
{
    let v = chars_of(answer);
    let (a, b) = trim_bounds(&v);
    let t = slice_range(&v, a, b);
    let l = lowercase_chars(&t);
    crate::text::chars_eq_str(&l, "y") || crate::text::chars_eq_str(&l, "yes")
}

/// Decide whether to proceed with a destructive action: `assume_yes` from
/// `--yes`, `is_tty` from the terminal probe, and `answer` the user's typed
/// line once a prompt has been shown (`None` before).
pub fn decide(assume_yes: bool, is_tty: bool, answer: Option<&str>) -> (d: Decision)
    ensures
        d == decide_spec(
            assume_yes,
            is_tty,
            match answer {
                Some(a) => Some(a@),
                None => None,
            },
        ),
{
    if assume_yes {
        return Decision::Proceed;
    }
    match answer {
        Some(ans) => {
            if answer_is_yes(ans) {
                Decision::Proceed
            } else {
                Decision::Abort
            }
        },
        None => {
            if is_tty {
                Decision::NeedsPrompt
            } else {
                Decision::RefuseNonInteractive
            }
        },
    }
}

// ─────────────────────────────── durations ───────────────────────────────

/// Seconds in one unit of a duration suffix.
pub open spec fn unit_seconds(c: char) -> Option<i64> {
    if c == 's' {
        Some(1)
    } else if c == 'm' {
        Some(60)
    } else if c == 'h' {
        Some(3600)
    } else if c == 'd' {
        Some(86400)
    } else if c == 'w' {
        Some(604800i64)
    } else {
        None
    }
}

/// A duration like `90d`: after trimming, a positive `i64` count followed by
/// one unit character (`s`, `m`, `h`, `d`, `w`), whose product fits in `i64`.
pub open spec fn parse_duration_spec(s: Seq<char>) -> Option<i64> {
    let t = trim(s);
    if t.len() == 0 {
        None
    } else {
        match parse_i64_spec(t.drop_last()) {
            None => None,
            Some(n) => if n <= 0 {
                None
            } else {
                match unit_seconds(t.last()) {
                    None => None,
                    Some(u) => if n * u <= i64::MAX {
                        Some((n * u) as i64)
                    } else {
                        None
                    },
                }
            },
        }
    }
}

/// A parsed duration is always positive: a `forget` cutoff never lies in the
/// future.
pub proof fn lemma_duration_positive(s: Seq<char>)
    ensures
        match parse_duration_spec(s) {
            Some(d) => d > 0,
            None => true,
        },
{
    let t = trim(s);
    if t.len() > 0 {
        match parse_i64_spec(t.drop_last()) {
            Some(n) => {
                if n > 0 {
                    match unit_seconds(t.last()) {
                        Some(u) => {
                            assert(n * u >= n) by (nonlinear_arith)
                                requires
                                    n > 0,
                                    u >= 1,
                            ;
                        },
                        None => {},
                    }
                }
            },
            None => {},
        }
    }
}

/// Parse a duration string like "90d", "24h", "4w" into seconds. `None` for
/// empty, non-positive, malformed or overflowing input.
pub fn parse_duration(s: &str) -> (r: Option<i64>)
    ensures
        r == parse_duration_spec(s@),
{
    let v = chars_of(s);
    let (a, b) = trim_bounds(&v);
    if a == b {
        return None;
    }
    let t = slice_range(&v, a, b);
    let last = t[t.len() - 1];
    let num_chars = slice_range(&t, 0, t.len() - 1);
    assert(num_chars@ =~= t@.drop_last());
    let num = match crate::num::parse_i64(&num_chars) {
        Some(n) => n,
        None => return None,
    };
    if num <= 0 {
        return None;
    }
    let unit: i64 = if last == 's' {
        1
    } else if last == 'm' {
        60
    } else if last == 'h' {
        3600
    } else if last == 'd' {
        86400
    } else if last == 'w' {
        7 * 86400
    } else {
        return None;
    };
    num.checked_mul(unit)
}

// ─────────────────────────────── commands ───────────────────────────────

/// The subcommands of the command-line front end.
#[derive(Debug, Clone, Copy, PartialEq, Eq, Structural)]
pub enum CommandKind {
    Search,
    Add,
    Ingest,
    Import,
    ImportAll,
    Prime,
    Status,
    Health,
    Forget,
    Migrate,
    Telemetry,
    Sync,
    Update,
}

pub open spec fn command_name_spec(c: CommandKind) -> Seq<char> {
    match c {
        CommandKind::Search => "search"@,
        CommandKind::Add => "add"@,
        CommandKind::Ingest => "ingest"@,
        CommandKind::Import => "import"@,
        CommandKind::ImportAll => "import-all"@,
        CommandKind::Prime => "prime"@,
        CommandKind::Status => "status"@,
        CommandKind::Health => "health"@,
        CommandKind::Forget => "forget"@,
        CommandKind::Migrate => "migrate"@,
        CommandKind::Telemetry => "telemetry"@,
        CommandKind::Sync => "sync"@,
        CommandKind::Update => "update"@,
    }
}

/// The name a command is recorded under.
pub fn command_name(c: CommandKind) -> (r: String)
    ensures
        r@ == command_name_spec(c),
{
    let s = match c {
        CommandKind::Search => "search",
        CommandKind::Add => "add",
        CommandKind::Ingest => "ingest",
        CommandKind::Import => "import",
        CommandKind::ImportAll => "import-all",
        CommandKind::Prime => "prime",
        CommandKind::Status => "status",
        CommandKind::Health => "health",
        CommandKind::Forget => "forget",
        CommandKind::Migrate => "migrate",
        CommandKind::Telemetry => "telemetry",
        CommandKind::Sync => "sync",
        CommandKind::Update => "update",
    };
    let v = chars_of(s);
    string_from(&v)
}

// ─────────────────────────── project wing names ───────────────────────────

/// A directory name as a wing: each `-` becomes `_`.
pub open spec fn dir_wing_spec(name: Seq<char>) -> Seq<char> {
    name.map_values(|c: char| if c == '-' { '_' } else { c })
}

/// The wing of a working directory or project named `name`: each `-` becomes
/// `_`; a missing name gives `global`.
pub fn wing_from_dir_name(name: Option<&str>) -> (r: String)
    ensures
        r@ == match name {
            Some(n) => dir_wing_spec(n@),
            None => "global"@,
        },
{
    match name {
        Some(n) => {
            let v = chars_of(n);
            let mut out: Vec<char> = Vec::new();
            let mut i: usize = 0;
            while i < v.len()
                invariant
                    i <= v@.len(),
                    out@ == dir_wing_spec(v@.take(i as int)),
                decreases v@.len() - i,
            {
                let c = v[i];
                out.push(if c == '-' { '_' } else { c });
                i = i + 1;
                assert(out@ =~= dir_wing_spec(v@.take(i as int)));
            }
            assert(v@.take(i as int) =~= v@);
            string_from(&out)
        },
        None => {
            let v = chars_of("global");
            string_from(&v)
        },
    }
}

/// A project directory name as an import wing: each `-` becomes `_` and each
/// `.` is dropped.
pub open spec fn project_wing_spec(name: Seq<char>) -> Seq<char>
    decreases name.len(),
{
    if name.len() == 0 {
        seq![]
    } else {
        let c = name.last();
        let rest = project_wing_spec(name.drop_last());
        if c == '-' {
            rest.push('_')
        } else if c == '.' {
            rest
        } else {
            rest.push(c)
        }
    }
}

/// The import wing of a project directory named `name`.
pub fn project_wing_name(name: &str) -> (r: String)
    ensures
        r@ == project_wing_spec(name@),
{
    let v = chars_of(name);
    let mut out: Vec<char> = Vec::new();
    let mut i: usize = 0;
    while i < v.len()
        invariant
            i <= v@.len(),
            out@ == project_wing_spec(v@.take(i as int)),
        decreases v@.len() - i,
    {
        assert(v@.take(i + 1).drop_last() =~= v@.take(i as int));
        let c = v[i];
        if c == '-' {
            out.push('_');
        } else if c != '.' {
            out.push(c);
        }
        i = i + 1;
    }
    assert(v@.take(i as int) =~= v@);
    string_from(&out)
}

/// Project coverage: how many discoverable projects there are, how many of
/// them have an import wing, and which do not (in discovery order).
pub open spec fn coverage_spec(discoverable: Seq<Seq<char>>, import_wings: Seq<Seq<char>>) -> (
    nat,
    nat,
    Seq<Seq<char>>,
) {
    (
        discoverable.len(),
        discoverable.filter(|p: Seq<char>| import_wings.contains(p)).len(),
        discoverable.filter(|p: Seq<char>| !import_wings.contains(p)),
    )
}

pub fn project_coverage(discoverable: &Vec<String>, import_wings: &Vec<String>) -> (r: (
    usize,
    usize,
    Vec<String>,
))
    ensures
        ({
            let c = coverage_spec(strings_view(discoverable@), strings_view(import_wings@));
            r.0 == c.0 && r.1 == c.1 && strings_view(r.2@) == c.2
        }),
{
    let ghost d = strings_view(discoverable@);
    let ghost w = strings_view(import_wings@);
    let mut covered: usize = 0;
    let mut missing: Vec<String> = Vec::new();
    let mut i: usize = 0;
    assert(d.take(0) =~= Seq::<Seq<char>>::empty());
    while i < discoverable.len()
        invariant
            i <= discoverable@.len(),
            d == strings_view(discoverable@),
            w == strings_view(import_wings@),
            covered == d.take(i as int).filter(|p: Seq<char>| w.contains(p)).len(),
            covered <= i,
            strings_view(missing@) == d.take(i as int).filter(|p: Seq<char>| !w.contains(p)),
        decreases discoverable@.len() - i,
    {
        let found = contains_string(import_wings, &discoverable[i]);
        proof {
            assert(d.take(i + 1).drop_last() =~= d.take(i as int));
            assert(d.take(i + 1).last() == discoverable@[i as int]@);
            reveal_with_fuel(Seq::filter, 1);
        }
        if found {
            covered = covered + 1;
        } else {
            let ghost before = strings_view(missing@);
            missing.push(discoverable[i].clone());
            proof {
                assert(strings_view(missing@) =~= before.push(discoverable@[i as int]@));
            }
        }
        i = i + 1;
    }
    assert(d.take(i as int) =~= d);
    (discoverable.len(), covered, missing)
}

/// The views of a sequence of strings.
pub open spec fn strings_view(v: Seq<String>) -> Seq<Seq<char>> {
    v.map_values(|s: String| s@)
}

/// Whether `v` holds a string equal to `x`.
pub fn contains_string(v: &Vec<String>, x: &String) -> (b: bool)
    ensures
        b == strings_view(v@).contains(x@),
{
    let mut i: usize = 0;
    while i < v.len()
        invariant
            i <= v@.len(),
            forall|k: int| 0 <= k < i ==> strings_view(v@)[k] != x@,
        decreases v@.len() - i,
    {
        if v[i] == *x {
            assert(strings_view(v@)[i as int] == x@);
            return true;
        }
        i = i + 1;
    }
    false
}

// ─────────────────────────── duplicate wings ───────────────────────────

/// The key under which wing names count as duplicates: `-` and `.` become
/// `_`, then the name is lowercased.
pub open spec fn duplicate_key(name: Seq<char>) -> Seq<char> {
    unicode_lowercase(name.map_values(|c: char| if c == '-' || c == '.' { '_' } else { c }))
}

/// The groups of names sharing a key, for each key that more than one name
/// has; groups come in the order of their key's first name, and each group
/// lists its names in input order.
pub open spec fn duplicate_groups(names: Seq<Seq<char>>, keys: Seq<Seq<char>>, i: int) -> Seq<
    Seq<Seq<char>>,
>
    decreases i,
{
    if i <= 0 || i > names.len() {
        seq![]
    } else {
        let prev = duplicate_groups(names, keys, i - 1);
        let k = keys[i - 1];
        if keys.take(i - 1).contains(k) {
            prev
        } else {
            let group = group_of(names, keys, k, names.len() as int);
            if group.len() > 1 {
                prev.push(group)
            } else {
                prev
            }
        }
    }
}

/// The names (among the first `n`) whose key is `k`, in order.
pub open spec fn group_of(names: Seq<Seq<char>>, keys: Seq<Seq<char>>, k: Seq<char>, n: int) -> Seq<
    Seq<char>,
>
    decreases n,
{
    if n <= 0 {
        seq![]
    } else if keys[n - 1] == k {
        group_of(names, keys, k, n - 1).push(names[n - 1])
    } else {
        group_of(names, keys, k, n - 1)
    }
}

/// The duplicate key of a wing name.
pub fn duplicate_key_of(name: &str) -> (k: Vec<char>)
    ensures
        k@ == duplicate_key(name@),
{
    let v = chars_of(name);
    let mut m: Vec<char> = Vec::new();
    let mut i: usize = 0;
    while i < v.len()
        invariant
            i <= v@.len(),
            m@ == v@.take(i as int).map_values(
                |c: char| if c == '-' || c == '.' { '_' } else { c },
            ),
        decreases v@.len() - i,
    {
        let c = v[i];
        m.push(if c == '-' || c == '.' { '_' } else { c });
        i = i + 1;
        assert(m@ =~= v@.take(i as int).map_values(
            |c: char| if c == '-' || c == '.' { '_' } else { c },
        ));
    }
    assert(v@.take(i as int) =~= v@);
    lowercase_chars(&m)
}

/// Groups of wing names that differ only by `-`, `.`, `_` or case.
pub fn detect_wing_duplicates(wing_names: &Vec<String>) -> (r: Vec<Vec<String>>)
    ensures
        r@.map_values(|g: Vec<String>| strings_view(g@)) == duplicate_groups(
            strings_view(wing_names@),
            strings_view(wing_names@).map_values(|n: Seq<char>| duplicate_key(n)),
            wing_names@.len() as int,
        ),
{
    let ghost names = strings_view(wing_names@);
    let ghost gkeys = names.map_values(|n: Seq<char>| duplicate_key(n));
    let mut keys: Vec<Vec<char>> = Vec::new();
    let mut j: usize = 0;
    while j < wing_names.len()
        invariant
            j <= wing_names@.len(),
            names == strings_view(wing_names@),
            gkeys == names.map_values(|n: Seq<char>| duplicate_key(n)),
            views(keys@) == gkeys.take(j as int),
        decreases wing_names@.len() - j,
    {
        let k = duplicate_key_of(wing_names[j].as_str());
        let ghost before = views(keys@);
        let ghost kv = k@;
        keys.push(k);
        proof {
            assert(views(keys@) =~= before.push(kv));
            assert(gkeys[j as int] == kv);
            assert(gkeys.take(j + 1) =~= gkeys.take(j as int).push(gkeys[j as int]));
        }
        j = j + 1;
    }
    assert(gkeys.take(j as int) =~= gkeys);
    group_by_keys(wing_names, &keys)
}

/// The groups of names sharing a key (`keys[i]` is the key of `names[i]`),
/// for each key that more than one name has, in the order of each key's first
/// name; each group lists its names in order.
pub fn group_by_keys(names: &Vec<String>, keys: &Vec<Vec<char>>) -> (r: Vec<Vec<String>>)
    requires
        keys@.len() == names@.len(),
    ensures
        r@.map_values(|g: Vec<String>| strings_view(g@)) == duplicate_groups(
            strings_view(names@),
            views(keys@),
            names@.len() as int,
        ),
{
    let ghost nv = strings_view(names@);
    let ghost kv = views(keys@);
    let mut out: Vec<Vec<String>> = Vec::new();
    let mut i: usize = 0;
    while i < names.len()
        invariant
            i <= names@.len(),
            nv == strings_view(names@),
            kv == views(keys@),
            keys@.len() == names@.len(),
            out@.map_values(|g: Vec<String>| strings_view(g@)) == duplicate_groups(nv, kv, i as int),
        decreases names@.len() - i,
    {
        let seen_before = key_seen_before(keys, i);
        if !seen_before {
            let group = collect_group(names, keys, i);
            if group.len() > 1 {
                let ghost before = out@.map_values(|g: Vec<String>| strings_view(g@));
                out.push(group);
                proof {
                    assert(out@.map_values(|g: Vec<String>| strings_view(g@)) =~= before.push(
                        strings_view(group@),
                    ));
                }
            }
        }
        i = i + 1;
    }
    out
}

/// Whether `keys[i]` occurs among the keys before it.
fn key_seen_before(keys: &Vec<Vec<char>>, i: usize) -> (b: bool)
    requires
        i < keys@.len(),
    ensures
        b == views(keys@).take(i as int).contains(keys@[i as int]@),
{
    let mut j: usize = 0;
    while j < i
        invariant
            j <= i < keys@.len(),
            forall|k: int| 0 <= k < j ==> views(keys@)[k] != keys@[i as int]@,
        decreases i - j,
    {
        if same_chars(&keys[j], &keys[i]) {
            assert(views(keys@).take(i as int)[j as int] == keys@[i as int]@);
            return true;
        }
        j = j + 1;
    }
    assert forall|k: int| 0 <= k < i implies views(keys@).take(i as int)[k] != keys@[i as int]@ by {
    }
    false
}

/// The names whose key equals `keys[i]`, in order.
fn collect_group(names: &Vec<String>, keys: &Vec<Vec<char>>, i: usize) -> (g: Vec<String>)
    requires
        i < keys@.len(),
        keys@.len() == names@.len(),
    ensures
        strings_view(g@) == group_of(
            strings_view(names@),
            views(keys@),
            keys@[i as int]@,
            names@.len() as int,
        ),
{
    let mut g: Vec<String> = Vec::new();
    let mut n: usize = 0;
    while n < names.len()
        invariant
            n <= names@.len(),
            i < keys@.len(),
            keys@.len() == names@.len(),
            strings_view(g@) == group_of(
                strings_view(names@),
                views(keys@),
                keys@[i as int]@,
                n as int,
            ),
        decreases names@.len() - n,
    {
        if same_chars(&keys[n], &keys[i]) {
            let ghost before = strings_view(g@);
            g.push(names[n].clone());
            proof {
                assert(strings_view(g@) =~= before.push(names@[n as int]@));
            }
        }
        n = n + 1;
    }
    g
}

} // verus!
