//! Decisions of session ingestion and markdown import: store keys, the
//! content-hash gate, orphan detection, the per-file plan and summaries.

use vstd::prelude::*;
use crate::chunking::{
    chunk_markdown, chunk_markdown_spec, chunk_messages, chunk_messages_spec, detect_type_from_frontmatter,
    frontmatter_type_spec,
};
use crate::hash::{content_hash, hex_lower, sha256_digest};
use vstd::utf8::encode_utf8;
use crate::commands::{contains_string, dir_wing_spec, strings_view, wing_from_dir_name};
use crate::json::{as_array, as_str, get, json_as_array, json_as_str, json_get, json_parse, parse_json, JsonValue};
use crate::num::{dec, format_u64};
use crate::sessions::{entries_of, parse_session_content, session_entries_spec};
use crate::text::{
    append_str, chars_of, ends_with, ends_with_exec, join, join_exec, str_eq,
    string_from, trim, trimmed, views,
};

verus! {

// ─────────────────────────────── store keys ───────────────────────────────

/// The source prefix shared by every chunk imported into `wing`.
pub open spec fn import_prefix_spec(wing: Seq<char>) -> Seq<char> {
    "import:"@ + wing + ":"@
}

/// `import:<wing>:`, the source prefix of a wing's imported chunks.
pub fn import_source_prefix(wing: &str) -> (r: String)
    ensures
        r@ == import_prefix_spec(wing@),
{
    let mut v: Vec<char> = Vec::new();
    append_str(&mut v, "import:");
    append_str(&mut v, wing);
    append_str(&mut v, ":");
    string_from(&v)
}

/// `import:<wing>:<rel_path>`, the source of the chunks of one imported file.
pub fn import_source_key(wing: &str, rel_path: &str) -> (r: String)
    ensures
        r@ == import_prefix_spec(wing@) + rel_path@,
{
    let mut v: Vec<char> = Vec::new();
    append_str(&mut v, "import:");
    append_str(&mut v, wing);
    append_str(&mut v, ":");
    append_str(&mut v, rel_path);
    string_from(&v)
}

/// `s` with each `\`, `%` and `_` preceded by `\`, so that it matches itself
/// literally in a SQL `LIKE ... ESCAPE '\'`.
pub open spec fn like_escape(s: Seq<char>) -> Seq<char>
    decreases s.len(),
{
    if s.len() == 0 {
        seq![]
    } else {
        let c = s.last();
        let rest = like_escape(s.drop_last());
        if c == '\\' || c == '%' || c == '_' {
            rest.push('\\').push(c)
        } else {
            rest.push(c)
        }
    }
}

/// The `LIKE` pattern matching every source that starts with `prefix`.
pub fn like_prefix_pattern(prefix: &str) -> (r: String)
    ensures
        r@ == like_escape(prefix@) + "%"@,
{
    let v = chars_of(prefix);
    let mut out: Vec<char> = Vec::new();
    let mut i: usize = 0;
    while i < v.len()
        invariant
            i <= v@.len(),
            out@ == like_escape(v@.take(i as int)),
        decreases v@.len() - i,
    {
        assert(v@.take(i + 1).drop_last() =~= v@.take(i as int));
        let c = v[i];
        if c == '\\' || c == '%' || c == '_' {
            out.push('\\');
        }
        out.push(c);
        i = i + 1;
    }
    assert(v@.take(i as int) =~= v@);
    out.push('%');
    proof {
        reveal_strlit("%");
        assert(out@ =~= like_escape(prefix@) + "%"@);
    }
    string_from(&out)
}

// ─────────────────────────────── hash gate ───────────────────────────────

/// What an import does with one markdown file.
#[derive(Debug, Clone, Copy, PartialEq, Eq, Structural)]
pub enum ImportAction {
    /// Its content hash is the one recorded: nothing to do.
    Skip,
    /// It was imported before with other content: replace its chunks.
    Update,
    /// It was never imported.
    Import,
}

/// The hash gate: compare the recorded content hash with the current one.
pub fn import_action(stored_hash: Option<&str>, content_hash: &str) -> (a: ImportAction)
    ensures
        a == match stored_hash {
            Some(h) => if h@ == content_hash@ {
                ImportAction::Skip
            } else {
                ImportAction::Update
            },
            None => ImportAction::Import,
        },
{
    match stored_hash {
        Some(h) => if str_eq(h, content_hash) {
            ImportAction::Skip
        } else {
            ImportAction::Update
        },
        None => ImportAction::Import,
    }
}

/// Whether a text is empty once trimmed (such files are not imported).
pub fn is_blank(content: &str) -> (b: bool)
    ensures
        b == (trim(content@).len() == 0),
{
    let v = chars_of(content);
    let t = trimmed(&v);
    t.len() == 0
}

/// The manifest entries of a wing whose file is no longer among the current
/// files, in manifest order.
pub open spec fn orphans_spec(existing: Seq<Seq<char>>, current: Seq<Seq<char>>) -> Seq<Seq<char>> {
    existing.filter(|p: Seq<char>| !current.contains(p))
}

/// The recorded sources of a wing that no longer exist on disk.
pub fn orphaned_sources(existing: &Vec<String>, current: &Vec<String>) -> (r: Vec<String>)
    ensures
        strings_view(r@) == orphans_spec(strings_view(existing@), strings_view(current@)),
{
    let ghost e = strings_view(existing@);
    let ghost c = strings_view(current@);
    let mut out: Vec<String> = Vec::new();
    let mut i: usize = 0;
    assert(e.take(0) =~= Seq::<Seq<char>>::empty());
    while i < existing.len()
        invariant
            i <= existing@.len(),
            e == strings_view(existing@),
            c == strings_view(current@),
            strings_view(out@) == e.take(i as int).filter(|p: Seq<char>| !c.contains(p)),
        decreases existing@.len() - i,
    {
        let found = contains_string(current, &existing[i]);
        proof {
            assert(e.take(i + 1).drop_last() =~= e.take(i as int));
            assert(e.take(i + 1).last() == existing@[i as int]@);
            reveal_with_fuel(Seq::filter, 1);
        }
        if !found {
            let ghost before = strings_view(out@);
            out.push(existing[i].clone());
            proof {
                assert(strings_view(out@) =~= before.push(existing@[i as int]@));
            }
        }
        i = i + 1;
    }
    assert(e.take(i as int) =~= e);
    out
}

/// What to do after a batch: record the embedding model when anything was
/// stored, and checkpoint the write-ahead log after a large batch.
pub fn after_batch(total_chunks: usize) -> (r: (bool, bool))
    ensures
        r.0 == (total_chunks > 0),
        r.1 == (total_chunks > 100),
{
    (total_chunks > 0, total_chunks > 100)
}

// ─────────────────────────────── summaries ───────────────────────────────

/// `"<n> <label>"` when `n` is positive, nothing otherwise.
pub open spec fn count_part(n: nat, label: Seq<char>) -> Seq<Seq<char>> {
    if n > 0 {
        seq![dec(n) + " "@ + label]
    } else {
        seq![]
    }
}

/// The summary of an import: the non-zero counts, or `no changes`.
pub open spec fn import_summary_spec(imported: nat, updated: nat, skipped: nat, deleted: nat) -> Seq<
    char,
> {
    let parts = count_part(imported, "new"@) + count_part(updated, "updated"@) + count_part(
        skipped,
        "unchanged"@,
    ) + count_part(deleted, "deleted"@);
    if parts.len() == 0 {
        "no changes"@
    } else {
        join(parts, ", "@)
    }
}

fn push_count(parts: &mut Vec<Vec<char>>, n: usize, label: &str)
    ensures
        views(final(parts)@) == views(old(parts)@) + count_part(n as nat, label@),
{
    let ghost before = views(parts@);
    if n > 0 {
        let mut v = format_u64(n as u64);
        append_str(&mut v, " ");
        append_str(&mut v, label);
        parts.push(v);
        proof {
            assert(views(parts@) =~= before + count_part(n as nat, label@));
        }
    } else {
        assert(views(parts@) =~= before + count_part(n as nat, label@));
    }
}

/// `3 new, 1 updated, 2 unchanged, 1 deleted` (zero counts left out), or
/// `no changes`.
pub fn import_summary(imported: usize, updated: usize, skipped: usize, deleted: usize) -> (r: String)
    ensures
        r@ == import_summary_spec(imported as nat, updated as nat, skipped as nat, deleted as nat),
{
    let mut parts: Vec<Vec<char>> = Vec::new();
    assert(views(parts@) =~= Seq::<Seq<char>>::empty());
    push_count(&mut parts, imported, "new");
    push_count(&mut parts, updated, "updated");
    push_count(&mut parts, skipped, "unchanged");
    push_count(&mut parts, deleted, "deleted");
    assert(views(parts@) =~= count_part(imported as nat, "new"@) + count_part(updated as nat, "updated"@)
        + count_part(skipped as nat, "unchanged"@) + count_part(deleted as nat, "deleted"@));
    if parts.len() == 0 {
        let v = chars_of("no changes");
        string_from(&v)
    } else {
        let sep = chars_of(", ");
        let j = join_exec(&parts, &sep);
        string_from(&j)
    }
}

// ─────────────────────────────── sessions ───────────────────────────────

/// The chunks a session transcript yields: none when it has no messages.
pub open spec fn session_chunks(content: Seq<char>) -> Seq<Seq<char>> {
    let ms = if trim(content).len() == 0 {
        seq![]
    } else {
        session_entries_spec(entries_of(content))
    };
    if ms.len() == 0 {
        seq![]
    } else {
        chunk_messages_spec(ms)
    }
}

/// What ingestion does with one changed session file.
pub enum SessionFilePlan {
    /// Modified moments ago, probably still being written: try next time.
    Defer,
    /// Nothing to store: only remember that the file was seen.
    CacheOnly,
    /// Embed and store these chunks, then remember the file.
    Store(Vec<String>),
}

/// Seconds within which a modified file counts as still being written.
pub open spec fn active_window_secs() -> u64 {
    300
}

/// Whether a file modified `age_secs` seconds ago is probably still being
/// written; an unknown age counts as not.
pub fn recently_modified(age_secs: Option<u64>) -> (b: bool)
    ensures
        b == match age_secs {
            Some(a) => a < active_window_secs(),
            None => false,
        },
{
    match age_secs {
        Some(a) => a < 300,
        None => false,
    }
}

/// The plan for a changed session file, from whether it is still being
/// written and its text.
pub fn plan_session_file(active: bool, content: &str) -> (p: SessionFilePlan)
    ensures
        match p {
            SessionFilePlan::Defer => active,
            SessionFilePlan::CacheOnly => !active && session_chunks(content@).len() == 0,
            SessionFilePlan::Store(cs) => !active && cs@.len() > 0 && strings_view(cs@)
                == session_chunks(content@),
        },
{
    if active {
        return SessionFilePlan::Defer;
    }
    let messages = parse_session_content(content);
    if messages.len() == 0 {
        return SessionFilePlan::CacheOnly;
    }
    let chunks = chunk_messages(&messages);
    assert(chunks@.map_values(|s: String| s@) =~= strings_view(chunks@));
    if chunks.len() == 0 {
        SessionFilePlan::CacheOnly
    } else {
        SessionFilePlan::Store(chunks)
    }
}

/// Where a session file's metadata (its working directory) is kept.
#[derive(Debug, Clone, Copy, PartialEq, Eq, Structural)]
pub enum MetaSource {
    /// `messages.jsonl` of the newer layout: `session.json` beside it.
    SessionJson,
    /// `<id>.jsonl` of the older layout: `<id>.json` in the sessions directory.
    SiblingJson,
    /// No metadata.
    NoMeta,
}

/// The metadata source of a session file, from its file name.
pub fn meta_source(file_name: &str) -> (m: MetaSource)
    ensures
        m == (if file_name@ == "messages.jsonl"@ {
            MetaSource::SessionJson
        } else if ends_with(file_name@, ".jsonl"@) {
            MetaSource::SiblingJson
        } else {
            MetaSource::NoMeta
        }),
{
    if str_eq(file_name, "messages.jsonl") {
        MetaSource::SessionJson
    } else {
        let v = chars_of(file_name);
        let suffix = chars_of(".jsonl");
        if ends_with_exec(&v, &suffix) {
            MetaSource::SiblingJson
        } else {
            MetaSource::NoMeta
        }
    }
}

/// `<stem>.json`, the metadata file of an older-layout session.
pub fn sibling_meta_name(stem: &str) -> (r: String)
    ensures
        r@ == stem@ + ".json"@,
{
    let mut v = chars_of(stem);
    append_str(&mut v, ".json");
    string_from(&v)
}

/// The working directory recorded in session metadata: the first of
/// `workspacePaths` in `session.json`, `cwd` in `<id>.json`.
pub open spec fn meta_cwd_spec(source: MetaSource, meta: JsonValue) -> Option<Seq<char>> {
    match source {
        MetaSource::SessionJson => match as_array(get(meta, "workspacePaths"@)) {
            Some(ps) => if ps.len() > 0 {
                as_str(Some(ps[0]))
            } else {
                None
            },
            None => None,
        },
        MetaSource::SiblingJson => as_str(get(meta, "cwd"@)),
        MetaSource::NoMeta => None,
    }
}

pub open spec fn opt_string_view(r: Option<String>) -> Option<Seq<char>> {
    match r {
        Some(s) => Some(s@),
        None => None,
    }
}

/// The working directory of a session, from its parsed metadata.
pub fn meta_cwd(source: MetaSource, meta: &JsonValue) -> (r: Option<String>)
    ensures
        opt_string_view(r) == meta_cwd_spec(source, *meta),
{
    match source {
        MetaSource::SessionJson => match json_as_array(json_get(meta, "workspacePaths")) {
            Some(ps) => if ps.len() > 0 {
                match json_as_str(Some(&ps[0])) {
                    Some(s) => {
                        let v = chars_of(s);
                        Some(string_from(&v))
                    },
                    None => None,
                }
            } else {
                None
            },
            None => None,
        },
        MetaSource::SiblingJson => match json_as_str(json_get(meta, "cwd")) {
            Some(s) => {
                let v = chars_of(s);
                Some(string_from(&v))
            },
            None => None,
        },
        MetaSource::NoMeta => None,
    }
}

/// The working directory of a session, from the text of its metadata file;
/// none when the text is not JSON.
pub fn session_cwd(source: MetaSource, meta_text: &str) -> (r: Option<String>)
    ensures
        opt_string_view(r) == match json_parse(meta_text@) {
            Some(meta) => meta_cwd_spec(source, meta),
            None => None,
        },
{
    match parse_json(meta_text) {
        Some(meta) => meta_cwd(source, &meta),
        None => None,
    }
}

/// The wing of a session: its working directory's name (`-` as `_`) when
/// that is not empty, else the name of the directory holding the file, else
/// `sessions`.
pub open spec fn session_wing_spec(cwd_name: Option<Seq<char>>, parent_name: Option<Seq<char>>) -> Seq<
    char,
> {
    match cwd_name {
        Some(n) if dir_wing_spec(n).len() > 0 => dir_wing_spec(n),
        _ => match parent_name {
            Some(p) => dir_wing_spec(p),
            None => "sessions"@,
        },
    }
}

pub open spec fn opt_str_view(v: Option<&str>) -> Option<Seq<char>> {
    match v {
        Some(s) => Some(s@),
        None => None,
    }
}

/// The wing of a session file, from the final component of its working
/// directory and that of the directory holding the file.
pub fn wing_for_session(cwd_name: Option<&str>, parent_name: Option<&str>) -> (r: String)
    ensures
        r@ == session_wing_spec(opt_str_view(cwd_name), opt_str_view(parent_name)),
{
    if let Some(n) = cwd_name {
        let w = wing_from_dir_name(Some(n));
        if w.as_str().unicode_len() > 0 {
            return w;
        }
    }
    match parent_name {
        Some(p) => wing_from_dir_name(Some(p)),
        None => {
            let v = chars_of("sessions");
            string_from(&v)
        },
    }
}

/// The room of an imported file: the first directory of its relative path,
/// else `general`.
pub fn room_for_import(first_dir: Option<&str>) -> (r: String)
    ensures
        r@ == match first_dir {
            Some(d) => d@,
            None => "general"@,
        },
{
    let v = match first_dir {
        Some(d) => chars_of(d),
        None => chars_of("general"),
    };
    string_from(&v)
}

// ─────────────────────────── per-file import plan ───────────────────────────

/// The hash gate as a function of the recorded hash and the current one.
pub open spec fn import_action_spec(stored_hash: Option<Seq<char>>, hash: Seq<char>) -> ImportAction {
    match stored_hash {
        Some(h) => if h == hash {
            ImportAction::Skip
        } else {
            ImportAction::Update
        },
        None => ImportAction::Import,
    }
}

/// The content hash of a document's text (`content_hash`).
pub open spec fn content_hash_spec(text: Seq<char>) -> Seq<char> {
    hex_lower(sha256_digest(encode_utf8(text)))
}

/// The room of an imported file (`room_for_import`).
pub open spec fn import_room_spec(first_dir: Option<Seq<char>>) -> Seq<char> {
    match first_dir {
        Some(d) => d,
        None => "general"@,
    }
}

/// What importing one markdown file does.
pub enum ImportFilePlan {
    /// Its text is blank: it is passed over and nothing is recorded.
    Blank,
    /// Its content hash is the one recorded: nothing to do.
    Unchanged,
    /// Store these chunks (maybe none) under this room and type, then record
    /// the content hash; `Update` first replaces the chunks of the earlier
    /// content.
    Store { action: ImportAction, hash: String, chunks: Vec<String>, room: String, dtype: String },
}

pub open spec fn opt_text_view(v: Option<&str>) -> Option<Seq<char>> {
    match v {
        Some(x) => Some(x@),
        None => None,
    }
}

/// The plan for one markdown file, from its text, the content hash recorded
/// for it (if any) and the first directory of its relative path (if any).
pub fn plan_import_file(content: &str, stored_hash: Option<&str>, first_dir: Option<&str>) -> (p: ImportFilePlan)
    ensures
        match p {
            ImportFilePlan::Blank => trim(content@).len() == 0,
            ImportFilePlan::Unchanged => trim(content@).len() != 0 && import_action_spec(
                opt_text_view(stored_hash),
                content_hash_spec(content@),
            ) == ImportAction::Skip,
            ImportFilePlan::Store { action, hash, chunks, room, dtype } => {
                &&& trim(content@).len() != 0
                &&& hash@ == content_hash_spec(content@)
                &&& action == import_action_spec(opt_text_view(stored_hash), hash@)
                &&& action != ImportAction::Skip
                &&& strings_view(chunks@) == chunk_markdown_spec(content@)
                &&& room@ == import_room_spec(opt_text_view(first_dir))
                &&& dtype@ == frontmatter_type_spec(content@)
            },
        },
{
    if is_blank(content) {
        return ImportFilePlan::Blank;
    }
    let hash = content_hash(content);
    let action = import_action(stored_hash, hash.as_str());
    match action {
        ImportAction::Skip => ImportFilePlan::Unchanged,
        _ => {
            let chunks = chunk_markdown(content);
            assert(chunks@.map_values(|s: String| s@) =~= strings_view(chunks@));
            let room = room_for_import(first_dir);
            let dtype = detect_type_from_frontmatter(content);
            ImportFilePlan::Store { action, hash, chunks, room, dtype }
        },
    }
}

// ─────────────────────────────── scan cache ───────────────────────────────

/// Whether a session file is unchanged since the scan cache last saw it: a
/// cached modification time and size both equal to the current ones.
pub fn scan_unchanged(cached: Option<(i64, i64)>, mtime: i64, size: i64) -> (b: bool)
    ensures
        b == match cached {
            Some((cached_mtime, cached_size)) => cached_mtime == mtime && cached_size == size,
            None => false,
        },
{
    match cached {
        Some((cached_mtime, cached_size)) => cached_mtime == mtime && cached_size == size,
        None => false,
    }
}

} // verus!
