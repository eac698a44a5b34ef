//! Session transcripts (JSON Lines) in three formats: kiro-cli v3, kiro-cli
//! v1/v2, and the Codex CLI. Each parser reads the parsed entries of the
//! non-blank lines, in order.

use vstd::prelude::*;
use crate::chunking::{messages_view, Message, Role};
use crate::json::{
    as_array, as_str, get, get_opt, json_as_array, json_as_str, json_get,
    json_get_opt, json_parse, parse_json, JsonValue,
};
use crate::text::{
    append_chars, append_str, chars_of, join, join_exec, lines, lines_exec,
    string_from, trim, trimmed, views,
};

verus! {

/// A message as plain values.
pub type Msg = (Role, Seq<char>);

/// The non-blank lines of a text.
pub open spec fn nonblank_lines(content: Seq<char>) -> Seq<Seq<char>> {
    lines(content).filter(|l: Seq<char>| trim(l).len() > 0)
}

/// The parsed entries of a JSON Lines text: one per non-blank line, `None`
/// for a line that is not JSON.
pub open spec fn entries_of(content: Seq<char>) -> Seq<Option<JsonValue>> {
    nonblank_lines(content).map_values(|l: Seq<char>| json_parse(l))
}

/// An optional list of messages as plain values.
pub open spec fn opt_messages_view(r: Option<Vec<Message>>) -> Option<Seq<Msg>> {
    match r {
        Some(v) => Some(messages_view(v@)),
        None => None,
    }
}

/// Add an assistant text: merged into a preceding assistant message (after a
/// newline), else appended as a new message.
pub open spec fn add_assistant(ms: Seq<Msg>, t: Seq<char>) -> Seq<Msg> {
    if ms.len() > 0 && ms.last().0 == Role::Assistant {
        ms.drop_last().push((Role::Assistant, ms.last().1 + "\n"@ + t))
    } else {
        ms.push((Role::Assistant, t))
    }
}

// ─────────────────────────────── kiro-cli v3 ───────────────────────────────

/// One v3 entry: `{payload: {type: "user"|"assistant", content}}`. An entry
/// that is not JSON is skipped; an entry without a payload, or whose payload
/// lacks a string `type` or `content`, ends the parse without a result.
pub open spec fn v3_step(acc: Option<Seq<Msg>>, e: Option<JsonValue>) -> Option<Seq<Msg>> {
    match acc {
        None => None,
        Some(ms) => match e {
            None => Some(ms),
            Some(entry) => match get(entry, "payload"@) {
                None => None,
                Some(p) => match as_str(get(p, "type"@)) {
                    None => None,
                    Some(pt) => match as_str(get(p, "content"@)) {
                        None => None,
                        Some(c) => {
                            let t = trim(c);
                            if t.len() == 0 {
                                Some(ms)
                            } else if pt == "user"@ {
                                Some(ms.push((Role::User, t)))
                            } else if pt == "assistant"@ {
                                Some(add_assistant(ms, t))
                            } else {
                                Some(ms)
                            }
                        },
                    },
                },
            },
        },
    }
}

pub open spec fn v3_fold(es: Seq<Option<JsonValue>>) -> Option<Seq<Msg>>
    decreases es.len(),
{
    if es.len() == 0 {
        Some(seq![])
    } else {
        v3_step(v3_fold(es.drop_last()), es.last())
    }
}

/// The v3 reading of a transcript: its first entry must be JSON with a
/// `payload` that has a `type`, and at least two messages must result.
pub open spec fn kiro_v3_spec(es: Seq<Option<JsonValue>>) -> Option<Seq<Msg>> {
    if es.len() == 0 {
        None
    } else {
        match es[0] {
            None => None,
            Some(first) => match get(first, "payload"@) {
                None => None,
                Some(p) => if get(p, "type"@) is None {
                    None
                } else {
                    match v3_fold(es) {
                        Some(ms) => if ms.len() >= 2 {
                            Some(ms)
                        } else {
                            None
                        },
                        None => None,
                    }
                },
            },
        }
    }
}

/// Parse the entries of a kiro-cli v3 transcript:
/// `{id, timestamp, payload: {type: "user"|"assistant", content}}`;
/// consecutive assistant messages are merged.
pub fn parse_kiro_v3_entries(es: &Vec<Option<JsonValue>>) -> (r: Option<Vec<Message>>)
    ensures
        opt_messages_view(r) == kiro_v3_spec(es@),
{
    if es.len() == 0 {
        return None;
    }
    match &es[0] {
        None => {
            return None;
        },
        Some(first) => match json_get(first, "payload") {
            None => {
                return None;
            },
            Some(p) => {
                if json_get(p, "type").is_none() {
                    return None;
                }
            },
        },
    }
    let mut ms: Vec<Message> = Vec::new();
    let mut i: usize = 0;
    assert(es@.take(0) =~= Seq::<Option<JsonValue>>::empty());
    while i < es.len()
        invariant
            i <= es@.len(),
            v3_fold(es@.take(i as int)) == Some(messages_view(ms@)),
        decreases es@.len() - i,
    {
        proof {
            assert(es@.take(i + 1).drop_last() =~= es@.take(i as int));
            assert(es@.take(i + 1).last() == es@[i as int]);
        }
        match &es[i] {
            None => {},
            Some(entry) => {
                let p = match json_get(entry, "payload") {
                    Some(p) => p,
                    None => {
                        proof {
                            lemma_v3_none_stays(es@, i + 1);
                        }
                        return None;
                    },
                };
                let pt = match json_as_str(json_get(p, "type")) {
                    Some(x) => x,
                    None => {
                        proof {
                            lemma_v3_none_stays(es@, i + 1);
                        }
                        return None;
                    },
                };
                let c = match json_as_str(json_get(p, "content")) {
                    Some(x) => x,
                    None => {
                        proof {
                            lemma_v3_none_stays(es@, i + 1);
                        }
                        return None;
                    },
                };
                let cv = chars_of(c);
                let t = trimmed(&cv);
                if t.len() > 0 {
                    if crate::text::str_eq(pt, "user") {
                        let ghost before = messages_view(ms@);
                        let m = Message { role: Role::User, text: string_from(&t) };
                        ms.push(m);
                        proof {
                            assert(messages_view(ms@) =~= before.push((Role::User, t@)));
                        }
                    } else if crate::text::str_eq(pt, "assistant") {
                        add_assistant_exec(&mut ms, &t);
                    }
                }
            },
        }
        i = i + 1;
    }
    assert(es@.take(i as int) =~= es@);
    if ms.len() >= 2 {
        Some(ms)
    } else {
        None
    }
}

/// Once the v3 parse has ended without a result, it stays so.
proof fn lemma_v3_none_stays(es: Seq<Option<JsonValue>>, n: int)
    requires
        0 <= n <= es.len(),
        v3_fold(es.take(n)) is None,
    ensures
        v3_fold(es) is None,
    decreases es.len() - n,
{
    if n < es.len() {
        assert(es.take(n + 1).drop_last() =~= es.take(n));
        lemma_v3_none_stays(es, n + 1);
    } else {
        assert(es.take(n) =~= es);
    }
}

/// Add an assistant text to a message list (merging into a preceding
/// assistant message).
fn add_assistant_exec(ms: &mut Vec<Message>, t: &Vec<char>)
    ensures
        messages_view(final(ms)@) == add_assistant(messages_view(old(ms)@), t@),
{
    let n = ms.len();
    if n > 0 && matches!(ms[n - 1].role, Role::Assistant) {
        let last = ms.pop().unwrap();
        let mut text = chars_of(last.text.as_str());
        text.push('\n');
        append_chars(&mut text, t);
        proof {
            reveal_strlit("\n");
            assert(text@ =~= last.text@ + "\n"@ + t@);
        }
        let ghost before = messages_view(ms@);
        ms.push(Message { role: Role::Assistant, text: string_from(&text) });
        proof {
            reveal_strlit("\n");
            assert(messages_view(old(ms)@).drop_last() =~= before);
            assert(messages_view(ms@) =~= before.push(
                (Role::Assistant, last.text@ + "\n"@ + t@),
            ));
        }
    } else {
        let ghost before = messages_view(ms@);
        ms.push(Message { role: Role::Assistant, text: string_from(t) });
        proof {
            assert(messages_view(ms@) =~= before.push((Role::Assistant, t@)));
        }
    }
}

// ─────────────────────────────── kiro-cli v1/v2 ───────────────────────────────

/// An entry marks the v2 format: `version` is `"v1"` and a `kind` is present.
pub open spec fn is_v2_entry(e: Option<JsonValue>) -> bool {
    match e {
        Some(x) => as_str(get(x, "version"@)) == Some("v1"@) && get(x, "kind"@) is Some,
        None => false,
    }
}

/// The trimmed, non-empty text of a `{kind: "text", data}` block.
pub open spec fn text_block(block: JsonValue) -> Option<Seq<char>> {
    if as_str(get(block, "kind"@)) == Some("text"@) {
        match as_str(get(block, "data"@)) {
            Some(t) => if trim(t).len() > 0 {
                Some(trim(t))
            } else {
                None
            },
            None => None,
        }
    } else {
        None
    }
}

/// The summary of a `{kind: "toolUse", data: {name, input}}` block:
/// `[tool: <name>]`, followed by the input's `__tool_use_purpose` when there
/// is one; a missing name reads `unknown`.
pub open spec fn tool_block(block: JsonValue) -> Option<Seq<char>> {
    match get(block, "data"@) {
        Some(td) => {
            let name = match as_str(get(td, "name"@)) {
                Some(n) => n,
                None => "unknown"@,
            };
            let purpose = match as_str(get_opt(get(td, "input"@), "__tool_use_purpose"@)) {
                Some(p) => p,
                None => seq![],
            };
            if purpose.len() == 0 {
                Some("[tool: "@ + name + "]"@)
            } else {
                Some("[tool: "@ + name + "] "@ + purpose)
            }
        },
        None => None,
    }
}

/// What an assistant block contributes: a text block's text, a tool-use
/// block's summary, nothing otherwise.
pub open spec fn assistant_block(block: JsonValue) -> Option<Seq<char>> {
    let kind = as_str(get(block, "kind"@));
    if kind == Some("text"@) {
        text_block(block)
    } else if kind == Some("toolUse"@) {
        tool_block(block)
    } else {
        None
    }
}

/// The parts the first `n` blocks contribute, in order.
pub open spec fn block_parts(
    blocks: Seq<JsonValue>,
    f: spec_fn(JsonValue) -> Option<Seq<char>>,
    n: int,
) -> Seq<Seq<char>>
    decreases n,
{
    if n <= 0 {
        seq![]
    } else {
        let prev = block_parts(blocks, f, n - 1);
        match f(blocks[n - 1]) {
            Some(p) => prev.push(p),
            None => prev,
        }
    }
}

/// The content blocks of an entry's data (none when it has no array).
pub open spec fn content_blocks(data: JsonValue) -> Seq<JsonValue> {
    match as_array(get(data, "content"@)) {
        Some(b) => b,
        None => seq![],
    }
}

/// One v2 entry: `{version: "v1", kind: "Prompt"|"AssistantMessage", data:
/// {content: [blocks]}}`. Entries that are not JSON, not version `v1`, or lack
/// a string `kind` or a `data` are skipped.
pub open spec fn v2_step(ms: Seq<Msg>, e: Option<JsonValue>) -> Seq<Msg> {
    match e {
        None => ms,
        Some(x) => if as_str(get(x, "version"@)) != Some("v1"@) {
            ms
        } else {
            match as_str(get(x, "kind"@)) {
                None => ms,
                Some(kind) => match get(x, "data"@) {
                    None => ms,
                    Some(data) => {
                        let blocks = content_blocks(data);
                        if kind == "Prompt"@ {
                            let parts = block_parts(
                                blocks,
                                |b: JsonValue| text_block(b),
                                blocks.len() as int,
                            );
                            if parts.len() > 0 {
                                ms.push((Role::User, join(parts, "\n"@)))
                            } else {
                                ms
                            }
                        } else if kind == "AssistantMessage"@ {
                            let combined = join(
                                block_parts(
                                    blocks,
                                    |b: JsonValue| assistant_block(b),
                                    blocks.len() as int,
                                ),
                                "\n"@,
                            );
                            if combined.len() > 0 {
                                add_assistant(ms, combined)
                            } else {
                                ms
                            }
                        } else {
                            ms
                        }
                    },
                },
            }
        },
    }
}

pub open spec fn v2_fold(es: Seq<Option<JsonValue>>) -> Seq<Msg>
    decreases es.len(),
{
    if es.len() == 0 {
        seq![]
    } else {
        v2_step(v2_fold(es.drop_last()), es.last())
    }
}

/// The v2 reading of a transcript: one of its first five entries must mark
/// the format, and at least two messages must result.
pub open spec fn kiro_v2_spec(es: Seq<Option<JsonValue>>) -> Option<Seq<Msg>> {
    if es.len() == 0 {
        None
    } else if !(exists|i: int| 0 <= i < 5 && i < es.len() && is_v2_entry(#[trigger] es[i])) {
        None
    } else if v2_fold(es).len() >= 2 {
        Some(v2_fold(es))
    } else {
        None
    }
}

/// The text of a text block, trimmed, if non-empty.
fn text_block_exec(block: &JsonValue) -> (r: Option<Vec<char>>)
    ensures
        match r {
            Some(t) => text_block(*block) == Some(t@),
            None => text_block(*block) is None,
        },
{
    match json_as_str(json_get(block, "kind")) {
        Some(k) => {
            if !crate::text::str_eq(k, "text") {
                return None;
            }
        },
        None => {
            return None;
        },
    }
    match json_as_str(json_get(block, "data")) {
        Some(t) => {
            let tv = chars_of(t);
            let tr = trimmed(&tv);
            if tr.len() > 0 {
                Some(tr)
            } else {
                None
            }
        },
        None => None,
    }
}

/// The summary of a tool-use block.
fn tool_block_exec(block: &JsonValue) -> (r: Option<Vec<char>>)
    ensures
        match r {
            Some(t) => tool_block(*block) == Some(t@),
            None => tool_block(*block) is None,
        },
{
    match json_get(block, "data") {
        Some(td) => {
            proof {
                reveal_strlit("]");
                reveal_strlit("] ");
            }
            let mut out: Vec<char> = Vec::new();
            append_str(&mut out, "[tool: ");
            match json_as_str(json_get(td, "name")) {
                Some(n) => append_str(&mut out, n),
                None => append_str(&mut out, "unknown"),
            }
            append_str(&mut out, "]");
            match json_as_str(json_get_opt(json_get(td, "input"), "__tool_use_purpose")) {
                Some(p) => {
                    let pv = chars_of(p);
                    if pv.len() > 0 {
                        out.push(' ');
                        append_chars(&mut out, &pv);
                        proof {
                            assert(out@ =~= tool_block(*block)->0);
                        }
                    }
                },
                None => {},
            }
            proof {
                assert(out@ =~= tool_block(*block)->0);
            }
            Some(out)
        },
        None => None,
    }
}

/// What an assistant block contributes.
fn assistant_block_exec(block: &JsonValue) -> (r: Option<Vec<char>>)
    ensures
        match r {
            Some(t) => assistant_block(*block) == Some(t@),
            None => assistant_block(*block) is None,
        },
{
    match json_as_str(json_get(block, "kind")) {
        Some(k) => {
            if crate::text::str_eq(k, "text") {
                text_block_exec(block)
            } else if crate::text::str_eq(k, "toolUse") {
                proof {
                    reveal_strlit("text");
                    reveal_strlit("toolUse");
                }
                tool_block_exec(block)
            } else {
                None
            }
        },
        None => None,
    }
}

/// The parts of the blocks of a prompt (`assistant == false`) or of an
/// assistant message.
fn parts_of(blocks: &Vec<JsonValue>, assistant: bool) -> (r: Vec<Vec<char>>)
    ensures
        views(r@) == block_parts(
            blocks@,
            if assistant {
                |b: JsonValue| assistant_block(b)
            } else {
                |b: JsonValue| text_block(b)
            },
            blocks@.len() as int,
        ),
{
    let ghost f = if assistant {
        |b: JsonValue| assistant_block(b)
    } else {
        |b: JsonValue| text_block(b)
    };
    let mut out: Vec<Vec<char>> = Vec::new();
    let mut i: usize = 0;
    while i < blocks.len()
        invariant
            i <= blocks@.len(),
            f == (if assistant {
                |b: JsonValue| assistant_block(b)
            } else {
                |b: JsonValue| text_block(b)
            }),
            views(out@) == block_parts(blocks@, f, i as int),
        decreases blocks@.len() - i,
    {
        let p = if assistant {
            assistant_block_exec(&blocks[i])
        } else {
            text_block_exec(&blocks[i])
        };
        match p {
            Some(t) => {
                let ghost before = views(out@);
                let ghost tv = t@;
                out.push(t);
                proof {
                    assert(views(out@) =~= before.push(tv));
                }
            },
            None => {},
        }
        i = i + 1;
    }
    out
}

/// Parse the entries of a kiro-cli v1/v2 transcript:
/// `{version: "v1", kind: "Prompt"|"AssistantMessage", data: {...}}`; tool
/// uses are summarized and consecutive assistant messages are merged.
pub fn parse_kiro_v2_entries(es: &Vec<Option<JsonValue>>) -> (r: Option<Vec<Message>>)
    ensures
        opt_messages_view(r) == kiro_v2_spec(es@),
{
    if es.len() == 0 {
        return None;
    }
    let mut is_v2 = false;
    let mut k: usize = 0;
    while k < es.len() && k < 5 && !is_v2
        invariant
            k <= es@.len(),
            k <= 5,
            is_v2 ==> k < 5 && k < es@.len() && is_v2_entry(es@[k as int]),
            forall|j: int| 0 <= j < k ==> !is_v2_entry(#[trigger] es@[j]),
        decreases 5 - k + (if is_v2 {
            0int
        } else {
            1int
        }),
    {
        let mut found = false;
        match &es[k] {
            Some(entry) => {
                let ver = json_as_str(json_get(entry, "version"));
                let is_v1 = match ver {
                    Some(v) => crate::text::str_eq(v, "v1"),
                    None => false,
                };
                if is_v1 && json_get(entry, "kind").is_some() {
                    found = true;
                }
            },
            None => {},
        }
        if found {
            is_v2 = true;
        } else {
            k = k + 1;
        }
    }
    if !is_v2 {
        return None;
    }
    let nl = chars_of("\n");
    let mut ms: Vec<Message> = Vec::new();
    let mut i: usize = 0;
    assert(es@.take(0) =~= Seq::<Option<JsonValue>>::empty());
    while i < es.len()
        invariant
            i <= es@.len(),
            nl@ == "\n"@,
            v2_fold(es@.take(i as int)) == messages_view(ms@),
        decreases es@.len() - i,
    {
        proof {
            assert(es@.take(i + 1).drop_last() =~= es@.take(i as int));
            assert(es@.take(i + 1).last() == es@[i as int]);
        }
        v2_entry_exec(&es[i], &mut ms, &nl);
        i = i + 1;
    }
    assert(es@.take(i as int) =~= es@);
    if ms.len() >= 2 {
        Some(ms)
    } else {
        None
    }
}

/// Apply one v2 entry to the message list.
fn v2_entry_exec(e: &Option<JsonValue>, ms: &mut Vec<Message>, nl: &Vec<char>)
    requires
        nl@ == "\n"@,
    ensures
        messages_view(final(ms)@) == v2_step(messages_view(old(ms)@), *e),
{
    let x = match e {
        Some(x) => x,
        None => {
            return;
        },
    };
    let is_v1 = match json_as_str(json_get(x, "version")) {
        Some(v) => crate::text::str_eq(v, "v1"),
        None => false,
    };
    if !is_v1 {
        return;
    }
    let kind = match json_as_str(json_get(x, "kind")) {
        Some(k) => k,
        None => {
            return;
        },
    };
    let data = match json_get(x, "data") {
        Some(d) => d,
        None => {
            return;
        },
    };
    let empty: Vec<JsonValue> = Vec::new();
    let blocks: &Vec<JsonValue> = match json_as_array(json_get(data, "content")) {
        Some(b) => b,
        None => &empty,
    };
    assert(blocks@ == crate::sessions::content_blocks(*data));
    if crate::text::str_eq(kind, "Prompt") {
        let parts = parts_of(blocks, false);
        if parts.len() > 0 {
            let text = join_exec(&parts, nl);
            let ghost before = messages_view(ms@);
            ms.push(Message { role: Role::User, text: string_from(&text) });
            proof {
                assert(messages_view(ms@) =~= before.push((Role::User, text@)));
            }
        }
    } else if crate::text::str_eq(kind, "AssistantMessage") {
        let parts = parts_of(blocks, true);
        let combined = join_exec(&parts, nl);
        if combined.len() > 0 {
            add_assistant_exec(ms, &combined);
        }
    }
}

// ─────────────────────────────── Codex CLI ───────────────────────────────

/// One Codex entry: `{type: "session_meta"}` marks the format;
/// `{type: "event_msg", payload: {type: "user_message"|"agent_message",
/// message}}` with a non-blank message adds it, trimmed.
pub open spec fn codex_step(st: (Seq<Msg>, bool), e: Option<JsonValue>) -> (Seq<Msg>, bool) {
    match e {
        None => st,
        Some(x) => {
            let et = match as_str(get(x, "type"@)) {
                Some(t) => t,
                None => seq![],
            };
            if et == "session_meta"@ {
                (st.0, true)
            } else if et != "event_msg"@ {
                st
            } else {
                match get(x, "payload"@) {
                    None => st,
                    Some(p) => match as_str(get(p, "message"@)) {
                        None => st,
                        Some(m) => if trim(m).len() == 0 {
                            st
                        } else {
                            let pt = match as_str(get(p, "type"@)) {
                                Some(t) => t,
                                None => seq![],
                            };
                            if pt == "user_message"@ {
                                (st.0.push((Role::User, trim(m))), st.1)
                            } else if pt == "agent_message"@ {
                                (st.0.push((Role::Assistant, trim(m))), st.1)
                            } else {
                                st
                            }
                        },
                    },
                }
            }
        },
    }
}

pub open spec fn codex_fold(es: Seq<Option<JsonValue>>) -> (Seq<Msg>, bool)
    decreases es.len(),
{
    if es.len() == 0 {
        (seq![], false)
    } else {
        codex_step(codex_fold(es.drop_last()), es.last())
    }
}

/// The Codex reading of a transcript: a session-meta entry and at least two
/// messages are required.
pub open spec fn codex_spec(es: Seq<Option<JsonValue>>) -> Option<Seq<Msg>> {
    let (ms, meta) = codex_fold(es);
    if ms.len() >= 2 && meta {
        Some(ms)
    } else {
        None
    }
}

/// A Codex event message fixes the role of the message it adds: appending an
/// `event_msg` entry whose payload type is `user_message` (or
/// `agent_message`) and whose message is not blank appends that message,
/// trimmed, as the user's (or the assistant's), and a transcript that was
/// already read as Codex stays one.
pub proof fn lemma_codex_event_role(es: Seq<Option<JsonValue>>, x: JsonValue, p: JsonValue, m: Seq<char>, pt: Seq<char>)
    requires
        as_str(get(x, "type"@)) == Some("event_msg"@),
        get(x, "payload"@) == Some(p),
        as_str(get(p, "message"@)) == Some(m),
        trim(m).len() != 0,
        as_str(get(p, "type"@)) == Some(pt),
        pt == "user_message"@ || pt == "agent_message"@,
    ensures
        pt == "user_message"@ ==> codex_fold(es.push(Some(x))).0 == codex_fold(es).0.push(
            (Role::User, trim(m)),
        ),
        pt == "agent_message"@ ==> codex_fold(es.push(Some(x))).0 == codex_fold(es).0.push(
            (Role::Assistant, trim(m)),
        ),
        codex_fold(es.push(Some(x))).1 == codex_fold(es).1,
        codex_spec(es) is Some ==> codex_spec(es.push(Some(x))) == Some(
            codex_spec(es)->0.push(
                (
                    if pt == "user_message"@ {
                        Role::User
                    } else {
                        Role::Assistant
                    },
                    trim(m),
                ),
            ),
        ),
{
    reveal_strlit("event_msg");
    reveal_strlit("session_meta");
    reveal_strlit("user_message");
    reveal_strlit("agent_message");
    assert(es.push(Some(x)).drop_last() =~= es);
    assert("event_msg"@ != "session_meta"@) by {
        assert("event_msg"@[0] != "session_meta"@[0]);
    }
    assert("user_message"@ != "agent_message"@) by {
        assert("user_message"@[0] != "agent_message"@[0]);
    }
}

/// Whether an optional string value is exactly `lit`.
fn str_is(v: Option<&str>, lit: &str) -> (b: bool)
    ensures
        b == (match v {
            Some(s) => s@ == lit@,
            None => lit@.len() == 0,
        }),
{
    match v {
        Some(s) => crate::text::str_eq(s, lit),
        None => {
            let l = chars_of(lit);
            l.len() == 0
        },
    }
}

/// Parse the entries of an OpenAI Codex CLI transcript.
pub fn parse_codex_entries(es: &Vec<Option<JsonValue>>) -> (r: Option<Vec<Message>>)
    ensures
        opt_messages_view(r) == codex_spec(es@),
{
    let mut ms: Vec<Message> = Vec::new();
    let mut has_meta = false;
    let mut i: usize = 0;
    assert(es@.take(0) =~= Seq::<Option<JsonValue>>::empty());
    while i < es.len()
        invariant
            i <= es@.len(),
            codex_fold(es@.take(i as int)) == (messages_view(ms@), has_meta),
        decreases es@.len() - i,
    {
        proof {
            assert(es@.take(i + 1).drop_last() =~= es@.take(i as int));
            assert(es@.take(i + 1).last() == es@[i as int]);
            reveal_strlit("session_meta");
            reveal_strlit("event_msg");
        }
        match &es[i] {
            None => {},
            Some(x) => {
                let et = json_as_str(json_get(x, "type"));
                if str_is(et, "session_meta") {
                    has_meta = true;
                } else if str_is(et, "event_msg") {
                    match json_get(x, "payload") {
                        None => {},
                        Some(p) => match json_as_str(json_get(p, "message")) {
                            None => {},
                            Some(m) => {
                                let mv = chars_of(m);
                                let t = trimmed(&mv);
                                if t.len() > 0 {
                                    let pt = json_as_str(json_get(p, "type"));
                                    proof {
                                        reveal_strlit("user_message");
                                        reveal_strlit("agent_message");
                                    }
                                    if str_is(pt, "user_message") {
                                        let ghost before = messages_view(ms@);
                                        ms.push(Message { role: Role::User, text: string_from(&t) });
                                        proof {
                                            assert(messages_view(ms@) =~= before.push(
                                                (Role::User, t@),
                                            ));
                                        }
                                    } else if str_is(pt, "agent_message") {
                                        let ghost before = messages_view(ms@);
                                        ms.push(
                                            Message { role: Role::Assistant, text: string_from(&t) },
                                        );
                                        proof {
                                            assert(messages_view(ms@) =~= before.push(
                                                (Role::Assistant, t@),
                                            ));
                                        }
                                    }
                                }
                            },
                        },
                    }
                }
            },
        }
        i = i + 1;
    }
    assert(es@.take(i as int) =~= es@);
    if ms.len() >= 2 && has_meta {
        Some(ms)
    } else {
        None
    }
}

// ─────────────────────────────── whole files ───────────────────────────────

/// Parse each non-blank line of a JSON Lines text.
pub fn parse_json_lines(content: &str) -> (r: Vec<Option<JsonValue>>)
    ensures
        r@ == entries_of(content@),
{
    let v = chars_of(content);
    let ls = lines_exec(&v);
    let ghost lv = views(ls@);
    let ghost pred = |l: Seq<char>| trim(l).len() > 0;
    let mut out: Vec<Option<JsonValue>> = Vec::new();
    let mut i: usize = 0;
    assert(lv.take(0).filter(pred) =~= Seq::<Seq<char>>::empty());
    while i < ls.len()
        invariant
            i <= ls@.len(),
            lv == views(ls@),
            lv == lines(content@),
            pred == (|l: Seq<char>| trim(l).len() > 0),
            out@ == lv.take(i as int).filter(pred).map_values(|l: Seq<char>| json_parse(l)),
        decreases ls@.len() - i,
    {
        proof {
            assert(lv.take(i + 1).drop_last() =~= lv.take(i as int));
            assert(lv.take(i + 1).last() == ls@[i as int]@);
            reveal_with_fuel(Seq::filter, 1);
        }
        let t = trimmed(&ls[i]);
        if t.len() > 0 {
            let s = string_from(&ls[i]);
            let e = parse_json(s.as_str());
            let ghost before = out@;
            out.push(e);
            proof {
                let f = lv.take(i as int).filter(pred);
                assert(lv.take(i + 1).filter(pred) =~= f.push(ls@[i as int]@));
                assert(f.push(ls@[i as int]@).map_values(|l: Seq<char>| json_parse(l))
                    =~= f.map_values(|l: Seq<char>| json_parse(l)).push(json_parse(ls@[i as int]@)));
            }
        }
        i = i + 1;
    }
    assert(lv.take(i as int) =~= lv);
    out
}

/// Parse a kiro-cli v3 transcript.
pub fn parse_kiro_v3(content: &str) -> (r: Option<Vec<Message>>)
    ensures
        opt_messages_view(r) == kiro_v3_spec(entries_of(content@)),
{
    let es = parse_json_lines(content);
    parse_kiro_v3_entries(&es)
}

/// Parse a kiro-cli v1/v2 transcript.
pub fn parse_kiro_v2(content: &str) -> (r: Option<Vec<Message>>)
    ensures
        opt_messages_view(r) == kiro_v2_spec(entries_of(content@)),
{
    let es = parse_json_lines(content);
    parse_kiro_v2_entries(&es)
}

/// Parse an OpenAI Codex CLI transcript.
pub fn parse_codex(content: &str) -> (r: Option<Vec<Message>>)
    ensures
        opt_messages_view(r) == codex_spec(entries_of(content@)),
{
    let es = parse_json_lines(content);
    parse_codex_entries(&es)
}

/// The messages of a transcript's entries, trying v3, then v2, then Codex;
/// none when no format fits.
pub open spec fn session_entries_spec(es: Seq<Option<JsonValue>>) -> Seq<Msg> {
    match kiro_v3_spec(es) {
        Some(ms) => ms,
        None => match kiro_v2_spec(es) {
            Some(ms) => ms,
            None => match codex_spec(es) {
                Some(ms) => ms,
                None => seq![],
            },
        },
    }
}

/// The messages of a transcript's parsed entries.
pub fn parse_session_entries(es: &Vec<Option<JsonValue>>) -> (r: Vec<Message>)
    ensures
        messages_view(r@) == session_entries_spec(es@),
{
    if let Some(ms) = parse_kiro_v3_entries(es) {
        return ms;
    }
    if let Some(ms) = parse_kiro_v2_entries(es) {
        return ms;
    }
    if let Some(ms) = parse_codex_entries(es) {
        return ms;
    }
    let r: Vec<Message> = Vec::new();
    assert(messages_view(r@) =~= Seq::<Msg>::empty());
    r
}

/// The messages of a session transcript, auto-detecting the format; none for
/// a blank text.
pub fn parse_session_content(content: &str) -> (r: Vec<Message>)
    ensures
        messages_view(r@) == (if trim(content@).len() == 0 {
            seq![]
        } else {
            session_entries_spec(entries_of(content@))
        }),
{
    let v = chars_of(content);
    let t = trimmed(&v);
    if t.len() == 0 {
        let r: Vec<Message> = Vec::new();
        assert(messages_view(r@) =~= Seq::<Msg>::empty());
        return r;
    }
    let es = parse_json_lines(content);
    parse_session_entries(&es)
}

} // verus!
