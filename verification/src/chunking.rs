//! Turning conversations and markdown into chunks, and classifying chunks
//! into rooms. Sizes are UTF-8 byte lengths.

use vstd::prelude::*;
use crate::text::{
    ascii_lower, char_width, is_ascii_text, append_chars, byte_len, byte_len_capped, chars_of, contains_exec, contains_seq, join,
    join_exec, lines, lines_exec, lowercase_chars, slice_range, split, split_exec, starts_with,
    starts_with_exec, string_from, strip_char_start, trim, trimmed, unicode_lowercase, utf8_width,
    views,
};

verus! {

/// Target chunk size in bytes.
pub open spec fn chunk_size() -> nat {
    800
}

/// Chunks smaller than this many bytes are dropped.
pub open spec fn min_chunk_size() -> nat {
    30
}

/// Who wrote a message.
#[derive(Debug, Clone, Copy, PartialEq, Eq, Structural)]
pub enum Role {
    User,
    Assistant,
}

/// A parsed message with role and text.
pub struct Message {
    pub role: Role,
    pub text: String,
}

/// The view of a message.
pub open spec fn message_view(m: Message) -> (Role, Seq<char>) {
    (m.role, m.text@)
}

pub open spec fn messages_view(ms: Seq<Message>) -> Seq<(Role, Seq<char>)> {
    ms.map_values(|m: Message| message_view(m))
}

/// A message as a chunk line: user messages are prefixed with `> `.
pub open spec fn message_line(m: (Role, Seq<char>)) -> Seq<char> {
    match m.0 {
        Role::User => "> "@ + m.1,
        Role::Assistant => m.1,
    }
}

/// Greedy packing of lines: `(finished chunks, current lines, current byte
/// length)` after the given lines. A line that would push a non-empty
/// current group past the chunk size first closes it (joined with `\n`).
pub open spec fn pack_lines(ls: Seq<Seq<char>>) -> (Seq<Seq<char>>, Seq<Seq<char>>, nat)
    decreases ls.len(),
{
    if ls.len() == 0 {
        (seq![], seq![], 0)
    } else {
        let (done, cur, n) = pack_lines(ls.drop_last());
        let line = ls.last();
        if n + byte_len(line) > chunk_size() && cur.len() > 0 {
            (done.push(join(cur, "\n"@)), seq![line], byte_len(line))
        } else {
            (done, cur.push(line), n + byte_len(line))
        }
    }
}

/// The chunks of a conversation: messages packed into groups of about
/// `chunk_size` bytes, joined with newlines; groups under `min_chunk_size`
/// bytes are dropped.
pub open spec fn chunk_messages_spec(ms: Seq<(Role, Seq<char>)>) -> Seq<Seq<char>> {
    let (done, cur, n) = pack_lines(ms.map_values(|m: (Role, Seq<char>)| message_line(m)));
    let all = if cur.len() > 0 {
        done.push(join(cur, "\n"@))
    } else {
        done
    };
    all.filter(|c: Seq<char>| byte_len(c) >= min_chunk_size())
}

/// No conversation chunk is smaller than the minimum chunk size.
pub proof fn lemma_message_chunks_not_tiny(ms: Seq<(Role, Seq<char>)>)
    ensures
        forall|i: int|
            0 <= i < chunk_messages_spec(ms).len() ==> byte_len(#[trigger] chunk_messages_spec(ms)[i])
                >= min_chunk_size(),
{
    let (done, cur, n) = pack_lines(ms.map_values(|m: (Role, Seq<char>)| message_line(m)));
    let all = if cur.len() > 0 {
        done.push(join(cur, "\n"@))
    } else {
        done
    };
    let pred = |c: Seq<char>| byte_len(c) >= min_chunk_size();
    assert(chunk_messages_spec(ms) == all.filter(pred));
    assert forall|i: int| 0 <= i < all.filter(pred).len() implies byte_len(#[trigger] all.filter(pred)[i])
        >= min_chunk_size() by {
        all.lemma_filter_pred(pred, i);
    }
}

/// The lines of consecutive groups, in order.
pub open spec fn concat_groups(gs: Seq<Seq<Seq<char>>>) -> Seq<Seq<char>>
    decreases gs.len(),
{
    if gs.len() == 0 {
        seq![]
    } else {
        concat_groups(gs.drop_last()) + gs.last()
    }
}

/// The sum of the byte lengths of some lines.
pub open spec fn total_bytes(g: Seq<Seq<char>>) -> nat
    decreases g.len(),
{
    if g.len() == 0 {
        0
    } else {
        total_bytes(g.drop_last()) + byte_len(g.last())
    }
}

/// Each group joined with `sep`.
pub open spec fn joined_groups(gs: Seq<Seq<Seq<char>>>, sep: Seq<char>) -> Seq<Seq<char>> {
    gs.map_values(|g: Seq<Seq<char>>| join(g, sep))
}

/// Every group is non-empty, and every group of two or more lines has at
/// most `chunk_size` bytes of lines, every line counted.
pub open spec fn line_groups_fit(gs: Seq<Seq<Seq<char>>>) -> bool {
    forall|i: int|
        0 <= i < gs.len() ==> #[trigger] gs[i].len() >= 1 && (gs[i].len() >= 2 ==> total_bytes(gs[i])
            <= chunk_size())
}

proof fn lemma_pack_lines_groups(ls: Seq<Seq<char>>) -> (gs: Seq<Seq<Seq<char>>>)
    ensures
        ({
            let (done, cur, n) = pack_lines(ls);
            &&& done == joined_groups(gs, "\n"@)
            &&& concat_groups(gs) + cur == ls
            &&& line_groups_fit(gs)
            &&& n == total_bytes(cur)
            &&& cur.len() >= 2 ==> total_bytes(cur) <= chunk_size()
            &&& ls.len() > 0 ==> cur.len() > 0
        }),
    decreases ls.len(),
{
    if ls.len() == 0 {
        let gs: Seq<Seq<Seq<char>>> = seq![];
        assert(joined_groups(gs, "\n"@) =~= Seq::<Seq<char>>::empty());
        assert(concat_groups(gs) + Seq::<Seq<char>>::empty() =~= ls);
        gs
    } else {
        let prev = ls.drop_last();
        let g0 = lemma_pack_lines_groups(prev);
        let (done, cur, n) = pack_lines(prev);
        let line = ls.last();
        assert(ls =~= prev.push(line));
        if n + byte_len(line) > chunk_size() && cur.len() > 0 {
            let gs = g0.push(cur);
            assert(gs.last() == cur);
            assert(joined_groups(gs, "\n"@) =~= joined_groups(g0, "\n"@).push(join(cur, "\n"@)));
            assert(gs.drop_last() =~= g0);
            assert(concat_groups(gs) + seq![line] =~= ls);
            assert(seq![line].drop_last() =~= Seq::<Seq<char>>::empty());
            assert(total_bytes(seq![line]) == byte_len(line)) by {
                assert(total_bytes(Seq::<Seq<char>>::empty()) == 0);
                assert(seq![line].last() == line);
            }
            assert forall|i: int| 0 <= i < gs.len() implies #[trigger] gs[i].len() >= 1 && (gs[i].len()
                >= 2 ==> total_bytes(gs[i]) <= chunk_size()) by {
                if i < g0.len() {
                    assert(gs[i] == g0[i]);
                }
            }
            gs
        } else {
            let c2 = cur.push(line);
            assert(c2.drop_last() =~= cur);
            assert(c2.last() == line);
            assert(total_bytes(c2) == total_bytes(cur) + byte_len(line));
            assert(concat_groups(g0) + c2 =~= (concat_groups(g0) + cur).push(line));
            g0
        }
    }
}

/// The lines of a conversation, one per message.
pub open spec fn message_lines(ms: Seq<(Role, Seq<char>)>) -> Seq<Seq<char>> {
    ms.map_values(|m: (Role, Seq<char>)| message_line(m))
}

/// Conversation chunks are consecutive groups of the message lines, joined
/// with newlines (groups under the minimum size dropped), and every group of
/// two or more messages has at most `chunk_size` bytes of lines, counting the
/// line that opened the group.
pub proof fn lemma_message_groups_fit(ms: Seq<(Role, Seq<char>)>)
    ensures
        exists|gs: Seq<Seq<Seq<char>>>|
            {
                &&& #[trigger] concat_groups(gs) == message_lines(ms)
                &&& line_groups_fit(gs)
                &&& joined_groups(gs, "\n"@).filter(
                    |c: Seq<char>| byte_len(c) >= min_chunk_size(),
                ) == chunk_messages_spec(ms)
            },
{
    let ls = message_lines(ms);
    let g0 = lemma_pack_lines_groups(ls);
    let (done, cur, n) = pack_lines(ls);
    if cur.len() > 0 {
        let gs = g0.push(cur);
        assert(joined_groups(gs, "\n"@) =~= done.push(join(cur, "\n"@)));
        assert(gs.drop_last() =~= g0);
        assert forall|i: int| 0 <= i < gs.len() implies #[trigger] gs[i].len() >= 1 && (gs[i].len()
            >= 2 ==> total_bytes(gs[i]) <= chunk_size()) by {
            if i < g0.len() {
                assert(gs[i] == g0[i]);
            }
        }
        assert(concat_groups(gs) == ls);
        assert(joined_groups(gs, "\n"@).filter(|c: Seq<char>| byte_len(c) >= min_chunk_size())
            == chunk_messages_spec(ms));
    } else {
        assert(concat_groups(g0) =~= ls);
        assert(joined_groups(g0, "\n"@).filter(|c: Seq<char>| byte_len(c) >= min_chunk_size())
            == chunk_messages_spec(ms));
    }
}

/// The smaller of `n` and `cap`.
pub open spec fn capped(n: nat, cap: nat) -> nat {
    if n < cap {
        n
    } else {
        cap
    }
}

/// Keep the chunks of at least `min_chunk_size` bytes.
fn keep_large(chunks: Vec<Vec<char>>) -> (r: Vec<String>)
    ensures
        r@.map_values(|s: String| s@) == views(chunks@).filter(
            |c: Seq<char>| byte_len(c) >= min_chunk_size(),
        ),
{
    let ghost cv = views(chunks@);
    let mut out: Vec<String> = Vec::new();
    let mut i: usize = 0;
    let ghost pred = |c: Seq<char>| byte_len(c) >= min_chunk_size();
    assert(cv.take(0).filter(pred) =~= Seq::<Seq<char>>::empty());
    while i < chunks.len()
        invariant
            i <= chunks@.len(),
            cv == views(chunks@),
            pred == (|c: Seq<char>| byte_len(c) >= min_chunk_size()),
            out@.map_values(|s: String| s@) == cv.take(i as int).filter(pred),
        decreases chunks@.len() - i,
    {
        proof {
            assert(cv.take(i + 1).drop_last() =~= cv.take(i as int));
            reveal_with_fuel(Seq::filter, 1);
        }
        let n = byte_len_capped(&chunks[i], 30);
        if n >= 30 {
            let s = string_from(&chunks[i]);
            let ghost before = out@.map_values(|s: String| s@);
            out.push(s);
            proof {
                assert(out@.map_values(|s: String| s@) =~= before.push(cv[i as int]));
            }
        }
        i = i + 1;
    }
    assert(cv.take(i as int) =~= cv);
    out
}

/// Chunk conversation messages into groups of about `chunk_size` bytes. User
/// messages are prefixed with `> `, messages are joined with newlines, and
/// chunks smaller than `min_chunk_size` bytes are dropped.
pub fn chunk_messages(messages: &[Message]) -> (r: Vec<String>)
    ensures
        r@.map_values(|s: String| s@) == chunk_messages_spec(messages_view(messages@)),
{
    let ghost ls = messages_view(messages@).map_values(|m: (Role, Seq<char>)| message_line(m));
    let mut chunks: Vec<Vec<char>> = Vec::new();
    let mut current: Vec<Vec<char>> = Vec::new();
    let mut current_len: usize = 0;
    let nl = chars_of("\n");
    let prefix = chars_of("> ");
    let mut i: usize = 0;
    assert(ls.take(0) =~= Seq::<Seq<char>>::empty());
    while i < messages.len()
        invariant
            i <= messages@.len(),
            nl@ == "\n"@,
            prefix@ == "> "@,
            ls == messages_view(messages@).map_values(|m: (Role, Seq<char>)| message_line(m)),
            ({
                let (done, cur, n) = pack_lines(ls.take(i as int));
                views(chunks@) == done && views(current@) == cur && current_len == capped(
                    n,
                    801,
                )
            }),
        decreases messages@.len() - i,
    {
        let mut line: Vec<char> = Vec::new();
        match messages[i].role {
            Role::User => {
                append_chars(&mut line, &prefix);
            },
            Role::Assistant => {},
        }
        let t = chars_of(messages[i].text.as_str());
        append_chars(&mut line, &t);
        proof {
            assert(line@ == message_line(message_view(messages@[i as int])));
            assert(ls.take(i + 1).drop_last() =~= ls.take(i as int));
            assert(ls.take(i + 1).last() == line@);
        }
        let len = byte_len_capped(&line, 801);
        if current_len + len > 800 && current.len() > 0 {
            let joined = join_exec(&current, &nl);
            let ghost before = views(chunks@);
            chunks.push(joined);
            proof {
                assert(views(chunks@) =~= before.push(joined@));
            }
            current = Vec::new();
            current_len = 0;
        }
        let ghost before_cur = views(current@);
        let ghost lv = line@;
        current.push(line);
        proof {
            assert(views(current@) =~= before_cur.push(lv));
        }
        current_len = if current_len + len < 801 {
            current_len + len
        } else {
            801
        };
        proof {
            let (done, cur, n) = pack_lines(ls.take(i as int));
            if n + byte_len(lv) > chunk_size() && cur.len() > 0 {
                assert(views(current@) =~= seq![lv]);
            }
        }
        i = i + 1;
    }
    assert(ls.take(i as int) =~= ls);
    if current.len() > 0 {
        let joined = join_exec(&current, &nl);
        let ghost before = views(chunks@);
        chunks.push(joined);
        proof {
            assert(views(chunks@) =~= before.push(joined@));
        }
    }
    keep_large(chunks)
}

// ─────────────────────────────── markdown ───────────────────────────────

/// Sections of markdown lines: a line starting with `## ` opens a new section
/// unless no line is pending. Returns (closed sections, pending lines).
pub open spec fn sections_of(ls: Seq<Seq<char>>) -> (Seq<Seq<Seq<char>>>, Seq<Seq<char>>)
    decreases ls.len(),
{
    if ls.len() == 0 {
        (seq![], seq![])
    } else {
        let (done, cur) = sections_of(ls.drop_last());
        let line = ls.last();
        if starts_with(line, "## "@) && cur.len() > 0 {
            (done.push(cur), seq![line])
        } else {
            (done, cur.push(line))
        }
    }
}

/// All sections of a markdown text, the pending one included.
pub open spec fn markdown_sections(content: Seq<char>) -> Seq<Seq<Seq<char>>> {
    let (done, cur) = sections_of(lines(content));
    if cur.len() > 0 {
        done.push(cur)
    } else {
        done
    }
}

/// Greedy packing of paragraphs: `(finished chunks, buffered paragraphs,
/// buffered length)`. A paragraph that would push a non-empty buffer past the
/// chunk size closes it (joined with a blank line) and starts the next buffer
/// with its own length; otherwise it joins the buffer, counted with two bytes
/// for the separator.
pub open spec fn pack_paragraphs(ps: Seq<Seq<char>>) -> (Seq<Seq<char>>, Seq<Seq<char>>, nat)
    decreases ps.len(),
{
    if ps.len() == 0 {
        (seq![], seq![], 0)
    } else {
        let (done, buf, n) = pack_paragraphs(ps.drop_last());
        let p = ps.last();
        if n + byte_len(p) > chunk_size() && buf.len() > 0 {
            (done.push(join(buf, "\n\n"@)), seq![p], byte_len(p))
        } else {
            (done, buf.push(p), n + byte_len(p) + 2)
        }
    }
}

/// The chunks of one section's trimmed text.
pub open spec fn section_chunks(t: Seq<char>) -> Seq<Seq<char>> {
    if t.len() == 0 || byte_len(t) < min_chunk_size() {
        seq![]
    } else if byte_len(t) <= chunk_size() {
        seq![t]
    } else {
        let (done, buf, n) = pack_paragraphs(split(t, "\n\n"@));
        if buf.len() > 0 && byte_len(join(buf, "\n\n"@)) >= min_chunk_size() {
            done.push(join(buf, "\n\n"@))
        } else {
            done
        }
    }
}

/// Every group is non-empty, and every group of two or more paragraphs,
/// joined with blank lines, has at most `chunk_size` bytes plus one
/// separator.
pub open spec fn paragraph_groups_fit(gs: Seq<Seq<Seq<char>>>) -> bool {
    forall|i: int|
        0 <= i < gs.len() ==> #[trigger] gs[i].len() >= 1 && (gs[i].len() >= 2 ==> byte_len(
            join(gs[i], "\n\n"@),
        ) <= chunk_size() + 2)
}

proof fn lemma_join_paragraphs_len(g: Seq<Seq<char>>)
    requires
        g.len() >= 1,
    ensures
        byte_len(join(g, "\n\n"@)) == total_bytes(g) + 2 * (g.len() - 1),
    decreases g.len(),
{
    reveal_strlit("\n\n");
    if g.len() == 1 {
        assert(g.drop_last() =~= Seq::<Seq<char>>::empty());
        assert(total_bytes(Seq::<Seq<char>>::empty()) == 0);
        assert(g.last() == g[0]);
    } else {
        lemma_join_paragraphs_len(g.drop_last());
        let sep = "\n\n"@;
        assert(byte_len(sep) == 2) by {
            assert(sep.len() == 2 && sep[0] == '\n' && sep[1] == '\n');
            let one = sep.drop_last();
            assert(one.len() == 1 && one.last() == '\n');
            assert(one.drop_last() =~= Seq::<char>::empty());
            assert(byte_len(Seq::<char>::empty()) == 0);
            assert(char_width('\n') == 1);
            assert(byte_len(one) == 1);
        }
        assert(g.drop_last().len() >= 1);
        crate::text::lemma_byte_len_append(join(g.drop_last(), sep), sep);
        crate::text::lemma_byte_len_append(join(g.drop_last(), sep) + sep, g.last());
    }
}

proof fn lemma_pack_paragraphs_groups(ps: Seq<Seq<char>>) -> (gs: Seq<Seq<Seq<char>>>)
    ensures
        ({
            let (done, buf, n) = pack_paragraphs(ps);
            &&& done == joined_groups(gs, "\n\n"@)
            &&& concat_groups(gs) + buf == ps
            &&& paragraph_groups_fit(gs)
            &&& gs.len() == 0 ==> n == total_bytes(buf) + 2 * buf.len()
            &&& gs.len() > 0 ==> buf.len() >= 1 && n + 2 == total_bytes(buf) + 2 * buf.len()
            &&& buf.len() >= 2 ==> total_bytes(buf) + 2 * (buf.len() - 1) <= chunk_size() + 2
            &&& ps.len() > 0 ==> buf.len() > 0
        }),
    decreases ps.len(),
{
    if ps.len() == 0 {
        let gs: Seq<Seq<Seq<char>>> = seq![];
        assert(joined_groups(gs, "\n\n"@) =~= Seq::<Seq<char>>::empty());
        assert(concat_groups(gs) + Seq::<Seq<char>>::empty() =~= ps);
        gs
    } else {
        let prev = ps.drop_last();
        let g0 = lemma_pack_paragraphs_groups(prev);
        let (done, buf, n) = pack_paragraphs(prev);
        let p = ps.last();
        assert(ps =~= prev.push(p));
        if n + byte_len(p) > chunk_size() && buf.len() > 0 {
            let gs = g0.push(buf);
            assert(gs.last() == buf);
            assert(joined_groups(gs, "\n\n"@) =~= joined_groups(g0, "\n\n"@).push(
                join(buf, "\n\n"@),
            ));
            assert(gs.drop_last() =~= g0);
            assert(concat_groups(gs) + seq![p] =~= ps);
            assert(seq![p].drop_last() =~= Seq::<Seq<char>>::empty());
            assert(total_bytes(seq![p]) == byte_len(p)) by {
                assert(total_bytes(Seq::<Seq<char>>::empty()) == 0);
                assert(seq![p].last() == p);
            }
            if buf.len() >= 2 {
                lemma_join_paragraphs_len(buf);
            }
            assert forall|i: int| 0 <= i < gs.len() implies #[trigger] gs[i].len() >= 1 && (gs[i].len()
                >= 2 ==> byte_len(join(gs[i], "\n\n"@)) <= chunk_size() + 2) by {
                if i < g0.len() {
                    assert(gs[i] == g0[i]);
                }
            }
            gs
        } else {
            let b2 = buf.push(p);
            assert(b2.drop_last() =~= buf);
            assert(b2.last() == p);
            assert(total_bytes(b2) == total_bytes(buf) + byte_len(p));
            assert(concat_groups(g0) + b2 =~= (concat_groups(g0) + buf).push(p));
            g0
        }
    }
}

/// An oversized section is cut into consecutive groups of its paragraphs,
/// each joined with a blank line (the last group dropped when it is under
/// the minimum size), and every group of two or more paragraphs stays within
/// the chunk size: at most `chunk_size` bytes plus one separator, counting
/// the paragraph that opened the group.
pub proof fn lemma_section_groups_fit(t: Seq<char>)
    requires
        byte_len(t) > chunk_size(),
    ensures
        exists|gs: Seq<Seq<Seq<char>>>|
            {
                &&& #[trigger] concat_groups(gs) == split(t, "\n\n"@)
                &&& paragraph_groups_fit(gs)
                &&& (section_chunks(t) == joined_groups(gs, "\n\n"@) || (gs.len() > 0 && byte_len(
                    joined_groups(gs, "\n\n"@).last(),
                ) < min_chunk_size() && section_chunks(t) == joined_groups(gs, "\n\n"@).drop_last()))
            },
{
    let ps = split(t, "\n\n"@);
    let g0 = lemma_pack_paragraphs_groups(ps);
    let (done, buf, n) = pack_paragraphs(ps);
    assert(t.len() > 0) by {
        if t.len() == 0 {
            assert(byte_len(t) == 0);
        }
    }
    if buf.len() > 0 {
        let gs = g0.push(buf);
        assert(joined_groups(gs, "\n\n"@) =~= done.push(join(buf, "\n\n"@)));
        assert(gs.drop_last() =~= g0);
        assert(gs.last() == buf);
        if buf.len() >= 2 {
            lemma_join_paragraphs_len(buf);
        }
        assert forall|i: int| 0 <= i < gs.len() implies #[trigger] gs[i].len() >= 1 && (gs[i].len()
            >= 2 ==> byte_len(join(gs[i], "\n\n"@)) <= chunk_size() + 2) by {
            if i < g0.len() {
                assert(gs[i] == g0[i]);
            }
        }
        assert(concat_groups(gs) == ps);
        assert(joined_groups(gs, "\n\n"@).drop_last() =~= done);
    } else {
        assert(concat_groups(g0) =~= ps);
    }
}

/// The chunks of the first `n` sections, in order.
pub open spec fn sections_chunks(secs: Seq<Seq<Seq<char>>>, n: int) -> Seq<Seq<char>>
    decreases n,
{
    if n <= 0 {
        seq![]
    } else {
        sections_chunks(secs, n - 1) + section_chunks(trim(join(secs[n - 1], "\n"@)))
    }
}

/// The chunks of a markdown document.
pub open spec fn chunk_markdown_spec(content: Seq<char>) -> Seq<Seq<char>> {
    let secs = markdown_sections(content);
    sections_chunks(secs, secs.len() as int)
}

/// Chunk markdown by `## ` heading boundaries; sections longer than the chunk
/// size are split at blank-line paragraph boundaries. A section under the
/// minimum size is dropped, and so is the last paragraph group of a split
/// section when it is under the minimum; a group closed because the next
/// paragraph would overflow it is kept whatever its size.
pub fn chunk_markdown(content: &str) -> (r: Vec<String>)
    ensures
        r@.map_values(|s: String| s@) == chunk_markdown_spec(content@),
{
    let v = chars_of(content);
    let ls = lines_exec(&v);
    let ghost lv = views(ls@);
    let heading = chars_of("## ");
    let mut sections: Vec<Vec<Vec<char>>> = Vec::new();
    let mut current: Vec<Vec<char>> = Vec::new();
    let mut i: usize = 0;
    assert(lv.take(0) =~= Seq::<Seq<char>>::empty());
    assert(sections@.map_values(|s: Vec<Vec<char>>| views(s@)) =~= Seq::<Seq<Seq<char>>>::empty());
    while i < ls.len()
        invariant
            i <= ls@.len(),
            lv == views(ls@),
            lv == lines(content@),
            heading@ == "## "@,
            ({
                let (done, cur) = sections_of(lv.take(i as int));
                sections@.map_values(|s: Vec<Vec<char>>| views(s@)) == done && views(current@)
                    == cur
            }),
        decreases ls@.len() - i,
    {
        proof {
            assert(lv.take(i + 1).drop_last() =~= lv.take(i as int));
            assert(lv.take(i + 1).last() == ls@[i as int]@);
        }
        let line = slice_range(&ls[i], 0, ls[i].len());
        assert(line@ =~= ls@[i as int]@);
        if starts_with_exec(&line, &heading) && current.len() > 0 {
            let ghost before = sections@.map_values(|s: Vec<Vec<char>>| views(s@));
            let ghost cv = views(current@);
            sections.push(current);
            proof {
                assert(sections@.map_values(|s: Vec<Vec<char>>| views(s@)) =~= before.push(cv));
            }
            current = Vec::new();
            let ghost lvv = line@;
            current.push(line);
            proof {
                assert(views(current@) =~= seq![lvv]);
            }
        } else {
            let ghost before = views(current@);
            let ghost lvv = line@;
            current.push(line);
            proof {
                assert(views(current@) =~= before.push(lvv));
            }
        }
        i = i + 1;
    }
    assert(lv.take(i as int) =~= lv);
    if current.len() > 0 {
        let ghost before = sections@.map_values(|s: Vec<Vec<char>>| views(s@));
        let ghost cv = views(current@);
        sections.push(current);
        proof {
            assert(sections@.map_values(|s: Vec<Vec<char>>| views(s@)) =~= before.push(cv));
        }
    }
    let ghost secs = sections@.map_values(|s: Vec<Vec<char>>| views(s@));
    assert(secs == markdown_sections(content@));
    let nl = chars_of("\n");
    let mut chunks: Vec<Vec<char>> = Vec::new();
    let mut j: usize = 0;
    while j < sections.len()
        invariant
            j <= sections@.len(),
            secs == sections@.map_values(|s: Vec<Vec<char>>| views(s@)),
            nl@ == "\n"@,
            views(chunks@) == sections_chunks(secs, j as int),
        decreases sections@.len() - j,
    {
        let text = join_exec(&sections[j], &nl);
        let t = trimmed(&text);
        let ghost before = views(chunks@);
        section_chunks_exec(&t, &mut chunks);
        proof {
            assert(secs[j as int] == views(sections@[j as int]@));
        }
        j = j + 1;
    }
    keep_all(chunks)
}

/// The strings of the given character vectors.
fn keep_all(chunks: Vec<Vec<char>>) -> (r: Vec<String>)
    ensures
        r@.map_values(|s: String| s@) == views(chunks@),
{
    let mut out: Vec<String> = Vec::new();
    let mut i: usize = 0;
    while i < chunks.len()
        invariant
            i <= chunks@.len(),
            out@.map_values(|s: String| s@) == views(chunks@).take(i as int),
        decreases chunks@.len() - i,
    {
        let s = string_from(&chunks[i]);
        let ghost before = out@.map_values(|s: String| s@);
        out.push(s);
        proof {
            assert(out@.map_values(|s: String| s@) =~= before.push(chunks@[i as int]@));
            assert(views(chunks@).take(i + 1) =~= views(chunks@).take(i as int).push(
                chunks@[i as int]@,
            ));
        }
        i = i + 1;
    }
    assert(views(chunks@).take(i as int) =~= views(chunks@));
    out
}

/// Append the chunks of one section's trimmed text.
fn section_chunks_exec(t: &Vec<char>, chunks: &mut Vec<Vec<char>>)
    ensures
        views(final(chunks)@) == views(old(chunks)@) + section_chunks(t@),
{
    let len = byte_len_capped(t, 801);
    if t.len() == 0 || len < 30 {
        assert(views(chunks@) =~= views(old(chunks)@) + section_chunks(t@));
        return;
    }
    if len <= 800 {
        let c = slice_range(t, 0, t.len());
        assert(c@ =~= t@);
        let ghost before = views(chunks@);
        chunks.push(c);
        assert(views(chunks@) =~= before + section_chunks(t@));
        return;
    }
    let sep = chars_of("\n\n");
    proof {
        reveal_strlit("\n\n");
    }
    let paragraphs = split_exec(t, &sep);
    let ghost ps = views(paragraphs@);
    let mut buf: Vec<Vec<char>> = Vec::new();
    let mut buf_len: usize = 0;
    let mut k: usize = 0;
    let ghost start = views(chunks@);
    assert(ps.take(0) =~= Seq::<Seq<char>>::empty());
    while k < paragraphs.len()
        invariant
            k <= paragraphs@.len(),
            ps == views(paragraphs@),
            sep@ == "\n\n"@,
            ({
                let (done, b, n) = pack_paragraphs(ps.take(k as int));
                views(chunks@) == start + done && views(buf@) == b && buf_len == capped(n, 801)
            }),
        decreases paragraphs@.len() - k,
    {
        proof {
            assert(ps.take(k + 1).drop_last() =~= ps.take(k as int));
            assert(ps.take(k + 1).last() == paragraphs@[k as int]@);
        }
        let p = slice_range(&paragraphs[k], 0, paragraphs[k].len());
        assert(p@ =~= paragraphs@[k as int]@);
        let plen = byte_len_capped(&p, 801);
        let ghost pv = p@;
        if buf_len + plen > 800 && buf.len() > 0 {
            let joined = join_exec(&buf, &sep);
            let ghost before = views(chunks@);
            chunks.push(joined);
            proof {
                assert(views(chunks@) =~= before.push(joined@));
            }
            buf = Vec::new();
            buf.push(p);
            assert(views(buf@) =~= seq![pv]);
            buf_len = plen;
        } else {
            let ghost before = views(buf@);
            buf.push(p);
            assert(views(buf@) =~= before.push(pv));
            buf_len = if buf_len + plen + 2 < 801 {
                buf_len + plen + 2
            } else {
                801
            };
        }
        k = k + 1;
    }
    assert(ps.take(k as int) =~= ps);
    if buf.len() > 0 {
        let remainder = join_exec(&buf, &sep);
        let rlen = byte_len_capped(&remainder, 30);
        if rlen >= 30 {
            let ghost before = views(chunks@);
            chunks.push(remainder);
            proof {
                assert(views(chunks@) =~= before.push(remainder@));
            }
        }
    }
    let ghost (done, b, n) = pack_paragraphs(ps);
    assert(views(chunks@) =~= views(old(chunks)@) + section_chunks(t@));
}

// ─────────────────────────────── rooms ───────────────────────────────

/// The rooms a chunk can be classified into, in order of precedence.
pub open spec fn room_name(i: int) -> Seq<char> {
    if i == 0 {
        "technical"@
    } else if i == 1 {
        "architecture"@
    } else if i == 2 {
        "planning"@
    } else if i == 3 {
        "decisions"@
    } else {
        "problems"@
    }
}

/// The keywords of each room.
pub open spec fn room_keywords(i: int) -> Seq<Seq<char>> {
    if i == 0 {
        seq![
            "code"@,
            "function"@,
            "bug"@,
            "error"@,
            "api"@,
            "server"@,
            "deploy"@,
            "git"@,
            "test"@,
            "debug"@,
            "refactor"@,
        ]
    } else if i == 1 {
        seq![
            "architecture"@,
            "design"@,
            "pattern"@,
            "structure"@,
            "interface"@,
            "module"@,
            "component"@,
            "layer"@,
        ]
    } else if i == 2 {
        seq![
            "plan"@,
            "roadmap"@,
            "milestone"@,
            "scope"@,
            "requirement"@,
            "spec"@,
            "backlog"@,
            "sprint"@,
        ]
    } else if i == 3 {
        seq![
            "decided"@,
            "chose"@,
            "recommendation"@,
            "trade-off"@,
            "approach"@,
            "option"@,
            "prefer"@,
            "agree"@,
        ]
    } else {
        seq![
            "problem"@,
            "issue"@,
            "broken"@,
            "failed"@,
            "crash"@,
            "stuck"@,
            "workaround"@,
            "fix"@,
            "solved"@,
        ]
    }
}

/// How many of the first `n` keywords occur in `text`.
pub open spec fn keyword_hits(text: Seq<char>, kws: Seq<Seq<char>>, n: int) -> nat
    decreases n,
{
    if n <= 0 {
        0
    } else {
        keyword_hits(text, kws, n - 1) + if contains_seq(text, kws[n - 1]) {
            1nat
        } else {
            0nat
        }
    }
}

/// A room's score: how many of its keywords occur in `text`.
pub open spec fn room_score(text: Seq<char>, i: int) -> nat {
    keyword_hits(text, room_keywords(i), room_keywords(i).len() as int)
}

/// The best room among the first `n` rooms: `(index, score)`, starting from
/// `general` (index -1, score 0); a room wins only with a strictly higher score.
pub open spec fn best_room(text: Seq<char>, n: int) -> (int, nat)
    decreases n,
{
    if n <= 0 {
        (-1, 0)
    } else {
        let (b, s) = best_room(text, n - 1);
        if room_score(text, n - 1) > s {
            (n - 1, room_score(text, n - 1))
        } else {
            (b, s)
        }
    }
}

/// The room of an already lowercased text.
pub open spec fn room_of_lowercase(text: Seq<char>) -> Seq<char> {
    let (b, _) = best_room(text, 5);
    if b < 0 {
        "general"@
    } else {
        room_name(b)
    }
}

proof fn lemma_best_room_range(text: Seq<char>, n: int)
    ensures
        best_room(text, n).0 == -1 || 0 <= best_room(text, n).0 < n,
    decreases n,
{
    if n > 0 {
        lemma_best_room_range(text, n - 1);
    }
}

/// Every chunk lands in `general` or in one of the five topic rooms.
pub proof fn lemma_room_is_known(text: Seq<char>)
    ensures
        classify_room_spec(text) == "general"@ || exists|i: int|
            0 <= i < 5 && classify_room_spec(text) == #[trigger] room_name(i),
{
    let t = unicode_lowercase(text.take(cut_index(text, 3000, 0)));
    lemma_best_room_range(t, 5);
    let b = best_room(t, 5).0;
    if b >= 0 {
        assert(classify_room_spec(text) == room_name(b));
    }
}

/// The number of leading characters whose byte offset is below `limit`,
/// counting from `j`.
pub open spec fn cut_index(s: Seq<char>, limit: nat, j: int) -> int
    decreases s.len() - j,
{
    if j >= s.len() || j < 0 || byte_len(s.take(j)) >= limit {
        j
    } else {
        cut_index(s, limit, j + 1)
    }
}

/// The room of a chunk: the characters that start within its first 3000
/// bytes, lowercased, scored against each room's keywords.
pub open spec fn classify_room_spec(text: Seq<char>) -> Seq<char> {
    room_of_lowercase(unicode_lowercase(text.take(cut_index(text, 3000, 0))))
}

/// The keywords of room `i`.
fn keywords_of(i: usize) -> (r: Vec<&'static str>)
    requires
        i < 5,
    ensures
        r@.map_values(|k: &str| k@) == room_keywords(i as int),
{
    let r = if i == 0 {
        vec!["code", "function", "bug", "error", "api", "server", "deploy", "git", "test", "debug", "refactor"]
    } else if i == 1 {
        vec!["architecture", "design", "pattern", "structure", "interface", "module", "component", "layer"]
    } else if i == 2 {
        vec!["plan", "roadmap", "milestone", "scope", "requirement", "spec", "backlog", "sprint"]
    } else if i == 3 {
        vec!["decided", "chose", "recommendation", "trade-off", "approach", "option", "prefer", "agree"]
    } else {
        vec!["problem", "issue", "broken", "failed", "crash", "stuck", "workaround", "fix", "solved"]
    };
    assert(r@.map_values(|k: &str| k@) =~= room_keywords(i as int));
    r
}

/// The name of room `i`.
fn room_name_of(i: usize) -> (r: &'static str)
    requires
        i < 5,
    ensures
        r@ == room_name(i as int),
{
    if i == 0 {
        "technical"
    } else if i == 1 {
        "architecture"
    } else if i == 2 {
        "planning"
    } else if i == 3 {
        "decisions"
    } else {
        "problems"
    }
}

/// Classify an already lowercased text into a room by keyword scoring: the
/// room with the most keyword hits wins, earlier rooms winning ties, and a
/// text without hits is `general`.
pub fn classify_lowercased(text: &[char]) -> (r: &'static str)
    ensures
        r@ == room_of_lowercase(text@),
{
    let mut best: usize = 5;
    let mut best_score: usize = 0;
    let mut i: usize = 0;
    while i < 5
        invariant
            i <= 5,
            best == 5 || best < i,
            ({
                let (b, sc) = best_room(text@, i as int);
                (if best == 5 { -1 } else { best as int }) == b && best_score == sc
            }),
            best_score <= 11,
        decreases 5 - i,
    {
        let kws = keywords_of(i);
        let ghost kv = kws@.map_values(|k: &str| k@);
        let mut score: usize = 0;
        let mut j: usize = 0;
        while j < kws.len()
            invariant
                i < 5,
                j <= kws@.len(),
                kv == kws@.map_values(|k: &str| k@),
                kv == room_keywords(i as int),
                score == keyword_hits(text@, kv, j as int),
                score <= j,
            decreases kws@.len() - j,
        {
            let kw = chars_of(kws[j]);
            if contains_exec(text, &kw) {
                score = score + 1;
            }
            j = j + 1;
        }
        assert(room_keywords(i as int).len() <= 11);
        assert(kv.len() == kws@.len());
        if score > best_score {
            best_score = score;
            best = i;
        }
        i = i + 1;
    }
    if best == 5 {
        "general"
    } else {
        room_name_of(best)
    }
}

/// The number of leading characters of `v` whose byte offset is below `limit`.
fn cut_at(v: &[char], limit: usize) -> (k: usize)
    requires
        limit <= 1_000_000,
    ensures
        k == cut_index(v@, limit as nat, 0),
        k <= v@.len(),
{
    let mut j: usize = 0;
    let mut off: usize = 0;
    assert(v@.take(0) =~= Seq::<char>::empty());
    while j < v.len() && off < limit
        invariant
            j <= v@.len(),
            off == byte_len(v@.take(j as int)),
            cut_index(v@, limit as nat, 0) == cut_index(v@, limit as nat, j as int),
            off <= limit + 4,
            limit <= 1_000_000,
        decreases v@.len() - j,
    {
        assert(v@.take(j + 1).drop_last() =~= v@.take(j as int));
        off = off + utf8_width(v[j]);
        j = j + 1;
    }
    j
}

/// ASCII lowercase of every character of a text.
pub open spec fn ascii_fold(s: Seq<char>) -> Seq<char> {
    s.map_values(|c: char| ascii_lower(c))
}

/// The room of an ASCII chunk: its first 3000 bytes, ASCII-lowercased, scored
/// against each room's keywords.
pub open spec fn classify_ascii_spec(text: Seq<char>) -> Seq<char> {
    room_of_lowercase(ascii_fold(text.take(cut_index(text, 3000, 0))))
}

proof fn lemma_ascii_lower_char(c: char)
    requires
        c < '\u{80}',
    ensures
        ascii_lower(c) < '\u{80}',
        ascii_lower(ascii_lower(c)) == ascii_lower(c),
        char_width(ascii_lower(c)) == char_width(c),
{
    if 'A' <= c && c <= 'Z' {
        let d = ((c as u32) + 32) as char;
        assert(d as u32 == (c as u32) + 32);
        assert('a' as u32 == 97 && 'z' as u32 == 122 && 'A' as u32 == 65 && 'Z' as u32 == 90);
    }
}

proof fn lemma_fold_take(s: Seq<char>, j: int)
    requires
        0 <= j <= s.len(),
    ensures
        ascii_fold(s).take(j) == ascii_fold(s.take(j)),
{
    assert(ascii_fold(s).take(j) =~= ascii_fold(s.take(j)));
}

proof fn lemma_fold_ascii(s: Seq<char>)
    requires
        is_ascii_text(s),
    ensures
        is_ascii_text(ascii_fold(s)),
        ascii_fold(ascii_fold(s)) == ascii_fold(s),
        byte_len(ascii_fold(s)) == byte_len(s),
    decreases s.len(),
{
    assert forall|i: int| 0 <= i < s.len() implies #[trigger] ascii_fold(s)[i] < '\u{80}' && ascii_lower(
        ascii_fold(s)[i],
    ) == ascii_fold(s)[i] by {
        lemma_ascii_lower_char(s[i]);
    }
    assert(ascii_fold(ascii_fold(s)) =~= ascii_fold(s));
    if s.len() > 0 {
        let p = s.drop_last();
        assert(is_ascii_text(p)) by {
            assert forall|i: int| 0 <= i < p.len() implies #[trigger] p[i] < '\u{80}' by {
                assert(p[i] == s[i]);
            }
        }
        lemma_fold_ascii(p);
        assert(ascii_fold(s).drop_last() =~= ascii_fold(p));
        lemma_ascii_lower_char(s.last());
    }
}

proof fn lemma_take_ascii(s: Seq<char>, j: int)
    requires
        is_ascii_text(s),
        0 <= j <= s.len(),
    ensures
        is_ascii_text(s.take(j)),
{
    assert forall|i: int| 0 <= i < s.take(j).len() implies #[trigger] s.take(j)[i] < '\u{80}' by {
        assert(s.take(j)[i] == s[i]);
    }
}

proof fn lemma_cut_index_fold(s: Seq<char>, limit: nat, j: int)
    requires
        is_ascii_text(s),
        0 <= j,
    ensures
        cut_index(ascii_fold(s), limit, j) == cut_index(s, limit, j),
    decreases s.len() - j,
{
    if j < s.len() {
        lemma_fold_take(s, j);
        lemma_take_ascii(s, j);
        lemma_fold_ascii(s.take(j));
        lemma_cut_index_fold(s, limit, j + 1);
    }
}

/// Case does not matter to the room of a chunk: an ASCII chunk lands in the
/// same room as its lowercase form, so a keyword written `API` or `Error`
/// counts as `api` or `error`.
pub proof fn lemma_room_ignores_case(text: Seq<char>)
    requires
        is_ascii_text(text),
    ensures
        classify_ascii_spec(ascii_fold(text)) == classify_ascii_spec(text),
{
    let k = cut_index(text, 3000, 0);
    lemma_cut_index_fold(text, 3000, 0);
    assert(0 <= k <= text.len()) by {
        lemma_cut_index_range(text, 3000, 0);
    }
    lemma_fold_take(text, k);
    lemma_take_ascii(text, k);
    lemma_fold_ascii(text.take(k));
}

proof fn lemma_cut_index_range(s: Seq<char>, limit: nat, j: int)
    requires
        0 <= j <= s.len(),
    ensures
        j <= cut_index(s, limit, j) <= s.len(),
    decreases s.len() - j,
{
    if j < s.len() && byte_len(s.take(j)) < limit {
        lemma_cut_index_range(s, limit, j + 1);
    }
}

/// Classify a chunk into a room by keyword scoring over (the characters that
/// start within) its first 3000 bytes, lowercased.
pub fn classify_room(text: &str) -> (r: String)
    ensures
        r@ == classify_room_spec(text@),
        is_ascii_text(text@) ==> r@ == classify_ascii_spec(text@),
{
    let v = chars_of(text);
    let k = cut_at(&v, 3000);
    let head = slice_range(&v, 0, k);
    assert(head@ =~= v@.take(k as int));
    proof {
        if is_ascii_text(text@) {
            lemma_take_ascii(v@, k as int);
        }
    }
    let lower = lowercase_chars(&head);
    let room = classify_lowercased(&lower);
    let rv = chars_of(room);
    string_from(&rv)
}

// ─────────────────────────────── frontmatter ───────────────────────────────

pub open spec fn is_quote(c: char) -> bool {
    c == '"' || c == '\''
}

pub open spec fn strip_quotes_start(s: Seq<char>) -> Seq<char>
    decreases s.len(),
{
    if s.len() > 0 && is_quote(s[0]) {
        strip_quotes_start(s.drop_first())
    } else {
        s
    }
}

pub open spec fn strip_quotes_end(s: Seq<char>) -> Seq<char>
    decreases s.len(),
{
    if s.len() > 0 && is_quote(s.last()) {
        strip_quotes_end(s.drop_last())
    } else {
        s
    }
}

/// The value of the first line (in order) whose trimmed text starts with
/// `type:`: what follows, trimmed, with quotes stripped from both ends.
pub open spec fn first_type_line(ls: Seq<Seq<char>>) -> Option<Seq<char>>
    decreases ls.len(),
{
    if ls.len() == 0 {
        None
    } else if starts_with(trim(ls[0]), "type:"@) {
        Some(strip_quotes_end(strip_quotes_start(trim(trim(ls[0]).skip(5)))))
    } else {
        first_type_line(ls.drop_first())
    }
}

/// The document type from YAML frontmatter: with leading byte-order marks
/// removed, a text opening with `---` whose frontmatter (up to the next
/// `\n---`) has a `type:` line has that type; any other text is `document`.
pub open spec fn frontmatter_type_spec(content: Seq<char>) -> Seq<char> {
    let c = strip_char_start(content, '\u{feff}');
    if !starts_with(c, "---"@) {
        "document"@
    } else {
        match crate::text::find(c.skip(3), "\n---"@) {
            None => "document"@,
            Some(end) => match first_type_line(lines(c.skip(3).take(end))) {
                Some(t) => t,
                None => "document"@,
            },
        }
    }
}

/// Extract the document type from YAML frontmatter (a simple key scan).
pub fn detect_type_from_frontmatter(content: &str) -> (r: String)
    ensures
        r@ == frontmatter_type_spec(content@),
{
    let v = chars_of(content);
    let mut a: usize = 0;
    assert(v@.skip(0) =~= v@);
    while a < v.len() && v[a] == '\u{feff}'
        invariant
            a <= v@.len(),
            strip_char_start(v@, '\u{feff}') == strip_char_start(v@.skip(a as int), '\u{feff}'),
        decreases v@.len() - a,
    {
        assert(v@.skip(a as int).drop_first() =~= v@.skip(a + 1));
        a = a + 1;
    }
    let c = slice_range(&v, a, v.len());
    assert(c@ =~= v@.skip(a as int));
    let document = chars_of("document");
    if !starts_with_exec(&c, &chars_of("---")) {
        return string_from(&document);
    }
    proof {
        reveal_strlit("---");
    }
    let body = slice_range(&c, 3, c.len());
    assert(body@ =~= c@.skip(3));
    let marker = chars_of("\n---");
    let end = match crate::text::find_from_exec(&body, &marker, 0) {
        Some(e) => e,
        None => {
            return string_from(&document);
        },
    };
    proof {
        crate::text::lemma_find(body@, marker@);
    }
    let fm = slice_range(&body, 0, end);
    assert(fm@ =~= body@.take(end as int));
    let ls = lines_exec(&fm);
    let ghost lv = views(ls@);
    let key = chars_of("type:");
    let mut i: usize = 0;
    assert(lv.skip(0) =~= lv);
    assert(frontmatter_type_spec(content@) == match first_type_line(lv) {
        Some(t) => t,
        None => "document"@,
    });
    while i < ls.len()
        invariant
            i <= ls@.len(),
            lv == views(ls@),
            key@ == "type:"@,
            document@ == "document"@,
            frontmatter_type_spec(content@) == match first_type_line(lv) {
                Some(t) => t,
                None => "document"@,
            },
            first_type_line(lv) == first_type_line(lv.skip(i as int)),
        decreases ls@.len() - i,
    {
        let t = trimmed(&ls[i]);
        proof {
            assert(lv.skip(i as int)[0] == ls@[i as int]@);
            assert(lv.skip(i as int).drop_first() =~= lv.skip(i + 1));
        }
        if starts_with_exec(&t, &key) {
            proof {
                reveal_strlit("type:");
            }
            let rest = slice_range(&t, 5, t.len());
            assert(rest@ =~= t@.skip(5));
            let val = trimmed(&rest);
            let mut s: usize = 0;
            assert(val@.skip(0) =~= val@);
            while s < val.len() && (val[s] == '"' || val[s] == '\'')
                invariant
                    s <= val@.len(),
                    strip_quotes_start(val@) == strip_quotes_start(val@.skip(s as int)),
                decreases val@.len() - s,
            {
                assert(val@.skip(s as int).drop_first() =~= val@.skip(s + 1));
                s = s + 1;
            }
            let ghost mid = val@.skip(s as int);
            assert(strip_quotes_start(mid) == mid);
            let mut e: usize = val.len();
            while e > s && (val[e - 1] == '"' || val[e - 1] == '\'')
                invariant
                    s <= e <= val@.len(),
                    mid == val@.skip(s as int),
                    strip_quotes_end(mid) == strip_quotes_end(val@.subrange(s as int, e as int)),
                decreases e,
            {
                assert(val@.subrange(s as int, e as int).drop_last() =~= val@.subrange(
                    s as int,
                    e - 1,
                ));
                e = e - 1;
            }
            assert(val@.skip(s as int) =~= val@.subrange(s as int, val@.len() as int));
            assert(strip_quotes_end(val@.subrange(s as int, e as int)) == val@.subrange(
                s as int,
                e as int,
            ));
            let out = slice_range(&val, s, e);
            return string_from(&out);
        }
        i = i + 1;
    }
    string_from(&document)
}

} // verus!
