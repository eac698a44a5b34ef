//! Wing names: the canonical form every wing is stored under, and the plan
//! that merges stored variants of one wing into that form.

use vstd::prelude::*;
use crate::text::{
    ascii_lower, chars_of, slice_range, string_from, strip_char_end, strip_char_start, views,
    to_ascii_lower, trim_char, trim_char_bounds, same_chars,
};

verus! {

// ───────────────────────────── canonical form ─────────────────────────────

/// The separators that all fold to `_`.
pub open spec fn is_separator(c: char) -> bool {
    c == '-' || c == '.' || c == ' ' || c == '_'
}

/// One character of a wing name after folding: separators become `_`, ASCII
/// letters become lowercase.
pub open spec fn wing_char(c: char) -> char {
    if is_separator(c) {
        '_'
    } else {
        ascii_lower(c)
    }
}

/// `m` with every `_` that directly follows another `_` removed.
pub open spec fn collapse_underscores(m: Seq<char>) -> Seq<char>
    decreases m.len(),
{
    if m.len() == 0 {
        seq![]
    } else if m.last() == '_' && m.len() >= 2 && m[m.len() - 2] == '_' {
        collapse_underscores(m.drop_last())
    } else {
        collapse_underscores(m.drop_last()).push(m.last())
    }
}

/// The wing that an empty name maps to.
pub open spec fn global_wing() -> Seq<char> {
    seq!['g', 'l', 'o', 'b', 'a', 'l']
}

/// The canonical wing of `name`: fold each character, collapse runs of `_`,
/// trim `_` from both ends, and map an empty result to `global`.
pub open spec fn canonical_wing(name: Seq<char>) -> Seq<char> {
    let t = trim_char(collapse_underscores(name.map_values(|c: char| wing_char(c))), '_');
    if t.len() == 0 {
        global_wing()
    } else {
        t
    }
}

/// Canonical wing name derived from an arbitrary directory or user-supplied
/// string: lowercase ASCII letters, map each of `-`, `.`, space and `_` to
/// `_`, collapse runs of `_` to one, trim leading and trailing `_`; an empty
/// result maps to `"global"`.
pub fn normalize_wing(name: &str) -> (r: String)
    ensures
        r@ == canonical_wing(name@),
{
    let chars = chars_of(name);
    let ghost m = chars@.map_values(|c: char| wing_char(c));
    let mut out: Vec<char> = Vec::new();
    let mut prev_underscore = false;
    let mut i: usize = 0;
    assert(m.take(0) =~= Seq::<char>::empty());
    while i < chars.len()
        invariant
            i <= chars@.len(),
            m == chars@.map_values(|c: char| wing_char(c)),
            out@ == collapse_underscores(m.take(i as int)),
            prev_underscore == (i > 0 && m[i - 1] == '_'),
        decreases chars@.len() - i,
    {
        let ch = chars[i];
        let mapped = if ch == '-' || ch == '.' || ch == ' ' || ch == '_' {
            '_'
        } else {
            to_ascii_lower(ch)
        };
        assert(mapped == m[i as int]);
        assert(m.take(i + 1).drop_last() =~= m.take(i as int));
        if mapped == '_' {
            if !prev_underscore {
                out.push('_');
                prev_underscore = true;
            }
        } else {
            out.push(mapped);
            prev_underscore = false;
        }
        i = i + 1;
    }
    assert(m.take(i as int) =~= m);
    let (a, b) = trim_char_bounds(&out, '_');
    if a == b {
        let g = vec!['g', 'l', 'o', 'b', 'a', 'l'];
        assert(g@ =~= global_wing());
        string_from(&g)
    } else {
        let t = slice_range(&out, a, b);
        string_from(&t)
    }
}

// ─────────────────────────── idempotence ───────────────────────────

proof fn lemma_ascii_lower_fixed(c: char)
    ensures
        !is_separator(c) ==> !is_separator(ascii_lower(c)),
        ascii_lower(ascii_lower(c)) == ascii_lower(c),
{
    if 'A' <= c && c <= 'Z' {
        let u = (c as u32) + 32;
        assert(0x61 <= u <= 0x7a);
        assert((u as char) as u32 == u);
    }
}

proof fn lemma_wing_char_fixed(c: char)
    ensures
        wing_char(wing_char(c)) == wing_char(c),
{
    lemma_ascii_lower_fixed(c);
}

/// No `_` is directly followed by another `_`.
pub open spec fn no_double_underscore(s: Seq<char>) -> bool {
    forall|i: int| 0 <= i < s.len() - 1 ==> !(#[trigger] s[i] == '_' && s[i + 1] == '_')
}

/// Every character is left unchanged by `wing_char`.
pub open spec fn all_folded(s: Seq<char>) -> bool {
    forall|i: int| 0 <= i < s.len() ==> wing_char(#[trigger] s[i]) == s[i]
}

proof fn lemma_collapse_props(m: Seq<char>)
    requires
        all_folded(m),
    ensures
        all_folded(collapse_underscores(m)),
        no_double_underscore(collapse_underscores(m)),
        m.len() > 0 ==> collapse_underscores(m).len() > 0 && collapse_underscores(m).last()
            == m.last(),
    decreases m.len(),
{
    if m.len() > 0 {
        let p = m.drop_last();
        assert(all_folded(p));
        lemma_collapse_props(p);
        let cp = collapse_underscores(p);
        if m.last() == '_' && m.len() >= 2 && m[m.len() - 2] == '_' {
            assert(p.last() == m[m.len() - 2]);
        } else {
            let r = cp.push(m.last());
            assert forall|i: int| 0 <= i < r.len() - 1 implies !(#[trigger] r[i] == '_' && r[i
                + 1] == '_') by {
                if i == r.len() - 2 {
                    assert(r[i] == cp.last());
                    assert(cp.last() == p.last());
                }
            }
        }
    }
}

proof fn lemma_collapse_identity(t: Seq<char>)
    requires
        no_double_underscore(t),
    ensures
        collapse_underscores(t) == t,
    decreases t.len(),
{
    if t.len() > 0 {
        let p = t.drop_last();
        assert(no_double_underscore(p)) by {
            assert forall|i: int| 0 <= i < p.len() - 1 implies !(#[trigger] p[i] == '_' && p[i
                + 1] == '_') by {
                assert(p[i] == t[i] && p[i + 1] == t[i + 1]);
            }
        }
        lemma_collapse_identity(p);
        if t.len() >= 2 {
            assert(!(t[t.len() - 2] == '_' && t[t.len() - 1] == '_'));
        }
        assert(p.push(t.last()) =~= t);
    }
}

proof fn lemma_strip_start_sub(s: Seq<char>, c: char)
    ensures
        exists|a: int| 0 <= a <= s.len() && strip_char_start(s, c) == s.skip(a),
        strip_char_start(s, c).len() > 0 ==> strip_char_start(s, c)[0] != c,
    decreases s.len(),
{
    if s.len() > 0 && s[0] == c {
        lemma_strip_start_sub(s.drop_first(), c);
        let a = choose|a: int|
            0 <= a <= s.drop_first().len() && strip_char_start(s.drop_first(), c)
                == s.drop_first().skip(a);
        assert(s.drop_first().skip(a) =~= s.skip(a + 1));
    } else {
        assert(s.skip(0) =~= s);
    }
}

proof fn lemma_strip_end_sub(s: Seq<char>, c: char)
    ensures
        exists|b: int| 0 <= b <= s.len() && strip_char_end(s, c) == s.take(b),
        strip_char_end(s, c).len() > 0 ==> strip_char_end(s, c).last() != c,
    decreases s.len(),
{
    if s.len() > 0 && s.last() == c {
        lemma_strip_end_sub(s.drop_last(), c);
        let b = choose|b: int|
            0 <= b <= s.drop_last().len() && strip_char_end(s.drop_last(), c)
                == s.drop_last().take(b);
        assert(s.drop_last().take(b) =~= s.take(b));
    } else {
        assert(s.take(s.len() as int) =~= s);
    }
}

proof fn lemma_strip_end_keeps_first(s: Seq<char>, c: char)
    requires
        s.len() > 0,
        s[0] != c,
    ensures
        strip_char_end(s, c).len() > 0,
        strip_char_end(s, c)[0] == s[0],
    decreases s.len(),
{
    if s.last() == c {
        assert(s.len() >= 2);
        lemma_strip_end_keeps_first(s.drop_last(), c);
    }
}

proof fn lemma_trim_char_props(s: Seq<char>, c: char)
    ensures
        exists|a: int, b: int| 0 <= a <= b <= s.len() && trim_char(s, c) == s.subrange(a, b),
        trim_char(s, c).len() > 0 ==> trim_char(s, c)[0] != c && trim_char(s, c).last() != c,
{
    lemma_strip_start_sub(s, c);
    let a = choose|a: int| 0 <= a <= s.len() && strip_char_start(s, c) == s.skip(a);
    let st = strip_char_start(s, c);
    lemma_strip_end_sub(st, c);
    let b = choose|b: int| 0 <= b <= st.len() && strip_char_end(st, c) == st.take(b);
    assert(st.take(b) =~= s.subrange(a, a + b));
    if trim_char(s, c).len() > 0 {
        lemma_strip_end_keeps_first(st, c);
    }
}

proof fn lemma_trim_char_identity(t: Seq<char>, c: char)
    requires
        t.len() > 0 ==> t[0] != c && t.last() != c,
    ensures
        trim_char(t, c) == t,
{
}

/// Names that differ only in which separator (`-`, `.`, space, `_`) stands
/// where, or in the case of ASCII letters, have the same canonical wing.
pub proof fn lemma_separator_variants_collapse(a: Seq<char>, b: Seq<char>)
    requires
        a.len() == b.len(),
        forall|i: int| 0 <= i < a.len() ==> #[trigger] wing_char(a[i]) == wing_char(b[i]),
    ensures
        canonical_wing(a) == canonical_wing(b),
{
    assert(a.map_values(|c: char| wing_char(c)) =~= b.map_values(|c: char| wing_char(c)));
}

/// Normalizing a wing name twice gives the same name as normalizing it once.
pub proof fn lemma_normalize_wing_idempotent(name: Seq<char>)
    ensures
        canonical_wing(canonical_wing(name)) == canonical_wing(name),
{
    let m = name.map_values(|c: char| wing_char(c));
    assert forall|i: int| 0 <= i < m.len() implies wing_char(#[trigger] m[i]) == m[i] by {
        lemma_wing_char_fixed(name[i]);
    }
    lemma_collapse_props(m);
    let cm = collapse_underscores(m);
    let t = trim_char(cm, '_');
    lemma_trim_char_props(cm, '_');
    let n = canonical_wing(name);
    if t.len() == 0 {
        let g = global_wing();
        let gm = g.map_values(|c: char| wing_char(c));
        assert(gm =~= g);
        lemma_collapse_identity(g);
        lemma_trim_char_identity(g, '_');
    } else {
        let (a, b) = choose|a: int, b: int| 0 <= a <= b <= cm.len() && t == cm.subrange(a, b);
        assert(all_folded(t)) by {
            assert forall|i: int| 0 <= i < t.len() implies wing_char(#[trigger] t[i]) == t[i] by {
                assert(t[i] == cm[a + i]);
            }
        }
        assert(no_double_underscore(t)) by {
            assert forall|i: int| 0 <= i < t.len() - 1 implies !(#[trigger] t[i] == '_' && t[i
                + 1] == '_') by {
                assert(t[i] == cm[a + i] && t[i + 1] == cm[a + i + 1]);
            }
        }
        let tm = t.map_values(|c: char| wing_char(c));
        assert(tm =~= t);
        lemma_collapse_identity(t);
        lemma_trim_char_identity(t, '_');
    }
}

// ─────────────────────────── migration plan ───────────────────────────

/// A planned rewrite of one non-canonical wing into its canonical form.
pub struct WingRewrite {
    pub from: String,
    pub to: String,
    pub chunk_count: i64,
    /// import_sources manifest rows whose path already exists under `to`.
    pub manifest_collisions: i64,
}

/// Summary of a wing-merge migration plan (no mutation performed).
pub struct WingMigrationPlan {
    pub rewrites: Vec<WingRewrite>,
    pub total_chunks_affected: i64,
    pub distinct_wings_before: i64,
    pub distinct_wings_after: i64,
}

/// The view of a rewrite: (from, to, chunk count, manifest collisions).
pub open spec fn rewrite_view(r: WingRewrite) -> (Seq<char>, Seq<char>, i64, i64) {
    (r.from@, r.to@, r.chunk_count, r.manifest_collisions)
}

pub open spec fn rewrites_view(v: Seq<WingRewrite>) -> Seq<(Seq<char>, Seq<char>, i64, i64)> {
    v.map_values(|r: WingRewrite| rewrite_view(r))
}

/// The stored wing rows `(wing, chunk count)` as plain values.
pub open spec fn rows_view(rows: Seq<(String, i64)>) -> Seq<(Seq<char>, i64)> {
    rows.map_values(|r: (String, i64)| (r.0@, r.1))
}

/// The rewrites a set of stored wing rows needs, in row order: one for each
/// wing that differs from its canonical form (collisions not yet counted).
pub open spec fn pending_rewrites(rows: Seq<(Seq<char>, i64)>) -> Seq<
    (Seq<char>, Seq<char>, i64, i64),
>
    decreases rows.len(),
{
    if rows.len() == 0 {
        seq![]
    } else {
        let r = rows.last();
        let rest = pending_rewrites(rows.drop_last());
        if canonical_wing(r.0) == r.0 {
            rest
        } else {
            rest.push((r.0, canonical_wing(r.0), r.1, 0))
        }
    }
}

/// The wings of `rows` that need a rewrite, in row order, each paired with
/// its canonical form; the manifest collision counts are left at zero for the
/// caller to fill in.
pub fn pending_wing_rewrites(rows: &Vec<(String, i64)>) -> (r: Vec<WingRewrite>)
    ensures
        rewrites_view(r@) == pending_rewrites(rows_view(rows@)),
{
    let mut out: Vec<WingRewrite> = Vec::new();
    let mut i: usize = 0;
    while i < rows.len()
        invariant
            i <= rows@.len(),
            rewrites_view(out@) == pending_rewrites(rows_view(rows@).take(i as int)),
        decreases rows@.len() - i,
    {
        let wing = &rows[i].0;
        let canonical = normalize_wing(wing.as_str());
        let ghost prev = rewrites_view(out@);
        proof {
            assert(rows_view(rows@).take(i + 1).drop_last() =~= rows_view(rows@).take(i as int));
        }
        if !same_text(&canonical, wing) {
            out.push(
                WingRewrite {
                    from: wing.clone(),
                    to: canonical,
                    chunk_count: rows[i].1,
                    manifest_collisions: 0,
                },
            );
            proof {
                assert(rewrites_view(out@) =~= prev.push(rewrite_view(out@.last())));
            }
        }
        i = i + 1;
    }
    assert(rows_view(rows@).take(rows@.len() as int) =~= rows_view(rows@));
    out
}

/// Whether two strings hold the same characters.
pub fn same_text(a: &String, b: &String) -> (r: bool)
    ensures
        r == (a@ == b@),
{
    *a == *b
}

/// Number of distinct values in `s`.
pub open spec fn distinct_count(s: Seq<Seq<char>>) -> nat
    decreases s.len(),
{
    if s.len() == 0 {
        0
    } else if s.drop_last().contains(s.last()) {
        distinct_count(s.drop_last())
    } else {
        distinct_count(s.drop_last()) + 1
    }
}

/// `s` sorted by chunk count, largest first; rewrites with equal counts keep
/// their order (a stable sort: each one is placed after every earlier one whose
/// count is at least its own).
pub open spec fn sorted_by_count(s: Seq<(Seq<char>, Seq<char>, i64, i64)>) -> Seq<
    (Seq<char>, Seq<char>, i64, i64),
>
    decreases s.len(),
{
    if s.len() == 0 {
        seq![]
    } else {
        insert_by_count(sorted_by_count(s.drop_last()), s.last())
    }
}

/// Insert `x` after the leading run of entries whose count is at least its own.
pub open spec fn insert_by_count(
    s: Seq<(Seq<char>, Seq<char>, i64, i64)>,
    x: (Seq<char>, Seq<char>, i64, i64),
) -> Seq<(Seq<char>, Seq<char>, i64, i64)> {
    let k = count_at_least(s, x.2);
    s.take(k).push(x) + s.skip(k)
}

/// Length of the leading run of `s` whose counts are at least `c`.
pub open spec fn count_at_least(s: Seq<(Seq<char>, Seq<char>, i64, i64)>, c: i64) -> int
    decreases s.len(),
{
    if s.len() == 0 {
        0
    } else if s[0].2 >= c {
        1 + count_at_least(s.drop_first(), c)
    } else {
        0
    }
}

/// The sum of the chunk counts of `s`.
pub open spec fn total_chunks(s: Seq<(Seq<char>, Seq<char>, i64, i64)>) -> int
    decreases s.len(),
{
    if s.len() == 0 {
        0
    } else {
        total_chunks(s.drop_last()) + s.last().2
    }
}

/// The plan for `rows`, given the rewrites (with manifest collisions counted).
pub open spec fn plan_matches(
    plan: WingMigrationPlan,
    rows: Seq<(Seq<char>, i64)>,
    rewrites: Seq<(Seq<char>, Seq<char>, i64, i64)>,
) -> bool {
    &&& rewrites_view(plan.rewrites@) == sorted_by_count(rewrites)
    &&& plan.total_chunks_affected == total_chunks(rewrites)
    &&& plan.distinct_wings_before == rows.len()
    &&& plan.distinct_wings_after == distinct_count(
        rows.map_values(|r: (Seq<char>, i64)| canonical_wing(r.0)),
    )
}

/// Assemble the wing-merge plan from the stored rows `(wing, chunk count)`
/// and their rewrites (from `pending_wing_rewrites`, with the manifest
/// collisions counted): totals, the distinct wing counts before and after,
/// and the rewrites ordered by chunk count, largest first.
pub fn plan_wing_migration(rows: &Vec<(String, i64)>, rewrites: Vec<WingRewrite>) -> (plan:
    WingMigrationPlan)
    requires
        forall|n: int|
            0 <= n <= rewrites@.len() ==> i64::MIN <= #[trigger] total_chunks(
                rewrites_view(rewrites@).take(n),
            ) <= i64::MAX,
        rows@.len() <= i64::MAX,
    ensures
        plan_matches(plan, rows_view(rows@), rewrites_view(rewrites@)),
{
    let ghost rv = rewrites_view(rewrites@);
    let mut total: i64 = 0;
    let mut i: usize = 0;
    while i < rewrites.len()
        invariant
            i <= rewrites@.len(),
            rv == rewrites_view(rewrites@),
            forall|n: int| 0 <= n <= rv.len() ==> i64::MIN <= #[trigger] total_chunks(rv.take(n)) <= i64::MAX,
            total == total_chunks(rv.take(i as int)),
        decreases rewrites@.len() - i,
    {
        proof {
            assert(rv.take(i + 1).drop_last() =~= rv.take(i as int));
            assert(rv[i as int].2 == rewrites@[i as int].chunk_count);
            assert(i64::MIN <= total_chunks(rv.take(i + 1)) <= i64::MAX);
        }
        total = total + rewrites[i].chunk_count;
        i = i + 1;
    }
    assert(rv.take(rewrites@.len() as int) =~= rv);
    // Distinct canonical wings
    let mut canon: Vec<Vec<char>> = Vec::new();
    let mut distinct: i64 = 0;
    let mut j: usize = 0;
    let ghost cw = rows_view(rows@).map_values(|r: (Seq<char>, i64)| canonical_wing(r.0));
    assert(views(canon@) =~= cw.take(0));
    while j < rows.len()
        invariant
            j <= rows@.len(),
            rows@.len() <= i64::MAX,
            cw == rows_view(rows@).map_values(|r: (Seq<char>, i64)| canonical_wing(r.0)),
            views(canon@) == cw.take(j as int),
            distinct == distinct_count(cw.take(j as int)),
            distinct <= j,
        decreases rows@.len() - j,
    {
        let c = normalize_wing(rows[j].0.as_str());
        let cc = chars_of(c.as_str());
        let seen = contains_text(&canon, &cc);
        proof {
            assert(cw.take(j + 1).drop_last() =~= cw.take(j as int));
        }
        if !seen {
            distinct = distinct + 1;
        }
        let ghost prev = views(canon@);
        canon.push(cc);
        proof {
            assert(views(canon@) =~= prev.push(cw[j as int]));
            assert(cw.take(j + 1) =~= cw.take(j as int).push(cw[j as int]));
        }
        j = j + 1;
    }
    assert(cw.take(rows@.len() as int) =~= cw);
    let sorted = sort_rewrites_by_count(rewrites);
    WingMigrationPlan {
        rewrites: sorted,
        total_chunks_affected: total,
        distinct_wings_before: rows.len() as i64,
        distinct_wings_after: distinct,
    }
}

/// Whether `v` holds the characters `x`.
pub fn contains_text(v: &Vec<Vec<char>>, x: &Vec<char>) -> (r: bool)
    ensures
        r == views(v@).contains(x@),
{
    let mut i: usize = 0;
    while i < v.len()
        invariant
            i <= v@.len(),
            forall|k: int| 0 <= k < i ==> views(v@)[k] != x@,
        decreases v@.len() - i,
    {
        if same_chars(&v[i], x) {
            assert(views(v@)[i as int] == x@);
            return true;
        }
        i = i + 1;
    }
    false
}

/// Stable sort of rewrites by chunk count, largest first.
pub fn sort_rewrites_by_count(v: Vec<WingRewrite>) -> (r: Vec<WingRewrite>)
    ensures
        rewrites_view(r@) == sorted_by_count(rewrites_view(v@)),
{
    let mut out: Vec<WingRewrite> = Vec::new();
    let mut src = v;
    let ghost orig = rewrites_view(src@);
    let total_len = src.len();
    let mut rev: Vec<WingRewrite> = Vec::new();
    // Move the items out in reverse so they can be taken from the front in order.
    while src.len() > 0
        invariant
            rewrites_view(src@) + rewrites_view(rev@).reverse() == orig,
        decreases src@.len(),
    {
        let x = src.pop().unwrap();
        let ghost before_rev = rewrites_view(rev@);
        rev.push(x);
        proof {
            assert(rewrites_view(rev@) =~= before_rev.push(rewrite_view(x)));
            assert(rewrites_view(src@).push(rewrite_view(x)) + before_rev.reverse()
                =~= rewrites_view(src@) + rewrites_view(rev@).reverse());
        }
    }
    assert(rewrites_view(rev@).reverse() =~= orig);
    let mut n: usize = 0;
    while rev.len() > 0
        invariant
            rewrites_view(rev@).reverse() == orig.skip(n as int),
            n <= orig.len(),
            orig.len() == total_len,
            rewrites_view(out@) == sorted_by_count(orig.take(n as int)),
        decreases rev@.len(),
    {
        proof {
            assert(rewrites_view(rev@).reverse().len() == rev@.len());
        }
        let ghost rv_old = rewrites_view(rev@);
        let x = rev.pop().unwrap();
        let ghost xv = rewrite_view(x);
        proof {
            assert(rv_old =~= rewrites_view(rev@).push(xv));
            assert(rv_old.reverse() =~= seq![xv] + rewrites_view(rev@).reverse());
        }
        proof {
            assert(orig.skip(n as int)[0] == xv);
            assert(orig.take(n + 1).drop_last() =~= orig.take(n as int));
            assert(orig.take(n + 1).last() == xv);
            assert(orig.skip(n + 1) =~= orig.skip(n as int).drop_first());
            assert((seq![xv] + rewrites_view(rev@).reverse()).drop_first()
                =~= rewrites_view(rev@).reverse());
            assert(rewrites_view(rev@).reverse() =~= orig.skip(n + 1));
        }
        let k = leading_at_least(&out, x.chunk_count);
        let ghost before = rewrites_view(out@);
        out.insert(k, x);
        proof {
            assert(rewrites_view(out@) =~= before.take(k as int).push(xv) + before.skip(k as int));
        }
        n = n + 1;
    }
    assert(orig.take(n as int) =~= orig);
    out
}

/// Length of the leading run of `v` whose counts are at least `c`.
fn leading_at_least(v: &Vec<WingRewrite>, c: i64) -> (k: usize)
    ensures
        k == count_at_least(rewrites_view(v@), c),
        k <= v@.len(),
{
    let mut k: usize = 0;
    assert(rewrites_view(v@).skip(0) =~= rewrites_view(v@));
    while k < v.len() && v[k].chunk_count >= c
        invariant
            k <= v@.len(),
            count_at_least(rewrites_view(v@), c) == k + count_at_least(
                rewrites_view(v@).skip(k as int),
                c,
            ),
        decreases v@.len() - k,
    {
        proof {
            assert(rewrites_view(v@).skip(k as int).drop_first() =~= rewrites_view(v@).skip(
                k + 1,
            ));
        }
        k = k + 1;
    }
    k
}

/// A second run of the migration is a no-op: once every stored wing is in
/// canonical form (as the first run leaves them), no rewrite is planned.
pub proof fn lemma_migration_second_run_noop(rows: Seq<(Seq<char>, i64)>)
    ensures
        pending_rewrites(
            rows.map_values(|r: (Seq<char>, i64)| (canonical_wing(r.0), r.1)),
        ).len() == 0,
    decreases rows.len(),
{
    let f = |r: (Seq<char>, i64)| (canonical_wing(r.0), r.1);
    let m = rows.map_values(f);
    if rows.len() > 0 {
        lemma_migration_second_run_noop(rows.drop_last());
        assert(m.drop_last() =~= rows.drop_last().map_values(f));
        lemma_normalize_wing_idempotent(rows.last().0);
    }
}

/// Rows whose wings are all canonical need no rewrite.
pub proof fn lemma_canonical_rows_need_no_rewrite(rows: Seq<(Seq<char>, i64)>)
    requires
        forall|i: int| 0 <= i < rows.len() ==> canonical_wing(#[trigger] rows[i].0) == rows[i].0,
    ensures
        pending_rewrites(rows).len() == 0,
    decreases rows.len(),
{
    if rows.len() > 0 {
        lemma_canonical_rows_need_no_rewrite(rows.drop_last());
    }
}

} // verus!
