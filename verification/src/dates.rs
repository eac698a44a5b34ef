//! Calendar dates: Unix time to `YYYY-MM-DD` (and back from ISO 8601),
//! with Howard Hinnant's civil-calendar algorithms.

use vstd::prelude::*;
use crate::num::{dec_padded, format_padded, parse_i64_spec};
use crate::text::{append_chars, byte_len, chars_of, string_from, trim, utf8_width};

verus! {

/// Integer division rounding toward zero (Rust's `/` on signed integers).
pub open spec fn tdiv(a: int, b: int) -> int {
    if a >= 0 {
        a / b
    } else {
        -((-a) / b)
    }
}

/// The civil date `(year, month, day)` of day `days` since 1970-01-01
/// (Hinnant's `civil_from_days`).
pub open spec fn civil_from_days(days: int) -> (int, int, int) {
    let z = days + 719468;
    let era = tdiv(z, 146097);
    let doe = z - era * 146097;
    let yoe = tdiv(doe - tdiv(doe, 1460) + tdiv(doe, 36524) - tdiv(doe, 146096), 365);
    let y = yoe + era * 400;
    let doy = doe - (365 * yoe + tdiv(yoe, 4) - tdiv(yoe, 100));
    let mp = tdiv(5 * doy + 2, 153);
    let d = doy - tdiv(153 * mp + 2, 5) + 1;
    let m = if mp < 10 {
        mp + 3
    } else {
        mp - 9
    };
    let y2 = if m <= 2 {
        y + 1
    } else {
        y
    };
    (y2, m, d)
}

/// `x` in decimal, zero-padded to width `w` with the sign counted in the
/// width (`{:0w}` for a signed value).
pub open spec fn fmt_signed(x: int, w: nat) -> Seq<char> {
    if x >= 0 {
        dec_padded(x as nat, w)
    } else {
        seq!['-'] + dec_padded((-x) as nat, if w >= 1 { (w - 1) as nat } else { 0 })
    }
}

/// `YYYY-MM-DD` for a civil date.
pub open spec fn date_text(date: (int, int, int)) -> Seq<char> {
    fmt_signed(date.0, 4) + seq!['-'] + fmt_signed(date.1, 2) + seq!['-'] + fmt_signed(date.2, 2)
}

/// Largest day number reachable from a `u64` count of seconds.
pub open spec fn max_days() -> int {
    u64::MAX as int / 86400
}

/// `{:0w}` for an `i64`.
pub fn format_signed(x: i64, w: usize) -> (r: Vec<char>)
    requires
        w >= 1,
    ensures
        r@ == fmt_signed(x as int, w as nat),
{
    if x >= 0 {
        format_padded(x as u64, w)
    } else {
        let mag: u64 = if x == i64::MIN {
            0x8000_0000_0000_0000u64
        } else {
            (0 - x) as u64
        };
        let mut v: Vec<char> = Vec::new();
        v.push('-');
        let digits = format_padded(mag, w - 1);
        append_chars(&mut v, &digits);
        assert(v@ =~= seq!['-'] + dec_padded((-x) as nat, (w - 1) as nat));
        v
    }
}

/// Rounding-toward-zero division by a constant above one.
fn div_toward_zero(a: i64, b: i64) -> (q: i64)
    requires
        b > 1,
    ensures
        q == tdiv(a as int, b as int),
{
    if a >= 0 {
        a / b
    } else if a > i64::MIN {
        0 - ((0 - a) / b)
    } else {
        let t: i64 = 0 - (a + b);
        proof {
            vstd::arithmetic::div_mod::lemma_hoist_over_denominator(t as int, 1, b as nat);
            assert(t / b <= t / 2) by (nonlinear_arith)
                requires
                    t >= 0,
                    b > 1,
            ;
        }
        0 - (t / b + 1)
    }
}

/// The civil date of day `days` since 1970-01-01.
pub fn civil_from_days_exec(days: i64) -> (r: (i64, i64, i64))
    requires
        0 <= days <= max_days(),
    ensures
        (r.0 as int, r.1 as int, r.2 as int) == civil_from_days(days as int),
{
    let z = days + 719468;
    let era = z / 146097;
    let doe = z - era * 146097;
    assert(0 <= doe < 146097) by (nonlinear_arith)
        requires
            z >= 0,
            era == z / 146097,
            doe == z - era * 146097,
    ;
    assert(0 <= era <= z / 146097) by (nonlinear_arith)
        requires
            z >= 0,
            era == z / 146097,
    ;
    let n = doe - doe / 1460 + doe / 36524 - doe / 146096;
    let yoe = n / 365;
    assert(0 <= yoe <= 500);
    let y = yoe + era * 400;
    let doy = doe - (365 * yoe + yoe / 4 - yoe / 100);
    let mp = div_toward_zero(5 * doy + 2, 153);
    let d = doy - div_toward_zero(153 * mp + 2, 5) + 1;
    let m = if mp < 10 {
        mp + 3
    } else {
        mp - 9
    };
    let y2 = if m <= 2 {
        y + 1
    } else {
        y
    };
    (y2, m, d)
}

/// `YYYY-MM-DD` of a Unix time in seconds (UTC).
pub open spec fn epoch_date_spec(epoch: nat) -> Seq<char> {
    date_text(civil_from_days((epoch / 86400) as int))
}

/// Format a Unix time (seconds) as `YYYY-MM-DD` (UTC).
pub fn epoch_to_date(epoch: u64) -> (r: String)
    ensures
        r@ == epoch_date_spec(epoch as nat),
{
    let v = date_chars((epoch / 86400) as i64);
    string_from(&v)
}

/// `YYYY-MM-DD` for day `days` since 1970-01-01.
fn date_chars(days: i64) -> (r: Vec<char>)
    requires
        0 <= days <= max_days(),
    ensures
        r@ == date_text(civil_from_days(days as int)),
{
    let (y, m, d) = civil_from_days_exec(days);
    let mut v = format_signed(y, 4);
    v.push('-');
    let mm = format_signed(m, 2);
    append_chars(&mut v, &mm);
    v.push('-');
    let dd = format_signed(d, 2);
    append_chars(&mut v, &dd);
    assert(v@ =~= date_text(civil_from_days(days as int)));
    v
}

/// `YYYY-MM-DD` of a Unix time, `unknown` at or before the epoch.
pub open spec fn epoch_display(epoch: int) -> Seq<char> {
    if epoch <= 0 {
        "unknown"@
    } else {
        date_text(civil_from_days(epoch / 86400))
    }
}

/// Format a Unix time as `YYYY-MM-DD`; `unknown` for times at or before the
/// epoch.
pub fn format_epoch_date(epoch: i64) -> (r: String)
    ensures
        r@ == epoch_display(epoch as int),
{
    if epoch <= 0 {
        let v = chars_of("unknown");
        return string_from(&v);
    }
    let v = date_chars(epoch / 86400);
    string_from(&v)
}

/// `YYYY-MM-DDTHH:MM:SS` of a Unix time (UTC).
pub open spec fn timestamp_spec(epoch: nat) -> Seq<char> {
    let s = epoch % 86400;
    epoch_date_spec(epoch) + seq!['T'] + dec_padded(s / 3600, 2) + seq![':'] + dec_padded(
        (s % 3600) / 60,
        2,
    ) + seq![':'] + dec_padded(s % 60, 2)
}

/// Format a Unix time as `YYYY-MM-DDTHH:MM:SS` (UTC).
pub fn format_timestamp(epoch: u64) -> (r: String)
    ensures
        r@ == timestamp_spec(epoch as nat),
{
    let mut v = date_chars((epoch / 86400) as i64);
    let day_secs = epoch % 86400;
    v.push('T');
    let h = format_padded(day_secs / 3600, 2);
    append_chars(&mut v, &h);
    v.push(':');
    let mi = format_padded((day_secs % 3600) / 60, 2);
    append_chars(&mut v, &mi);
    v.push(':');
    let s = format_padded(day_secs % 60, 2);
    append_chars(&mut v, &s);
    assert(v@ =~= timestamp_spec(epoch as nat));
    string_from(&v)
}

/// The current Unix time in seconds (`SystemTime::now` since `UNIX_EPOCH`,
/// zero for a clock set before the epoch). Nothing is stated of the value: it
/// is the time.
#[verifier::external_body]
pub(crate) fn now_epoch() -> u64 {
    std::time::SystemTime::now().duration_since(std::time::UNIX_EPOCH).unwrap_or_default().as_secs()
}

/// The current time as `YYYY-MM-DDTHH:MM:SS` (UTC).
pub fn now_timestamp() -> (r: String)
    ensures
        exists|e: nat| r@ == timestamp_spec(e),
{
    format_timestamp(now_epoch())
}

/// Today's date as `YYYY-MM-DD` (UTC).
pub fn today_date() -> (r: String)
    ensures
        exists|e: nat| r@ == epoch_date_spec(e),
{
    epoch_to_date(now_epoch())
}

// ─────────────────────────────── ISO 8601 ───────────────────────────────

/// Day number (since 1970-01-01) of a civil date (Hinnant's
/// `days_from_civil`).
pub open spec fn days_from_civil(year: int, month: int, day: int) -> int {
    let y = if month <= 2 {
        year - 1
    } else {
        year
    };
    let era = tdiv(y, 400);
    let yoe = y - era * 400;
    let m = month;
    let doy = tdiv(153 * (if m > 2 { m - 3 } else { m + 9 }) + 2, 5) + day - 1;
    let doe = yoe * 365 + tdiv(yoe, 4) - tdiv(yoe, 100) + doy;
    era * 146097 + doe - 719468
}

/// `x` is an `i64` value.
pub open spec fn fits_i64(x: int) -> bool {
    i64::MIN <= x <= i64::MAX
}

/// Every step of `days_from_civil` on these fields stays within `i64`.
pub open spec fn civil_days_fit(year: int, month: int, day: int) -> bool {
    let y = if month <= 2 {
        year - 1
    } else {
        year
    };
    let era = tdiv(y, 400);
    let yoe = y - era * 400;
    let mm = if month > 2 {
        month - 3
    } else {
        month + 9
    };
    let q = tdiv(153 * mm + 2, 5);
    let doy = q + day - 1;
    let doe = yoe * 365 + tdiv(yoe, 4) - tdiv(yoe, 100) + doy;
    &&& fits_i64(y)
    &&& fits_i64(153 * mm)
    &&& fits_i64(153 * mm + 2)
    &&& fits_i64(q + day)
    &&& fits_i64(doy)
    &&& fits_i64(doe)
    &&& fits_i64(era * 146097)
    &&& fits_i64(era * 146097 + doe)
    &&& fits_i64(era * 146097 + doe - 719468)
}

/// Fields of at most four digits (a sign included) stay far within `i64`.
proof fn lemma_small_civil_fits(year: int, month: int, day: int)
    requires
        -999 <= year <= 9999,
        -99 <= month <= 99,
        -99 <= day <= 99,
    ensures
        civil_days_fit(year, month, day),
        -400_000_000 <= days_from_civil(year, month, day) <= 400_000_000,
{
}

/// Days from the Unix epoch to a civil date.
pub fn days_from_epoch(year: i64, month: i64, day: i64) -> (r: Option<i64>)
    requires
        civil_days_fit(year as int, month as int, day as int),
    ensures
        r == Some(days_from_civil(year as int, month as int, day as int) as i64),
{
    let y = if month <= 2 {
        year - 1
    } else {
        year
    };
    let era = div_toward_zero(y, 400);
    let yoe = y - era * 400;
    let m = month;
    let doy = div_toward_zero(153 * (if m > 2 { m - 3 } else { m + 9 }) + 2, 5) + day - 1;
    let doe = yoe * 365 + div_toward_zero(yoe, 4) - div_toward_zero(yoe, 100) + doy;
    Some(era * 146097 + doe - 719468)
}

/// The ASCII decimal digits of `s`, in order.
pub open spec fn ascii_digits(s: Seq<char>) -> Seq<char> {
    s.filter(|c: char| '0' <= c && c <= '9')
}

/// The value of two ASCII digits.
pub open spec fn two_digits(d: Seq<char>) -> int {
    (d[0] as u32 - '0' as u32) * 10 + (d[1] as u32 - '0' as u32)
}

/// A timezone offset such as `+0700`, `-07:00`, `+07` or `Z`, in seconds.
/// After trimming: empty or `Z` is zero; otherwise the sign is `-` when the
/// text starts with `-` (else `+`), and the ASCII digits after the first
/// character give hours and minutes (four or more digits), hours only (two or
/// three), or nothing (fewer).
pub open spec fn tz_offset_spec(s: Seq<char>) -> int {
    let t = trim(s);
    if t.len() == 0 || t == seq!['Z'] {
        0
    } else {
        let sign: int = if t[0] == '-' {
            -1
        } else {
            1
        };
        let d = ascii_digits(t.drop_first());
        if d.len() >= 4 {
            sign * (two_digits(d) * 3600 + two_digits(d.skip(2)) * 60)
        } else if d.len() >= 2 {
            sign * two_digits(d) * 3600
        } else {
            0
        }
    }
}

/// A timezone text is readable when, trimmed, it is empty, `Z`, or starts with
/// an ASCII character (its first character is skipped as the sign).
pub open spec fn tz_readable(s: Seq<char>) -> bool {
    let t = trim(s);
    t.len() == 0 || t == seq!['Z'] || t[0] < '\u{80}'
}

/// Parse a timezone offset into seconds.
pub fn parse_tz_offset(s: &str) -> (r: i64)
    requires
        tz_readable(s@),
    ensures
        r == tz_offset_spec(s@),
{
    let v = chars_of(s);
    tz_offset_chars(&v)
}

fn tz_offset_chars(v: &[char]) -> (r: i64)
    requires
        tz_readable(v@),
    ensures
        r == tz_offset_spec(v@),
        -400_000 <= r <= 400_000,
{
    let t = crate::text::trimmed(v);
    if t.len() == 0 || (t.len() == 1 && t[0] == 'Z') {
        proof {
            if t.len() == 1 && t[0] == 'Z' {
                assert(t@ =~= seq!['Z']);
            }
        }
        return 0;
    }
    proof {
        if t@ == seq!['Z'] {
            assert(t@.len() == 1);
        }
    }
    let sign: i64 = if t[0] == '-' {
        -1
    } else {
        1
    };
    let mut d: Vec<char> = Vec::new();
    let mut i: usize = 1;
    let ghost rest = t@.drop_first();
    assert(rest.take(0) =~= Seq::<char>::empty());
    reveal_with_fuel(Seq::filter, 1);
    assert(ascii_digits(rest.take(0)) =~= Seq::<char>::empty());
    while i < t.len()
        invariant
            1 <= i <= t@.len(),
            rest == t@.drop_first(),
            d@ == ascii_digits(rest.take(i - 1)),
        decreases t@.len() - i,
    {
        proof {
            assert(rest.take(i as int).drop_last() =~= rest.take(i - 1));
            reveal_with_fuel(Seq::filter, 1);
        }
        if t[i] >= '0' && t[i] <= '9' {
            d.push(t[i]);
        }
        i = i + 1;
    }
    assert(rest.take(i - 1) =~= rest);
    if d.len() >= 4 {
        let hours = digit_pair(d[0], d[1]);
        let mins = digit_pair(d[2], d[3]);
        proof {
            lemma_filter_all_digits(rest);
            assert(d@.skip(2)[0] == d@[2] && d@.skip(2)[1] == d@[3]);
        }
        sign * (hours * 3600 + mins * 60)
    } else if d.len() >= 2 {
        let hours = digit_pair(d[0], d[1]);
        proof {
            lemma_filter_all_digits(rest);
        }
        sign * hours * 3600
    } else {
        0
    }
}

proof fn lemma_filter_all_digits(s: Seq<char>)
    ensures
        forall|k: int| 0 <= k < ascii_digits(s).len() ==> '0' <= #[trigger] ascii_digits(s)[k]
            && ascii_digits(s)[k] <= '9',
{
    let f = |c: char| '0' <= c && c <= '9';
    assert forall|k: int| 0 <= k < s.filter(f).len() implies f(#[trigger] s.filter(f)[k]) by {
        s.lemma_filter_pred(f, k);
    }
}

/// The value of two ASCII digits.
fn digit_pair(a: char, b: char) -> (r: i64)
    requires
        '0' <= a <= '9',
        '0' <= b <= '9',
    ensures
        r == (a as u32 - '0' as u32) * 10 + (b as u32 - '0' as u32),
        0 <= r <= 99,
{
    ((a as u32 - '0' as u32) * 10 + (b as u32 - '0' as u32)) as i64
}

/// The index of the character that starts at byte offset `k` of `s`,
/// searching from character `j`; `None` when `k` is not a character boundary
/// (`str::is_char_boundary`).
pub open spec fn char_at_byte(s: Seq<char>, k: nat, j: int) -> Option<int>
    decreases s.len() - j,
{
    if j < 0 || j > s.len() {
        None
    } else if byte_len(s.take(j)) == k {
        Some(j)
    } else if byte_len(s.take(j)) > k || j == s.len() {
        None
    } else {
        char_at_byte(s, k, j + 1)
    }
}

/// The characters of the byte range `a..b` of `s` (`&s[a..b]`); `None` when
/// an end is not a character boundary, where slicing panics.
pub open spec fn byte_slice(s: Seq<char>, a: nat, b: nat) -> Option<Seq<char>> {
    match (char_at_byte(s, a, 0), char_at_byte(s, b, 0)) {
        (Some(i), Some(j)) => if i <= j {
            Some(s.subrange(i, j))
        } else {
            None
        },
        _ => None,
    }
}

/// Reading the `i64` in bytes `a..b`: `None` where the slice would panic,
/// else what `str::parse::<i64>` gives.
pub open spec fn field_step(s: Seq<char>, a: nat, b: nat) -> Option<Option<i64>> {
    match byte_slice(s, a, b) {
        Some(t) => Some(parse_i64_spec(t)),
        None => None,
    }
}

/// The six numeric fields of `YYYY-MM-DDTHH:MM:SS` (byte offsets), read in
/// order, each stopping the reading when it does not parse; `None` where a
/// slice would panic.
pub open spec fn iso_fields(s: Seq<char>) -> Option<Option<(i64, i64, i64, i64, i64, i64)>> {
    match field_step(s, 0, 4) {
        None => None,
        Some(None) => Some(None),
        Some(Some(y)) => match field_step(s, 5, 7) {
            None => None,
            Some(None) => Some(None),
            Some(Some(mo)) => match field_step(s, 8, 10) {
                None => None,
                Some(None) => Some(None),
                Some(Some(d)) => match field_step(s, 11, 13) {
                    None => None,
                    Some(None) => Some(None),
                    Some(Some(h)) => match field_step(s, 14, 16) {
                        None => None,
                        Some(None) => Some(None),
                        Some(Some(mi)) => match field_step(s, 17, 19) {
                            None => None,
                            Some(None) => Some(None),
                            Some(Some(se)) => Some(Some((y, mo, d, h, mi, se))),
                        },
                    },
                },
            },
        },
    }
}

/// The timezone offset after byte 19, or zero when nothing follows; `None`
/// where reading it would panic (byte 19 inside a character, or a sign that
/// is not ASCII).
pub open spec fn tz_step(s: Seq<char>) -> Option<int> {
    if byte_len(s) > 19 {
        match char_at_byte(s, 19, 0) {
            Some(j) => if tz_readable(s.skip(j)) {
                Some(tz_offset_spec(s.skip(j)))
            } else {
                None
            },
            None => None,
        }
    } else {
        Some(0)
    }
}

/// Reading an ISO 8601 timestamp (`2026-07-14T08:46:52-0700`, `...-07:00`,
/// `...Z`) as Unix seconds: `Some(None)` when it is shorter than 19 bytes or
/// a field does not parse, `Some(Some(t))` for a readable timestamp, and
/// `None` for a text whose byte slicing panics.
pub open spec fn iso8601_outcome(s: Seq<char>) -> Option<Option<i64>> {
    if byte_len(s) < 19 {
        Some(None)
    } else {
        match iso_fields(s) {
            None => None,
            Some(None) => Some(None),
            Some(Some((y, mo, d, h, mi, se))) => match tz_step(s) {
                None => None,
                Some(tz) => Some(
                    Some(
                        (days_from_civil(y as int, mo as int, d as int) * 86400 + h * 3600 + mi * 60
                            + se - tz) as i64,
                    ),
                ),
            },
        }
    }
}

proof fn lemma_field_bounds(s: Seq<char>)
    requires
        parse_i64_spec(s) is Some,
        s.len() <= 4,
    ensures
        -(pow10(s.len()) as int) < parse_i64_spec(s)->0 < pow10(s.len()),
        -999 <= parse_i64_spec(s)->0 <= 9999,
{
    reveal_with_fuel(pow10, 5);
    if s.len() > 0 && s[0] == '-' {
        lemma_digits_bound(s.drop_first());
        lemma_pow10_mono((s.len() - 1) as nat);
    } else {
        lemma_digits_bound(crate::num::unsigned_body(s));
        lemma_pow10_mono(crate::num::unsigned_body(s).len());
        lemma_pow10_le(crate::num::unsigned_body(s).len(), s.len());
    }
}

proof fn lemma_pow10_mono(n: nat)
    ensures
        pow10(n) < pow10(n + 1),
        pow10(n) >= 1,
    decreases n,
{
    if n > 0 {
        lemma_pow10_mono((n - 1) as nat);
    }
}

proof fn lemma_pow10_le(a: nat, b: nat)
    requires
        a <= b,
    ensures
        pow10(a) <= pow10(b),
    decreases b - a,
{
    if a < b {
        lemma_pow10_le(a, (b - 1) as nat);
        lemma_pow10_mono((b - 1) as nat);
    }
}

pub open spec fn pow10(n: nat) -> nat
    decreases n,
{
    if n == 0 {
        1
    } else {
        10 * pow10((n - 1) as nat)
    }
}

proof fn lemma_digits_bound(d: Seq<char>)
    requires
        crate::num::all_digits(d),
    ensures
        crate::num::digits_value(d) < pow10(d.len()),
    decreases d.len(),
{
    if d.len() > 0 {
        let p = d.drop_last();
        assert(crate::num::all_digits(p)) by {
            assert forall|i: int| 0 <= i < p.len() implies crate::num::is_digit(#[trigger] p[i]) by {
                assert(p[i] == d[i]);
            }
        }
        lemma_digits_bound(p);
        assert(crate::num::is_digit(d[d.len() - 1]));
        assert(crate::num::digit_val(d.last()) <= 9);
        assert(crate::num::digits_value(p) * 10 + crate::num::digit_val(d.last()) < pow10(p.len()) * 10) by (nonlinear_arith)
            requires
                crate::num::digits_value(p) < pow10(p.len()),
                crate::num::digit_val(d.last()) <= 9,
        ;
    }
}

/// The character index at byte offset `k` of `v`, if `k` is a boundary.
fn char_index_of_byte(v: &[char], k: usize) -> (r: Option<usize>)
    requires
        k <= 64,
    ensures
        match r {
            Some(j) => char_at_byte(v@, k as nat, 0) == Some(j as int) && j <= v@.len(),
            None => char_at_byte(v@, k as nat, 0) is None,
        },
{
    let mut j: usize = 0;
    let mut n: usize = 0;
    assert(v@.take(0) =~= Seq::<char>::empty());
    while j < v.len() && n < k
        invariant
            j <= v@.len(),
            n == byte_len(v@.take(j as int)),
            n <= k + 4,
            k <= 64,
            char_at_byte(v@, k as nat, 0) == char_at_byte(v@, k as nat, j as int),
        decreases v@.len() - j,
    {
        assert(v@.take(j + 1).drop_last() =~= v@.take(j as int));
        n = n + utf8_width(v[j]);
        j = j + 1;
    }
    if n == k {
        Some(j)
    } else {
        None
    }
}

proof fn lemma_char_at_byte_len(s: Seq<char>, k: nat, j: int)
    requires
        0 <= j <= s.len(),
        char_at_byte(s, k, j) is Some,
    ensures
        0 <= char_at_byte(s, k, j)->0 <= s.len(),
        byte_len(s.take(char_at_byte(s, k, j)->0)) == k,
    decreases s.len() - j,
{
    if byte_len(s.take(j)) != k {
        lemma_char_at_byte_len(s, k, j + 1);
    }
}

/// The `i64` in bytes `a..b` of `v`, where both are character boundaries.
fn byte_field(v: &Vec<char>, a: usize, b: usize) -> (r: Option<i64>)
    requires
        a <= b <= 19,
        b - a <= 4,
        field_step(v@, a as nat, b as nat) is Some,
    ensures
        Some(r) == field_step(v@, a as nat, b as nat),
        r is Some ==> -999 <= r->0 <= 9999,
        r is Some && b - a <= 2 ==> -99 <= r->0 <= 99,
{
    let i = char_index_of_byte(v, a).unwrap();
    let j = char_index_of_byte(v, b).unwrap();
    let f = crate::text::slice_range(v, i, j);
    proof {
        lemma_char_at_byte_len(v@, a as nat, 0);
        lemma_char_at_byte_len(v@, b as nat, 0);
        assert(v@.take(j as int) =~= v@.take(i as int) + v@.subrange(i as int, j as int));
        crate::text::lemma_byte_len_append(v@.take(i as int), v@.subrange(i as int, j as int));
        crate::text::lemma_byte_len_bounds(f@);
    }
    let r = crate::num::parse_i64(&f);
    proof {
        if r is Some {
            lemma_field_bounds(f@);
            reveal_with_fuel(pow10, 5);
        }
    }
    r
}

/// Parse an ISO 8601 timestamp into Unix seconds (`None` when it is shorter
/// than 19 bytes or a field does not parse).
pub fn parse_iso8601_to_epoch(s: &str) -> (r: Option<i64>)
    requires
        iso8601_outcome(s@) is Some,
    ensures
        Some(r) == iso8601_outcome(s@),
{
    let v = chars_of(s);
    let blen = crate::text::byte_len_capped(&v, 20);
    if blen < 19 {
        return None;
    }
    let year = match byte_field(&v, 0, 4) {
        Some(x) => x,
        None => return None,
    };
    let month = match byte_field(&v, 5, 7) {
        Some(x) => x,
        None => return None,
    };
    let day = match byte_field(&v, 8, 10) {
        Some(x) => x,
        None => return None,
    };
    let hour = match byte_field(&v, 11, 13) {
        Some(x) => x,
        None => return None,
    };
    let min = match byte_field(&v, 14, 16) {
        Some(x) => x,
        None => return None,
    };
    let sec = match byte_field(&v, 17, 19) {
        Some(x) => x,
        None => return None,
    };
    let tz: i64 = if blen > 19 {
        let j = char_index_of_byte(&v, 19).unwrap();
        let rest = crate::text::slice_range(&v, j, v.len());
        assert(rest@ =~= v@.skip(j as int));
        tz_offset_chars(&rest)
    } else {
        0
    };
    proof {
        lemma_small_civil_fits(year as int, month as int, day as int);
    }
    let days = match days_from_epoch(year, month, day) {
        Some(x) => x,
        None => return None,
    };
    Some(days * 86400 + hour * 3600 + min * 60 + sec - tz)
}

/// The `created_at` of a stored row as Unix seconds; zero when it is not a
/// readable timestamp.
pub fn parse_created_at(text: &str) -> (r: i64)
    requires
        iso8601_outcome(text@) is Some,
    ensures
        r == match iso8601_outcome(text@) {
            Some(Some(e)) => e,
            _ => 0,
        },
{
    match parse_iso8601_to_epoch(text) {
        Some(e) => e,
        None => 0,
    }
}

/// Reading bytes `a..b` of `v` as a field: `None` where the slice is not on
/// character boundaries, else what the field parses to.
fn field_checked(v: &Vec<char>, a: usize, b: usize) -> (r: Option<Option<i64>>)
    requires
        a <= b <= 19,
        b - a <= 4,
    ensures
        r == field_step(v@, a as nat, b as nat),
{
    match (char_index_of_byte(v, a), char_index_of_byte(v, b)) {
        (Some(i), Some(j)) => {
            if i <= j {
                Some(byte_field(v, a, b))
            } else {
                None
            }
        },
        _ => None,
    }
}

/// Whether a timezone text is readable (`tz_readable`).
fn tz_readable_chars(v: &[char]) -> (b: bool)
    ensures
        b == tz_readable(v@),
{
    let t = crate::text::trimmed(v);
    if t.len() == 0 {
        return true;
    }
    if t.len() == 1 && t[0] == 'Z' {
        assert(t@ =~= seq!['Z']);
        return true;
    }
    proof {
        if t@ == seq!['Z'] {
            assert(t@.len() == 1 && t@[0] == 'Z');
        }
    }
    t[0] < '\u{80}'
}

/// Whether a stored `created_at` can be read without a panic: either a
/// timestamp or a text that reads as "no timestamp", but not one whose byte
/// slicing falls inside a character.
pub fn created_at_readable(text: &str) -> (b: bool)
    ensures
        b == (iso8601_outcome(text@) is Some),
{
    let v = chars_of(text);
    let blen = crate::text::byte_len_capped(&v, 20);
    if blen < 19 {
        return true;
    }
    match field_checked(&v, 0, 4) {
        None => return false,
        Some(None) => return true,
        Some(Some(_)) => {},
    }
    match field_checked(&v, 5, 7) {
        None => return false,
        Some(None) => return true,
        Some(Some(_)) => {},
    }
    match field_checked(&v, 8, 10) {
        None => return false,
        Some(None) => return true,
        Some(Some(_)) => {},
    }
    match field_checked(&v, 11, 13) {
        None => return false,
        Some(None) => return true,
        Some(Some(_)) => {},
    }
    match field_checked(&v, 14, 16) {
        None => return false,
        Some(None) => return true,
        Some(Some(_)) => {},
    }
    match field_checked(&v, 17, 19) {
        None => return false,
        Some(None) => return true,
        Some(Some(_)) => {},
    }
    if blen > 19 {
        match char_index_of_byte(&v, 19) {
            Some(j) => {
                proof {
                    lemma_char_at_byte_len(v@, 19, 0);
                }
                let rest = crate::text::slice_range(&v, j, v.len());
                assert(rest@ =~= v@.skip(j as int));
                tz_readable_chars(&rest)
            },
            None => false,
        }
    } else {
        true
    }
}

/// The source a migrated row is stored under: its source file when it has
/// one, else its source field.
pub fn effective_source(source_file: Option<&str>, source: &str) -> (r: String)
    ensures
        r@ == match source_file {
            Some(f) => f@,
            None => source@,
        },
{
    let v = match source_file {
        Some(f) => chars_of(f),
        None => chars_of(source),
    };
    string_from(&v)
}

} // verus!
