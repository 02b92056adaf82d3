//! Reading back the crate's own `YYYY-MM-DDTHH:MM:SS(.mmm)?Z` timestamps
//! as seconds since the Unix epoch. Deliberately strict: a timestamp in
//! an unexpected shape reads as absent, never guessed.

use vstd::prelude::*;
use crate::text::{
    all_digits, chars_of, dec, digit_char, digit_value, digits_value, find_from, is_digit, padded, parse_i64,
    parse_i64_spec, zeros,
};
use crate::observer::time_util::{civil_spec, iso_text, law_civil_round_trip, tdiv};

verus! {

/// The `k`-th piece of `s` split at every `c`, as `str::split(c).nth(k)`
/// gives it; `None` when there are fewer than `k + 1` pieces.
pub open spec fn piece(s: Seq<char>, c: char, k: nat) -> Option<Seq<char>>
    decreases k,
{
    let j = find_from(s, c, 0);
    if k == 0 {
        Some(s.take(j))
    } else if j >= s.len() {
        None
    } else {
        piece(s.skip(j + 1), c, (k - 1) as nat)
    }
}

/// The `k`-th piece read as an `i64`.
pub open spec fn num_piece(s: Seq<char>, c: char, k: nat) -> Option<int> {
    match piece(s, c, k) {
        Some(p) => parse_i64_spec(p),
        None => None,
    }
}

pub open spec fn in_i64(x: int) -> bool {
    i64::MIN <= x <= i64::MAX
}

/// Days since 1970-01-01 of `(y, m, d)` by the inverse era decomposition,
/// when every step of it stays in range of its 64-bit type; `None` on the
/// inputs where a step would overflow or wrap.
pub open spec fn days_checked(y: int, m: int, d: int) -> Option<int> {
    let y1 = if m <= 2 { y - 1 } else { y };
    let base = if y1 >= 0 { y1 } else { y1 - 399 };
    let era = tdiv(base, 400);
    let yoe = y1 - era * 400;
    let mp = (m + 9) % 12;
    let doy = (153 * mp + 2) / 5 + d - 1;
    let doe = yoe * 365 + yoe / 4 - yoe / 100 + doy;
    let r = era * 146097 + doe - 719468;
    if in_i64(y1) && in_i64(base) && m + 9 <= i64::MAX && m + 9 >= 0 && d >= 0 && doy >= 0
        && doe <= i64::MAX && in_i64(era * 146097) && in_i64(era * 146097 + doe) && in_i64(r) {
        Some(r)
    } else {
        None
    }
}

/// Seconds since the epoch of a date and time of day, when every step of
/// `days * 86400 + hour * 3600 + minute * 60 + second` stays in `i64`.
pub open spec fn seconds_checked(y: int, mo: int, d: int, h: int, mi: int, s: int) -> Option<int> {
    match days_checked(y, mo, d) {
        None => None,
        Some(days) => {
            let a = days * 86400;
            let b = a + h * 3600;
            let c = b + mi * 60;
            let r = c + s;
            if in_i64(a) && in_i64(h * 3600) && in_i64(b) && in_i64(mi * 60) && in_i64(c)
                && in_i64(r) {
                Some(r)
            } else {
                None
            }
        },
    }
}

/// What a timestamp text reads as: it must end in `Z` and hold a `T`;
/// the date before the first `T` gives year, month and day as its first
/// three `-`-separated numbers, the time after it (cut at the first `.`)
/// gives hour, minute and second as its first three `:`-separated numbers.
pub open spec fn parse_iso_spec(s: Seq<char>) -> Option<int> {
    if s.len() == 0 || s.last() != 'Z' {
        None
    } else {
        let b = s.drop_last();
        let t = find_from(b, 'T', 0);
        if t >= b.len() {
            None
        } else {
            let date = b.take(t);
            let rest = b.skip(t + 1);
            let time = rest.take(find_from(rest, '.', 0));
            match (
                num_piece(date, '-', 0),
                num_piece(date, '-', 1),
                num_piece(date, '-', 2),
                num_piece(time, ':', 0),
                num_piece(time, ':', 1),
                num_piece(time, ':', 2),
            ) {
                (Some(y), Some(mo), Some(d), Some(h), Some(mi), Some(sec)) => seconds_checked(
                    y,
                    mo,
                    d,
                    h,
                    mi,
                    sec,
                ),
                _ => None,
            }
        }
    }
}

pub proof fn lemma_find_from_range(s: Seq<char>, c: char, i: int)
    requires
        0 <= i <= s.len(),
    ensures
        i <= find_from(s, c, i) <= s.len(),
        find_from(s, c, i) < s.len() ==> s[find_from(s, c, i)] == c,
        forall|j: int| i <= j < find_from(s, c, i) ==> s[j] != c,
    decreases s.len() - i,
{
    if i < s.len() && s[i] != c {
        lemma_find_from_range(s, c, i + 1);
    }
}

/// Position of the first `c` in `s`, or its length when there is none.
pub fn find_first(s: &[char], c: char) -> (r: usize)
    ensures
        r == find_from(s@, c, 0),
{
    let mut i: usize = 0;
    while i < s.len() && s[i] != c
        invariant
            i <= s@.len(),
            find_from(s@, c, i as int) == find_from(s@, c, 0),
        decreases s@.len() - i,
    {
        i = i + 1;
    }
    i
}

/// The `k`-th piece of `s` split at `c`.
fn split_piece(s: &[char], c: char, k: usize) -> (r: Option<Vec<char>>)
    ensures
        r matches Some(p) ==> piece(s@, c, k as nat) == Some(p@),
        r is None ==> piece(s@, c, k as nat) is None,
    decreases k,
{
    let j = find_first(s, c);
    proof {
        lemma_find_from_range(s@, c, 0);
    }
    if k == 0 {
        let p = vstd::slice::slice_to_vec(vstd::slice::slice_subrange(s, 0, j));
        assert(p@ =~= s@.take(j as int));
        Some(p)
    } else if j >= s.len() {
        None
    } else {
        let rest = vstd::slice::slice_subrange(s, j + 1, s.len());
        assert(rest@ =~= s@.skip(j + 1));
        split_piece(rest, c, k - 1)
    }
}

/// The `k`-th piece read as an `i64`.
fn number_piece(s: &[char], c: char, k: usize) -> (r: Option<i64>)
    ensures
        r matches Some(v) ==> num_piece(s@, c, k as nat) == Some(v as int),
        r is None ==> num_piece(s@, c, k as nat) is None,
{
    match split_piece(s, c, k) {
        Some(p) => parse_i64(p.as_slice()),
        None => None,
    }
}


proof fn lemma_floor_400(y1: int)
    ensures
        ({
            let era = tdiv(if y1 >= 0 { y1 } else { y1 - 399 }, 400);
            &&& era == y1 / 400
            &&& 0 <= y1 - era * 400 < 400
        }),
{
    if y1 < 0 {
        let a = 399 - y1;
        assert(a == (a / 400) * 400 + a % 400);
    }
}

/// Days since 1970-01-01 of the proleptic-Gregorian date `(y, m, d)`;
/// `None` where a step of the computation would leave its 64-bit range.
pub fn days_from_civil(y: i64, m: i64, d: i64) -> (r: Option<i64>)
    ensures
        r matches Some(v) ==> days_checked(y as int, m as int, d as int) == Some(v as int),
        r is None ==> days_checked(y as int, m as int, d as int) is None,
{
    if m > i64::MAX - 9 || m + 9 < 0 || d < 0 {
        return None;
    }
    let y1: i128 = if m <= 2 {
        y as i128 - 1
    } else {
        y as i128
    };
    let base: i128 = if y1 >= 0 {
        y1
    } else {
        y1 - 399
    };
    if y1 < i64::MIN as i128 || base < i64::MIN as i128 {
        return None;
    }
    let era: i128 = match base.checked_div(400) {
        Some(q) => q,
        None => 0,
    };
    proof {
        lemma_floor_400(y1 as int);
    }
    assert(era == tdiv(base as int, 400));
    let yoe: u128 = (y1 - era * 400) as u128;
    let mp: u128 = (m + 9) as u128 % 12;
    let lead: u128 = (153 * mp + 2) / 5 + d as u128;
    if lead == 0 {
        return None;
    }
    let doy: u128 = lead - 1;
    let doe: u128 = yoe * 365 + yoe / 4 - yoe / 100 + doy;
    if doe > i64::MAX as u128 {
        return None;
    }
    assert(-23058430092136940 <= era <= 23058430092136940) by (nonlinear_arith)
        requires
            era == (y1 as int) / 400,
            i64::MIN - 1 <= y1 <= i64::MAX;
    let e: i128 = era * 146097;
    let f: i128 = e + doe as i128;
    let r: i128 = f - 719468;
    if e < i64::MIN as i128 || e > i64::MAX as i128 || f > i64::MAX as i128
        || f < i64::MIN as i128 || r < i64::MIN as i128 || r > i64::MAX as i128 {
        return None;
    }
    Some(r as i64)
}


/// Reads a `YYYY-MM-DDTHH:MM:SS(.mmm)?Z` timestamp as seconds since the
/// Unix epoch; `None` for any other shape, and where the arithmetic would
/// leave the `i64` range.
pub fn parse_iso8601_seconds(s: &str) -> (r: Option<i64>)
    ensures
        r matches Some(v) ==> parse_iso_spec(s@) == Some(v as int),
        r is None ==> parse_iso_spec(s@) is None,
{
    let v = chars_of(s);
    let n = v.len();
    if n == 0 || v[n - 1] != 'Z' {
        return None;
    }
    let b = vstd::slice::slice_subrange(v.as_slice(), 0, n - 1);
    assert(b@ =~= s@.drop_last());
    let t = find_first(b, 'T');
    proof {
        lemma_find_from_range(b@, 'T', 0);
    }
    if t >= b.len() {
        return None;
    }
    let date = vstd::slice::slice_subrange(b, 0, t);
    assert(date@ =~= b@.take(t as int));
    let rest = vstd::slice::slice_subrange(b, t + 1, b.len());
    assert(rest@ =~= b@.skip(t + 1));
    let dot = find_first(rest, '.');
    proof {
        lemma_find_from_range(rest@, '.', 0);
    }
    let time = vstd::slice::slice_subrange(rest, 0, dot);
    assert(time@ =~= rest@.take(dot as int));
    let year = match number_piece(date, '-', 0) {
        Some(x) => x,
        None => return None,
    };
    let month = match number_piece(date, '-', 1) {
        Some(x) => x,
        None => return None,
    };
    let day = match number_piece(date, '-', 2) {
        Some(x) => x,
        None => return None,
    };
    let hour = match number_piece(time, ':', 0) {
        Some(x) => x,
        None => return None,
    };
    let minute = match number_piece(time, ':', 1) {
        Some(x) => x,
        None => return None,
    };
    let second = match number_piece(time, ':', 2) {
        Some(x) => x,
        None => return None,
    };
    let days = match days_from_civil(year, month, day) {
        Some(x) => x,
        None => return None,
    };
    let a: i128 = days as i128 * 86400;
    let hh: i128 = hour as i128 * 3600;
    let bb: i128 = a + hh;
    let mm: i128 = minute as i128 * 60;
    let c: i128 = bb + mm;
    let total: i128 = c + second as i128;
    if !(i64::MIN as i128 <= a && a <= i64::MAX as i128 && i64::MIN as i128 <= hh && hh
        <= i64::MAX as i128 && i64::MIN as i128 <= bb && bb <= i64::MAX as i128 && i64::MIN
        as i128 <= mm && mm <= i64::MAX as i128 && i64::MIN as i128 <= c && c <= i64::MAX as i128
        && i64::MIN as i128 <= total && total <= i64::MAX as i128) {
        return None;
    }
    Some(total as i64)
}


proof fn lemma_dec_digits(n: nat)
    ensures
        all_digits(dec(n)),
        digits_value(dec(n)) == n,
        dec(n).len() >= 1,
    decreases n,
{
    if n >= 10 {
        lemma_dec_digits(n / 10);
        let t = dec(n / 10);
        let u = t.push(digit_char((n % 10) as int));
        assert(u.drop_last() =~= t);
        assert forall|i: int| 0 <= i < u.len() implies is_digit(#[trigger] u[i]) by {
            if i < t.len() {
                assert(u[i] == t[i]);
            }
        }
        lemma_digit_char_value((n % 10) as int);
        assert(dec(n) == u);
        assert(digits_value(u) == digits_value(t) * 10 + digit_value(u.last()));
        assert(n == (n / 10) * 10 + n % 10);
    } else {
        lemma_digit_char_value(n as int);
        let t = dec(n);
        assert(t.drop_last() =~= Seq::<char>::empty());
        assert(digits_value(t.drop_last()) == 0);
        assert(t.last() == digit_char(n as int));
        assert(digits_value(t) == digits_value(t.drop_last()) * 10 + digit_value(t.last()));
    }
}

proof fn lemma_digit_char_value(d: int)
    requires
        0 <= d < 10,
    ensures
        digit_value(digit_char(d)) == d,
        is_digit(digit_char(d)),
{
}

proof fn lemma_zeros_value(k: int)
    ensures
        all_digits(zeros(k)),
        digits_value(zeros(k)) == 0,
    decreases if k > 0 { k } else { 0 },
{
    if k > 0 {
        lemma_zeros_value(k - 1);
        assert(zeros(k).drop_last() =~= zeros(k - 1));
    } else {
        assert(zeros(k) =~= Seq::<char>::empty());
    }
}

proof fn lemma_prefix_zeros(z: Seq<char>, t: Seq<char>)
    requires
        all_digits(z),
        digits_value(z) == 0,
        all_digits(t),
    ensures
        all_digits(z + t),
        digits_value(z + t) == digits_value(t),
    decreases t.len(),
{
    let u = z + t;
    assert forall|i: int| 0 <= i < u.len() implies is_digit(#[trigger] u[i]) by {
        if i < z.len() {
            assert(u[i] == z[i]);
        } else {
            assert(u[i] == t[i - z.len()]);
        }
    }
    if t.len() > 0 {
        assert(u.drop_last() =~= z + t.drop_last());
        assert(all_digits(t.drop_last())) by {
            assert forall|i: int| 0 <= i < t.drop_last().len() implies is_digit(
                #[trigger] t.drop_last()[i],
            ) by {
                assert(t.drop_last()[i] == t[i]);
            }
        }
        lemma_prefix_zeros(z, t.drop_last());
        assert(u.last() == t.last());
    } else {
        assert(u =~= z);
    }
}

/// A zero-padded rendering of a non-negative `i64` reads back as itself.
proof fn lemma_padded_reads_back(n: int, w: int)
    requires
        0 <= n <= i64::MAX,
    ensures
        parse_i64_spec(padded(n, w)) == Some(n),
        all_digits(padded(n, w)),
{
    lemma_dec_digits(n as nat);
    lemma_zeros_value(w - dec(n as nat).len());
    lemma_prefix_zeros(zeros(w - dec(n as nat).len()), dec(n as nat));
    let p = padded(n, w);
    assert(p.len() >= 1);
    assert(is_digit(p[0]));
}

proof fn lemma_no_sep(a: Seq<char>, c: char)
    requires
        all_digits(a),
        !is_digit(c),
    ensures
        forall|i: int| 0 <= i < a.len() ==> a[i] != c,
{
    assert forall|i: int| 0 <= i < a.len() implies a[i] != c by {
        assert(is_digit(a[i]));
    }
}

proof fn lemma_find_sep(a: Seq<char>, c: char, b: Seq<char>, i: int)
    requires
        0 <= i <= a.len(),
        forall|j: int| 0 <= j < a.len() ==> a[j] != c,
    ensures
        find_from(a + seq![c] + b, c, i) == a.len(),
    decreases a.len() - i,
{
    let s = a + seq![c] + b;
    if i < a.len() {
        assert(s[i] == a[i]);
        lemma_find_sep(a, c, b, i + 1);
    } else {
        assert(s[i] == c);
    }
}

proof fn lemma_find_absent(a: Seq<char>, c: char, i: int)
    requires
        0 <= i <= a.len(),
        forall|j: int| 0 <= j < a.len() ==> a[j] != c,
    ensures
        find_from(a, c, i) == a.len(),
    decreases a.len() - i,
{
    if i < a.len() {
        lemma_find_absent(a, c, i + 1);
    }
}

/// The three pieces of `p0 c p1 c p2` split at `c` are `p0`, `p1`, `p2`.
proof fn lemma_three_pieces(p0: Seq<char>, p1: Seq<char>, p2: Seq<char>, c: char)
    requires
        forall|j: int| 0 <= j < p0.len() ==> p0[j] != c,
        forall|j: int| 0 <= j < p1.len() ==> p1[j] != c,
        forall|j: int| 0 <= j < p2.len() ==> p2[j] != c,
    ensures
        piece(p0 + seq![c] + p1 + seq![c] + p2, c, 0) == Some(p0),
        piece(p0 + seq![c] + p1 + seq![c] + p2, c, 1) == Some(p1),
        piece(p0 + seq![c] + p1 + seq![c] + p2, c, 2) == Some(p2),
{
    let tail = p1 + seq![c] + p2;
    let s = p0 + seq![c] + p1 + seq![c] + p2;
    assert(s =~= p0 + seq![c] + tail);
    lemma_find_sep(p0, c, tail, 0);
    assert(s.take(p0.len() as int) =~= p0);
    assert(s.skip(p0.len() as int + 1) =~= tail);
    lemma_find_sep(p1, c, p2, 0);
    assert(tail.take(p1.len() as int) =~= p1);
    assert(tail.skip(p1.len() as int + 1) =~= p2);
    lemma_find_absent(p2, c, 0);
    assert(p2.take(p2.len() as int) =~= p2);
    assert(piece(s, c, 1) == piece(tail, c, 0));
    assert(piece(s, c, 2) == piece(tail, c, 1));
    assert(piece(tail, c, 1) == piece(p2, c, 0));
}


/// For a day count in reach of `i64` seconds, the date the decomposition
/// gives reads back, by the checked inverse, as the same day count.
proof fn lemma_days_checked_of_civil(z: int)
    requires
        -200000000000000 <= z <= 200000000000000,
    ensures
        ({
            let ymd = civil_spec(z);
            &&& days_checked(ymd.0, ymd.1, ymd.2) == Some(z)
            &&& 1 <= ymd.1 <= 12
            &&& 1 <= ymd.2 <= 31
            &&& -1000000000000 <= ymd.0 <= 1000000000000
        }),
{
    law_civil_round_trip(z);
    let (y, m, d) = civil_spec(z);
    let y1 = if m <= 2 { y - 1 } else { y };
    let base = if y1 >= 0 { y1 } else { y1 - 399 };
    lemma_floor_400(y1);
    let era = tdiv(base, 400);
    let yoe = y1 - era * 400;
    let mp = (m + 9) % 12;
    let doy = (153 * mp + 2) / 5 + d - 1;
    assert(0 <= doy <= 367);
    let doe = yoe * 365 + yoe / 4 - yoe / 100 + doy;
    assert(0 <= doe <= 146200);
    assert(era * 146097 + doe - 719468 == z);
    assert(-2000000000 <= era <= 2000000000) by (nonlinear_arith)
        requires
            era * 146097 == z + 719468 - doe,
            0 <= doe <= 146200,
            -200000000000000 <= z <= 200000000000000;
    assert(-1000000000000 <= y1 <= 1000000000000) by (nonlinear_arith)
        requires
            y1 == yoe + era * 400,
            0 <= yoe < 400,
            -2000000000 <= era <= 2000000000;
}

/// What the crate writes, it reads back: a timestamp formatted from
/// `secs` parses to `secs` again, whatever the milliseconds, for every
/// instant from year 0 on.
#[verifier::rlimit(40)]
pub proof fn law_timestamp_round_trip(secs: i64, millis: u32)
    requires
        civil_spec((secs as int) / 86400).0 >= 0,
    ensures
        parse_iso_spec(iso_text(secs as int, millis as int)) == Some(secs as int),
{
    let z = (secs as int) / 86400;
    let sod = (secs as int) % 86400;
    assert(-200000000000000 <= z <= 200000000000000);
    lemma_days_checked_of_civil(z);
    let ymd = civil_spec(z);
    let (y, m, d) = (ymd.0, ymd.1, ymd.2);
    let h = sod / 3600;
    let mi = (sod % 3600) / 60;
    let se = sod % 60;
    assert(h * 3600 + mi * 60 + se == sod);
    lemma_padded_reads_back(y, 4);
    lemma_padded_reads_back(m, 2);
    lemma_padded_reads_back(d, 2);
    lemma_padded_reads_back(h, 2);
    lemma_padded_reads_back(mi, 2);
    lemma_padded_reads_back(se, 2);
    lemma_padded_reads_back(millis as int, 3);
    let py = padded(y, 4);
    let pm = padded(m, 2);
    let pd = padded(d, 2);
    let ph = padded(h, 2);
    let pmi = padded(mi, 2);
    let pse = padded(se, 2);
    let pms = padded(millis as int, 3);
    let date = py + seq!['-'] + pm + seq!['-'] + pd;
    let time = ph + seq![':'] + pmi + seq![':'] + pse;
    let rest = time + seq!['.'] + pms;
    let b = date + seq!['T'] + rest;
    let text = iso_text(secs as int, millis as int);
    assert(text =~= b + seq!['Z']);
    assert(text.drop_last() =~= b);
    lemma_no_sep(py, '-');
    lemma_no_sep(pm, '-');
    lemma_no_sep(pd, '-');
    lemma_no_sep(ph, ':');
    lemma_no_sep(pmi, ':');
    lemma_no_sep(pse, ':');
    lemma_no_sep(py, 'T');
    lemma_no_sep(pm, 'T');
    lemma_no_sep(pd, 'T');
    lemma_no_sep(ph, '.');
    lemma_no_sep(pmi, '.');
    lemma_no_sep(pse, '.');
    assert forall|j: int| 0 <= j < date.len() implies date[j] != 'T' by {
        if j < py.len() {
            assert(date[j] == py[j]);
        } else if j == py.len() {
        } else if j < py.len() + 1 + pm.len() {
            assert(date[j] == pm[j - py.len() - 1]);
        } else if j == py.len() + 1 + pm.len() {
        } else {
            assert(date[j] == pd[j - py.len() - 2 - pm.len()]);
        }
    }
    assert forall|j: int| 0 <= j < time.len() implies time[j] != '.' by {
        if j < ph.len() {
            assert(time[j] == ph[j]);
        } else if j == ph.len() {
        } else if j < ph.len() + 1 + pmi.len() {
            assert(time[j] == pmi[j - ph.len() - 1]);
        } else if j == ph.len() + 1 + pmi.len() {
        } else {
            assert(time[j] == pse[j - ph.len() - 2 - pmi.len()]);
        }
    }
    lemma_find_sep(date, 'T', rest, 0);
    assert(b.take(date.len() as int) =~= date);
    assert(b.skip(date.len() as int + 1) =~= rest);
    lemma_find_sep(time, '.', pms, 0);
    assert(rest.take(time.len() as int) =~= time);
    lemma_three_pieces(py, pm, pd, '-');
    lemma_three_pieces(ph, pmi, pse, ':');
    assert(num_piece(date, '-', 0) == Some(y));
    assert(num_piece(date, '-', 1) == Some(m));
    assert(num_piece(date, '-', 2) == Some(d));
    assert(num_piece(time, ':', 0) == Some(h));
    assert(num_piece(time, ':', 1) == Some(mi));
    assert(num_piece(time, ':', 2) == Some(se));
    assert(seconds_checked(y, m, d, h, mi, se) == Some(secs as int));
}

} // verus!
