//! UTC ISO-8601 timestamps (`YYYY-MM-DDTHH:MM:SS.mmmZ`) and the
//! proleptic-Gregorian day arithmetic behind them.

use vstd::prelude::*;
use crate::text::{padded, push_char, push_padded};

verus! {

/// Rust's truncating division, for a positive divisor.
pub open spec fn tdiv(a: int, b: int) -> int {
    if a >= 0 {
        a / b
    } else {
        -((-a) / b)
    }
}

/// The civil date `(year, month, day)` that is `z` days after 1970-01-01,
/// by Howard Hinnant's era decomposition (400-year eras of 146097 days,
/// years counted from March).
pub open spec fn civil_spec(z: int) -> (int, int, int) {
    let z1 = z + 719468;
    let era = tdiv(if z1 >= 0 { z1 } else { z1 - 146096 }, 146097);
    let doe = z1 - era * 146097;
    let yoe = (doe - doe / 1460 + doe / 36524 - doe / 146096) / 365;
    let y = yoe + era * 400;
    let doy = doe - (365 * yoe + yoe / 4 - yoe / 100);
    let mp = (5 * doy + 2) / 153;
    let d = doy - (153 * mp + 2) / 5 + 1;
    let m = if mp < 10 { mp + 3 } else { mp - 9 };
    (if m <= 2 { y + 1 } else { y }, m, d)
}

/// Days since 1970-01-01 of the civil date `(y, m, d)`: the inverse
/// decomposition, computed over the integers.
pub open spec fn days_from_civil_math(y: int, m: int, d: int) -> int {
    let y1 = if m <= 2 { y - 1 } else { y };
    let era = tdiv(if y1 >= 0 { y1 } else { y1 - 399 }, 400);
    let yoe = y1 - era * 400;
    let mp = (m + 9) % 12;
    let doy = (153 * mp + 2) / 5 + d - 1;
    let doe = yoe * 365 + yoe / 4 - yoe / 100 + doy;
    era * 146097 + doe - 719468
}

/// The day counts on which the decomposition runs in `i64` without
/// overflow: the shifted count and its era floor both fit.
pub open spec fn z_ok(z: int) -> bool {
    i64::MIN <= z + 719468 - 146096 && z + 719468 <= i64::MAX
}

proof fn lemma_floor_era(z1: int)
    ensures
        ({
            let era = tdiv(if z1 >= 0 { z1 } else { z1 - 146096 }, 146097);
            &&& era == z1 / 146097
            &&& 0 <= z1 - era * 146097 < 146097
        }),
{
    let a = if z1 >= 0 { z1 } else { z1 - 146096 };
    if z1 < 0 {
        let q = (-a) / 146097;
        assert((-a) == q * 146097 + (-a) % 146097);
        assert(0 <= (-a) % 146097 < 146097);
    }
}

proof fn lemma_year_of_era(doe: int)
    requires
        0 <= doe < 146097,
    ensures
        ({
            let yoe = (doe - doe / 1460 + doe / 36524 - doe / 146096) / 365;
            let doy = doe - (365 * yoe + yoe / 4 - yoe / 100);
            &&& 0 <= yoe <= 399
            &&& 0 <= doy <= 365
        }),
{
}

proof fn lemma_month_of_year(doy: int)
    requires
        0 <= doy <= 365,
    ensures
        ({
            let mp = (5 * doy + 2) / 153;
            let d = doy - (153 * mp + 2) / 5 + 1;
            &&& 0 <= mp <= 11
            &&& 1 <= d <= 31
        }),
{
}

/// The date decomposition is a true inverse: converting days to a civil
/// date and back gives the same day count, and the date is in range.
pub proof fn law_civil_round_trip(z: int)
    ensures
        ({
            let (y, m, d) = civil_spec(z);
            &&& 1 <= m <= 12
            &&& 1 <= d <= 31
            &&& days_from_civil_math(y, m, d) == z
        }),
{
    let z1 = z + 719468;
    lemma_floor_era(z1);
    let era = tdiv(if z1 >= 0 { z1 } else { z1 - 146096 }, 146097);
    let doe = z1 - era * 146097;
    lemma_year_of_era(doe);
    let yoe = (doe - doe / 1460 + doe / 36524 - doe / 146096) / 365;
    let doy = doe - (365 * yoe + yoe / 4 - yoe / 100);
    lemma_month_of_year(doy);
    let mp = (5 * doy + 2) / 153;
    let (y, m, d) = civil_spec(z);
    let y1 = if m <= 2 { y - 1 } else { y };
    assert(y1 == yoe + era * 400);
    let era2 = tdiv(if y1 >= 0 { y1 } else { y1 - 399 }, 400);
    assert(era2 == era) by {
        if y1 < 0 {
            let a = 399 - y1;
            assert(era < 0);
            assert(a == (399 - yoe) + (-era) * 400);
            assert(a / 400 == -era) by (nonlinear_arith)
                requires a == (399 - yoe) + (-era) * 400, 0 <= 399 - yoe < 400, -era > 0;
        }
    }
    assert((m + 9) % 12 == mp);
}


/// Converts a day count since 1970-01-01 into the proleptic-Gregorian
/// `(year, month, day)`; correct before the epoch as well.
pub fn civil_from_days(z: i64) -> (r: (i64, u32, u32))
    requires
        z_ok(z as int),
    ensures
        (r.0 as int, r.1 as int, r.2 as int) == civil_spec(z as int),
        1 <= r.1 <= 12,
        1 <= r.2 <= 31,
{
    let z1: i64 = z + 719468;
    proof {
        lemma_floor_era(z1 as int);
    }
    let era: i64 = if z1 >= 0 {
        z1 / 146097
    } else {
        let a: u64 = (146095 - z1) as u64 + 1;
        assert(a == 146096 - z1);
        -((a / 146097) as i64)
    };
    let ghost era_s = tdiv(if z1 >= 0 { z1 as int } else { z1 - 146096 }, 146097);
    assert(era == era_s);
    assert(-63200000000000 < era < 63200000000000) by (nonlinear_arith)
        requires
            era as int == (z1 as int) / 146097,
            i64::MIN <= z1 <= i64::MAX;
    let doe: u64 = (z1 - era * 146097) as u64;
    proof {
        lemma_year_of_era(doe as int);
    }
    let yoe: u64 = (doe - doe / 1460 + doe / 36524 - doe / 146096) / 365;
    let y: i64 = yoe as i64 + era * 400;
    let doy: u64 = doe - (365 * yoe + yoe / 4 - yoe / 100);
    proof {
        lemma_month_of_year(doy as int);
    }
    let mp: u64 = (5 * doy + 2) / 153;
    let d: u32 = (doy - (153 * mp + 2) / 5 + 1) as u32;
    let m: u32 = if mp < 10 {
        (mp + 3) as u32
    } else {
        (mp - 9) as u32
    };
    let y2: i64 = if m <= 2 {
        y + 1
    } else {
        y
    };
    proof {
        law_civil_round_trip(z as int);
    }
    (y2, m, d)
}


/// `YYYY-MM-DDTHH:MM:SS.mmmZ` for `secs` seconds and `millis` milliseconds
/// after the epoch: a zero-padded year of at least four characters
/// (`-001` before year 0), two-digit fields, at least three millisecond
/// digits.
pub open spec fn iso_text(secs: int, millis: int) -> Seq<char> {
    let days = secs / 86400;
    let sod = secs % 86400;
    let ymd = civil_spec(days);
    padded(ymd.0, 4) + seq!['-'] + padded(ymd.1, 2) + seq!['-'] + padded(ymd.2, 2) + seq!['T']
        + padded(sod / 3600, 2) + seq![':'] + padded((sod % 3600) / 60, 2) + seq![':']
        + padded(sod % 60, 2) + seq!['.'] + padded(millis, 3) + seq!['Z']
}

/// Formats a Unix time as `YYYY-MM-DDTHH:MM:SS.mmmZ` (UTC).
pub fn format_iso8601(unix_secs: i64, millis: u32) -> (r: String)
    ensures
        r@ == iso_text(unix_secs as int, millis as int),
{
    let days: i64 = match unix_secs.checked_div_euclid(86400) {
        Some(q) => q,
        None => 0,
    };
    let sod: i64 = match unix_secs.checked_rem_euclid(86400) {
        Some(q) => q,
        None => 0,
    };
    assert(z_ok(days as int)) by (nonlinear_arith)
        requires
            days as int == (unix_secs as int) / 86400,
            i64::MIN <= unix_secs <= i64::MAX;
    let (year, month, day) = civil_from_days(days);
    let hour = sod / 3600;
    let minute = (sod % 3600) / 60;
    let second = sod % 60;
    let mut out = String::new();
    push_padded(&mut out, year, 4);
    push_char(&mut out, '-');
    push_padded(&mut out, month as i64, 2);
    push_char(&mut out, '-');
    push_padded(&mut out, day as i64, 2);
    push_char(&mut out, 'T');
    push_padded(&mut out, hour, 2);
    push_char(&mut out, ':');
    push_padded(&mut out, minute, 2);
    push_char(&mut out, ':');
    push_padded(&mut out, second, 2);
    push_char(&mut out, '.');
    push_padded(&mut out, millis as i64, 3);
    push_char(&mut out, 'Z');
    assert(out@ =~= iso_text(unix_secs as int, millis as int));
    out
}

/// Whole-second UTC timestamp, `.000` milliseconds.
pub fn iso8601_from_unix_seconds(unix_secs: i64) -> (r: String)
    ensures
        r@ == iso_text(unix_secs as int, 0),
{
    format_iso8601(unix_secs, 0)
}

/// The time elapsed on the system clock since the Unix epoch, as
/// `UNIX_EPOCH.elapsed()` gives it, in whole seconds and the nanoseconds
/// past them (zero when the clock reads before the epoch). Which instant
/// the clock gives is not stated; only that the nanoseconds stay below a
/// second.
#[verifier::external_body]
fn clock_since_epoch() -> (r: (u64, u32))
    ensures
        r.1 < 1_000_000_000,
{
    let dur = std::time::UNIX_EPOCH.elapsed().unwrap_or_default();
    (dur.as_secs(), dur.subsec_nanos())
}

/// The current UTC time as `YYYY-MM-DDTHH:MM:SS.mmmZ`.
pub fn iso8601_now() -> (r: String)
    ensures
        exists|secs: i64, millis: int| 0 <= millis < 1000 && r@ == iso_text(secs as int, millis),
{
    let (secs, nanos) = clock_since_epoch();
    let millis = nanos / 1_000_000;
    let r = format_iso8601(secs as i64, millis);
    assert(r@ == iso_text((secs as i64) as int, millis as int));
    r
}

/// A point in time: `secs` whole seconds after the Unix epoch (negative
/// before it) plus `nanos` nanoseconds.
#[derive(Debug, Clone, Copy, PartialEq, Eq)]
pub struct UnixTime {
    pub secs: i64,
    pub nanos: u32,
}

impl UnixTime {
    /// Nanoseconds since the epoch.
    pub open spec fn total_nanos(&self) -> int {
        self.secs * 1_000_000_000 + self.nanos
    }

    /// Exactly `secs` seconds after the epoch.
    pub fn from_secs(secs: i64) -> (t: UnixTime)
        ensures
            t.secs == secs,
            t.nanos == 0,
    {
        UnixTime { secs, nanos: 0 }
    }

    /// The system clock now.
    pub fn now() -> (t: UnixTime)
        ensures
            t.nanos < 1_000_000_000,
    {
        let (secs, nanos) = clock_since_epoch();
        UnixTime { secs: secs as i64, nanos }
    }
}

} // verus!
