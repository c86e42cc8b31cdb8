//! Dates for the library's timestamps: days since 1970-01-01 to a
//! proleptic Gregorian calendar date, and the UTC ISO-8601 text of a Unix
//! time.
use vstd::prelude::*;

use crate::text::{chars_of, dec_of, dec_string, push_char, push_str};

verus! {

/// Gregorian leap years.
pub open spec fn is_leap(y: int) -> bool {
    (y % 4 == 0 && y % 100 != 0) || y % 400 == 0
}

/// The number of days in month `m` (1-based) of year `y`.
pub open spec fn days_in_month(y: int, m: int) -> int {
    if m == 2 {
        if is_leap(y) { 29 } else { 28 }
    } else if m == 4 || m == 6 || m == 9 || m == 11 {
        30
    } else {
        31
    }
}

/// The leap years among 1..=y (counted the same way below zero).
pub open spec fn leaps_through(y: int) -> int {
    y / 4 - y / 100 + y / 400
}

/// Days from 1970-01-01 to January 1 of year `y`.
pub open spec fn days_before_year(y: int) -> int {
    365 * (y - 1970) + leaps_through(y - 1) - leaps_through(1969)
}

/// Days before month `m` in a common year.
pub open spec fn month_start(m: int) -> int {
    if m <= 1 { 0 } else if m == 2 { 31 } else if m == 3 { 59 } else if m == 4 { 90 }
    else if m == 5 { 120 } else if m == 6 { 151 } else if m == 7 { 181 } else if m == 8 { 212 }
    else if m == 9 { 243 } else if m == 10 { 273 } else if m == 11 { 304 } else { 334 }
}

/// Days before month `m` of year `y`.
pub open spec fn days_before_month(y: int, m: int) -> int {
    month_start(m) + (if m > 2 && is_leap(y) { 1int } else { 0int })
}

/// Days from 1970-01-01 to the date `y-m-d`.
pub open spec fn days_from_civil(y: int, m: int, d: int) -> int {
    days_before_year(y) + days_before_month(y, m) + d - 1
}

/// A month in 1..=12 and a day within it.
pub open spec fn valid_date(y: int, m: int, d: int) -> bool {
    1 <= m <= 12 && 1 <= d <= days_in_month(y, m)
}

/// Days from March 1 of the first year of a 400-year era to March 1 of
/// its year `yoe`.
spec fn era_days(yoe: int) -> int {
    365 * yoe + yoe / 4 - yoe / 100
}

proof fn lemma_yoe(doe: int)
    requires 0 <= doe <= 146096,
    ensures ({
        let yoe = (doe - doe / 1460 + doe / 36524 - doe / 146096) / 365;
        0 <= yoe <= 399 && era_days(yoe) <= doe && (doe < era_days(yoe + 1) || (yoe == 399 && doe == 146096))
    }),
{
}


proof fn lemma_year_shift(era: int, y: int)
    ensures days_before_year(400 * era + y) == 146097 * era + days_before_year(y),
{
    let k = y - 1;
    vstd::arithmetic::div_mod::lemma_fundamental_div_mod_converse(400 * era + k, 4, 100 * era + k / 4, k % 4);
    vstd::arithmetic::div_mod::lemma_fundamental_div_mod_converse(400 * era + k, 100, 4 * era + k / 100, k % 100);
    vstd::arithmetic::div_mod::lemma_fundamental_div_mod_converse(400 * era + k, 400, era + k / 400, k % 400);
}

proof fn lemma_anchor(y: int)
    requires 0 <= y <= 399,
    ensures days_before_year(y) + 59 + (if is_leap(y) { 1int } else { 0int }) + 719468 == era_days(y),
{
}

proof fn lemma_month(doy: int)
    requires 0 <= doy <= 365,
    ensures ({
        let mp = (5 * doy + 2) / 153;
        0 <= mp <= 11 && (153 * mp + 2) / 5 <= doy && doy < (153 * (mp + 1) + 2) / 5
    }),
{
}


/// The date computed by the era / year-of-era / day-of-year steps.
spec fn civil_of(days: int) -> (int, int, int) {
    let z = days + 719468;
    let era = z / 146097;
    let doe = z - era * 146097;
    let yoe = (doe - doe / 1460 + doe / 36524 - doe / 146096) / 365;
    let doy = doe - (365 * yoe + yoe / 4 - yoe / 100);
    let mp = (5 * doy + 2) / 153;
    let d = doy - (153 * mp + 2) / 5 + 1;
    let m = if mp < 10 { mp + 3 } else { mp - 9 };
    let y = yoe + era * 400 + (if m <= 2 { 1int } else { 0int });
    (y, m, d)
}

proof fn lemma_leap_shift(era: int, y: int)
    ensures is_leap(400 * era + y) == is_leap(y),
{
    vstd::arithmetic::div_mod::lemma_fundamental_div_mod_converse(400 * era + y, 4, 100 * era + y / 4, y % 4);
    vstd::arithmetic::div_mod::lemma_fundamental_div_mod_converse(400 * era + y, 100, 4 * era + y / 100, y % 100);
    vstd::arithmetic::div_mod::lemma_fundamental_div_mod_converse(400 * era + y, 400, era + y / 400, y % 400);
}

spec fn month_of(doy: int) -> int {
    let mp = (5 * doy + 2) / 153;
    if mp < 10 { mp + 3 } else { mp - 9 }
}

spec fn day_of(doy: int) -> int {
    let mp = (5 * doy + 2) / 153;
    doy - (153 * mp + 2) / 5 + 1
}

spec fn year_in_era(yoe: int, doy: int) -> int {
    yoe + (if month_of(doy) <= 2 { 1int } else { 0int })
}

proof fn lemma_in_era(yoe: int, doy: int)
    requires
        0 <= yoe <= 399,
        0 <= doy,
        doy < era_days(yoe + 1) - era_days(yoe) || (yoe == 399 && doy == 365),
    ensures
        valid_date(year_in_era(yoe, doy), month_of(doy), day_of(doy)),
        days_from_civil(year_in_era(yoe, doy), month_of(doy), day_of(doy)) == era_days(yoe) + doy - 719468,
{
    assert(doy <= 365);
    lemma_month(doy);
    let mp = (5 * doy + 2) / 153;
    if mp < 10 {
        lemma_anchor(yoe);
    } else if yoe < 399 {
        lemma_anchor(yoe + 1);
    } else {
        lemma_year_shift(1, 0);
        lemma_leap_shift(1, 0);
        lemma_anchor(0);
    }
}

proof fn lemma_civil(days: int)
    ensures
        valid_date(civil_of(days).0, civil_of(days).1, civil_of(days).2),
        days_from_civil(civil_of(days).0, civil_of(days).1, civil_of(days).2) == days,
{
    let z = days + 719468;
    let era = z / 146097;
    let doe = z - era * 146097;
    vstd::arithmetic::div_mod::lemma_fundamental_div_mod(z, 146097);
    assert(0 <= doe <= 146096);
    lemma_yoe(doe);
    let yoe = (doe - doe / 1460 + doe / 36524 - doe / 146096) / 365;
    let doy = doe - (365 * yoe + yoe / 4 - yoe / 100);
    lemma_in_era(yoe, doy);
    let y0 = year_in_era(yoe, doy);
    lemma_year_shift(era, y0);
    lemma_leap_shift(era, y0);
    assert(civil_of(days) == (400 * era + y0, month_of(doy), day_of(doy)));
}


proof fn lemma_year_len(y: int)
    ensures days_before_year(y + 1) == days_before_year(y) + 365 + (if is_leap(y) { 1int } else { 0int }),
{
    let k = y - 1;
    vstd::arithmetic::div_mod::lemma_fundamental_div_mod(k, 4);
    vstd::arithmetic::div_mod::lemma_fundamental_div_mod(k, 100);
    vstd::arithmetic::div_mod::lemma_fundamental_div_mod(k, 400);
    vstd::arithmetic::div_mod::lemma_fundamental_div_mod(y, 4);
    vstd::arithmetic::div_mod::lemma_fundamental_div_mod(y, 100);
    vstd::arithmetic::div_mod::lemma_fundamental_div_mod(y, 400);
}

proof fn lemma_year_mono(a: int, b: int)
    requires a <= b,
    ensures days_before_year(a) + 365 * (b - a) <= days_before_year(b),
    decreases b - a,
{
    if a < b {
        lemma_year_mono(a, b - 1);
        lemma_year_len(b - 1);
    }
}

proof fn lemma_date_in_year(y: int, m: int, d: int)
    requires valid_date(y, m, d),
    ensures
        days_before_year(y) <= days_from_civil(y, m, d) < days_before_year(y + 1),
{
    lemma_year_len(y);
}

proof fn lemma_civil_unique(y1: int, m1: int, d1: int, y2: int, m2: int, d2: int)
    requires
        valid_date(y1, m1, d1),
        valid_date(y2, m2, d2),
        days_from_civil(y1, m1, d1) == days_from_civil(y2, m2, d2),
    ensures
        y1 == y2 && m1 == m2 && d1 == d2,
{
    lemma_date_in_year(y1, m1, d1);
    lemma_date_in_year(y2, m2, d2);
    if y1 < y2 {
        lemma_year_mono(y1 + 1, y2);
    } else if y2 < y1 {
        lemma_year_mono(y2 + 1, y1);
    }
    assert(y1 == y2);
}




/// The calendar date of day `days` (counted from 1970-01-01): the one valid
/// date whose day number it is.
pub open spec fn civil_date(days: int) -> (int, int, int) {
    choose|t: (int, int, int)| valid_date(t.0, t.1, t.2) && days_from_civil(t.0, t.1, t.2) == days
}

/// Every day number has its calendar date, and no two valid dates share
/// a day number.
pub proof fn lemma_civil_date(days: int)
    ensures
        valid_date(civil_date(days).0, civil_date(days).1, civil_date(days).2),
        days_from_civil(civil_date(days).0, civil_date(days).1, civil_date(days).2) == days,
{
    lemma_civil_date_is(days);
}

proof fn lemma_civil_date_is(days: int)
    ensures
        valid_date(civil_date(days).0, civil_date(days).1, civil_date(days).2),
        days_from_civil(civil_date(days).0, civil_date(days).1, civil_date(days).2) == days,
        civil_date(days) == civil_of(days),
{
    lemma_civil(days);
    let t = civil_of(days);
    assert(valid_date(t.0, t.1, t.2) && days_from_civil(t.0, t.1, t.2) == days);
    let c = civil_date(days);
    lemma_civil_unique(c.0, c.1, c.2, t.0, t.1, t.2);
}

/// Turning a valid date into its day number and back gives the date again.
pub proof fn lemma_civil_roundtrip(y: int, m: int, d: int)
    requires
        valid_date(y, m, d),
    ensures
        civil_date(days_from_civil(y, m, d)) == (y, m, d),
{
    let n = days_from_civil(y, m, d);
    lemma_civil_date(n);
    let c = civil_date(n);
    lemma_civil_unique(c.0, c.1, c.2, y, m, d);
}

/// Howard Hinnant's algorithm: days since 1970-01-01 to `(year, month, day)`.
pub fn civil_from_days(days: i64) -> (r: (i64, u32, u32))
    requires
        days <= i64::MAX - 719468,
    ensures
        valid_date(r.0 as int, r.1 as int, r.2 as int),
        days_from_civil(r.0 as int, r.1 as int, r.2 as int) == days,
        (r.0 as int, r.1 as int, r.2 as int) == civil_date(days as int),
{
    proof {
        lemma_civil_date_is(days as int);
    }
    let z = days + 719468;
    let era = (if z >= 0 {
        z
    } else {
        z - 146096
    }) / 146097;
    proof {
        vstd::arithmetic::div_mod::lemma_fundamental_div_mod(z as int, 146097);
        if z < 0 {
            let q = (z as int) / 146097;
            let r = (z as int) % 146097;
            assert(z - 146096 == (q - 1) * 146097 + (r + 1));
            assert(era == q);
        }
        assert(era == (z as int) / 146097);
    }
    let doe = (z - era * 146097) as u64;
    let yoe = (doe - doe / 1460 + doe / 36524 - doe / 146096) / 365;
    let y = yoe as i64 + era * 400;
    let doy = doe - (365 * yoe + yoe / 4 - yoe / 100);
    let mp = (5 * doy + 2) / 153;
    let d = (doy - (153 * mp + 2) / 5 + 1) as u32;
    let m = (if mp < 10 {
        mp + 3
    } else {
        mp - 9
    }) as u32;
    let y = if m <= 2 {
        y + 1
    } else {
        y
    };
    (y, m, d)
}

/// `n` in decimal, zero-padded on the left to at least `width` digits.
pub open spec fn padded(n: nat, width: nat) -> Seq<char> {
    let digits = dec_of(n);
    Seq::new(
        (if digits.len() < width {
            width - digits.len()
        } else {
            0
        }) as nat,
        |i: int| '0',
    ) + digits
}

/// The ISO-8601 UTC text `YYYY-MM-DDTHH:MM:SSZ` of a date and time of day.
pub open spec fn iso_text(y: nat, m: nat, d: nat, hh: nat, mm: nat, ss: nat) -> Seq<char> {
    padded(y, 4) + seq!['-'] + padded(m, 2) + seq!['-'] + padded(d, 2) + seq!['T'] + padded(hh, 2)
        + seq![':'] + padded(mm, 2) + seq![':'] + padded(ss, 2) + seq!['Z']
}

/// The ISO-8601 UTC text of the Unix time `secs`.
pub open spec fn iso_utc(secs: nat) -> Seq<char> {
    let date = civil_date((secs / 86400) as int);
    let t = secs % 86400;
    iso_text(date.0 as nat, date.1 as nat, date.2 as nat, t / 3600, (t % 3600) / 60, t % 60)
}

/// Appends `n` zero-padded to `width` digits.
fn push_padded(s: &mut String, n: u64, width: usize)
    ensures
        final(s)@ == old(s)@ + padded(n as nat, width as nat),
{
    let digits = dec_string(n);
    let len = chars_of(digits.as_str()).len();
    let ghost start = s@;
    let mut k: usize = len;
    while k < width
        invariant
            len == dec_of(n as nat).len(),
            len <= k <= width || (width < len && k == len),
            s@ == start + Seq::new((k - len) as nat, |i: int| '0'),
        decreases width - k,
    {
        push_char(s, '0');
        proof {
            assert(Seq::new((k + 1 - len) as nat, |i: int| '0') =~= Seq::new(
                (k - len) as nat,
                |i: int| '0',
            ).push('0'));
        }
        k = k + 1;
    }
    push_str(s, digits.as_str());
    proof {
        assert(Seq::new((k - len) as nat, |i: int| '0') =~= Seq::new(
            (if len < width {
                width - len
            } else {
                0
            }) as nat,
            |i: int| '0',
        ));
    }
}

proof fn lemma_year_from_1970(y: int, m: int, d: int)
    requires
        valid_date(y, m, d),
        days_from_civil(y, m, d) >= 0,
    ensures
        y >= 1970,
{
    lemma_date_in_year(y, m, d);
    if y < 1970 {
        lemma_year_mono(y + 1, 1970);
    }
}

/// `YYYY-MM-DDTHH:MM:SSZ` for a Unix time in seconds, in UTC.
pub fn format_unix_seconds_utc(secs: u64) -> (r: String)
    ensures
        r@ == iso_utc(secs as nat),
{
    let days = secs / 86400;
    let seconds_in_day = secs % 86400;
    let hh = seconds_in_day / 3600;
    let mm = (seconds_in_day % 3600) / 60;
    let ss = seconds_in_day % 60;
    let (year, month, day) = civil_from_days(days as i64);
    proof {
        lemma_year_from_1970(year as int, month as int, day as int);
    }
    let mut s = String::new();
    push_padded(&mut s, year as u64, 4);
    push_char(&mut s, '-');
    push_padded(&mut s, month as u64, 2);
    push_char(&mut s, '-');
    push_padded(&mut s, day as u64, 2);
    push_char(&mut s, 'T');
    push_padded(&mut s, hh, 2);
    push_char(&mut s, ':');
    push_padded(&mut s, mm, 2);
    push_char(&mut s, ':');
    push_padded(&mut s, ss, 2);
    push_char(&mut s, 'Z');
    s
}

} // verus!
