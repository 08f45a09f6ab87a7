//! Dates of the Gregorian calendar, counted in days from 1970-01-01.

use vstd::prelude::*;

use crate::numbers;
use crate::text;

verus! {

// ---------------------------------------------------------------------------
// The calendar
// ---------------------------------------------------------------------------

/// A year with a 29th of February.
pub open spec fn is_leap(year: int) -> bool {
    year % 4 == 0 && (year % 100 != 0 || year % 400 == 0)
}

/// The number of days in a year.
pub open spec fn year_length(year: int) -> int {
    if is_leap(year) {
        366
    } else {
        365
    }
}

/// The number of days in a month.
pub open spec fn month_length(year: int, month: int) -> int {
    if month == 2 {
        if is_leap(year) {
            29
        } else {
            28
        }
    } else if month == 4 || month == 6 || month == 9 || month == 11 {
        30
    } else {
        31
    }
}

/// There is such a day.
pub open spec fn is_date(year: int, month: int, day: int) -> bool {
    1 <= month <= 12 && 1 <= day <= month_length(year, month)
}

/// The number of leap years from year 1 to `year`, counting downwards below it.
pub open spec fn leaps(year: int) -> int {
    year / 4 - year / 100 + year / 400
}

/// The number of days from 1970-01-01 to the first of January of a year.
pub open spec fn days_before_year(year: int) -> int {
    365 * (year - 1970) + leaps(year - 1) - leaps(1969)
}

/// The number of days of a year before a month of it.
pub open spec fn days_before_month(year: int, month: int) -> int
    decreases month,
{
    if month <= 1 {
        0
    } else {
        days_before_month(year, month - 1) + month_length(year, month - 1)
    }
}

/// The number of days from 1970-01-01 to a date.
pub open spec fn day_number(year: int, month: int, day: int) -> int {
    days_before_year(year) + days_before_month(year, month) + day - 1
}

/// Years follow each other without gap or overlap.
pub proof fn law_years_are_contiguous(year: int)
    ensures
        days_before_year(year + 1) == days_before_year(year) + year_length(year),
        days_before_year(1970) == 0,
{
    numbers::lemma_multiples_up_to(year, 4);
    numbers::lemma_multiples_up_to(year, 100);
    numbers::lemma_multiples_up_to(year, 400);
    numbers::lemma_centuries(year);
    lemma_leaps(year);
}

proof fn lemma_leaps(year: int)
    requires
        year / 4 == (year - 1) / 4 + if year % 4 == 0 {
            1int
        } else {
            0
        },
        year / 100 == (year - 1) / 100 + if year % 100 == 0 {
            1int
        } else {
            0
        },
        year / 400 == (year - 1) / 400 + if year % 400 == 0 {
            1int
        } else {
            0
        },
        year % 400 == 0 ==> year % 100 == 0,
        year % 100 == 0 ==> year % 4 == 0,
    ensures
        leaps(year) == leaps(year - 1) + year_length(year) - 365,
{
    let a = year / 4;
    let b = year / 100;
    let c = year / 400;
    let d = (year - 1) / 4;
    let e = (year - 1) / 100;
    let f = (year - 1) / 400;
    assert(leaps(year) == a - b + c);
    assert(leaps(year - 1) == d - e + f);
}

pub proof fn lemma_months(year: int)
    ensures
        days_before_month(year, 1) == 0,
        days_before_month(year, 2) == 31,
        days_before_month(year, 3) == 59 + (year_length(year) - 365),
        days_before_month(year, 4) == 90 + (year_length(year) - 365),
        days_before_month(year, 5) == 120 + (year_length(year) - 365),
        days_before_month(year, 6) == 151 + (year_length(year) - 365),
        days_before_month(year, 7) == 181 + (year_length(year) - 365),
        days_before_month(year, 8) == 212 + (year_length(year) - 365),
        days_before_month(year, 9) == 243 + (year_length(year) - 365),
        days_before_month(year, 10) == 273 + (year_length(year) - 365),
        days_before_month(year, 11) == 304 + (year_length(year) - 365),
        days_before_month(year, 12) == 334 + (year_length(year) - 365),
{
    reveal_with_fuel(days_before_month, 13);
}

proof fn lemma_years_grow(a: int, b: int)
    requires
        a <= b,
    ensures
        days_before_year(a) <= days_before_year(b),
    decreases b - a,
{
    if a < b {
        lemma_years_grow(a, b - 1);
        law_years_are_contiguous(b - 1);
    }
}

pub proof fn lemma_within_year(year: int, month: int, day: int)
    requires
        is_date(year, month, day),
    ensures
        days_before_year(year) <= day_number(year, month, day) < days_before_year(year + 1),
{
    lemma_months(year);
    law_years_are_contiguous(year);
}

/// A day has one date: dates with the same day number are the same.
pub proof fn law_a_day_has_one_date(y1: int, m1: int, d1: int, y2: int, m2: int, d2: int)
    requires
        is_date(y1, m1, d1),
        is_date(y2, m2, d2),
        day_number(y1, m1, d1) == day_number(y2, m2, d2),
    ensures
        y1 == y2,
        m1 == m2,
        d1 == d2,
{
    lemma_within_year(y1, m1, d1);
    lemma_within_year(y2, m2, d2);
    if y1 < y2 {
        lemma_years_grow(y1 + 1, y2);
    } else if y2 < y1 {
        lemma_years_grow(y2 + 1, y1);
    }
    lemma_months(y1);
}

// ---------------------------------------------------------------------------
// Counting days in eras
// ---------------------------------------------------------------------------

/// The days of an era of 400 years, which starts in March, before its year `k`.
spec fn era_days(k: int) -> int {
    365 * k + k / 4 - k / 100
}

/// The year of an era in which a day of the era falls.
proof fn lemma_year_of_era(doe: int, k: int)
    requires
        0 <= doe < 146097,
        k == (doe - doe / 1460 + doe / 36524 - doe / 146096) / 365,
    ensures
        0 <= k < 400,
        era_days(k) <= doe,
        doe - era_days(k) < year_length(k + 1),
{
}

/// The first of January behind a March.
proof fn lemma_era(era: int, k: int)
    requires
        0 <= k < 400,
    ensures
        days_before_year(400 * era + k + 1) == 146097 * era + era_days(k) + 306 - 719468,
        is_leap(400 * era + k + 1) == is_leap(k + 1),
{
    let year = 400 * era + k;
    numbers::lemma_shift(100 * era, k, 4);
    numbers::lemma_shift(4 * era, k, 100);
    numbers::lemma_shift(era, k, 400);
    numbers::lemma_shift(100 * era, k + 1, 4);
    numbers::lemma_shift(4 * era, k + 1, 100);
    numbers::lemma_shift(era, k + 1, 400);
    assert(4 * (100 * era) + k == year);
    assert(100 * (4 * era) + k == year);
    assert(leaps(year) == 97 * era + k / 4 - k / 100);
    assert(leaps(1969) == 477);
}

/// The month and the day of a day of a year that starts in March.
proof fn lemma_month_of_year(year: int, doy: int, mp: int, day: int, month: int)
    requires
        0 <= doy < 365 || doy == 365 && is_leap(year + 1),
        mp == (5 * doy + 2) / 153,
        day == doy - (153 * mp + 2) / 5 + 1,
        month == (if mp < 10 {
            mp + 3
        } else {
            mp - 9
        }),
    ensures
        ({
            let y = if month <= 2 {
                year + 1
            } else {
                year
            };
            &&& is_date(y, month, day)
            &&& day_number(y, month, day) == days_before_year(year + 1) - 306 + doy
        }),
{
    lemma_months(year);
    lemma_months(year + 1);
    law_years_are_contiguous(year);
    assert(0 <= mp <= 11);
}

/// The date that is `z` days from 1970-01-01.
pub fn civil_from_days(z: i64) -> (r: (i64, u32, u32))
    requires
        z <= i64::MAX - 719_468,
    ensures
        is_date(r.0 as int, r.1 as int, r.2 as int),
        day_number(r.0 as int, r.1 as int, r.2 as int) == z,
{
    let s: i64 = z + 719_468;
    let era: i64 = if s >= 0 {
        s / 146_097
    } else {
        let back: i64 = -(s + 1);
        -(back / 146_097) - 1
    };
    assert(0 <= s - era * 146097 < 146097);
    let doe: u64 = (s - era * 146_097) as u64;
    let yoe: u64 = (doe - doe / 1460 + doe / 36_524 - doe / 146_096) / 365;
    proof {
        lemma_year_of_era(doe as int, yoe as int);
        lemma_era(era as int, yoe as int);
    }
    let y: i64 = yoe as i64 + era * 400;
    let doy: u64 = doe - (365 * yoe + yoe / 4 - yoe / 100);
    let mp: u64 = (5 * doy + 2) / 153;
    let d: u32 = (doy - (153 * mp + 2) / 5 + 1) as u32;
    let m: u32 = if mp < 10 {
        (mp + 3) as u32
    } else {
        (mp - 9) as u32
    };
    proof {
        lemma_month_of_year(y as int, doy as int, mp as int, d as int, m as int);
    }
    (
        if m <= 2 {
            y + 1
        } else {
            y
        },
        m,
        d,
    )
}

// ---------------------------------------------------------------------------
// Timestamps
// ---------------------------------------------------------------------------

/// A number in decimal, with zeros before it up to a width.
pub open spec fn padded(n: nat, width: int) -> Seq<char> {
    let d = text::decimal(n);
    if d.len() < width {
        Seq::new((width - d.len()) as nat, |i: int| '0') + d
    } else {
        d
    }
}

/// A moment of a day, as it is written.
pub open spec fn moment(year: int, month: int, day: int, secs: int) -> Seq<char> {
    padded(year as nat, 4) + "-"@ + padded(month as nat, 2) + "-"@ + padded(day as nat, 2) + "T"@
        + padded(((secs % 86400) / 3600) as nat, 2) + ":"@ + padded(((secs % 3600) / 60) as nat, 2)
        + ":"@ + padded((secs % 60) as nat, 2) + "Z"@
}

/// `s` is how the moment `secs` seconds from 1970-01-01 is written: with the
/// date of its day.
pub open spec fn is_stamp(s: Seq<char>, secs: int) -> bool {
    exists|year: int, month: int, day: int|
        {
            &&& is_date(year, month, day)
            &&& day_number(year, month, day) == secs / 86400
            &&& s == #[trigger] moment(year, month, day, secs)
        }
}

fn push_padded(out: &mut String, n: u128, width: usize)
    requires
        width <= 4,
    ensures
        final(out)@ == old(out)@ + padded(n as nat, width as int),
{
    let d = text::to_decimal(n);
    let len: usize = text::chars_of(d.as_str()).len();
    let mut i: usize = len;
    assert(out@ =~= old(out)@ + Seq::new(0, |j: int| '0'));
    while i < width
        invariant
            len <= i,
            i <= width || i == len,
            out@ == old(out)@ + Seq::new((i - len) as nat, |j: int| '0'),
        decreases width - i,
    {
        out.push('0');
        i = i + 1;
        assert(out@ =~= old(out)@ + Seq::new((i - len) as nat, |j: int| '0'));
    }
    out.append(d.as_str());
    assert(out@ =~= old(out)@ + padded(n as nat, width as int));
}

/// The moment `secs` seconds from 1970-01-01, as in "2026-08-31T09:00:00Z".
pub fn stamp(secs: u64) -> (r: String)
    ensures
        is_stamp(r@, secs as int),
{
    let days: u64 = secs / 86_400;
    let (y, m, d) = civil_from_days(days as i64);
    proof {
        if y < 1970 {
            lemma_within_year(y as int, m as int, d as int);
            lemma_years_grow(y + 1, 1970);
            law_years_are_contiguous(1970);
        }
    }
    let mut r = String::new();
    push_padded(&mut r, y as u128, 4);
    r.append("-");
    push_padded(&mut r, m as u128, 2);
    r.append("-");
    push_padded(&mut r, d as u128, 2);
    r.append("T");
    push_padded(&mut r, ((secs % 86_400) / 3600) as u128, 2);
    r.append(":");
    push_padded(&mut r, ((secs % 3600) / 60) as u128, 2);
    r.append(":");
    push_padded(&mut r, (secs % 60) as u128, 2);
    r.append("Z");
    assert(r@ =~= moment(y as int, m as int, d as int, secs as int));
    r
}

} // verus!
