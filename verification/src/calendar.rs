//! Calendar dates of day numbers, and the stamp that names a build.

use vstd::prelude::*;

use crate::text::{decimal, decimal_text, pad_left, padded_text};

verus! {

// ── The calendar ─────────────────────────────────────────────────────────

/// Leap years of the Gregorian calendar, extended to all years.
pub open spec fn leap(year: int) -> bool {
    year % 4 == 0 && (year % 100 != 0 || year % 400 == 0)
}

/// The days of a month.
pub open spec fn month_length(year: int, month: int) -> int {
    if month == 2 {
        if leap(year) {
            29
        } else {
            28
        }
    } else if month == 4 || month == 6 || month == 9 || month == 11 {
        30
    } else {
        31
    }
}

/// The days of a year before the first of a month.
pub open spec fn days_before_month(year: int, month: int) -> int
    decreases month,
{
    if month <= 1 {
        0
    } else {
        days_before_month(year, month - 1) + month_length(year, month - 1)
    }
}

/// The days from the first day of year 1 to the first day of a year.
pub open spec fn days_before_year(year: int) -> int {
    365 * (year - 1) + (year - 1) / 4 - (year - 1) / 100 + (year - 1) / 400
}

/// A day that the calendar has.
pub open spec fn is_date(year: int, month: int, day: int) -> bool {
    1 <= month <= 12 && 1 <= day <= month_length(year, month)
}

/// The number of a day, counted from the first of January 1970.
pub open spec fn day_number(year: int, month: int, day: int) -> int {
    days_before_year(year) + days_before_month(year, month) + day - 1 - 719_162
}

proof fn month_table(year: int)
    ensures
        days_before_month(year, 1) == 0,
        days_before_month(year, 2) == 31,
        days_before_month(year, 3) == month_length(year, 2) + 31,
        days_before_month(year, 4) == month_length(year, 2) + 62,
        days_before_month(year, 5) == month_length(year, 2) + 92,
        days_before_month(year, 6) == month_length(year, 2) + 123,
        days_before_month(year, 7) == month_length(year, 2) + 153,
        days_before_month(year, 8) == month_length(year, 2) + 184,
        days_before_month(year, 9) == month_length(year, 2) + 215,
        days_before_month(year, 10) == month_length(year, 2) + 245,
        days_before_month(year, 11) == month_length(year, 2) + 276,
        days_before_month(year, 12) == month_length(year, 2) + 306,
        days_before_month(year, 13) == month_length(year, 2) + 337,
{
    reveal_with_fuel(days_before_month, 13);
}

/// A year is as long as its months together, so the years follow each other
/// without a gap.
pub proof fn years_follow_each_other(year: int)
    ensures
        days_before_year(year + 1) == days_before_year(year) + days_before_month(year, 13),
        days_before_month(year, 13) == (if leap(year) {
            366int
        } else {
            365int
        }),
{
    month_table(year);
}

/// The days from the first of March of year 0 of a cycle of 400 years to the
/// first of March of a later one.
spec fn march_days(year: int) -> int {
    365 * year + year / 4 - year / 100
}

proof fn year_of_cycle(doe: int, yoe: int)
    requires
        0 <= doe <= 146_096,
        yoe == (doe - doe / 1460 + doe / 36_524 - doe / 146_096) / 365,
    ensures
        0 <= yoe <= 399,
        march_days(yoe) <= doe,
        yoe < 399 ==> doe < march_days(yoe + 1),
{
}

proof fn month_of_march_year(doy: int, mp: int, d: int)
    requires
        0 <= doy <= 365,
        mp == (5 * doy + 2) / 153,
        d == doy - (153 * mp + 2) / 5 + 1,
    ensures
        0 <= mp <= 11,
        1 <= d <= 31,
        mp == 1 || mp == 3 || mp == 6 || mp == 8 ==> d <= 30,
        mp == 11 ==> d <= 29,
        mp == 11 && d == 29 ==> doy == 365,
{
}

proof fn march_of_year(era: int, yoe: int)
    requires
        0 <= yoe <= 399,
    ensures
        ({
            let y = yoe + era * 400;
            let base = era * 146_097 + march_days(yoe) - 306;
            &&& days_before_year(y) + 31 + month_length(y, 2) == base
            &&& days_before_year(y + 1) == base + 306
        }),
{
    let y = yoe + era * 400;
    assert((y - 1) / 4 == 100 * era + (yoe - 1) / 4);
    assert((y - 1) / 100 == 4 * era + (yoe - 1) / 100);
    assert((y - 1) / 400 == era + (yoe - 1) / 400);
    assert(y / 4 == 100 * era + yoe / 4);
    assert(y / 100 == 4 * era + yoe / 100);
    assert(y / 400 == era);
    assert(y % 4 == yoe % 4);
    assert(y % 100 == yoe % 100);
    assert(y % 400 == yoe);
}

proof fn last_day_of_march_year(era: int, yoe: int, doe: int)
    requires
        0 <= yoe <= 399,
        0 <= doe <= 146_096,
        march_days(yoe) <= doe,
        yoe < 399 ==> doe < march_days(yoe + 1),
    ensures
        doe - march_days(yoe) <= 365,
        doe - march_days(yoe) == 365 ==> leap(yoe + era * 400 + 1),
{
    let y = yoe + era * 400;
    assert((y + 1) % 4 == (yoe + 1) % 4);
    assert((y + 1) % 100 == (yoe + 1) % 100);
    assert((y + 1) % 400 == (yoe + 1) % 400);
}

proof fn date_of_day(era: int, yoe: int, doy: int, mp: int, d: int, m: int, year: int)
    requires
        0 <= yoe <= 399,
        0 <= doy <= 365,
        doy == 365 ==> leap(yoe + era * 400 + 1),
        mp == (5 * doy + 2) / 153,
        d == doy - (153 * mp + 2) / 5 + 1,
        m == (if mp < 10 {
            mp + 3
        } else {
            mp - 9
        }),
        year == yoe + era * 400 + (if m <= 2 {
            1int
        } else {
            0int
        }),
    ensures
        is_date(year, m, d),
        day_number(year, m, d) == era * 146_097 + march_days(yoe) + doy - 719_468,
{
    month_of_march_year(doy, mp, d);
    march_of_year(era, yoe);
    month_table(year);
    if mp == 0 {
    } else if mp == 1 {
    } else if mp == 2 {
    } else if mp == 3 {
    } else if mp == 4 {
    } else if mp == 5 {
    } else if mp == 6 {
    } else if mp == 7 {
    } else if mp == 8 {
    } else if mp == 9 {
    } else if mp == 10 {
    } else {
        assert(mp == 11);
    }
}

/// Days-since-epoch → (year, month, day), proleptic Gregorian.
pub fn civil_from_days(z: i64) -> (r: (i64, u32, u32))
    requires
        i64::MIN + 146_096 <= z + 719_468 <= i64::MAX,
    ensures
        is_date(r.0 as int, r.1 as int, r.2 as int),
        day_number(r.0 as int, r.1 as int, r.2 as int) == z,
{
    let shifted: i64 = z + 719_468;
    let era: i64 = if shifted >= 0 {
        shifted / 146_097
    } else {
        -((146_096 - shifted) / 146_097)
    };
    assert(0 <= shifted - era * 146_097 <= 146_096);
    let doe: i64 = shifted - era * 146_097;
    let yoe: i64 = (doe - doe / 1460 + doe / 36_524 - doe / 146_096) / 365;
    proof {
        year_of_cycle(doe as int, yoe as int);
        last_day_of_march_year(era as int, yoe as int, doe as int);
    }
    let y: i64 = yoe + era * 400;
    let doy: i64 = doe - (365 * yoe + yoe / 4 - yoe / 100);
    let mp: i64 = (5 * doy + 2) / 153;
    proof {
        month_of_march_year(doy as int, mp as int, doy - (153 * mp + 2) / 5 + 1);
    }
    let d: i64 = doy - (153 * mp + 2) / 5 + 1;
    let m: i64 = if mp < 10 {
        mp + 3
    } else {
        mp - 9
    };
    let year: i64 = if m <= 2 {
        y + 1
    } else {
        y
    };
    proof {
        date_of_day(
            era as int,
            yoe as int,
            doy as int,
            mp as int,
            d as int,
            m as int,
            year as int,
        );
    }
    (year, m as u32, d as u32)
}

proof fn years_grow(a: int, b: int)
    requires
        a < b,
    ensures
        days_before_year(a) + days_before_month(a, 13) <= days_before_year(b),
    decreases b - a,
{
    years_follow_each_other(a);
    if a + 1 < b {
        years_grow(a + 1, b);
        years_follow_each_other(a + 1);
    }
}

proof fn months_grow(year: int, a: int, b: int)
    requires
        1 <= a < b <= 13,
    ensures
        days_before_month(year, a) + month_length(year, a) <= days_before_month(year, b),
    decreases b - a,
{
    if a + 1 < b {
        months_grow(year, a, b - 1);
    }
}

/// Two dates with the same day number are the same date.
pub proof fn dates_are_numbered_once(y1: int, m1: int, d1: int, y2: int, m2: int, d2: int)
    requires
        is_date(y1, m1, d1),
        is_date(y2, m2, d2),
        day_number(y1, m1, d1) == day_number(y2, m2, d2),
    ensures
        y1 == y2 && m1 == m2 && d1 == d2,
{
    months_grow(y1, m1, 13);
    months_grow(y2, m2, 13);
    days_are_counted_up(y1, m1);
    days_are_counted_up(y2, m2);
    if y1 < y2 {
        years_grow(y1, y2);
    } else if y2 < y1 {
        years_grow(y2, y1);
    } else if m1 < m2 {
        months_grow(y1, m1, m2);
    } else if m2 < m1 {
        months_grow(y1, m2, m1);
    }
}

proof fn days_are_counted_up(year: int, month: int)
    requires
        1 <= month <= 13,
    ensures
        days_before_month(year, month) >= 0,
    decreases month,
{
    if month > 1 {
        days_are_counted_up(year, month - 1);
    }
}

// ── The stamp ────────────────────────────────────────────────────────────

/// A number in at least `width` digits.
pub open spec fn digits(n: nat, width: nat) -> Seq<char> {
    padded_text(decimal_text(n), '0', width)
}

fn padded(n: u64, width: usize) -> (r: String)
    ensures
        r@ == digits(n as nat, width as nat),
{
    proof {
        reveal_strlit("0");
    }
    pad_left(decimal(n).as_str(), "0", width)
}

/// The text of a moment: a date and a time of day.
pub open spec fn moment_text(y: nat, mo: nat, d: nat, h: nat, m: nat, s: nat) -> Seq<char> {
    digits(y, 4) + "-"@ + digits(mo, 2) + "-"@ + digits(d, 2) + " "@ + digits(h, 2) + ":"@ + digits(
        m,
        2,
    ) + ":"@ + digits(s, 2) + "Z"@
}

/// The text stands for the second with this number, counted from 1970.
pub open spec fn is_moment_of(text: Seq<char>, secs: u64) -> bool {
    exists|y: nat, mo: nat, d: nat|
        #![trigger day_number(y as int, mo as int, d as int)]
        {
            &&& is_date(y as int, mo as int, d as int)
            &&& day_number(y as int, mo as int, d as int) == secs / 86_400
            &&& text == moment_text(
                y,
                mo,
                d,
                ((secs % 86_400) / 3600) as nat,
                ((secs % 3600) / 60) as nat,
                (secs % 60) as nat,
            )
        }
}

fn moment(y: u64, mo: u64, d: u64, h: u64, m: u64, s: u64) -> (r: String)
    ensures
        r@ == moment_text(y as nat, mo as nat, d as nat, h as nat, m as nat, s as nat),
{
    let mut out = padded(y, 4);
    out.append("-");
    out.append(padded(mo, 2).as_str());
    out.append("-");
    out.append(padded(d, 2).as_str());
    out.append(" ");
    out.append(padded(h, 2).as_str());
    out.append(":");
    out.append(padded(m, 2).as_str());
    out.append(":");
    out.append(padded(s, 2).as_str());
    out.append("Z");
    out
}

/// No date before 1970 has a number from 0 on.
proof fn early_dates_are_negative(y: int, mo: int, d: int)
    requires
        is_date(y, mo, d),
        day_number(y, mo, d) >= 0,
    ensures
        y >= 1970,
{
    if y < 1970 {
        years_grow(y, 1970);
        months_grow(y, mo, 13);
    }
}

/// A second in UTC as `YYYY-MM-DD HH:MM:SSZ`.
pub fn utc_stamp(secs: u64) -> (r: String)
    ensures
        is_moment_of(r@, secs),
{
    let (y, mo, d) = civil_from_days((secs / 86_400) as i64);
    proof {
        early_dates_are_negative(y as int, mo as int, d as int);
    }
    let out = moment(
        y as u64,
        mo as u64,
        d as u64,
        (secs % 86_400) / 3600,
        (secs % 3600) / 60,
        secs % 60,
    );
    assert(day_number((y as nat) as int, (mo as nat) as int, (d as nat) as int) == secs / 86_400);
    out
}

/// The parts of a build stamp.
pub open spec fn stamp_text(
    version: Seq<char>,
    debug: bool,
    built: Seq<char>,
    path: Seq<char>,
) -> Seq<char> {
    "gras "@ + version + " ["@ + (if debug {
        "debug"@
    } else {
        "release"@
    }) + "] built "@ + built + " — exe "@ + path
}

/// One line about the running program: its version, its profile, when it was
/// built and where it lies. What is not known is said to be unknown.
pub fn build_stamp(version: &str, debug: bool, built: Option<u64>, path: Option<&str>) -> (r: String)
    ensures
        exists|b: Seq<char>|
            #![trigger stamp_text(version@, debug, b, path_text(path))]
            {
                &&& r@ == stamp_text(version@, debug, b, path_text(path))
                &&& match built {
                    Some(secs) => is_moment_of(b, secs),
                    None => b == "unknown"@,
                }
            },
{
    let when = match built {
        Some(secs) => utc_stamp(secs),
        None => String::from_str("unknown"),
    };
    let mut out = String::from_str("gras ");
    out.append(version);
    out.append(" [");
    out.append(
        if debug {
            "debug"
        } else {
            "release"
        },
    );
    out.append("] built ");
    out.append(when.as_str());
    out.append(" — exe ");
    match path {
        Some(p) => {
            out.append(p);
        },
        None => {
            out.append("-");
        },
    }
    assert(out@ == stamp_text(version@, debug, when@, path_text(path)));
    out
}

/// Where the program lies.
pub open spec fn path_text(path: Option<&str>) -> Seq<char> {
    match path {
        Some(p) => p@,
        None => "-"@,
    }
}

/// The first of January 1970 has number 0, and every day one more than the day
/// before it, within a month, into the next one and into the next year.
pub proof fn days_are_counted_one_by_one(year: int, month: int, day: int)
    requires
        is_date(year, month, day),
    ensures
        day_number(1970, 1, 1) == 0,
        is_date(year, month, day + 1) ==> day_number(year, month, day + 1) == day_number(
            year,
            month,
            day,
        ) + 1,
        !is_date(year, month, day + 1) && month < 12 ==> day_number(year, month + 1, 1)
            == day_number(year, month, day) + 1,
        !is_date(year, month, day + 1) && month == 12 ==> day_number(year + 1, 1, 1)
            == day_number(year, month, day) + 1,
{
    years_follow_each_other(year);
    month_table(year);
}

/// The lengths of the months: February has a day more in every fourth year but
/// for the hundredth ones that are no four-hundredth ones.
pub proof fn months_have_their_lengths(year: int, month: int)
    requires
        1 <= month <= 12,
    ensures
        month_length(year, month) == (if month == 2 {
            if year % 400 == 0 || (year % 4 == 0 && year % 100 != 0) {
                29int
            } else {
                28int
            }
        } else if month == 4 || month == 6 || month == 9 || month == 11 {
            30int
        } else {
            31int
        }),
{
}

} // verus!
