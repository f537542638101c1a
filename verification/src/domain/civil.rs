//! Dates of the Gregorian calendar and the days since 1970-01-01 that they
//! stand for.
use vstd::prelude::*;

use crate::text::{decimal, decimal_text, pad_zeros, zero_padded};

verus! {

/// Whether a year has 366 days.
pub open spec fn is_leap(y: int) -> bool {
    y % 4 == 0 && (y % 100 != 0 || y % 400 == 0)
}

/// The length of a month.
pub open spec fn days_in_month(y: int, m: int) -> int {
    if m == 2 {
        if is_leap(y) {
            29
        } else {
            28
        }
    } else if m == 4 || m == 6 || m == 9 || m == 11 {
        30
    } else {
        31
    }
}

/// Whether there is such a date.
pub open spec fn is_date(y: int, m: int, d: int) -> bool {
    1 <= m <= 12 && 1 <= d <= days_in_month(y, m)
}

/// The day after a date.
pub open spec fn next_day(y: int, m: int, d: int) -> (int, int, int) {
    if d < days_in_month(y, m) {
        (y, m, d + 1)
    } else if m < 12 {
        (y, m + 1, 1)
    } else {
        (y + 1, 1, 1)
    }
}

/// The days before a year, counted in years that start in March.
pub open spec fn days_before_march_year(y: int) -> int {
    365 * y + y / 4 - y / 100 + y / 400
}

/// The days before a month, counted from March.
pub open spec fn days_before_march_month(mp: int) -> int {
    (153 * mp + 2) / 5
}

/// The number of the day that stands `d - 1` days after the start of a month,
/// which is counted from March.
pub open spec fn march_day_number(y: int, mp: int, d: int) -> int {
    days_before_march_year(y) + days_before_march_month(mp) + d - 1 - 719_468
}

/// The number of a date's day: 0 for 1970-01-01. Months beyond December count
/// on, as do days beyond the end of a month.
pub open spec fn day_number(y: int, m: int, d: int) -> int {
    if m > 2 {
        march_day_number(y, m - 3, d)
    } else {
        march_day_number(y - 1, m + 9, d)
    }
}

/// Days are numbered one after the other from 1970-01-01 on, and back from it.
pub proof fn days_are_counted(y: int, m: int, d: int)
    requires
        is_date(y, m, d),
    ensures
        day_number(1970, 1, 1) == 0,
        is_date(next_day(y, m, d).0, next_day(y, m, d).1, next_day(y, m, d).2),
        day_number(next_day(y, m, d).0, next_day(y, m, d).1, next_day(y, m, d).2) == day_number(
            y,
            m,
            d,
        ) + 1,
{
    year_length(y - 1);
    year_length(y);
}

/// A year that starts in March has 366 days where the February that ends it is
/// a leap one.
proof fn year_length(y: int)
    ensures
        days_before_march_year(y + 1) - days_before_march_year(y) == (if is_leap(y + 1) {
            366int
        } else {
            365int
        }),
{
    let n = y + 1;
    assert(n / 4 - (n - 1) / 4 == (if n % 4 == 0 {
        1int
    } else {
        0int
    }));
    assert(n / 100 - (n - 1) / 100 == (if n % 100 == 0 {
        1int
    } else {
        0int
    }));
    assert(n / 400 - (n - 1) / 400 == (if n % 400 == 0 {
        1int
    } else {
        0int
    }));
    assert(n % 100 == 0 ==> n % 4 == 0);
    assert(n % 400 == 0 ==> n % 100 == 0);
}

proof fn years_are_apart(a: int, b: int)
    requires
        a < b,
    ensures
        days_before_march_year(b) >= days_before_march_year(a + 1),
    decreases b - a,
{
    if a + 1 < b {
        years_are_apart(a, b - 1);
        year_length(b - 1);
    }
}

/// Different dates have different numbers.
pub proof fn dates_are_distinct(y1: int, m1: int, d1: int, y2: int, m2: int, d2: int)
    requires
        is_date(y1, m1, d1),
        is_date(y2, m2, d2),
        day_number(y1, m1, d1) == day_number(y2, m2, d2),
    ensures
        y1 == y2 && m1 == m2 && d1 == d2,
{
    let (ya, ma) = if m1 > 2 {
        (y1, m1 - 3)
    } else {
        (y1 - 1, m1 + 9)
    };
    let (yb, mb) = if m2 > 2 {
        (y2, m2 - 3)
    } else {
        (y2 - 1, m2 + 9)
    };
    year_length(ya);
    year_length(yb);
    if ya < yb {
        years_are_apart(ya, yb);
    } else if yb < ya {
        years_are_apart(yb, ya);
    }
    assert(ya == yb);
    assert(ma == mb);
}

/// Days are numbered in the order of their dates.
pub proof fn dates_in_order(y1: int, m1: int, d1: int, y2: int, m2: int, d2: int)
    requires
        is_date(y1, m1, d1),
        is_date(y2, m2, d2),
        day_number(y1, m1, d1) < day_number(y2, m2, d2),
    ensures
        y1 < y2 || (y1 == y2 && (m1 < m2 || (m1 == m2 && d1 < d2))),
{
    let (ya, ma) = if m1 > 2 {
        (y1, m1 - 3)
    } else {
        (y1 - 1, m1 + 9)
    };
    let (yb, mb) = if m2 > 2 {
        (y2, m2 - 3)
    } else {
        (y2 - 1, m2 + 9)
    };
    year_length(ya);
    year_length(yb);
    if yb < ya {
        years_are_apart(yb, ya);
    }
    assert(ya <= yb);
    assert(ya == yb ==> ma <= mb);
}

/// The number of the day `d - 1` days after the start of a month, which is
/// counted from March.
pub fn march_days(y: i64, mp: i64, d: i64) -> (days: i64)
    requires
        -10_000_000_000_000_000 <= y <= 10_000_000_000_000_000,
        0 <= mp <= 10_000_000_000_000_000,
        -10_000_000_000_000_000 <= d <= 10_000_000_000_000_000,
    ensures
        days == march_day_number(y as int, mp as int, d as int),
{
    let shifted: i64 = if y >= 0 {
        y
    } else {
        y - 399
    };
    let era: i64 = if shifted >= 0 {
        shifted / 400
    } else {
        -((-shifted) / 400)
    };
    proof {
        if y < 0 {
            let p = -shifted;
            assert(p / 400 * 400 + p % 400 == p);
        }
        assert(era == y as int / 400);
    }
    let yoe: i64 = y - era * 400;
    assert(0 <= yoe < 400);
    let doy: i64 = (153 * mp + 2) / 5 + d - 1;
    let doe: i64 = yoe * 365 + yoe / 4 - yoe / 100 + doy;
    proof {
        assert(y as int / 4 == era * 100 + yoe as int / 4);
        assert(y as int / 100 == era * 4 + yoe as int / 100);
    }
    era * 146_097 + doe - 719_468
}

/// The date of a day.
pub fn civil_from_days(z: i64) -> (date: (i64, u32, u32))
    requires
        -1_000_000_000_000_000_000 <= z <= 1_000_000_000_000_000_000,
    ensures
        is_date(date.0 as int, date.1 as int, date.2 as int),
        day_number(date.0 as int, date.1 as int, date.2 as int) == z,
        -1_000_000_000_000_000_000 <= date.0 <= 1_000_000_000_000_000_000,
{
    let z0: i64 = z + 719_468;
    let shifted: i64 = if z0 >= 0 {
        z0
    } else {
        z0 - 146_096
    };
    let era: i64 = if shifted >= 0 {
        shifted / 146_097
    } else {
        -((-shifted) / 146_097)
    };
    proof {
        if z0 < 0 {
            let p = -shifted;
            assert(p / 146_097 * 146_097 + p % 146_097 == p);
        }
        assert(era == z0 as int / 146_097);
    }
    let doe: i64 = z0 - era * 146_097;
    assert(0 <= doe < 146_097);
    let yoe: i64 = (doe - doe / 1460 + doe / 36_524 - doe / 146_096) / 365;
    proof {
        year_of_era(doe as int);
        date_of_day(era as int, doe as int);
    }
    let doy: i64 = doe - (365 * yoe + yoe / 4 - yoe / 100);
    let y: i64 = yoe + era * 400;
    let mp: i64 = (5 * doy + 2) / 153;
    let d: i64 = doy - (153 * mp + 2) / 5 + 1;
    let m: i64 = if mp < 10 {
        mp + 3
    } else {
        mp - 9
    };
    let year: i64 = if m <= 2 {
        y + 1
    } else {
        y
    };
    (year, m as u32, d as u32)
}

/// The year of an era and the day of that year that a day of the era falls on.
proof fn year_of_era(doe: int)
    requires
        0 <= doe < 146_097,
    ensures
        ({
            let yoe = (doe - doe / 1460 + doe / 36_524 - doe / 146_096) / 365;
            let doy = doe - (365 * yoe + yoe / 4 - yoe / 100);
            &&& 0 <= yoe < 400
            &&& 0 <= doy <= 365
            &&& doy == 365 ==> is_leap(yoe + 1)
        }),
{
    let yoe = (doe - doe / 1460 + doe / 36_524 - doe / 146_096) / 365;
    let century = doe / 36_524;
    let fours = doe / 1460;
    assert(0 <= century <= 4);
    assert(0 <= fours <= 100);
    let q = yoe / 4;
    let c = yoe / 100;
}

/// The month and the day of the month that a day of a year falls on.
proof fn month_of_year(doy: int)
    requires
        0 <= doy <= 365,
    ensures
        ({
            let mp = (5 * doy + 2) / 153;
            let d = doy - (153 * mp + 2) / 5 + 1;
            &&& 0 <= mp <= 11
            &&& 1 <= d <= 31
            &&& (mp == 1 || mp == 3 || mp == 6 || mp == 8) ==> d <= 30
            &&& mp == 11 ==> d <= 29
            &&& mp == 11 && d == 29 ==> doy == 365
        }),
{
}

/// The date that a day of an era falls on.
proof fn date_of_day(era: int, doe: int)
    requires
        0 <= doe < 146_097,
    ensures
        ({
            let yoe = (doe - doe / 1460 + doe / 36_524 - doe / 146_096) / 365;
            let doy = doe - (365 * yoe + yoe / 4 - yoe / 100);
            let y = yoe + era * 400;
            let mp = (5 * doy + 2) / 153;
            let d = doy - (153 * mp + 2) / 5 + 1;
            let m = if mp < 10 {
                mp + 3
            } else {
                mp - 9
            };
            let year = if m <= 2 {
                y + 1
            } else {
                y
            };
            &&& 0 <= mp <= 11
            &&& is_date(year, m, d)
            &&& day_number(year, m, d) == era * 146_097 + doe - 719_468
        }),
{
    let yoe = (doe - doe / 1460 + doe / 36_524 - doe / 146_096) / 365;
    let doy = doe - (365 * yoe + yoe / 4 - yoe / 100);
    let y = yoe + era * 400;
    year_of_era(doe);
    month_of_year(doy);
    era_years(era, yoe);
    let mp = (5 * doy + 2) / 153;
    let d = doy - (153 * mp + 2) / 5 + 1;
    assert(march_day_number(y, mp, d) == era * 146_097 + doe - 719_468);
}

proof fn era_years(era: int, yoe: int)
    requires
        0 <= yoe < 400,
    ensures
        days_before_march_year(yoe + era * 400) == era * 146_097 + (365 * yoe + yoe / 4 - yoe
            / 100),
        is_leap(yoe + era * 400 + 1) == is_leap(yoe + 1),
{
    let y = yoe + era * 400;
    assert(y / 4 == era * 100 + yoe / 4);
    assert(y / 100 == era * 4 + yoe / 100);
    assert(y / 400 == era);
    assert((y + 1) % 4 == (yoe + 1) % 4);
    assert((y + 1) % 100 == (yoe + 1) % 100);
    assert((y + 1) % 400 == (yoe + 1) % 400);
}

/// A year, month and day as they are written: `YYYY-MM-DD`.
pub open spec fn date_text(y: int, m: int, d: int) -> Seq<char> {
    padded_year(y) + "-"@ + zero_padded(decimal(m as nat), 2) + "-"@ + zero_padded(
        decimal(d as nat),
        2,
    )
}

/// A year in at least four characters, zeros after the sign of a negative one.
pub open spec fn padded_year(y: int) -> Seq<char> {
    if y < 0 {
        seq!['-'] + zero_padded(decimal((-y) as nat), 3)
    } else {
        zero_padded(decimal(y as nat), 4)
    }
}

fn year_text(y: i64) -> (text: String)
    requires
        -1_000_000_000_000_000_000 <= y <= 1_000_000_000_000_000_000,
    ensures
        text@ == padded_year(y as int),
{
    if y < 0 {
        let digits = pad_zeros(decimal_text((-y) as u64).as_str(), 3);
        let mut text = String::new();
        text.push('-');
        text.append(digits.as_str());
        assert(text@ =~= padded_year(y as int));
        text
    } else {
        pad_zeros(decimal_text(y as u64).as_str(), 4)
    }
}

/// Writes a date.
pub fn write_date(y: i64, m: u32, d: u32) -> (text: String)
    requires
        -1_000_000_000_000_000_000 <= y <= 1_000_000_000_000_000_000,
    ensures
        text@ == date_text(y as int, m as int, d as int),
{
    year_text(y).concat("-").concat(two_digits(m as u64).as_str()).concat("-").concat(
        two_digits(d as u64).as_str(),
    )
}

/// A number in at least two digits.
pub fn two_digits(n: u64) -> (text: String)
    ensures
        text@ == zero_padded(decimal(n as nat), 2),
{
    pad_zeros(decimal_text(n).as_str(), 2)
}

/// The seconds of a day as they are written: `hh:mm:ss`.
pub open spec fn time_text(rem: int) -> Seq<char> {
    zero_padded(decimal((rem / 3600) as nat), 2) + ":"@ + zero_padded(
        decimal((rem % 3600 / 60) as nat),
        2,
    ) + ":"@ + zero_padded(decimal((rem % 60) as nat), 2)
}

/// Writes the seconds of a day.
pub fn write_time(rem: u64) -> (text: String)
    ensures
        text@ == time_text(rem as int),
{
    two_digits(rem / 3600).concat(":").concat(two_digits((rem % 3600) / 60).as_str()).concat(
        ":",
    ).concat(two_digits(rem % 60).as_str())
}

/// An instant as it is written: `YYYY-MM-DDThh:mm:ss.mmmZ`.
pub open spec fn instant_text(y: int, m: int, d: int, rem: int, millis: int) -> Seq<char> {
    date_text(y, m, d) + "T"@ + time_text(rem) + "."@ + zero_padded(decimal(millis as nat), 3)
        + "Z"@
}

/// Whether a text writes the instant so many seconds and milliseconds after the
/// start of 1970.
pub open spec fn writes_instant(text: Seq<char>, secs: int, millis: int) -> bool {
    exists|y: int, m: int, d: int|
        #![trigger is_date(y, m, d)]
        is_date(y, m, d) && day_number(y, m, d) == secs / 86_400 && text == instant_text(
            y,
            m,
            d,
            secs % 86_400,
            millis,
        )
}

/// Writes the instant so many seconds and milliseconds after the start of 1970.
pub fn write_instant(secs: i64, millis: u32) -> (text: String)
    ensures
        writes_instant(text@, secs as int, millis as int),
{
    let mut days: i64 = secs / 86_400;
    let mut rem: i64 = secs % 86_400;
    if rem < 0 {
        days = days - 1;
        rem = rem + 86_400;
    }
    assert(days == secs as int / 86_400 && rem == secs as int % 86_400);
    write_day_instant(days, rem as u64, millis)
}

/// Writes the instant so many seconds and milliseconds into a day.
pub fn write_day_instant(days: i64, rem: u64, millis: u32) -> (text: String)
    requires
        -1_000_000_000_000_000_000 <= days <= 1_000_000_000_000_000_000,
        rem < 86_400,
    ensures
        writes_instant(text@, days * 86_400 + rem, millis as int),
{
    let (y, m, d) = civil_from_days(days);
    let text = write_date(y, m, d).concat("T").concat(write_time(rem).as_str()).concat(
        ".",
    ).concat(pad_zeros(decimal_text(millis as u64).as_str(), 3).as_str()).concat("Z");
    proof {
        let secs = days * 86_400 + rem;
        assert(secs / 86_400 == days && secs % 86_400 == rem);
        assert(is_date(y as int, m as int, d as int));
        assert(text@ =~= instant_text(y as int, m as int, d as int, rem as int, millis as int));
    }
    text
}

} // verus!
