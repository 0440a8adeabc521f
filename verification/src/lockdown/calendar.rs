//! The Gregorian calendar from 1970 on.

use vstd::prelude::*;

verus! {

/// Whether `y` is a leap year.
pub open spec fn leap(y: int) -> bool {
    y % 4 == 0 && (y % 100 != 0 || y % 400 == 0)
}

/// The days of a year.
pub open spec fn year_len(y: int) -> int {
    if leap(y) {
        366
    } else {
        365
    }
}

/// The days of a month.
pub open spec fn month_len(y: int, m: int) -> int {
    if m == 2 {
        if leap(y) {
            29
        } else {
            28
        }
    } else if m == 4 || m == 6 || m == 9 || m == 11 {
        30
    } else {
        31
    }
}

/// The days from the start of 1970 to the start of year `y`.
pub open spec fn year_start(y: int) -> int
    decreases y - 1970,
{
    if y <= 1970 {
        0
    } else {
        year_start(y - 1) + year_len(y - 1)
    }
}

/// The days from the start of year `y` to the start of month `m`.
pub open spec fn month_start(y: int, m: int) -> int
    decreases m,
{
    if m <= 1 {
        0
    } else {
        month_start(y, m - 1) + month_len(y, m - 1)
    }
}

/// Whether `y`, `m` and `d` are a date.
pub open spec fn is_date(y: int, m: int, d: int) -> bool {
    y >= 1970 && 1 <= m <= 12 && 1 <= d <= month_len(y, m)
}

/// The days from the start of 1970 to a date.
pub open spec fn day_number(y: int, m: int, d: int) -> int {
    year_start(y) + month_start(y, m) + d - 1
}

/// Whether `y` is a leap year.
pub fn is_leap(y: u64) -> (b: bool)
    ensures
        b == leap(y as int),
{
    y % 4 == 0 && (y % 100 != 0 || y % 400 == 0)
}

fn days_in_month(y: u64, m: u64) -> (n: u64)
    ensures
        n == month_len(y as int, m as int),
{
    if m == 2 {
        if is_leap(y) {
            29
        } else {
            28
        }
    } else if m == 4 || m == 6 || m == 9 || m == 11 {
        30
    } else {
        31
    }
}

/// The months of a year fill it.
proof fn lemma_year_full(y: int)
    ensures
        month_start(y, 13) == year_len(y),
{
    reveal_with_fuel(month_start, 14);
}

/// The date that is `days` days after the start of 1970.
pub fn days_to_ymd(days: u64) -> (ymd: (u64, u64, u64))
    ensures
        is_date(ymd.0 as int, ymd.1 as int, ymd.2 as int),
        day_number(ymd.0 as int, ymd.1 as int, ymd.2 as int) == days,
{
    let mut left: u64 = days;
    let mut y: u64 = 1970;
    loop
        invariant
            y >= 1970,
            year_start(y as int) + left == days,
            365 * (y - 1970) + left <= days,
        ensures
            y >= 1970,
            year_start(y as int) + left == days,
            left < year_len(y as int),
        decreases left,
    {
        let len: u64 = if is_leap(y) {
            366
        } else {
            365
        };
        if left < len {
            break;
        }
        left -= len;
        y += 1;
    }
    let mut m: u64 = 1;
    loop
        invariant
            y >= 1970,
            1 <= m <= 12,
            left < year_len(y as int),
            year_start(y as int) + month_start(y as int, m as int) + left == days,
            month_start(y as int, m as int) + left < year_len(y as int),
        ensures
            y >= 1970,
            1 <= m <= 12,
            left < month_len(y as int, m as int),
            year_start(y as int) + month_start(y as int, m as int) + left == days,
        decreases 13 - m,
    {
        let len: u64 = days_in_month(y, m);
        if left < len {
            break;
        }
        proof {
            lemma_year_full(y as int);
            if m == 12 {
                assert(month_start(y as int, 13) == month_start(y as int, 12) + month_len(
                    y as int,
                    12,
                ));
            }
        }
        left -= len;
        m += 1;
    }
    (y, m, left + 1)
}

proof fn lemma_year_start_grows(a: int, b: int)
    requires
        1970 <= a < b,
    ensures
        year_start(a) + year_len(a) <= year_start(b),
    decreases b - a,
{
    if b > a + 1 {
        lemma_year_start_grows(a, b - 1);
    }
}

proof fn lemma_month_start_grows(y: int, a: int, b: int)
    requires
        1 <= a < b,
    ensures
        month_start(y, a) + month_len(y, a) <= month_start(y, b),
    decreases b - a,
{
    if b > a + 1 {
        lemma_month_start_grows(y, a, b - 1);
    }
}

/// No two dates have the same day number, so a day number stands for one date.
pub proof fn lemma_day_number_injective(y1: int, m1: int, d1: int, y2: int, m2: int, d2: int)
    requires
        is_date(y1, m1, d1),
        is_date(y2, m2, d2),
        day_number(y1, m1, d1) == day_number(y2, m2, d2),
    ensures
        y1 == y2,
        m1 == m2,
        d1 == d2,
{
    lemma_day_in_year(y1, m1, d1);
    lemma_day_in_year(y2, m2, d2);
    if y1 < y2 {
        lemma_year_start_grows(y1, y2);
    } else if y2 < y1 {
        lemma_year_start_grows(y2, y1);
    } else if m1 < m2 {
        lemma_month_start_grows(y1, m1, m2);
    } else if m2 < m1 {
        lemma_month_start_grows(y1, m2, m1);
    }
}

proof fn lemma_day_in_year(y: int, m: int, d: int)
    requires
        is_date(y, m, d),
    ensures
        0 <= month_start(y, m) + d - 1 < year_len(y),
{
    lemma_year_full(y);
    lemma_month_start_grows(y, m, 13);
    if m > 1 {
        lemma_month_start_grows(y, 1, m);
    }
}

/// The days before a year: 365 for each year, and one more for every fourth, less one for
/// every hundredth, and one more for every four hundredth.
pub proof fn lemma_year_start(y: int)
    requires
        y >= 1970,
    ensures
        year_start(y) == 365 * (y - 1970) + (y - 1) / 4 - (y - 1) / 100 + (y - 1) / 400 - 477,
    decreases y,
{
    if y > 1970 {
        lemma_year_start(y - 1);
        let p = y - 1;
        assert(p / 4 == (p - 1) / 4 + if p % 4 == 0 { 1int } else { 0 });
        assert(p / 100 == (p - 1) / 100 + if p % 100 == 0 { 1int } else { 0 });
        assert(p / 400 == (p - 1) / 400 + if p % 400 == 0 { 1int } else { 0 });
        assert(p % 400 == 0 ==> p % 100 == 0);
        assert(p % 100 == 0 ==> p % 4 == 0);
    }
}

/// Months alternate between 31 and 30 days, starting over in August; February takes what
/// is left of the year.
pub proof fn lemma_month_lengths(y: int, m: int)
    requires
        1 <= m <= 12,
    ensures
        m != 2 ==> month_len(y, m) == 30 + (m + m / 8) % 2,
        month_len(y, 2) == year_len(y) - 337,
{
}

/// Dates follow each other: the next day of the month, or the first of the next month, or
/// the first of the next year has the next number; the first of January 1970 has zero.
pub proof fn lemma_next_day(y: int, m: int, d: int)
    requires
        is_date(y, m, d),
    ensures
        day_number(1970, 1, 1) == 0,
        d < month_len(y, m) ==> is_date(y, m, d + 1) && day_number(y, m, d + 1) == day_number(
            y,
            m,
            d,
        ) + 1,
        d == month_len(y, m) && m < 12 ==> is_date(y, m + 1, 1) && day_number(y, m + 1, 1)
            == day_number(y, m, d) + 1,
        d == month_len(y, m) && m == 12 ==> is_date(y + 1, 1, 1) && day_number(y + 1, 1, 1)
            == day_number(y, m, d) + 1,
{
    lemma_year_full(y);
    assert(month_start(y, 13) == month_start(y, 12) + month_len(y, 12));
}

} // verus!
