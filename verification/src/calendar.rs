//! The proleptic Gregorian calendar: month lengths, day numbers and dates.

use vstd::arithmetic::div_mod::{lemma_hoist_over_denominator, lemma_mod_multiples_vanish};
use vstd::prelude::*;

verus! {

/// The earliest year a [`Date`] may lie in. The supported years are those
/// of `chrono::NaiveDate`, so that every supported date has a timestamp.
pub const MIN_YEAR: i32 = -262143;

/// The latest year a [`Date`] may lie in.
pub const MAX_YEAR: i32 = 262142;

/// A year has a leap day when it is divisible by 4, unless it is a century
/// that is not divisible by 400.
pub open spec fn is_leap_year(year: int) -> bool {
    year % 4 == 0 && (year % 100 != 0 || year % 400 == 0)
}

/// The number of days of a month, for `month` in `1..=12`.
pub open spec fn days_in_month(year: int, month: int) -> int {
    if month == 2 {
        if is_leap_year(year) {
            29
        } else {
            28
        }
    } else if month == 4 || month == 6 || month == 9 || month == 11 {
        30
    } else {
        31
    }
}

/// The number of days of a year.
pub open spec fn days_in_year(year: int) -> int {
    if is_leap_year(year) {
        366
    } else {
        365
    }
}

/// The number of days between January 1 of year 1 and January 1 of `year`
/// (negative for years before year 1).
pub open spec fn days_before_year(year: int) -> int {
    let p = year - 1;
    365 * p + p / 4 - p / 100 + p / 400
}

/// The number of days of `year` that lie before the first day of `month`.
pub open spec fn days_before_month(year: int, month: int) -> int
    decreases month,
{
    if month <= 1 {
        0
    } else {
        days_before_month(year, month - 1) + days_in_month(year, month - 1)
    }
}

/// The position of a day on the calendar, counted so that January 1 of
/// year 1 is day 1 and consecutive days have consecutive numbers.
pub open spec fn day_number(year: int, month: int, day: int) -> int {
    days_before_year(year) + days_before_month(year, month) + day
}

/// Whether `month` and `day` name a day of `year`.
pub open spec fn is_calendar_day(year: int, month: int, day: int) -> bool {
    &&& 1 <= month <= 12
    &&& 1 <= day <= days_in_month(year, month)
}

/// Whether `year`-`month`-`day` names a day of the calendar within the
/// supported years.
pub open spec fn is_valid_date(year: int, month: int, day: int) -> bool {
    &&& MIN_YEAR <= year <= MAX_YEAR
    &&& is_calendar_day(year, month, day)
}

/// The day number of the earliest supported date.
pub open spec fn first_day_number() -> int {
    day_number(MIN_YEAR as int, 1, 1)
}

/// The month before `month`, December before January.
pub open spec fn previous_month(month: int) -> int {
    if month == 1 {
        12
    } else {
        month - 1
    }
}

/// The year in which the month before `month` of `year` lies.
pub open spec fn year_of_previous_month(year: int, month: int) -> int {
    if month == 1 {
        year - 1
    } else {
        year
    }
}

/// A day of the calendar.
#[derive(Clone, Copy, Debug, PartialEq, Eq, Structural)]
pub struct Date {
    pub year: i32,
    pub month: u32,
    pub day: u32,
}

impl Date {
    /// The date exists and lies within the supported years.
    pub open spec fn wf(self) -> bool {
        is_valid_date(self.year as int, self.month as int, self.day as int)
    }

    /// The position of the date on the calendar.
    pub open spec fn day_number(self) -> int {
        day_number(self.year as int, self.month as int, self.day as int)
    }
}

/// Decides whether `year` has a leap day.
pub fn leap_year(year: i32) -> (r: bool)
    ensures
        r == is_leap_year(year as int),
{
    // Shifted by a multiple of 400 so that the remainders are taken of a
    // non-negative number.
    let shifted: i64 = year as i64 + 2147484000;
    shifted % 4 == 0 && (shifted % 100 != 0 || shifted % 400 == 0)
}

/// The number of days of the given month.
pub fn get_day_month(year: i32, month: u32) -> (r: u32)
    ensures
        r == days_in_month(year as int, month as int),
{
    if month == 2 {
        if leap_year(year) {
            29
        } else {
            28
        }
    } else if month == 4 || month == 6 || month == 9 || month == 11 {
        30
    } else {
        31
    }
}

/// Decides whether `year`-`month`-`day` is a supported date.
pub fn valid_date(year: i32, month: u32, day: u32) -> (r: bool)
    ensures
        r == is_valid_date(year as int, month as int, day as int),
{
    MIN_YEAR <= year && year <= MAX_YEAR && 1 <= month && month <= 12 && 1 <= day && day
        <= get_day_month(year, month)
}

/// The date that lies `day_remove` days before `year`-`month`-`day`.
///
/// Returns `None` when the given date does not exist or is not supported,
/// and when the day asked for lies before the earliest supported date.
pub fn get_past_date(year: i32, month: u32, day: u32, day_remove: u32) -> (r: Option<Date>)
    ensures
        r is Some <==> is_valid_date(year as int, month as int, day as int) && day_number(
            year as int,
            month as int,
            day as int,
        ) - day_remove >= first_day_number(),
        r matches Some(date) ==> date.wf() && date.day_number() == day_number(
            year as int,
            month as int,
            day as int,
        ) - day_remove,
{
    if !valid_date(year, month, day) {
        return None;
    }
    let ghost goal = day_number(year as int, month as int, day as int) - day_remove;
    // Whole cycles of 400 years are taken off first: they keep month and day.
    let cycles: u32 = day_remove / 146097;
    let rest: u32 = day_remove % 146097;
    let mut left: u32 = rest;
    let mut y: i32 = year - 400 * (cycles as i32);
    let mut m: u32 = month;
    let mut d: u32 = day;
    proof {
        lemma_cycles(year as int, month as int, day as int, cycles as int);
    }
    while left >= d
        invariant
            is_calendar_day(y as int, m as int, d as int),
            day_number(y as int, m as int, d as int) - left == goal,
            left <= rest < 146097,
            year - 400 * cycles - (rest - left) <= y <= year,
            cycles <= 29398,
            MIN_YEAR <= year <= MAX_YEAR,
        decreases left,
    {
        proof {
            lemma_month_start(y as int, m as int);
        }
        left = left - d;
        if m == 1 {
            m = 12;
            y = y - 1;
        } else {
            m = m - 1;
        }
        d = get_day_month(y, m);
    }
    d = d - left;
    if y < MIN_YEAR {
        proof {
            lemma_day_number_ordered(y as int, m as int, d as int, MIN_YEAR as int, 1, 1);
        }
        None
    } else {
        proof {
            lemma_first_day(y as int, m as int, d as int);
        }
        Some(Date { year: y, month: m, day: d })
    }
}

/// The days that precede each month of a year, written out.
pub proof fn lemma_month_offsets(year: int)
    ensures
        days_before_month(year, 1) == 0,
        days_before_month(year, 2) == 31,
        days_before_month(year, 3) == days_in_year(year) - 306,
        days_before_month(year, 4) == days_in_year(year) - 275,
        days_before_month(year, 5) == days_in_year(year) - 245,
        days_before_month(year, 6) == days_in_year(year) - 214,
        days_before_month(year, 7) == days_in_year(year) - 184,
        days_before_month(year, 8) == days_in_year(year) - 153,
        days_before_month(year, 9) == days_in_year(year) - 122,
        days_before_month(year, 10) == days_in_year(year) - 92,
        days_before_month(year, 11) == days_in_year(year) - 61,
        days_before_month(year, 12) == days_in_year(year) - 31,
        days_before_month(year, 13) == days_in_year(year),
{
    reveal_with_fuel(days_before_month, 14);
}

/// A year begins where the year before it ends.
pub proof fn lemma_year_step(year: int)
    ensures
        days_before_year(year + 1) == days_before_year(year) + days_in_year(year),
{
}

/// Leap years repeat every 400 years.
pub proof fn lemma_leap_cycles(year: int, cycles: int)
    ensures
        is_leap_year(year - 400 * cycles) == is_leap_year(year),
{
    let shifted = year - 400 * cycles;
    assert(shifted % 4 == year % 4) by {
        lemma_mod_multiples_vanish(-100 * cycles, year, 4);
    }
    assert(shifted % 100 == year % 100) by {
        lemma_mod_multiples_vanish(-4 * cycles, year, 100);
    }
    assert(shifted % 400 == year % 400) by {
        lemma_mod_multiples_vanish(-cycles, year, 400);
    }
}

/// 400 years hold 146097 days.
pub proof fn lemma_year_cycles(year: int, cycles: int)
    ensures
        days_before_year(year - 400 * cycles) == days_before_year(year) - 146097 * cycles,
{
    let p = year - 1;
    let q = p - 400 * cycles;
    assert(q / 4 == p / 4 - 100 * cycles) by {
        lemma_hoist_over_denominator(p, -100 * cycles, 4);
    }
    assert(q / 100 == p / 100 - 4 * cycles) by {
        lemma_hoist_over_denominator(p, -4 * cycles, 100);
    }
    assert(q / 400 == p / 400 - cycles) by {
        lemma_hoist_over_denominator(p, -cycles, 400);
    }
}

/// The calendar repeats every 400 years, which hold 146097 days.
pub proof fn lemma_cycles(year: int, month: int, day: int, cycles: int)
    requires
        1 <= month <= 12,
    ensures
        days_in_month(year - 400 * cycles, month) == days_in_month(year, month),
        day_number(year - 400 * cycles, month, day) == day_number(year, month, day) - 146097
            * cycles,
{
    lemma_leap_cycles(year, cycles);
    lemma_year_cycles(year, cycles);
    lemma_month_offsets(year);
    lemma_month_offsets(year - 400 * cycles);
}

/// Later years begin on later days.
pub proof fn lemma_years_ordered(earlier: int, later: int)
    requires
        earlier <= later,
    ensures
        days_before_year(earlier) <= days_before_year(later),
{
}

/// Day numbers follow the order of the calendar: of two days, the one in
/// the earlier year, or in the earlier month of the same year, or earlier
/// in the same month, has the smaller number.
pub proof fn lemma_day_number_ordered(y1: int, m1: int, d1: int, y2: int, m2: int, d2: int)
    requires
        is_calendar_day(y1, m1, d1),
        is_calendar_day(y2, m2, d2),
        y1 < y2 || (y1 == y2 && (m1 < m2 || (m1 == m2 && d1 < d2))),
    ensures
        day_number(y1, m1, d1) < day_number(y2, m2, d2),
{
    lemma_month_offsets(y1);
    lemma_month_offsets(y2);
    if y1 < y2 {
        lemma_year_step(y1);
        lemma_years_ordered(y1 + 1, y2);
    }
}

/// No supported date lies before the first one.
pub proof fn lemma_first_day(year: int, month: int, day: int)
    requires
        is_valid_date(year, month, day),
    ensures
        first_day_number() <= day_number(year, month, day),
{
    if year != MIN_YEAR || month != 1 || day != 1 {
        lemma_day_number_ordered(MIN_YEAR as int, 1, 1, year, month, day);
    }
}

/// No two days of the calendar share a day number.
pub proof fn lemma_day_number_injective(y1: int, m1: int, d1: int, y2: int, m2: int, d2: int)
    requires
        is_calendar_day(y1, m1, d1),
        is_calendar_day(y2, m2, d2),
        day_number(y1, m1, d1) == day_number(y2, m2, d2),
    ensures
        y1 == y2,
        m1 == m2,
        d1 == d2,
{
    if y1 < y2 || (y1 == y2 && (m1 < m2 || (m1 == m2 && d1 < d2))) {
        lemma_day_number_ordered(y1, m1, d1, y2, m2, d2);
    } else if y2 < y1 || (y2 == y1 && (m2 < m1 || (m2 == m1 && d2 < d1))) {
        lemma_day_number_ordered(y2, m2, d2, y1, m1, d1);
    }
}

/// The day before the first of a month is the last day of the month before.
pub proof fn lemma_month_start(year: int, month: int)
    requires
        1 <= month <= 12,
    ensures
        day_number(year, month, 0) == day_number(
            year_of_previous_month(year, month),
            previous_month(month),
            days_in_month(year_of_previous_month(year, month), previous_month(month)),
        ),
{
    lemma_month_offsets(year);
    lemma_month_offsets(year - 1);
    lemma_year_step(year - 1);
}

/// Going back from a day of a month by at least as many days as the day
/// counts, and by fewer than would reach past the month before, ends in the
/// month before, on a day that exists in it. From the first or the second of
/// a month, two days back is the last day of the month before or the day
/// before that.
pub proof fn lemma_past_date_in_previous_month(
    year: int,
    month: int,
    day: int,
    day_remove: int,
    past: Date,
)
    requires
        is_valid_date(year, month, day),
        day <= day_remove < day + days_in_month(
            year_of_previous_month(year, month),
            previous_month(month),
        ),
        past.wf(),
        past.day_number() == day_number(year, month, day) - day_remove,
    ensures
        past.year == year_of_previous_month(year, month),
        past.month == previous_month(month),
        past.day == days_in_month(past.year as int, past.month as int) + day - day_remove,
        1 <= past.day <= days_in_month(past.year as int, past.month as int),
{
    let y = year_of_previous_month(year, month);
    let m = previous_month(month);
    let d = days_in_month(y, m) + day - day_remove;
    lemma_month_start(year, month);
    lemma_day_number_injective(
        past.year as int,
        past.month as int,
        past.day as int,
        y,
        m,
        d,
    );
}

} // verus!
