//! The proleptic Gregorian calendar, counted in days from the Unix epoch.

use vstd::prelude::*;

verus! {

pub open spec fn is_leap(year: int) -> bool {
    year % 4 == 0 && (year % 100 != 0 || year % 400 == 0)
}

pub open spec fn days_in_year(year: int) -> int {
    if is_leap(year) {
        366
    } else {
        365
    }
}

pub open spec fn days_in_month(year: int, month: int) -> int {
    if month == 2 {
        if is_leap(year) {
            29
        } else {
            28
        }
    } else if month == 4 || month == 6 || month == 9 || month == 11 {
        30
    } else {
        31
    }
}

/// Days from 1 January 1970 to 1 January of `year`, negative before 1970.
pub open spec fn days_to_year(year: int) -> int
    decreases
            if year >= 1970 {
                year - 1970
            } else {
                1970 - year
            },
{
    if year > 1970 {
        days_to_year(year - 1) + days_in_year(year - 1)
    } else if year < 1970 {
        days_to_year(year + 1) - days_in_year(year)
    } else {
        0
    }
}

/// Days from 1 January to the first of `month`.
pub open spec fn days_to_month(year: int, month: int) -> int
    decreases month,
{
    if month <= 1 {
        0
    } else {
        days_to_month(year, month - 1) + days_in_month(year, month - 1)
    }
}

/// Days from the epoch to the `day`th of a month, counted on past the month's
/// end where `day` is.
pub open spec fn day_number(year: int, month: int, day: int) -> int {
    days_to_year(year) + days_to_month(year, month) + day - 1
}

/// A day of the calendar.
pub struct Date {
    pub year: int,
    pub month: int,
    pub day: int,
}

impl Date {
    /// A month of the year, and a day that the month has.
    pub open spec fn is_valid(self) -> bool {
        1 <= self.month <= 12 && 1 <= self.day <= days_in_month(self.year, self.month)
    }

    /// Days from the epoch to the date.
    pub open spec fn number(self) -> int {
        day_number(self.year, self.month, self.day)
    }
}

/// The year in which the day `days` after 1 January of `year` falls.
pub open spec fn year_from(year: int, days: int) -> int
    decreases days,
{
    if days < days_in_year(year) {
        year
    } else {
        year_from(year + 1, days - days_in_year(year))
    }
}

/// The month in which the day `days` after the first of `month` falls.
pub open spec fn month_from(year: int, month: int, days: int) -> int
    decreases 12 - month,
{
    if month >= 12 || days < days_in_month(year, month) {
        month
    } else {
        month_from(year, month + 1, days - days_in_month(year, month))
    }
}

/// The date `days` after the epoch.
pub open spec fn date_of(days: nat) -> Date {
    let year = year_from(1970, days as int);
    let in_year = days - days_to_year(year);
    let month = month_from(year, 1, in_year);
    Date { year, month, day: in_year - days_to_month(year, month) + 1 }
}

/// How many leap years there are up to and with `year`, counted from year 0
/// (downwards before it).
spec fn leaps(year: int) -> int {
    year / 4 - year / 100 + year / 400
}

proof fn lemma_leaps_step(year: int)
    ensures
        leaps(year) - leaps(year - 1) == if is_leap(year) {
            1int
        } else {
            0
        },
{
    let q = year / 400;
    let r = year % 400;
    assert(year == 400 * q + r && 0 <= r < 400);
    assert(year / 4 == 100 * q + r / 4);
    assert(year / 100 == 4 * q + r / 100);
    assert(year % 4 == r % 4);
    assert(year % 100 == r % 100);
    if r > 0 {
        assert((year - 1) / 4 == 100 * q + (r - 1) / 4);
        assert((year - 1) / 100 == 4 * q + (r - 1) / 100);
        assert((year - 1) / 400 == q);
    } else {
        assert((year - 1) / 4 == 100 * q - 1);
        assert((year - 1) / 100 == 4 * q - 1);
        assert((year - 1) / 400 == q - 1);
    }
}

/// The days up to a year in closed form.
proof fn lemma_days_to_year(year: int)
    ensures
        days_to_year(year) == 365 * year + leaps(year - 1) - 719_527,
    decreases
            if year >= 1970 {
                year - 1970
            } else {
                1970 - year
            },
{
    if year > 1970 {
        lemma_days_to_year(year - 1);
        lemma_leaps_step(year - 1);
    } else if year < 1970 {
        lemma_days_to_year(year + 1);
        lemma_leaps_step(year);
    }
}

/// Days since the Unix epoch for a civil date, so a UTC timestamp needs no
/// timezone database. Years are counted from March in cycles of 400, which
/// puts the leap day last and makes the month lengths regular.
pub fn days_from_civil(year: i64, month: i64, day: u64) -> (r: i128)
    requires
        1 <= month <= 12,
    ensures
        r == day_number(year as int, month as int, day as int),
        -10_000_000_000_000_000_000_000 <= r <= 10_000_000_000_000_000_000_000,
{
    let y: i128 = if month <= 2 {
        year as i128 - 1
    } else {
        year as i128
    };
    let era: i128 = if y >= 0 {
        y / 400
    } else {
        -((399 - y) / 400)
    };
    let yoe: i128 = y - era * 400;
    let mp: i128 = (month as i128 + 9) % 12;
    let doy: i128 = (153 * mp + 2) / 5 + day as i128 - 1;
    let doe: i128 = yoe * 365 + yoe / 4 - yoe / 100 + doy;
    proof {
        assert(era == y as int / 400 && yoe == y as int % 400);
        assert(y as int / 4 == 100 * era + yoe / 4);
        assert(y as int / 100 == 4 * era + yoe / 100);
        assert(era * 146_097 + yoe * 365 + yoe / 4 - yoe / 100 == 365 * y + leaps(y as int));
        lemma_days_to_year(year as int);
        lemma_leaps_step(year as int);
        reveal_with_fuel(days_to_month, 13);
    }
    era * 146_097 + doe - 719_468
}

/// The epoch is day 0, and the day after the last of a year is the first of
/// the next.
pub proof fn law_years_follow_each_other(year: int)
    ensures
        day_number(year, 12, 31) + 1 == day_number(year + 1, 1, 1),
        day_number(1970, 1, 1) == 0,
{
    reveal_with_fuel(days_to_month, 13);
    lemma_days_to_year(year);
    lemma_days_to_year(year + 1);
    lemma_leaps_step(year);
}

/// The day after the last of a month is the first of the next.
pub proof fn law_months_follow_each_other(year: int, month: int)
    requires
        1 <= month < 12,
    ensures
        day_number(year, month, days_in_month(year, month)) + 1 == day_number(year, month + 1, 1),
{
}

proof fn lemma_year_from(year: int, days: int)
    requires
        1970 <= year,
        0 <= days,
    ensures
        year <= year_from(year, days) <= year + days,
        days_to_year(year_from(year, days)) <= days_to_year(year) + days < days_to_year(
            year_from(year, days) + 1,
        ),
    decreases days,
{
    if days >= days_in_year(year) {
        lemma_year_from(year + 1, days - days_in_year(year));
    }
}

proof fn lemma_year_is(year: int, days: int, other: int)
    requires
        1970 <= year <= other,
        days_to_year(other) <= days_to_year(year) + days < days_to_year(other + 1),
    ensures
        year_from(year, days) == other,
    decreases other - year,
{
    if year < other {
        lemma_years_ascend(year + 1, other);
        lemma_year_is(year + 1, days - days_in_year(year), other);
    }
}

proof fn lemma_years_ascend(year: int, other: int)
    requires
        1970 <= year <= other,
    ensures
        days_to_year(year) + (other - year) <= days_to_year(other),
    decreases other - year,
{
    if year < other {
        lemma_years_ascend(year, other - 1);
    }
}

proof fn lemma_months_ascend(year: int, month: int, other: int)
    requires
        1 <= month <= other <= 13,
    ensures
        days_to_month(year, month) <= days_to_month(year, other),
        days_to_month(year, 13) == days_in_year(year),
    decreases other - month,
{
    reveal_with_fuel(days_to_month, 13);
    if month < other {
        lemma_months_ascend(year, month, other - 1);
    }
}

proof fn lemma_month_from(year: int, month: int, days: int)
    requires
        1 <= month <= 12,
        0 <= days,
        days_to_month(year, month) + days < days_in_year(year),
    ensures
        ({
            let found = month_from(year, month, days);
            &&& month <= found <= 12
            &&& days_to_month(year, found) <= days_to_month(year, month) + days < days_to_month(
                year,
                found,
            ) + days_in_month(year, found)
        }),
    decreases 12 - month,
{
    lemma_months_ascend(year, month, 13);
    if month < 12 && days >= days_in_month(year, month) {
        lemma_month_from(year, month + 1, days - days_in_month(year, month));
    }
}

proof fn lemma_month_is(year: int, month: int, days: int, other: int)
    requires
        1 <= month <= other <= 12,
        days_to_month(year, other) <= days_to_month(year, month) + days < days_to_month(
            year,
            other + 1,
        ),
    ensures
        month_from(year, month, days) == other,
    decreases other - month,
{
    if month < other {
        lemma_months_ascend(year, month + 1, other);
        lemma_month_is(year, month + 1, days - days_in_month(year, month), other);
    }
}

/// Every day from the epoch on has its date, a day that its month has, and
/// counting to that date gives the day back.
pub proof fn law_every_day_has_its_date(days: nat)
    ensures
        date_of(days).is_valid(),
        date_of(days).number() == days,
        1970 <= date_of(days).year <= 1970 + days,
{
    lemma_year_from(1970, days as int);
    let year = date_of(days).year;
    lemma_month_from(year, 1, days - days_to_year(year));
}

/// Every date from the epoch on is the date of the day it is counted as, so no
/// two dates are one day.
pub proof fn law_every_date_has_its_day(date: Date)
    requires
        1970 <= date.year,
        date.is_valid(),
    ensures
        0 <= date.number(),
        date_of(date.number() as nat) == date,
{
    let days = date.number();
    lemma_years_ascend(1970, date.year);
    lemma_months_ascend(date.year, 1, date.month);
    lemma_months_ascend(date.year, date.month + 1, 13);
    lemma_year_is(1970, days, date.year);
    lemma_month_is(date.year, 1, days - days_to_year(date.year), date.month);
}

}
