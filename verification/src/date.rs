//! Dates of the proleptic Gregorian calendar, and the numbers that count their
//! days.

use chrono::Datelike;
use vstd::prelude::*;

verus! {

/// Seconds in one day.
pub const SECONDS_PER_DAY: i64 = 86_400;

/// The day number of 1 January 1970, counting 1 January of year 1 as day 1.
pub const EPOCH_DAY_NUMBER: i32 = 719_163;

/// The day number of 31 December 9999, the last date that a `PlainDate` holds.
pub const LAST_DAY_NUMBER: i32 = 3_652_059;

/// A year with a 29 February: every fourth one, but of the hundreds only
/// every fourth.
pub open spec fn is_leap_year(year: int) -> bool {
    year % 4 == 0 && (year % 100 != 0 || year % 400 == 0)
}

/// The days of a month.
pub open spec fn days_in_month(year: int, month: int) -> int {
    if month == 2 {
        if is_leap_year(year) {
            29
        } else {
            28
        }
    } else if month == 4 || month == 6 || month == 9 || month == 11 {
        30
    } else {
        31
    }
}

/// Days of `year` that lie before the first of `month`.
pub open spec fn days_before_month(year: int, month: int) -> int
    decreases month,
{
    if month <= 1 {
        0
    } else {
        days_before_month(year, month - 1) + days_in_month(year, month - 1)
    }
}

/// Days from 1 January of year 1 up to, and without, 1 January of `year`.
pub open spec fn days_before_year(year: int) -> int {
    365 * (year - 1) + (year - 1) / 4 - (year - 1) / 100 + (year - 1) / 400
}

/// A date of the years 1 to 9999 that the calendar has.
pub open spec fn is_calendar_date(year: int, month: int, day: int) -> bool {
    &&& 1 <= year <= 9999
    &&& 1 <= month <= 12
    &&& 1 <= day <= days_in_month(year, month)
}

/// The count of days from 1 January of year 1, which is day 1, to the given date.
pub open spec fn day_number(year: int, month: int, day: int) -> int {
    days_before_year(year) + days_before_month(year, month) + day
}

/// The mathematical model of a date: its three fields as integers.
pub struct CivilDate {
    pub year: int,
    pub month: int,
    pub day: int,
}

impl CivilDate {
    /// The fields make a date of the years 1 to 9999.
    pub open spec fn valid(self) -> bool {
        is_calendar_date(self.year, self.month, self.day)
    }

    /// The date's day number, with 1 January of year 1 as day 1.
    pub open spec fn day_number(self) -> int {
        day_number(self.year, self.month, self.day)
    }
}

/// A calendar date without a time of day or a zone, of the years 1 to 9999.
#[derive(Clone, Copy, Debug)]
pub struct PlainDate {
    year: i32,
    month: u32,
    day: u32,
}

impl View for PlainDate {
    type V = CivilDate;

    closed spec fn view(&self) -> CivilDate {
        CivilDate { year: self.year as int, month: self.month as int, day: self.day as int }
    }
}

impl DeepView for PlainDate {
    type V = CivilDate;

    open spec fn deep_view(&self) -> CivilDate {
        self@
    }
}

/// chrono's `Datelike::num_days_from_ce`, on the `NaiveDate` that
/// `NaiveDate::from_ymd_opt` makes of the three fields: the count of days in the
/// proleptic Gregorian calendar, with 1 January of year 1 as day 1.
#[verifier::external_body]
fn chrono_day_number(year: i32, month: u32, day: u32) -> (number: i32)
    requires
        is_calendar_date(year as int, month as int, day as int),
    ensures
        number == day_number(year as int, month as int, day as int),
{
    chrono::NaiveDate::from_ymd_opt(year, month, day).unwrap().num_days_from_ce()
}

/// chrono's `NaiveDate::from_num_days_from_ce_opt`: the date whose day number,
/// counted as above, is `number`. Within the bounds asked for it is a date of the
/// years 1 to 9999.
#[verifier::external_body]
fn chrono_date_of_day(number: i32) -> (date: PlainDate)
    requires
        1 <= number <= LAST_DAY_NUMBER,
    ensures
        date@.valid(),
        date@.day_number() == number,
{
    let date = chrono::NaiveDate::from_num_days_from_ce_opt(number).unwrap();
    PlainDate { year: date.year(), month: date.month(), day: date.day() }
}

impl PlainDate {
    /// What holds of every `PlainDate`: it is a date that the calendar has.
    #[verifier::type_invariant]
    pub open spec fn well_formed(self) -> bool {
        self@.valid()
    }

    /// The date with the given fields, where the calendar has one.
    pub fn new(year: i32, month: u32, day: u32) -> (date: Option<PlainDate>)
        ensures
            date is Some <==> is_calendar_date(year as int, month as int, day as int),
            date is Some ==> date->0@ == (CivilDate {
                year: year as int,
                month: month as int,
                day: day as int,
            }),
    {
        if year < 1 || year > 9999 || month < 1 || month > 12 || day < 1 {
            return None;
        }
        let leap: bool = year % 4 == 0 && (year % 100 != 0 || year % 400 == 0);
        let length: u32 = if month == 2 {
            if leap {
                29
            } else {
                28
            }
        } else if month == 4 || month == 6 || month == 9 || month == 11 {
            30
        } else {
            31
        };
        if day > length {
            None
        } else {
            Some(PlainDate { year, month, day })
        }
    }

    /// The year, from 1 to 9999.
    pub fn year(&self) -> (year: i32)
        ensures
            year == self@.year,
            1 <= year <= 9999,
    {
        proof {
            use_type_invariant(self);
        }
        self.year
    }

    /// The month, from 1 to 12.
    pub fn month(&self) -> (month: u32)
        ensures
            month == self@.month,
            1 <= month <= 12,
    {
        proof {
            use_type_invariant(self);
        }
        self.month
    }

    /// The day of the month, from 1.
    pub fn day(&self) -> (day: u32)
        ensures
            day == self@.day,
            1 <= day <= days_in_month(self@.year, self@.month),
    {
        proof {
            use_type_invariant(self);
        }
        self.day
    }

    /// The date's day number, with 1 January of year 1 as day 1.
    pub fn day_number(&self) -> (number: i32)
        ensures
            number == self@.day_number(),
            1 <= number <= LAST_DAY_NUMBER,
    {
        proof {
            use_type_invariant(self);
            lemma_day_number_bounds(self@);
        }
        chrono_day_number(self.year, self.month, self.day)
    }

    /// The date with the given day number, where it is one of the years 1 to 9999.
    pub fn from_day_number(number: i32) -> (date: Option<PlainDate>)
        ensures
            date is Some <==> 1 <= number <= LAST_DAY_NUMBER,
            date is Some ==> date->0@ == date_of_day_number(number as int),
    {
        if 1 <= number && number <= LAST_DAY_NUMBER {
            let date = chrono_date_of_day(number);
            proof {
                lemma_date_of_day_number(date@);
            }
            Some(date)
        } else {
            None
        }
    }
}

/// Splits a count of seconds into whole days, rounded down, and the seconds
/// past them.
pub fn split_days(seconds: i64) -> (parts: (i64, u32))
    ensures
        parts.0 == seconds as int / (SECONDS_PER_DAY as int),
        parts.1 == seconds as int % (SECONDS_PER_DAY as int),
        parts.1 < SECONDS_PER_DAY,
{
    let days: i64 = seconds / SECONDS_PER_DAY;
    let rest: i64 = seconds % SECONDS_PER_DAY;
    if rest < 0 {
        (days - 1, (rest + SECONDS_PER_DAY) as u32)
    } else {
        (days, rest as u32)
    }
}

/// The date whose day number is `number`. It is meant for the numbers from 1 to
/// `LAST_DAY_NUMBER`, each of which exactly one date has.
pub open spec fn date_of_day_number(number: int) -> CivilDate {
    choose|date: CivilDate| date.valid() && date.day_number() == number
}

/// The days of a year.
pub open spec fn days_in_year(year: int) -> int {
    if is_leap_year(year) {
        366
    } else {
        365
    }
}

/// `a` comes before `b` in the calendar.
pub open spec fn precedes(a: CivilDate, b: CivilDate) -> bool {
    a.year < b.year || (a.year == b.year && (a.month < b.month || (a.month == b.month && a.day
        < b.day)))
}

proof fn lemma_year_step(year: int)
    ensures
        days_before_year(year + 1) == days_before_year(year) + days_in_year(year),
        days_before_month(year, 13) == days_in_year(year),
{
    reveal_with_fuel(days_before_month, 14);
}

proof fn lemma_years_ordered(first: int, second: int)
    requires
        first < second,
    ensures
        days_before_year(first) + days_in_year(first) <= days_before_year(second),
    decreases second - first,
{
    lemma_year_step(first);
    if first + 1 < second {
        lemma_years_ordered(first + 1, second);
        lemma_year_step(first + 1);
    }
}

proof fn lemma_within_year(date: CivilDate)
    requires
        date.valid(),
    ensures
        days_before_year(date.year) < date.day_number() <= days_before_year(date.year)
            + days_in_year(date.year),
{
    reveal_with_fuel(days_before_month, 14);
}

/// A date that comes earlier in the calendar has the smaller day number.
pub proof fn lemma_day_number_ordered(a: CivilDate, b: CivilDate)
    requires
        a.valid(),
        b.valid(),
        precedes(a, b),
    ensures
        a.day_number() < b.day_number(),
{
    if a.year < b.year {
        lemma_within_year(a);
        lemma_within_year(b);
        lemma_years_ordered(a.year, b.year);
    } else {
        reveal_with_fuel(days_before_month, 14);
    }
}

/// No two dates share a day number.
pub proof fn lemma_day_number_injective(a: CivilDate, b: CivilDate)
    requires
        a.valid(),
        b.valid(),
        a.day_number() == b.day_number(),
    ensures
        a == b,
{
    if precedes(a, b) {
        lemma_day_number_ordered(a, b);
    } else if precedes(b, a) {
        lemma_day_number_ordered(b, a);
    }
}

/// Every number from 1 to `LAST_DAY_NUMBER` is the day number of a date.
pub proof fn lemma_day_number_exists(number: int) -> (date: CivilDate)
    requires
        1 <= number <= LAST_DAY_NUMBER,
    ensures
        date.valid(),
        date.day_number() == number,
    decreases number,
{
    reveal_with_fuel(days_before_month, 14);
    if number == 1 {
        CivilDate { year: 1, month: 1, day: 1 }
    } else {
        let before = lemma_day_number_exists(number - 1);
        if before.day < days_in_month(before.year, before.month) {
            CivilDate { day: before.day + 1, ..before }
        } else if before.month < 12 {
            CivilDate { year: before.year, month: before.month + 1, day: 1 }
        } else {
            lemma_year_step(before.year);
            if before.year == 9999 {
                assert(before.day_number() == LAST_DAY_NUMBER);
            }
            CivilDate { year: before.year + 1, month: 1, day: 1 }
        }
    }
}

/// The date of a day number is the one date that has it.
pub proof fn lemma_date_of_day_number(date: CivilDate)
    requires
        date.valid(),
    ensures
        date_of_day_number(date.day_number()) == date,
{
    let chosen = date_of_day_number(date.day_number());
    lemma_day_number_injective(chosen, date);
}

/// What `date_of_day_number` gives within its bounds.
pub proof fn lemma_day_number_of_date(number: int)
    requires
        1 <= number <= LAST_DAY_NUMBER,
    ensures
        date_of_day_number(number).valid(),
        date_of_day_number(number).day_number() == number,
{
    let witness = lemma_day_number_exists(number);
}

/// Every date of the years 1 to 9999 has a day number between 1 and that of
/// 31 December 9999.
pub proof fn lemma_day_number_bounds(date: CivilDate)
    requires
        date.valid(),
    ensures
        1 <= date.day_number() <= LAST_DAY_NUMBER,
{
    reveal_with_fuel(days_before_month, 13);
}

} // verus!
