//! Calendar dates as day numbers of the proleptic Gregorian calendar.
//!
//! The calendar itself is that of the `chrono` crate. A date is the number of
//! days from the day before January 1 of year 1.
use crate::text::{digits, padded_digits};
use vstd::prelude::*;

verus! {

/// The first year of the calendar.
pub open spec fn min_year() -> int {
    -262143
}

/// The last year of the calendar.
pub open spec fn max_year() -> int {
    262142
}

pub open spec fn leap(year: int) -> bool {
    year % 4 == 0 && (year % 100 != 0 || year % 400 == 0)
}

pub open spec fn days_in_month(year: int, month: int) -> int {
    if month == 2 {
        if leap(year) {
            29
        } else {
            28
        }
    } else if month == 4 || month == 6 || month == 9 || month == 11 {
        30
    } else {
        31
    }
}

/// Days before January 1 of `year`, from January 1 of year 1.
pub open spec fn days_before_year(year: int) -> int {
    365 * (year - 1) + (year - 1) / 4 - (year - 1) / 100 + (year - 1) / 400
}

/// Days of `year` before the first of `month`.
pub open spec fn days_before_month(year: int, month: int) -> int
    decreases month,
{
    if month <= 1 {
        0
    } else {
        days_before_month(year, month - 1) + days_in_month(year, month - 1)
    }
}

/// The day number of a calendar day; January 1 of year 1 is day 1.
pub open spec fn day_number(year: int, month: int, day: int) -> int {
    days_before_year(year) + days_before_month(year, month) + day
}

/// Whether year, month and day name a day of the calendar.
pub open spec fn valid_ymd(year: int, month: int, day: int) -> bool {
    &&& min_year() <= year <= max_year()
    &&& 1 <= month <= 12
    &&& 1 <= day <= days_in_month(year, month)
}

/// Year, month and day of a day number.
pub open spec fn civil(days: int) -> (int, int, int) {
    choose|c: (int, int, int)| valid_ymd(c.0, c.1, c.2) && day_number(c.0, c.1, c.2) == days
}

/// First day number of the calendar.
pub const MIN_DAYS: i32 = -95746129;

/// Last day number of the calendar.
pub const MAX_DAYS: i32 = 95745399;

proof fn days_before_month_bounds(year: int, month: int)
    requires
        1 <= month <= 13,
    ensures
        0 <= days_before_month(year, month),
        month <= 12 ==> days_before_month(year, month) + days_in_month(year, month)
            <= days_before_month(year, 13),
        days_before_month(year, 13) == if leap(year) {
            366int
        } else {
            365int
        },
{
    reveal_with_fuel(days_before_month, 14);
}

/// January 1 of the next year follows December 31.
#[verifier::spinoff_prover]
#[verifier::rlimit(60)]
proof fn year_length(year: int)
    ensures
        days_before_year(year + 1) == days_before_year(year) + if leap(year) {
            366int
        } else {
            365int
        },
{
}

/// Every calendar day has a day number of the calendar.
pub proof fn day_number_in_range(year: int, month: int, day: int)
    requires
        valid_ymd(year, month, day),
    ensures
        MIN_DAYS <= day_number(year, month, day) <= MAX_DAYS,
{
    days_before_month_bounds(year, month);
    year_length(year);
    assert(days_before_year(min_year()) == MIN_DAYS - 1);
    assert(days_before_year(max_year() + 1) == MAX_DAYS);
    if year > min_year() {
        assert(days_before_year(year) >= MIN_DAYS);
    }
    if year < max_year() {
        assert(days_before_year(year + 1) <= MAX_DAYS);
    }
}

/// The first of the next month follows the last day of a month.
pub proof fn next_month_follows(year: int, month: int)
    requires
        1 <= month <= 12,
    ensures
        day_number(
            if month == 12 {
                year + 1
            } else {
                year
            },
            if month == 12 {
                1
            } else {
                month + 1
            },
            1,
        ) == day_number(year, month, days_in_month(year, month)) + 1,
{
    reveal_with_fuel(days_before_month, 14);
    year_length(year);
}

/// January 1 comes later in later years.
proof fn years_in_order(a: int, b: int)
    requires
        a < b,
    ensures
        days_before_year(a + 1) <= days_before_year(b),
    decreases b - a,
{
    if a + 1 < b {
        years_in_order(a, b - 1);
        year_length(b - 1);
    }
}

/// Days of the calendar are numbered in the order of year, month and day: a later day has a greater
/// number.
pub proof fn days_are_numbered_in_order(
    year: int,
    month: int,
    day: int,
    other_year: int,
    other_month: int,
    other_day: int,
)
    requires
        valid_ymd(year, month, day),
        valid_ymd(other_year, other_month, other_day),
        year < other_year || (year == other_year && (month < other_month || (month == other_month
            && day < other_day))),
    ensures
        day_number(year, month, day) < day_number(other_year, other_month, other_day),
{
    days_before_month_bounds(year, month);
    days_before_month_bounds(other_year, other_month);
    year_length(year);
    if year < other_year {
        years_in_order(year, other_year);
    } else if month < other_month {
        months_in_order(year, month, other_month);
    }
}

/// The first of a month comes later in later months.
proof fn months_in_order(year: int, a: int, b: int)
    requires
        1 <= a < b <= 12,
    ensures
        days_before_month(year, a) + days_in_month(year, a) <= days_before_month(year, b),
    decreases b - a,
{
    if a + 1 < b {
        months_in_order(year, a, b - 1);
    }
}

/// The calendar day of a day number is the one that has the number.
pub proof fn civil_is(year: int, month: int, day: int)
    requires
        valid_ymd(year, month, day),
    ensures
        civil(day_number(year, month, day)) == (year, month, day),
{
    let n = day_number(year, month, day);
    let c = (year, month, day);
    assert(valid_ymd(c.0, c.1, c.2) && day_number(c.0, c.1, c.2) == n);
    let found = civil(n);
    if found != c {
        let (y, m, d) = found;
        if y < year || (y == year && (m < month || (m == month && d < day))) {
            days_are_numbered_in_order(y, m, d, year, month, day);
        } else {
            days_are_numbered_in_order(year, month, day, y, m, d);
        }
    }
}

/// A calendar date.
#[derive(Clone, Copy, Debug, PartialEq, Eq, Structural)]
pub struct Date {
    days: i32,
}

impl Date {
    #[verifier::type_invariant]
    spec fn well_formed(self) -> bool {
        MIN_DAYS <= self.days <= MAX_DAYS
    }

    /// The day number.
    pub closed spec fn number(self) -> int {
        self.days as int
    }

    /// The date with a day number.
    pub closed spec fn of_number(n: int) -> Date {
        Date { days: n as i32 }
    }

    /// A day number of the calendar is the number of its date.
    pub proof fn number_of(n: int)
        requires
            MIN_DAYS <= n <= MAX_DAYS,
        ensures
            Date::of_number(n).number() == n,
    {
    }

    /// The number of a date has at most 31 binary digits.
    pub proof fn number_is_small(d: Date)
        ensures
            -0x8000_0000 <= d.number() < 0x8000_0000,
    {
    }

    /// A date is the date of its number.
    pub proof fn of_number_of(d: Date)
        ensures
            Date::of_number(d.number()) == d,
    {
    }

    /// The date `months` calendar months later; a day that the target month lacks
    /// becomes that month's last day. `None` outside the calendar.
    pub open spec fn months_later(self, months: int) -> Option<Date> {
        let (year, month, day) = civil(self.number());
        let count = year * 12 + month - 1 + months;
        let to_year = count / 12;
        let to_month = count % 12 + 1;
        let last = days_in_month(to_year, to_month);
        if min_year() <= to_year <= max_year() {
            Some(
                Date::of_number(
                    day_number(
                        to_year,
                        to_month,
                        if day <= last {
                            day
                        } else {
                            last
                        },
                    ),
                ),
            )
        } else {
            None
        }
    }

    /// The text of the date: `YYYY-MM-DD`, with an explicit sign on a year
    /// outside 0 to 9999.
    pub open spec fn text(self) -> Seq<char> {
        let (year, month, day) = civil(self.number());
        let size = if year < 0 {
            (-year) as nat
        } else {
            year as nat
        };
        let year_digits = if size <= 9999 {
            padded_digits(size, 4)
        } else {
            digits(size)
        };
        let year_text = if 0 <= year <= 9999 {
            year_digits
        } else if year < 0 {
            seq!['-'] + year_digits
        } else {
            seq!['+'] + year_digits
        };
        year_text.push('-') + padded_digits(month as nat, 2).push('-') + padded_digits(
            day as nat,
            2,
        )
    }

    /// The date with day number `days`, or `None` outside the calendar.
    pub fn from_number(days: i32) -> (r: Option<Date>)
        ensures
            r == if MIN_DAYS <= days <= MAX_DAYS {
                Some(Date::of_number(days as int))
            } else {
                None
            },
    {
        if MIN_DAYS <= days && days <= MAX_DAYS {
            Some(Date { days })
        } else {
            None
        }
    }

    /// The day number of the date.
    pub fn to_number(&self) -> (r: i32)
        ensures
            r == self.number(),
    {
        self.days
    }

    /// January 1, 1970.
    pub fn epoch() -> (r: Date)
        ensures
            r == Date::of_number(719163),
    {
        Date { days: 719163 }
    }

    /// `chrono::NaiveDate::from_ymd_opt`: the date of a calendar day, or `None`
    /// where year, month and day name none.
    #[verifier::external_body]
    fn ymd(year: i32, month: u32, day: u32) -> (r: Option<Date>)
        ensures
            r == if valid_ymd(year as int, month as int, day as int) {
                Some(Date::of_number(day_number(year as int, month as int, day as int)))
            } else {
                None
            },
    {
        let d = chrono::NaiveDate::from_ymd_opt(year, month, day)?;
        Some(Date { days: chrono::Datelike::num_days_from_ce(&d) })
    }

    /// The date of a calendar day, or `None` where year, month and day name none.
    pub fn from_ymd(year: i32, month: u32, day: u32) -> (r: Option<Date>)
        ensures
            r == if valid_ymd(year as int, month as int, day as int) {
                Some(Date::of_number(day_number(year as int, month as int, day as int)))
            } else {
                None
            },
    {
        Date::ymd(year, month, day)
    }

    /// `chrono::NaiveDate::year`: the calendar year of the date.
    #[verifier::external_body]
    pub(crate) fn year(&self) -> (r: i32)
        ensures
            r == civil(self.number()).0,
    {
        let d = chrono::NaiveDate::from_num_days_from_ce_opt(self.days).unwrap_or_default();
        chrono::Datelike::year(&d)
    }

    /// `chrono::NaiveDate::checked_add_months`: later by calendar months, the day
    /// cut to the end of the target month.
    #[verifier::external_body]
    pub(crate) fn add_months(&self, months: u32) -> (r: Option<Date>)
        ensures
            r == self.months_later(months as int),
    {
        let d = chrono::NaiveDate::from_num_days_from_ce_opt(self.days).unwrap_or_default();
        let e = d.checked_add_months(chrono::Months::new(months))?;
        Some(Date { days: chrono::Datelike::num_days_from_ce(&e) })
    }

    /// `chrono::NaiveDate::checked_sub_months`: earlier by calendar months, the day
    /// cut to the end of the target month.
    #[verifier::external_body]
    pub(crate) fn sub_months(&self, months: u32) -> (r: Option<Date>)
        ensures
            r == self.months_later(-(months as int)),
    {
        let d = chrono::NaiveDate::from_num_days_from_ce_opt(self.days).unwrap_or_default();
        let e = d.checked_sub_months(chrono::Months::new(months))?;
        Some(Date { days: chrono::Datelike::num_days_from_ce(&e) })
    }

    /// `chrono::NaiveDate`'s `Display` writes `YYYY-MM-DD`.
    #[verifier::external_body]
    fn display(&self) -> (r: String)
        ensures
            r@ == self.text(),
    {
        let d = chrono::NaiveDate::from_num_days_from_ce_opt(self.days).unwrap_or_default();
        d.to_string()
    }

    /// The text of the date.
    pub fn to_text(&self) -> (r: String)
        ensures
            r@ == self.text(),
    {
        self.display()
    }

    /// Whether the date is before `other`.
    pub fn before(&self, other: &Date) -> (r: bool)
        ensures
            r == (self.number() < other.number()),
    {
        self.days < other.days
    }

    /// Whether the date is `other` or before it.
    pub fn up_to(&self, other: &Date) -> (r: bool)
        ensures
            r == (self.number() <= other.number()),
    {
        self.days <= other.days
    }

    /// Whether both are the same day.
    pub fn same_day(&self, other: &Date) -> (r: bool)
        ensures
            r == (*self == *other),
            r == (self.number() == other.number()),
    {
        self.days == other.days
    }

    /// The date `offset` days later, or `None` outside the calendar.
    pub fn add_days(&self, offset: i64) -> (r: Option<Date>)
        ensures
            r == self.days_later(offset as int),
    {
        proof {
            use_type_invariant(self);
        }
        let target: i128 = self.days as i128 + offset as i128;
        if MIN_DAYS as i128 <= target && target <= MAX_DAYS as i128 {
            Some(Date { days: target as i32 })
        } else {
            None
        }
    }

    /// The date `offset` days later, or `None` outside the calendar.
    pub open spec fn days_later(self, offset: int) -> Option<Date> {
        let target = self.number() + offset;
        if MIN_DAYS <= target <= MAX_DAYS {
            Some(Date::of_number(target))
        } else {
            None
        }
    }

    /// The day number of a date lies in the calendar.
    pub(crate) fn number_in_range(&self)
        ensures
            MIN_DAYS <= self.number() <= MAX_DAYS,
    {
        proof {
            use_type_invariant(self);
        }
    }

    /// Days from `self` to `later`.
    pub fn days_until(&self, later: &Date) -> (r: i64)
        ensures
            r == later.number() - self.number(),
    {
        later.days as i64 - self.days as i64
    }
}

} // verus!
