use chrono::Datelike;
use chrono::NaiveDate;
use vstd::arithmetic::div_mod::lemma_mod_multiples_vanish;
use vstd::prelude::*;

use crate::error::DomainError;
use crate::error::DomainErrorKind;

verus! {

/// Day number of the earliest date that chrono holds, -262143-01-01.
/// Day numbers count from 0001-01-01, which is day 1.
pub const MIN_DAY: i32 = -95746129;

/// Day number of the latest date that chrono holds, 262142-12-31.
pub const MAX_DAY: i32 = 95745399;

/// Day of the week of a day number: Monday is 0 and Sunday is 6.
/// Day 1, 0001-01-01 of the proleptic Gregorian calendar, was a Monday.
pub open spec fn weekday_of(day: int) -> int {
    (day - 1) % 7
}

/// Monday to Friday; no holidays are considered.
pub open spec fn is_business_day_number(day: int) -> bool {
    weekday_of(day) < 5
}

/// The day number of a year, month and day, where that date exists and chrono holds it.
pub uninterp spec fn day_of_ymd(year: i32, month: u32, day: u32) -> Option<i32>;

/// The year, month and day of a day number that chrono holds.
pub uninterp spec fn ymd_of_day(day: i32) -> (i32, u32, u32);

/// Relies on chrono's `NaiveDate::from_ymd_opt`, which gives `None` for a date that
/// the calendar lacks or that lies outside `NaiveDate::MIN ..= NaiveDate::MAX`, and on
/// `Datelike::num_days_from_ce` for the day number of the date it made.
#[verifier::external_body]
fn chrono_day_of_ymd(year: i32, month: u32, day: u32) -> (r: Option<i32>)
    ensures
        r == day_of_ymd(year, month, day),
        r matches Some(d) ==> MIN_DAY <= d <= MAX_DAY,
{
    match NaiveDate::from_ymd_opt(year, month, day) {
        Some(date) => Some(date.num_days_from_ce()),
        None => None,
    }
}

/// Relies on chrono's `NaiveDate::from_num_days_from_ce_opt`, which gives a date for
/// every day number from that of `NaiveDate::MIN` to that of `NaiveDate::MAX`, and on
/// `Datelike::year`, `month` and `day` for its parts.
#[verifier::external_body]
fn chrono_ymd_of_day(day: i32) -> (r: (i32, u32, u32))
    requires
        MIN_DAY <= day <= MAX_DAY,
    ensures
        r == ymd_of_day(day),
{
    let date = NaiveDate::from_num_days_from_ce_opt(day).unwrap();
    (date.year(), date.month(), date.day())
}

/// A calendar date without a time, held as its day number.
#[derive(Clone, Copy, Debug, PartialEq, Eq, Hash, Structural)]
pub struct AppDate {
    days_from_ce: i32,
}

impl View for AppDate {
    type V = int;

    /// The day number, counted from 0001-01-01 as day 1.
    closed spec fn view(&self) -> int {
        self.days_from_ce as int
    }
}

impl AppDate {
    #[verifier::type_invariant]
    spec fn in_range(self) -> bool {
        MIN_DAY <= self.days_from_ce <= MAX_DAY
    }

    /// The date of the given year, month and day, if the calendar has it.
    pub fn new(year: i32, month: u32, day: u32) -> (r: Option<AppDate>)
        ensures
            (r is Some) == (day_of_ymd(year, month, day) is Some),
            r matches Some(a) ==> day_of_ymd(year, month, day) == Some(a@ as i32),
    {
        match chrono_day_of_ymd(year, month, day) {
            Some(d) => Some(AppDate { days_from_ce: d }),
            None => None,
        }
    }

    /// The date of a day number, if it lies in the representable range.
    pub fn from_days_from_ce(days: i32) -> (r: Option<AppDate>)
        ensures
            (r is Some) == (MIN_DAY <= days <= MAX_DAY),
            r matches Some(a) ==> a@ == days,
    {
        if MIN_DAY <= days && days <= MAX_DAY {
            Some(AppDate { days_from_ce: days })
        } else {
            None
        }
    }

    pub fn days_from_ce(&self) -> (r: i32)
        ensures
            r == self@,
            MIN_DAY <= r <= MAX_DAY,
    {
        proof {
            use_type_invariant(self);
        }
        self.days_from_ce
    }

    pub fn year_month_day(&self) -> (r: (i32, u32, u32))
        ensures
            r == ymd_of_day(self@ as i32),
    {
        proof {
            use_type_invariant(self);
        }
        chrono_ymd_of_day(self.days_from_ce)
    }

    /// Day of the week, Monday being 0 and Sunday 6.
    pub fn weekday(&self) -> (r: u32)
        ensures
            r == weekday_of(self@),
    {
        proof {
            use_type_invariant(self);
        }
        // Shift by a multiple of 7 so that the remainder is taken of a non-negative number.
        let shifted: i32 = self.days_from_ce - 1 + 7 * 14_000_000;
        proof {
            lemma_mod_multiples_vanish(14_000_000, self.days_from_ce - 1, 7);
        }
        (shifted as u32) % 7
    }

    pub fn is_business_day(&self) -> (r: bool)
        ensures
            r == is_business_day_number(self@),
    {
        self.weekday() < 5
    }

    /// The date `n_days` earlier.
    pub fn step_back(&self, n_days: u64) -> (r: Result<AppDate, DomainError>)
        ensures
            match r {
                Ok(a) => self@ - n_days >= MIN_DAY && a@ == self@ - n_days,
                Err(e) => self@ - n_days < MIN_DAY && e.kind == DomainErrorKind::OutOfRange,
            },
    {
        proof {
            use_type_invariant(self);
        }
        let room = (self.days_from_ce as i64 - MIN_DAY as i64) as u64;
        if n_days <= room {
            Ok(AppDate { days_from_ce: (self.days_from_ce as i64 - n_days as i64) as i32 })
        } else {
            Err(DomainError::date_is_out_of_range())
        }
    }

    /// Signed number of days from this date to `other`: positive when `other` is later.
    pub fn days_until(&self, other: &AppDate) -> (r: i64)
        ensures
            r == other@ - self@,
    {
        proof {
            use_type_invariant(self);
            use_type_invariant(other);
        }
        other.days_from_ce as i64 - self.days_from_ce as i64
    }
}

} // verus!
