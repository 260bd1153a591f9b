use vstd::prelude::*;

use crate::date::is_business_day_number;
use crate::date::weekday_of;
use crate::date::AppDate;
use crate::date::MIN_DAY;
use crate::error::DomainError;
use crate::error::DomainErrorKind;

verus! {

/// Days in the rotation of `n` engineers: one per engineer, and two more
/// for each full group of five, which absorb the weekends.
pub open spec fn rotation_length(n: int) -> int {
    n / 5 * 2 + n
}

/// How far back from `day` the same point of the previous cycle lies.
pub open spec fn days_to_go_back(day: int, today: int, length: int) -> int {
    length - (day - today) % length
}

/// The date that many days back, before any weekend adjustment.
pub open spec fn rotation_candidate(day: int, today: int, length: int) -> int {
    day - days_to_go_back(day, today, length)
}

/// The reference date for `day`: the candidate where it is a business day,
/// and two days earlier where it falls on a weekend.
pub open spec fn reference_day(day: int, today: int, length: int) -> int {
    let candidate = rotation_candidate(day, today, length);
    if is_business_day_number(candidate) {
        candidate
    } else {
        candidate - 2
    }
}

/// Why no reference date exists for `day`, checked in this order: a rotation
/// without days, a day that is not after today, a result before the earliest date.
pub open spec fn resolution_error(day: int, today: int, length: int) -> Option<DomainErrorKind> {
    if length <= 0 {
        Some(DomainErrorKind::DegenerateRotation)
    } else if day - today <= 0 {
        Some(DomainErrorKind::InvalidQuery)
    } else if reference_day(day, today, length) < MIN_DAY {
        Some(DomainErrorKind::OutOfRange)
    } else {
        None
    }
}

/// For a rotation with days and a date after today, the reference date is a
/// business day before that date. It lies `days_to_go_back` days back, or two
/// days further where that lands on a Saturday or a Sunday.
pub proof fn lemma_reference_day_is_earlier_business_day(day: int, today: int, length: int)
    requires
        length > 0,
        day > today,
    ensures
        is_business_day_number(reference_day(day, today, length)),
        reference_day(day, today, length) <= day - 1,
        1 <= days_to_go_back(day, today, length) <= length,
        is_business_day_number(day - days_to_go_back(day, today, length)) ==> reference_day(
            day,
            today,
            length,
        ) == day - days_to_go_back(day, today, length),
        !is_business_day_number(day - days_to_go_back(day, today, length)) ==> reference_day(
            day,
            today,
            length,
        ) == day - days_to_go_back(day, today, length) - 2,
{
    let candidate = rotation_candidate(day, today, length);
    assert(0 <= (day - today) % length < length);
    if !is_business_day_number(candidate) {
        assert(weekday_of(candidate - 2) == weekday_of(candidate) - 2);
    }
}

/// A rotation with days never answers for today or a date before it.
pub proof fn lemma_non_future_day_is_invalid(day: int, today: int, length: int)
    requires
        length > 0,
        day <= today,
    ensures
        resolution_error(day, today, length) == Some(DomainErrorKind::InvalidQuery),
{
}

/// The duty cycle, in days.
#[derive(Clone, Copy, Debug)]
pub struct Rota {
    length_in_days: i64,
}

impl View for Rota {
    type V = int;

    closed spec fn view(&self) -> int {
        self.length_in_days as int
    }
}

impl Rota {
    pub fn new(length_in_days: i64) -> (r: Self)
        ensures
            r@ == length_in_days,
    {
        Self { length_in_days }
    }

    /// The rotation of a team of `number_of_engineers`.
    pub fn from_engineer_count(number_of_engineers: usize) -> (r: Self)
        requires
            rotation_length(number_of_engineers as int) <= i64::MAX,
        ensures
            r@ == rotation_length(number_of_engineers as int),
    {
        let number_of_business_days_in_a_week: u64 = 5;
        let number_of_days_in_weekend: u64 = 2;
        let n = number_of_engineers as u64;
        let length = n / number_of_business_days_in_a_week * number_of_days_in_weekend + n;
        Self { length_in_days: length as i64 }
    }

    pub fn length_in_days(&self) -> (r: i64)
        ensures
            r == self@,
    {
        self.length_in_days
    }
}

impl AppDate {
    /// The date on which the engineer on duty on this date last served, in a
    /// rotation of `rota`'s length, as seen from `today`.
    pub fn last_date_served_by_engineer(&self, rota: &Rota, today: &AppDate) -> (r: Result<
        AppDate,
        DomainError,
    >)
        ensures
            match r {
                Ok(a) => resolution_error(self@, today@, rota@) is None && a@ == reference_day(
                    self@,
                    today@,
                    rota@,
                ),
                Err(e) => resolution_error(self@, today@, rota@) == Some(e.kind),
            },
    {
        let length = rota.length_in_days();
        if length <= 0 {
            return Err(DomainError::degenerate_rotation());
        }
        match self.number_of_days_to_go_back(length, today) {
            Ok(days) => self.go_back_to_nearest_business_day(days),
            Err(e) => Err(e),
        }
    }

    fn number_of_days_to_go_back(&self, length: i64, today: &AppDate) -> (r: Result<i64, DomainError>)
        requires
            length > 0,
        ensures
            match r {
                Ok(n) => self@ - today@ > 0 && n == days_to_go_back(self@, today@, length as int)
                    && 1 <= n <= length,
                Err(e) => self@ - today@ <= 0 && e.kind == DomainErrorKind::InvalidQuery,
            },
    {
        match self.number_of_days_from_today(today) {
            Ok(ahead) => Ok(length - ahead % length),
            Err(e) => Err(e),
        }
    }

    fn number_of_days_from_today(&self, today: &AppDate) -> (r: Result<i64, DomainError>)
        ensures
            match r {
                Ok(n) => n == self@ - today@ && n > 0,
                Err(e) => self@ - today@ <= 0 && e.kind == DomainErrorKind::InvalidQuery,
            },
    {
        let days_delta = today.days_until(self);
        if days_delta > 0 {
            Ok(days_delta)
        } else {
            Err(DomainError::invalid_query())
        }
    }

    fn go_back_to_nearest_business_day(&self, days: i64) -> (r: Result<AppDate, DomainError>)
        requires
            days >= 0,
        ensures
            ({
                let candidate = self@ - days;
                let target = if is_business_day_number(candidate) {
                    candidate
                } else {
                    candidate - 2
                };
                match r {
                    Ok(a) => target >= MIN_DAY && a@ == target,
                    Err(e) => target < MIN_DAY && e.kind == DomainErrorKind::OutOfRange,
                }
            }),
    {
        match self.step_back(days as u64) {
            Ok(candidate) => {
                if candidate.is_business_day() {
                    Ok(candidate)
                } else {
                    candidate.step_back(2)
                }
            },
            Err(e) => Err(e),
        }
    }
}

} // verus!
