use vstd::prelude::*;

use crate::date::AppDate;
use crate::engineer::EngineerIdentifier;

verus! {

#[derive(Clone, Copy, Debug, PartialEq, Eq, Structural)]
pub enum Month {
    January,
    February,
    March,
    April,
    May,
    June,
    July,
    August,
    September,
    October,
    November,
    December,
}

#[derive(Clone, Copy, Debug, PartialEq, Eq, Structural)]
pub struct Year {
    pub value: u16,
}

impl Year {
    pub fn new(value: u16) -> (r: Self)
        ensures
            r.value == value,
    {
        Self { value }
    }
}

/// A month of a year, for one engineer.
#[derive(Clone, Copy, Debug, PartialEq, Eq, Structural)]
pub struct Period {
    pub engineer_identifier: EngineerIdentifier,
    pub month: Month,
    pub year: Year,
}

impl Period {
    pub fn new(engineer_identifier: EngineerIdentifier, month: Month, year: Year) -> (r: Self)
        ensures
            r.engineer_identifier == engineer_identifier,
            r.month == month,
            r.year == year,
    {
        Self { engineer_identifier, month, year }
    }
}

/// A list of dates.
pub struct Calendar {
    pub dates: Vec<AppDate>,
}

impl Calendar {
    pub fn new(dates: Vec<AppDate>) -> (r: Self)
        ensures
            r.dates@ == dates@,
    {
        Self { dates }
    }
}

} // verus!
