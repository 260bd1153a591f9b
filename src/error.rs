use vstd::prelude::*;

verus! {

/// What went wrong in a rotation operation.
#[derive(Clone, Copy, Debug, PartialEq, Eq, Structural)]
pub enum DomainErrorKind {
    /// The queried date is not strictly after today.
    InvalidQuery,
    /// Stepping back went below the earliest representable date.
    OutOfRange,
    /// No engineer matches the date or the identifier that was asked for.
    NoEngineerFound,
    /// Two engineers would share a last-served date.
    DuplicateLastServedDate,
    /// Service was recorded on a Saturday or a Sunday.
    NotABusinessDay,
    /// The rotation has no days (an empty roster).
    DegenerateRotation,
}

/// An error of the rotation operations: its kind and a message for people.
#[derive(Debug)]
pub struct DomainError {
    pub kind: DomainErrorKind,
    pub message: String,
}

impl DomainError {
    fn with_kind(kind: DomainErrorKind, message: &str) -> (r: Self)
        ensures
            r.kind == kind,
            r.message@ == message@,
    {
        DomainError { kind, message: message.to_owned() }
    }

    pub fn invalid_query() -> (r: Self)
        ensures
            r.kind == DomainErrorKind::InvalidQuery,
    {
        Self::with_kind(DomainErrorKind::InvalidQuery, "cannot resolve service history for a non-future date")
    }

    pub fn date_is_out_of_range() -> (r: Self)
        ensures
            r.kind == DomainErrorKind::OutOfRange,
    {
        Self::with_kind(DomainErrorKind::OutOfRange, "date is out of range")
    }

    pub fn no_engineer_found() -> (r: Self)
        ensures
            r.kind == DomainErrorKind::NoEngineerFound,
    {
        Self::with_kind(DomainErrorKind::NoEngineerFound, "no engineer found")
    }

    pub fn duplicate_last_served_date() -> (r: Self)
        ensures
            r.kind == DomainErrorKind::DuplicateLastServedDate,
    {
        Self::with_kind(
            DomainErrorKind::DuplicateLastServedDate,
            "another engineer already served on that date",
        )
    }

    pub fn not_a_business_day() -> (r: Self)
        ensures
            r.kind == DomainErrorKind::NotABusinessDay,
    {
        Self::with_kind(DomainErrorKind::NotABusinessDay, "service can only be recorded on a business day")
    }

    pub fn degenerate_rotation() -> (r: Self)
        ensures
            r.kind == DomainErrorKind::DegenerateRotation,
    {
        Self::with_kind(DomainErrorKind::DegenerateRotation, "the rotation has no days")
    }
}

} // verus!
