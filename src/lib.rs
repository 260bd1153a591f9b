//! Support rotation for a team of engineers: who is on duty on a given date,
//! and the record of who served when.

pub mod date;
pub mod department;
pub mod engineer;
pub mod error;
pub mod planning;
pub mod rota;

pub use date::AppDate;
pub use department::EngineeringDepartment;
pub use engineer::Engineer;
pub use engineer::EngineerIdentifier;
pub use error::DomainError;
pub use error::DomainErrorKind;
pub use planning::Calendar;
pub use planning::Month;
pub use planning::Period;
pub use planning::Year;
pub use rota::Rota;
