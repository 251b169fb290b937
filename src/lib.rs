//! Birthdays of people one knows: calendar dates with age and next-occurrence arithmetic,
//! an in-memory store of records with fresh identifiers, searches over records, and the
//! stored form of a date.

pub mod birthday;
pub mod date;
pub mod query;
pub mod store;
pub mod timestamp;

pub use birthday::Birthday;
pub use date::Date;
pub use query::{get_next, search, SearchError};
pub use store::{BirthdayStore, StoreError};
