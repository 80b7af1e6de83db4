//! Daily public-health metrics pipeline: snapshot extraction from fetched
//! content, a date-keyed archive of daily reports, and a day-over-day
//! ratio derivation against the previous archived day.

pub mod aggregate;
pub mod archive;
pub mod codec;
pub mod date;
pub mod digits;
pub mod extract;
pub mod report;
pub mod snapshot;
