//! Finds the least loaded machine of a lab cluster from the markup of its
//! status page: rows of the page's table become host records, and the record
//! with the lowest load is chosen among them.

pub mod extract;
pub mod fields;
pub mod host;
pub mod load;
pub mod select;

pub use extract::{extract, records_from_captures, read_row, ROW_PATTERN};
pub use fields::{parse_count, parse_load};
pub use host::HostRecord;
pub use load::{load_at_most, Load};
pub use select::{select_minimum, SelectError};
