//! The reports that an analysis gives, worked out from the records that
//! were loaded.

pub mod detailed_report;
pub mod global_report;
