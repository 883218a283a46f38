//! The lookup services that a query runs against.

pub mod category;
pub mod title;
