//! The administrative API's request and response shapes.

pub mod requests;
pub mod responses;
