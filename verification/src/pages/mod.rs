//! What each web endpoint answers, given what was read for it.

pub mod api;
pub mod dashboard;
