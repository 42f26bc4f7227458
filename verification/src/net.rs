//! Checks on what a page loads.

pub mod csp;
pub mod sri;
