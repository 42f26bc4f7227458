//! The browsing contexts.

pub mod pipeline;
