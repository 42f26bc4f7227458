//! What pages reach from their scripts.

pub mod webgl;
