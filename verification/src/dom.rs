//! What a document carries besides its tree.

pub mod webvtt;
