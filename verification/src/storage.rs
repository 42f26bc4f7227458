//! Page storage on top of SQLite.

pub mod consistency;
pub mod error;
pub mod indexed_db;
pub mod json;
pub mod laws;
pub mod lists;
pub mod local_storage;
pub mod model;
pub mod rows;
pub mod sqlite;
pub mod statements;
pub mod tables;
pub mod traits;
