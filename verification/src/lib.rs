//! An append-only log of JSON records, one per line, with the three
//! operations of its service: count the records, append new ones, and prune
//! those whose identifier is older than the retention window.

pub mod clock;
pub mod decimal;
pub mod handler;
pub mod json;
pub mod laws;
pub mod snowflake;
pub mod text;
pub mod working_file;
