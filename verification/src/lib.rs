//! A personal time-tracking log: named activities with a start and an optional
//! end, kept in order, closed one by the next, and queried by time.

pub mod commands;
pub mod data;
pub mod db;
pub mod laws;
pub mod record;
pub mod storage;
pub mod time;
