//! An in-memory key/value cache whose entries expire a fixed number of
//! seconds after they were last written, with the line-oriented command
//! protocol that drives it.

pub mod cache;
pub mod clock;
pub mod config;
pub mod mem;
pub mod model;
pub mod server;
pub mod store;
pub mod text;
