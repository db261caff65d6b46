//! The ingest, validate and publish core of a firehose relay, written without I/O:
//! every function takes what the outside world answered as plain values and returns
//! what is to be done next.

pub mod cache;
pub mod event;
pub mod identity;
pub mod inflight;
pub mod laws;
pub mod manager;
pub mod publisher;
pub mod resolver;
pub mod tables;
pub mod text;
pub mod types;
