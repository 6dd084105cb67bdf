//! A bounded least-recently-used cache of named file records, and the
//! binary wire format of the messages that ask a remote peer to create them.

pub mod cache;
pub mod cache_model;
pub mod file;
pub mod protocol;
pub mod serialize;
