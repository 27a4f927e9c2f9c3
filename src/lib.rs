//! Replays a delimited record file to a connected client: an upfront burst
//! of records on open, then one record per timer tick until end-of-file.
//!
//! The library holds the record framing and the per-connection state
//! machine; the transport performs the actions that it returns.

pub mod config;
pub mod reader;
pub mod session;
pub mod theorems;
