//! The console as a tools-only server that speaks JSON-RPC, a line at a time.

pub mod laws;
pub mod server;
pub mod wire;
