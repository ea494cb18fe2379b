//! Playing in a session that an agent runs.

pub mod client;
pub mod laws;
pub mod messages;
pub mod protocol;
pub mod server;
pub mod session;
