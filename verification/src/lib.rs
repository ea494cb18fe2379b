//! The verified core of a fantasy console and its companions: the sound bank
//! and its player, the protocols a host speaks, and the model-file reader.

pub mod attach;
pub mod audio;
pub mod bytes;
pub mod cli;
pub mod contract_laws;
pub mod device;
pub mod ffi;
pub mod ffi_laws;
pub mod gallium;
pub mod mcp;
pub mod repl;
pub mod repl_laws;
pub mod text;
pub mod text_laws;
pub mod view_laws;
