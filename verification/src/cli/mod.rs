//! The command line: what each command takes, and what it then does.

pub mod command;
pub mod headless;
pub mod laws;
pub mod options;
pub mod paths;
pub mod play;
pub mod play_laws;
pub mod render_audio;
pub mod shot;
