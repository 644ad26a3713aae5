//! Logic of a small TCP forwarder: argument parsing, saved environments,
//! interactive prompts, installer PATH edits and the daemon's control protocol.

pub mod text;
pub mod cli;
pub mod environments;
pub mod state;
pub mod daemon;
pub mod random;
pub mod install;
