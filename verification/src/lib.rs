//! Verified core of a tmux control-mode server: terminal byte streams, OSC
//! scanning, shell-integration state, command policy, lints and RPC decisions.

pub mod client;
pub mod daemon;
pub mod fuzz;
pub mod hook;
pub mod lint;
pub mod mcp;
pub mod pane;
pub mod parse;
pub mod pattern;
pub mod policy;
pub mod proc;
pub mod shell;
pub mod stream;
pub mod text;
pub mod tmux;
