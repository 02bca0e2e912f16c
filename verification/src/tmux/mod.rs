//! The tmux control-mode protocol.

pub mod connection;
pub mod notification;
