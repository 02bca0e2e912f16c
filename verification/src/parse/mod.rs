//! Text formats of tmux.

pub mod escape;
pub mod layout;
