//! The daemon: it watches the panes of a session and answers requests on them.

pub mod bootstrap;
pub mod command;
pub mod events;
pub mod gate;
pub mod panes;
pub mod read;
pub mod rpc;
pub mod run;

pub use bootstrap::{parse_bootstrap, BootstrapPane, BootstrapWindow};
