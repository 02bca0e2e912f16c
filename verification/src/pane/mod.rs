//! Panes: what runs in them and what they show.

pub mod osc;
pub mod osc133;
pub mod processor;
pub mod registry;
pub mod state;
pub mod vt;
