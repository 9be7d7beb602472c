//! The chat client: its state and the decisions behind its screens.

pub mod laws;
pub mod state;
pub mod ui;
