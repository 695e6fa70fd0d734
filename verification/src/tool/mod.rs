//! Tools: who runs them, and what their running can come to.

pub mod registry;
pub mod runtime;
pub mod sandbox;
