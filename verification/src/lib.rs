//! Agent runtime whose unit of scheduling is the trajectory.

pub mod agent_memory;
pub mod api;
pub mod cli;
pub mod clock;
pub mod error;
pub mod ids;
pub mod inference;
pub mod json;
pub mod memory;
pub mod named;
pub mod pin;
pub mod policy;
pub mod ratio;
pub mod runtime;
pub mod scheduler;
pub mod slices;
pub mod step;
mod table;
pub mod text;
pub mod tool;
pub mod trajectory;
