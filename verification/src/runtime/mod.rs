//! The runtime: live trajectories, and the driver that moves them.

pub mod books;
pub mod driver;
pub mod driver_laws;
pub mod driver_model;
pub mod driver_runs;
pub mod driver_steps;
pub mod manager;
pub mod run;
pub mod state_machine;
pub mod step_laws;
