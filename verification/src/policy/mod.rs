//! Policies: the agent logic that chooses the next step.

pub mod plan_execute;
pub mod react;
pub mod traits;
